use sysinfo_dashboard::procfs::{
    count_cpu_cores, format_uptime, ip_host, is_cpu_dir_name, parse_meminfo, public_ip_request,
    IpStep,
};
use sysinfo_dashboard::sysinfo::{
    add, collect_system_info, cpu_model, first_match, fmt_kb, local_ip, public_ip_from_response,
    public_ip_next, storage_status, Readings,
};

const CPUINFO: &str = "processor\t: 0\nmodel name\t: ARMv8 Processor rev 4 (v8l)\nBogoMIPS\t: 38.40\n\nHardware\t: Qualcomm Technologies, Inc SM8250\n";
const MEMINFO: &str = "MemTotal:        3809036 kB\nMemFree:          123456 kB\nMemAvailable:    2156172 kB\n";

fn kb_expected(kb: u64) -> String {
    if kb < 1024 {
        format!("{} MB", kb / 1024 * 1024 / 1024 / 1024)
    } else {
        format!("{:.1} GB", kb as f64 / (1024.0 * 1024.0))
    }
}

#[test]
fn fmt_kb_matches_float_formatting() {
    let mut values = vec![
        0, 1, 1023, 1024, 262144, 786432, 1310720, 1572864, 3809036, 2156172,
        (1 << 53) - 1, 1 << 53, (1 << 53) + 1, (1 << 53) + 3, u64::MAX, u64::MAX - 1,
    ];
    let mut x: u64 = 0x9E37_79B9_7F4A_7C15;
    for _ in 0..20000 {
        x = x.wrapping_mul(6364136223846793005).wrapping_add(1442695040888963407);
        values.push(x >> (x % 64));
        values.push((x % 100) * 104857 + 52428);
    }
    for kb in values {
        assert_eq!(fmt_kb(kb), kb_expected(kb), "kb = {}", kb);
    }
}

#[test]
fn fmt_kb_rounds_ties_to_even() {
    assert_eq!(fmt_kb(262144), "0.2 GB");
    assert_eq!(fmt_kb(786432), "0.8 GB");
    assert_eq!(fmt_kb(1310720), "1.2 GB");
    assert_eq!(fmt_kb(500), "0 MB");
}

#[test]
fn add_formats_a_field() {
    let mut lines = vec!["── Device ──".to_string()];
    add(&mut lines, "Model", "Pixel".to_string());
    assert_eq!(lines, vec!["── Device ──".to_string(), "  Model: Pixel".to_string()]);
}

#[test]
fn first_match_takes_trimmed_prefix_lines() {
    assert_eq!(first_match(CPUINFO, &["Hardware", "Processor"]), "Qualcomm Technologies, Inc SM8250");
    assert_eq!(first_match("  Processor : X : Y\n", &["Processor"]), "X : Y");
    assert_eq!(first_match("Hardware\nfoo", &["Hardware"]), "Unknown");
    assert_eq!(first_match("", &["Hardware"]), "Unknown");
}

#[test]
fn cpu_model_prefers_cpuinfo_then_device_tree() {
    assert_eq!(cpu_model(CPUINFO, Some("ignored")), "ARMv8 Processor rev 4 (v8l)");
    assert_eq!(cpu_model("processor : 0\n", Some("Pixel 5\0\0")), "Pixel 5");
    assert_eq!(cpu_model("processor : 0\n", Some("\0 \0")), "Unknown");
    assert_eq!(cpu_model("", None), "Unknown");
}

#[test]
fn cpu_dirs_are_counted() {
    assert!(is_cpu_dir_name("cpu0"));
    assert!(is_cpu_dir_name("cpu12"));
    assert!(!is_cpu_dir_name("cpu"));
    assert!(!is_cpu_dir_name("cpufreq"));
    assert!(!is_cpu_dir_name("cpuidle"));
    assert!(!is_cpu_dir_name("cpu１"));
    let names: Vec<String> =
        ["cpu0", "cpu1", "cpufreq", "online", "cpu7", "kernel_max"].iter().map(|s| s.to_string()).collect();
    assert_eq!(count_cpu_cores(&names), 3);
}

#[test]
fn meminfo_values_are_read() {
    assert_eq!(parse_meminfo(MEMINFO), (3809036, 2156172));
    assert_eq!(parse_meminfo("MemTotal:\nMemAvailable: x kB\n"), (0, 0));
    assert_eq!(parse_meminfo("MemTotal: 5\nMemTotal: 7\n"), (7, 0));
    assert_eq!(parse_meminfo(""), (0, 0));
}

#[test]
fn storage_status_looks_for_data_mount() {
    let mounts = "25 30 253:3 / /data rw - ext4 /dev/block/dm-3 rw\n";
    assert_eq!(storage_status(Some(mounts)), "Available");
    assert_eq!(storage_status(Some("1 2 7:0 / /data rw - ext4 /dev/loop0 rw\n")), "See Settings");
    assert_eq!(storage_status(Some("1 2 3 / /system rw\n")), "See Settings");
    assert_eq!(storage_status(None), "See Settings");
}

/// The same address search, written with `str` methods.
fn local_ip_by_str_methods(data: &str) -> String {
    let mut ips = Vec::new();
    for line in data.lines() {
        let trimmed = line.trim();
        if trimmed.len() > 7 && trimmed.chars().filter(|&c| c == '.').count() == 3 {
            let ip = trimmed.split_whitespace().next().unwrap_or("");
            if !ip.is_empty() && ip != "127.0.0.1" {
                ips.push(ip.to_string());
            }
        }
    }
    if !ips.is_empty() {
        return ips[0].clone();
    }
    "127.0.0.1".to_string()
}

#[test]
fn local_ip_from_fib_trie() {
    let fib = "Main:\n  +-- 0.0.0.0/0 3 0 5\n     |-- 127.0.0.1\n        /32 host LOCAL\n     |-- 192.168.1.23\n";
    assert_eq!(local_ip(fib), "+--");
    assert_eq!(local_ip("     10.0.2.15\n"), "10.0.2.15");
    assert_eq!(local_ip("127.0.0.1   \n"), "127.0.0.1");
    assert_eq!(local_ip("1.2.3.4\n"), "127.0.0.1");
    assert_eq!(local_ip("é.é.é.x\n"), "é.é.é.x");
    assert_eq!(local_ip(""), "127.0.0.1");
    for data in [fib, "a.b.c.d\n127.0.0.1 x\n", "  10.1.2.3  \n 10.9.9.9\n", "x\r\n1.22.3.4\r\n"] {
        assert_eq!(local_ip(data), local_ip_by_str_methods(data), "{:?}", data);
    }
}

#[test]
fn public_ip_request_and_reply() {
    assert_eq!(
        public_ip_request("api.ipify.org:80"),
        "GET / HTTP/1.0\r\nHost: api.ipify.org\r\nConnection: close\r\n\r\n"
    );
    assert_eq!(public_ip_request("a:80:80"), "GET / HTTP/1.0\r\nHost: a\r\nConnection: close\r\n\r\n");
    let reply = "HTTP/1.1 200 OK\r\nDate: x\r\nContent-Type: text/plain\r\nX-Cache: hit\r\n\r\n203.0.113.7\n";
    assert_eq!(public_ip_from_response(reply), Some("X-Cache: hit".to_string()));
    assert_eq!(public_ip_from_response("HTTP/1.0 200\r\n\r\n  198.51.100.2  \r\n"), Some("198.51.100.2".to_string()));
    assert_eq!(public_ip_from_response("HTTP/1.0 500\r\n"), None);
}

#[test]
fn uptime_is_days_hours_minutes() {
    assert_eq!(format_uptime(0), "0d 0h 0m");
    assert_eq!(format_uptime(90061), "1d 1h 1m");
    assert_eq!(format_uptime(86399), "0d 23h 59m");
    assert_eq!(format_uptime(u64::MAX), format!("{}d {}h {}m", u64::MAX / 86400, (u64::MAX % 86400) / 3600, (u64::MAX % 3600) / 60));
}

fn readings(meminfo: &str) -> Readings {
    Readings {
        cpuinfo: CPUINFO.to_string(),
        device_tree_model: None,
        cpu_entries: ["cpu0", "cpu1", "cpufreq"].iter().map(|s| s.to_string()).collect(),
        arch: "aarch64".to_string(),
        meminfo: meminfo.to_string(),
        mountinfo: Some("25 30 253:3 / /data rw - ext4 /dev/block/dm-3 rw\n".to_string()),
        fib_trie: "  |-- 10.0.0.5\n".to_string(),
        public_ip: "Unavailable".to_string(),
        uptime_secs: 3700,
    }
}

#[test]
fn system_report_layout() {
    let lines = collect_system_info(&readings(MEMINFO));
    let want = vec![
        "── Device ──",
        "  Model: Qualcomm Technologies, Inc SM8250",
        "  CPU: ARMv8 Processor rev 4 (v8l)",
        "  Cores: 2",
        "  Arch: aarch64",
        "",
        "── Performance ──",
        "  RAM: 3.6 GB / 2.1 GB",
        "  Used: 43%",
        "",
        "── Storage ──",
        "  Internal: Available",
        "",
        "── Network ──",
        "  Local IP: |--",
        "  Public IP: Unavailable",
        "",
        "── System ──",
        "  Uptime: 0d 1h 1m",
        "",
        "  Rust Native (v0.1.0)",
    ];
    assert_eq!(lines, want);
}

#[test]
fn system_report_without_memory_total() {
    let lines = collect_system_info(&readings("MemAvailable: 5 kB\n"));
    assert_eq!(lines.len(), 19);
    assert_eq!(lines[6], "── Performance ──");
    assert_eq!(lines[7], "");
    assert_eq!(lines[8], "── Storage ──");
}

fn done(step: IpStep) -> Option<String> {
    match step {
        IpStep::Done(s) => Some(s),
        IpStep::Ask(_) => None,
    }
}

#[test]
fn public_ip_search_asks_each_host_then_gives_up() {
    assert_eq!(ip_host(0), "api.ipify.org:80");
    assert_eq!(ip_host(1), "icanhazip.com:80");
    assert!(matches!(public_ip_next(0, None), IpStep::Ask(1)));
    assert!(matches!(public_ip_next(0, Some("HTTP/1.0 500\r\n")), IpStep::Ask(1)));
    assert_eq!(done(public_ip_next(1, None)), Some("Unavailable".to_string()));
    assert_eq!(done(public_ip_next(1, Some(""))), Some("Unavailable".to_string()));
    assert_eq!(
        done(public_ip_next(0, Some("HTTP/1.0 200\r\n\r\n  198.51.100.2 \r\n"))),
        Some("198.51.100.2".to_string())
    );
    assert_eq!(done(public_ip_next(1, Some("203.0.113.9\n"))), Some("203.0.113.9".to_string()));
}
