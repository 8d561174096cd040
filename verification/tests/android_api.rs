use sysinfo_dashboard::procfs::IpStep;
use sysinfo_dashboard::android_api::{
    add_field, battery_level, battery_temp, charging_status, collect_system_info, cpu_cores,
    cpu_info, field_location, fmt_kb, local_ip, public_ip_from_response, public_ip_next, ram_info,
    ram_used, storage_info, Readings,
};

const CPUINFO: &str = "Processor\t: AArch64 Processor rev 4 (aarch64)\nprocessor\t: 0\nHardware\t: Qualcomm Technologies, Inc SM8250\n";
const MEMINFO: &str = "MemTotal:        3809036 kB\nMemFree:          123456 kB\nMemAvailable:    2156172 kB\n";

/// The same class and field, built with `str::split` and `join`.
fn field_location_by_split(field_path: &str) -> (String, String) {
    let parts: Vec<&str> = field_path.split('.').collect();
    let class_name = if parts.len() > 1 {
        let inner = parts[..parts.len() - 1].join("$");
        format!("android/os/Build${}", inner.replace(".", "$"))
    } else {
        "android/os/Build".to_string()
    };
    (class_name, parts[parts.len() - 1].to_string())
}

#[test]
fn field_location_follows_the_path() {
    assert_eq!(field_location("MODEL"), ("android/os/Build".to_string(), "MODEL".to_string()));
    assert_eq!(
        field_location("VERSION.SDK_INT"),
        ("android/os/Build$VERSION".to_string(), "SDK_INT".to_string())
    );
    assert_eq!(
        field_location("VERSION.RELEASE"),
        ("android/os/Build$VERSION".to_string(), "RELEASE".to_string())
    );
    for path in ["", ".", "a.b.c", "VERSION.RELEASE", "x..y", "trailing."] {
        assert_eq!(field_location(path), field_location_by_split(path), "{:?}", path);
    }
}

#[test]
fn add_field_formats_a_field() {
    let mut lines = Vec::new();
    add_field(&mut lines, "SDK", "34".to_string());
    assert_eq!(lines, vec!["  SDK: 34".to_string()]);
}

#[test]
fn cpu_info_reads_prefix_lines() {
    assert_eq!(cpu_info(CPUINFO, None), "AArch64 Processor rev 4 (aarch64)");
    assert_eq!(cpu_info("  Hardware : X\n", Some("Board\0")), "Board");
    assert_eq!(cpu_info("", None), "Unknown");
}

#[test]
fn cpu_cores_counts_core_dirs() {
    let names: Vec<String> = ["cpu0", "cpu1", "cpu2", "cpu3", "possible"].iter().map(|s| s.to_string()).collect();
    assert_eq!(cpu_cores(&names), "4 cores");
    assert_eq!(cpu_cores(&[]), "0 cores");
}

fn android_kb_expected(kb: u64) -> String {
    let bytes = kb * 1024;
    if bytes < 1024 * 1024 {
        format!("{} MB", bytes / 1024 / 1024)
    } else {
        format!("{:.1} GB", bytes as f64 / (1024.0 * 1024.0 * 1024.0))
    }
}

#[test]
fn android_fmt_kb_matches_float_formatting() {
    let mut values = vec![0, 1, 1023, 1024, 262144, 786432, 3809036, u64::MAX / 1024, (1 << 43) + 1];
    let mut x: u64 = 12345;
    for _ in 0..20000 {
        x = x.wrapping_mul(6364136223846793005).wrapping_add(1442695040888963407);
        values.push((x >> (x % 64)) / 1024);
    }
    for kb in values {
        assert_eq!(fmt_kb(kb), android_kb_expected(kb), "kb = {}", kb);
    }
}

#[test]
fn ram_lines_from_meminfo() {
    assert_eq!(ram_info(MEMINFO), "3.6 GB / 2.1 GB");
    assert_eq!(ram_used(MEMINFO), "43% used");
    assert_eq!(ram_info("MemFree: 3 kB\n"), "N/A");
    assert_eq!(ram_used(""), "N/A");
    assert_eq!(ram_used("MemTotal: 100\nMemAvailable: 250\n"), "0% used");
}

#[test]
fn storage_info_names_the_data_device() {
    let m = "1 2 253:3 /dev/block/dm-3 /data rw - ext4 x rw\n";
    assert_eq!(storage_info(Some(m)), "Mount: /dev/block/dm-3");
    assert_eq!(storage_info(Some("1 2 7:0 /dev/loop3 /data rw\n")), "See Settings");
    assert_eq!(storage_info(Some("a /data b\n")), "See Settings");
    assert_eq!(storage_info(None), "See Settings");
}

#[test]
fn battery_level_is_a_percentage() {
    assert_eq!(battery_level(Some((Some(45), Some(100)))), "45%");
    assert_eq!(battery_level(Some((Some(3), Some(4)))), "75%");
    assert_eq!(battery_level(Some((Some(-7), Some(3)))), format!("{}%", -700 / 3));
    assert_eq!(battery_level(Some((Some(7), Some(-3)))), format!("{}%", 700 / -3));
    assert_eq!(battery_level(Some((None, None))), "0%");
    assert_eq!(battery_level(Some((Some(5), Some(0)))), "N/A");
    assert_eq!(battery_level(Some((Some(i32::MAX), Some(0)))), "N/A");
    assert_eq!(battery_level(None), "N/A");
}

#[test]
fn battery_temp_matches_float_formatting() {
    let mut temps: Vec<i32> = (-1000..1000).collect();
    temps.extend([i32::MIN, i32::MAX, i32::MIN + 1, 123456789, -5, 5]);
    for t in temps {
        assert_eq!(battery_temp(Some(Some(t))), format!("{:.1}°C", t as f64 / 10.0), "t = {}", t);
    }
    assert_eq!(battery_temp(Some(None)), "0.0°C");
    assert_eq!(battery_temp(None), "N/A");
}

#[test]
fn charging_status_names_known_states() {
    assert_eq!(charging_status(Some(Some(2))), "Charging");
    assert_eq!(charging_status(Some(Some(3))), "Discharging");
    assert_eq!(charging_status(Some(Some(4))), "Not charging");
    assert_eq!(charging_status(Some(Some(5))), "Full");
    assert_eq!(charging_status(Some(Some(1))), "1");
    assert_eq!(charging_status(Some(None)), "-1");
    assert_eq!(charging_status(None), "N/A");
}

/// The same Android address search, written with `str` methods.
fn android_local_ip_by_str_methods(data: &str) -> String {
    for line in data.lines() {
        let line = line.trim();
        if line.starts_with("+--") || line.starts_with("|--") {
            continue;
        }
        if line.contains("LOCAL") {
            if let Some(ip_line) = data.lines().filter(|l| l.trim().contains('.')).next() {
                let ip = ip_line.trim().split_whitespace().next().unwrap_or("");
                if !ip.is_empty() && ip != "127.0.0.1" {
                    return ip.to_string();
                }
            }
        }
    }
    "127.0.0.1".to_string()
}

#[test]
fn android_local_ip_from_fib_trie() {
    let fib = "Main:\n  +-- 0.0.0.0/0 3 0 5\n     |-- 10.0.2.15\n        /32 host LOCAL\n";
    assert_eq!(local_ip(fib), "+--");
    assert_eq!(local_ip("10.0.2.15\n/32 host LOCAL\n"), "10.0.2.15");
    assert_eq!(local_ip("|-- LOCAL\n10.0.0.1\n"), "127.0.0.1");
    for data in [fib, "", "127.0.0.1\nLOCAL\n", "x.y LOCAL\n", "  LOCAL  \n no dots"] {
        assert_eq!(local_ip(data), android_local_ip_by_str_methods(data), "{:?}", data);
    }
}

#[test]
fn android_public_ip_skips_x_headers() {
    let reply = "HTTP/1.1 200 OK\r\nX-Cache: hit\r\n\r\n203.0.113.7\n";
    assert_eq!(public_ip_from_response(reply), Some("203.0.113.7".to_string()));
    assert_eq!(public_ip_from_response(""), None);
}

fn readings() -> Readings {
    Readings {
        model: Some("Pixel 5".to_string()),
        manufacturer: Some("Google".to_string()),
        android_version: Some("14".to_string()),
        sdk: Some(34),
        build: Some("UQ1A".to_string()),
        cpuinfo: CPUINFO.to_string(),
        device_tree_model: None,
        cpu_entries: ["cpu0", "cpu1"].iter().map(|s| s.to_string()).collect(),
        meminfo: MEMINFO.to_string(),
        mountinfo: None,
        battery_level: Some((Some(80), Some(100))),
        battery_temp: Some(Some(312)),
        battery_status: Some(Some(2)),
        fib_trie: String::new(),
        public_ip: "Unavailable".to_string(),
        uptime_secs: 172800 + 7200 + 180,
    }
}

#[test]
fn android_report_layout() {
    let r = readings();
    let lines = collect_system_info(Some(&r));
    let want = vec![
        "── Device ──",
        "  Model: Pixel 5",
        "  Manufacturer: Google",
        "  Android: 14",
        "  SDK: 34",
        "  Build: UQ1A",
        "",
        "── Performance ──",
        "  CPU: AArch64 Processor rev 4 (aarch64)",
        "  Cores: 2 cores",
        "  RAM: 3.6 GB / 2.1 GB",
        "  RAM Used: 43% used",
        "",
        "── Storage ──",
        "  Internal: See Settings",
        "",
        "── Battery ──",
        "  Level: 80%",
        "  Temp: 31.2°C",
        "  Status: Charging",
        "",
        "── Display ──",
        "  Resolution: N/A",
        "  Density: N/A",
        "",
        "── Network ──",
        "  Type: N/A",
        "  Status: N/A",
        "  Local IP: 127.0.0.1",
        "  Public IP: Unavailable",
        "  Capable: N/A",
        "",
        "── System ──",
        "  Sensors: N/A",
        "  Uptime: 2d 2h 3m",
        "",
        "  Rust Native (v0.1.0)",
    ];
    assert_eq!(lines, want);
}

#[test]
fn android_report_shows_na_for_fields_not_read() {
    let mut r = readings();
    r.model = None;
    r.sdk = None;
    r.android_version = None;
    let lines = collect_system_info(Some(&r));
    assert_eq!(lines[1], "  Model: N/A");
    assert_eq!(lines[3], "  Android: N/A");
    assert_eq!(lines[4], "  SDK: N/A");
    r.sdk = Some(-1);
    assert_eq!(collect_system_info(Some(&r))[4], "  SDK: -1");
}

#[test]
fn android_report_without_vm() {
    assert_eq!(collect_system_info(None), vec!["JNI Error: attach failed".to_string()]);
}

#[test]
fn android_public_ip_search_skips_x_headers_then_gives_up() {
    let reply = "HTTP/1.1 200 OK\r\nX-Cache: hit\r\n\r\n203.0.113.7\n";
    assert!(matches!(public_ip_next(0, Some(reply)), IpStep::Done(ref s) if s == "203.0.113.7"));
    assert!(matches!(public_ip_next(0, Some("X-Only: 1\n")), IpStep::Ask(1)));
    assert!(matches!(public_ip_next(1, None), IpStep::Done(ref s) if s == "Unavailable"));
}

#[test]
fn both_editions_show_memory_alike() {
    let mut kb: u64 = 1;
    let mut values = vec![0u64, 1023, 1024, 1048576, 3809036, 2156172, u64::MAX / 1024];
    for _ in 0..5000 {
        kb = kb.wrapping_mul(2862933555777941757).wrapping_add(3037000493);
        values.push((kb >> (kb % 64)) / 1024);
    }
    for kb in values {
        assert_eq!(fmt_kb(kb), sysinfo_dashboard::sysinfo::fmt_kb(kb), "kb = {}", kb);
    }
    assert_eq!(fmt_kb(1048576), "1.0 GB");
}

#[test]
fn both_editions_show_uptime_alike() {
    let mut r = readings();
    r.uptime_secs = 90061;
    let a = collect_system_info(Some(&r));
    let s = sysinfo_dashboard::sysinfo::Readings {
        cpuinfo: String::new(),
        device_tree_model: None,
        cpu_entries: Vec::new(),
        arch: "x86_64".to_string(),
        meminfo: String::new(),
        mountinfo: None,
        fib_trie: String::new(),
        public_ip: String::new(),
        uptime_secs: 90061,
    };
    let b = sysinfo_dashboard::sysinfo::collect_system_info(&s);
    assert_eq!(a[a.len() - 3], b[b.len() - 3]);
    assert_eq!(a[a.len() - 3], "  Uptime: 1d 1h 1m");
}
