//! The dashboard's report, built from what `/proc` and `/sys` say: a list of lines made
//! of section headers and `  Label: value` fields.
use vstd::prelude::*;
use crate::text::{
    Pat, append, chars_of, count, count_char, dec_chars, eq_chars, line_views, lines_of,
    split_lines, split_whitespace, string_of, tokens_of, trim, trim_by, trim_chars, u64_chars,
    utf8_len, utf8_len_exceeds, contains, contains_chars,
};
use crate::procfs::{
    IpStep, ip_hosts, reply_address,
    LineTest, body_line, cpu_dir_count, first_body_line, first_value, meminfo, opt_view,
    parse_meminfo, uptime_text, value_after_colon, count_cpu_cores, format_uptime,
};
use crate::units::{f64_value, f64_value_exec, fixed1, fixed1_exec};

verus! {

broadcast use vstd::string::group_string_axioms;

/// The report line `"  {label}: {value}"`.
pub open spec fn field(label: Seq<char>, value: Seq<char>) -> Seq<char> {
    seq![' ', ' '] + label + seq![':', ' '] + value
}

/// Appends the field line `"  {label}: {value}"` to `lines`.
pub fn add(lines: &mut Vec<String>, label: &str, value: String)
    ensures
        line_views(final(lines)@) == line_views(old(lines)@).push(field(label@, value@)),
{
    let mut out: Vec<char> = Vec::new();
    out.push(' ');
    out.push(' ');
    let l = chars_of(label);
    append(&mut out, l.as_slice());
    out.push(':');
    out.push(' ');
    let v = chars_of(value.as_str());
    append(&mut out, v.as_slice());
    assert(out@ =~= field(label@, value@));
    let ghost before = line_views(lines@);
    lines.push(string_of(&out));
    assert(line_views(lines@) =~= before.push(field(label@, value@)));
}

/// `"Unknown"`.
pub open spec fn unknown() -> Seq<char> {
    seq!['U', 'n', 'k', 'n', 'o', 'w', 'n']
}

pub(crate) fn unknown_exec() -> (r: String)
    ensures
        r@ == unknown(),
{
    let mut v: Vec<char> = Vec::new();
    v.push('U');
    v.push('n');
    v.push('k');
    v.push('n');
    v.push('o');
    v.push('w');
    v.push('n');
    assert(v@ =~= unknown());
    string_of(&v)
}

/// The value of the first line of `data` that, trimmed, starts with one of `prefixes` and
/// holds a `:`; `Unknown` when there is none.
pub open spec fn first_match_text(data: Seq<char>, prefixes: Seq<Seq<char>>) -> Seq<char> {
    match first_value(lines_of(data), prefixes, LineTest::TrimmedPrefix) {
        Some(v) => v,
        None => unknown(),
    }
}

/// The value after the `:` of the first line of `data` that, trimmed, starts with one of
/// `prefixes`, trimmed; `Unknown` when no such line holds a `:`.
pub fn first_match(data: &str, prefixes: &[&str]) -> (r: String)
    ensures
        r@ == first_match_text(data@, crate::text::str_views(prefixes@)),
{
    match value_after_colon(data, prefixes, LineTest::TrimmedPrefix) {
        Some(v) => v,
        None => unknown_exec(),
    }
}

/// The device model: the value of the `Hardware` or `Processor` line of `/proc/cpuinfo`.
pub open spec fn model_text(cpuinfo: Seq<char>) -> Seq<char> {
    first_match_text(cpuinfo, seq!["Hardware"@, "Processor"@])
}

/// The device model named in `/proc/cpuinfo`.
fn device_model(cpuinfo: &str) -> (r: String)
    ensures
        r@ == model_text(cpuinfo@),
{
    let mut pats: Vec<&str> = Vec::new();
    pats.push("Hardware");
    pats.push("Processor");
    assert(crate::text::str_views(pats@) =~= seq!["Hardware"@, "Processor"@]);
    first_match(cpuinfo, pats.as_slice())
}

/// The model in `/proc/device-tree/model`, with the NUL padding and whitespace around
/// it removed, when anything is left.
pub open spec fn tree_model(m: Option<Seq<char>>) -> Option<Seq<char>> {
    match m {
        Some(t) => {
            let v = trim(trim_by(t, Pat::Exactly('\0')));
            if v.len() > 0 {
                Some(v)
            } else {
                None
            }
        },
        None => None,
    }
}

/// The CPU name: the value of the first `/proc/cpuinfo` line mentioning `model name` or
/// `Hardware`, else the device-tree model, else `Unknown`.
pub open spec fn cpu_model_text(cpuinfo: Seq<char>, tree: Option<Seq<char>>) -> Seq<char> {
    match first_value(lines_of(cpuinfo), seq!["model name"@, "Hardware"@], LineTest::Contains) {
        Some(v) => v,
        None => match tree_model(tree) {
            Some(v) => v,
            None => unknown(),
        },
    }
}

/// The device-tree model, stripped, when anything is left.
pub fn device_tree_model(m: Option<&str>) -> (r: Option<String>)
    ensures
        opt_view(r) == tree_model(match m {
            Some(t) => Some(t@),
            None => None,
        }),
{
    match m {
        Some(t) => {
            let c = chars_of(t);
            let nul = trim_chars(c.as_slice(), &Pat::Exactly('\0'));
            let v = trim_chars(nul.as_slice(), &Pat::Whitespace);
            if v.len() > 0 {
                Some(string_of(&v))
            } else {
                None
            }
        },
        None => None,
    }
}

/// The CPU name, from `/proc/cpuinfo` and, failing that, `/proc/device-tree/model`.
pub fn cpu_model(cpuinfo: &str, tree: Option<&str>) -> (r: String)
    ensures
        r@ == cpu_model_text(
            cpuinfo@,
            match tree {
                Some(t) => Some(t@),
                None => None,
            },
        ),
{
    let mut pats: Vec<&str> = Vec::new();
    pats.push("model name");
    pats.push("Hardware");
    assert(crate::text::str_views(pats@) =~= seq!["model name"@, "Hardware"@]);
    match value_after_colon(cpuinfo, pats.as_slice(), LineTest::Contains) {
        Some(v) => v,
        None => match device_tree_model(tree) {
            Some(v) => v,
            None => unknown_exec(),
        },
    }
}

/// Memory in kB as the dashboard shows it: below 1024 kB `0 MB`, otherwise the size in
/// GiB to one decimal (`kb as f64 / 1048576.0`, rounded half to even) and ` GB`.
pub open spec fn kb_text(kb: u64) -> Seq<char> {
    if kb < 1024 {
        dec_chars(0) + seq![' ', 'M', 'B']
    } else {
        fixed1(f64_value(kb as nat), 0x10_0000) + seq![' ', 'G', 'B']
    }
}

/// Formats an amount of memory given in kB.
pub fn fmt_kb(kb: u64) -> (r: String)
    ensures
        r@ == kb_text(kb),
{
    if kb < 1024 {
        let mut out = u64_chars(kb / 1024 * 1024 / 1024 / 1024);
        out.push(' ');
        out.push('M');
        out.push('B');
        assert(out@ =~= kb_text(kb));
        string_of(&out)
    } else {
        let m = f64_value_exec(kb);
        let mut out = fixed1_exec(m, 0x10_0000);
        out.push(' ');
        out.push('G');
        out.push('B');
        assert(out@ =~= kb_text(kb));
        string_of(&out)
    }
}

/// Some line of `lines` mounts `/data` from something other than a loop device.
pub open spec fn data_mounted(lines: Seq<Seq<char>>) -> bool {
    exists|i: int|
        0 <= i < lines.len() && contains(#[trigger] lines[i], " /data "@) && !contains(
            lines[i],
            "/loop"@,
        )
}

/// `Available` when `/proc/self/mountinfo` shows `/data` mounted from other than a loop
/// device, otherwise (or when it could not be read) `See Settings`.
pub open spec fn storage_text(mountinfo: Option<Seq<char>>) -> Seq<char> {
    match mountinfo {
        Some(d) => if data_mounted(lines_of(d)) {
            "Available"@
        } else {
            "See Settings"@
        },
        None => "See Settings"@,
    }
}

/// What the dashboard says about internal storage, from `/proc/self/mountinfo`.
pub fn storage_status(mountinfo: Option<&str>) -> (r: String)
    ensures
        r@ == storage_text(
            match mountinfo {
                Some(d) => Some(d@),
                None => None,
            },
        ),
{
    if let Some(data) = mountinfo {
        let chars = chars_of(data);
        let lines = split_lines(chars.as_slice());
        let pat = chars_of(" /data ");
        let lp = chars_of("/loop");
        let ghost ls = lines_of(data@);
        let mut i: usize = 0;
        while i < lines.len()
            invariant
                i <= lines@.len(),
                crate::text::views(lines@) == ls,
                ls == lines_of(data@),
                mountinfo == Some(data),
                pat@ == " /data "@,
                lp@ == "/loop"@,
                forall|j: int|
                    0 <= j < i ==> !(contains(#[trigger] ls[j], " /data "@) && !contains(
                        ls[j],
                        "/loop"@,
                    )),
            decreases lines@.len() - i,
        {
            let line = lines[i].as_slice();
            assert(ls[i as int] == line@);
            if contains_chars(line, pat.as_slice()) && !contains_chars(line, lp.as_slice()) {
                assert(contains(ls[i as int], " /data "@) && !contains(ls[i as int], "/loop"@));
                assert(data_mounted(ls));
                return "Available".to_owned();
            }
            i += 1;
        }
    }
    "See Settings".to_owned()
}

/// The local address a `/proc/net/fib_trie` line names: the first word of the trimmed
/// line, when that line is longer than 7 bytes, holds exactly three dots, and the word is
/// not empty and not the loopback address.
pub open spec fn fib_ip(line: Seq<char>) -> Option<Seq<char>> {
    let t = trim(line);
    if utf8_len(t) > 7 && count_char(t, '.') == 3 {
        let ip = if tokens_of(t).len() > 0 {
            tokens_of(t)[0]
        } else {
            Seq::empty()
        };
        if ip.len() > 0 && ip != "127.0.0.1"@ {
            Some(ip)
        } else {
            None
        }
    } else {
        None
    }
}

/// The first local address the lines name.
pub open spec fn first_fib_ip(lines: Seq<Seq<char>>) -> Option<Seq<char>>
    decreases lines.len(),
{
    if lines.len() == 0 {
        None
    } else {
        match fib_ip(lines[0]) {
            Some(ip) => Some(ip),
            None => first_fib_ip(lines.drop_first()),
        }
    }
}

/// The device's local IP address: the first one `/proc/net/fib_trie` names, else
/// `127.0.0.1`.
pub open spec fn local_ip_text(fib_trie: Seq<char>) -> Seq<char> {
    match first_fib_ip(lines_of(fib_trie)) {
        Some(ip) => ip,
        None => "127.0.0.1"@,
    }
}

/// The device's local IP address, from `/proc/net/fib_trie` text.
pub fn local_ip(fib_trie: &str) -> (r: String)
    ensures
        r@ == local_ip_text(fib_trie@),
{
    let chars = chars_of(fib_trie);
    let lines = split_lines(chars.as_slice());
    let loopback = chars_of("127.0.0.1");
    let ghost ls = lines_of(fib_trie@);
    assert(ls.skip(0) =~= ls);
    let mut i: usize = 0;
    while i < lines.len()
        invariant
            i <= lines@.len(),
            crate::text::views(lines@) == ls,
            ls == lines_of(fib_trie@),
            loopback@ == "127.0.0.1"@,
            first_fib_ip(ls) == first_fib_ip(ls.skip(i as int)),
        decreases lines@.len() - i,
    {
        let line = lines[i].as_slice();
        assert(ls.skip(i as int)[0] == line@);
        assert(ls.skip(i as int).drop_first() =~= ls.skip(i + 1));
        let t = trim_chars(line, &Pat::Whitespace);
        if utf8_len_exceeds(t.as_slice(), 7) && count(t.as_slice(), '.') == 3 {
            let words = split_whitespace(t.as_slice());
            let ip: Vec<char> = if words.len() > 0 {
                assert(crate::text::views(words@)[0] == words@[0]@);
                words[0].clone()
            } else {
                Vec::new()
            };
            assert(ip@ == if tokens_of(t@).len() > 0 {
                tokens_of(t@)[0]
            } else {
                Seq::<char>::empty()
            });
            if ip.len() > 0 && !eq_chars(ip.as_slice(), loopback.as_slice()) {
                return string_of(&ip);
            }
        }
        i += 1;
    }
    assert(ls.skip(i as int) =~= Seq::<Seq<char>>::empty());
    "127.0.0.1".to_owned()
}

/// The lines of a reply that are HTTP headers or markup rather than the address.
pub open spec fn reply_skips() -> Seq<Seq<char>> {
    seq!["HTTP/"@, "<!"@, "Date:"@, "Server:"@, "Content-"@, "Connection:"@]
}

/// The public address in a plain-text HTTP reply: its first line that is not empty and
/// not a status line, a header or markup.
pub fn public_ip_from_response(response: &str) -> (r: Option<String>)
    ensures
        opt_view(r) == body_line(lines_of(response@), reply_skips()),
{
    let mut skips: Vec<&str> = Vec::new();
    skips.push("HTTP/");
    skips.push("<!");
    skips.push("Date:");
    skips.push("Server:");
    skips.push("Content-");
    skips.push("Connection:");
    assert(crate::text::str_views(skips@) =~= reply_skips());
    first_body_line(response, skips.as_slice())
}

/// The step after asking host `host` of `ip_hosts` for the public address, given its
/// reply (`None` when it could not be reached or read): the address the reply gives, else
/// the next host, else `Unavailable`.
pub fn public_ip_next(host: usize, reply: Option<&str>) -> (r: IpStep)
    requires
        host < ip_hosts().len(),
    ensures
        match reply_address(
            match reply {
                Some(t) => Some(t@),
                None => None,
            },
            reply_skips(),
        ) {
            Some(v) => r matches IpStep::Done(s) && s@ == v,
            None => if host + 1 < ip_hosts().len() {
                r == IpStep::Ask((host + 1) as usize)
            } else {
                r matches IpStep::Done(s) && s@ == "Unavailable"@
            },
        },
{
    let mut skips: Vec<&str> = Vec::new();
    skips.push("HTTP/");
    skips.push("<!");
    skips.push("Date:");
    skips.push("Server:");
    skips.push("Content-");
    skips.push("Connection:");
    assert(crate::text::str_views(skips@) =~= reply_skips());
    crate::procfs::public_ip_next(host, reply, skips.as_slice())
}

/// What the report is built from: the text of the files read, the names listed, and the
/// results of the calls that are not file reads.
pub struct Readings {
    /// `/proc/cpuinfo`, empty when it could not be read.
    pub cpuinfo: String,
    /// `/proc/device-tree/model`, when it could be read.
    pub device_tree_model: Option<String>,
    /// The entry names of `/sys/devices/system/cpu` (none when it could not be listed).
    pub cpu_entries: Vec<String>,
    /// The target architecture.
    pub arch: String,
    /// `/proc/meminfo`, empty when it could not be read.
    pub meminfo: String,
    /// `/proc/self/mountinfo`, when it could be read.
    pub mountinfo: Option<String>,
    /// `/proc/net/fib_trie`, empty when it could not be read.
    pub fib_trie: String,
    /// The public address, as found over the network.
    pub public_ip: String,
    /// Whole seconds since boot.
    pub uptime_secs: u64,
}

/// The share of memory in use, in whole percent: `(total - avail) * 100 / total`, the
/// subtraction stopping at 0.
pub open spec fn used_percent(total: u64, avail: u64) -> nat {
    let used: nat = if avail <= total {
        (total - avail) as nat
    } else {
        0
    };
    used * 100 / (total as nat)
}

/// The memory fields: RAM (total / available) and the share used, shown only when the
/// total is known.
pub open spec fn memory_fields(total: u64, avail: u64) -> Seq<Seq<char>> {
    if total > 0 {
        seq![
            field("RAM"@, kb_text(total) + seq![' ', '/', ' '] + kb_text(avail)),
            field("Used"@, dec_chars(used_percent(total, avail)) + seq!['%']),
        ]
    } else {
        Seq::empty()
    }
}

/// The used share of memory can be computed without overflow.
pub open spec fn memory_fits(total: u64, avail: u64) -> bool {
    total > 0 ==> (if avail <= total {
        total - avail
    } else {
        0
    }) * 100 <= u64::MAX
}

/// The report for `r`, line by line.
pub open spec fn report_lines(r: Readings) -> Seq<Seq<char>> {
    let (total, avail) = meminfo(r.meminfo@);
    seq![
        "── Device ──"@,
        field("Model"@, model_text(r.cpuinfo@)),
        field("CPU"@, cpu_model_text(r.cpuinfo@, opt_view(r.device_tree_model))),
        field("Cores"@, dec_chars(cpu_dir_count(line_views(r.cpu_entries@)))),
        field("Arch"@, r.arch@),
        Seq::empty(),
        "── Performance ──"@,
    ] + memory_fields(total, avail) + seq![
        Seq::empty(),
        "── Storage ──"@,
        field("Internal"@, storage_text(opt_view(r.mountinfo))),
        Seq::empty(),
        "── Network ──"@,
        field("Local IP"@, local_ip_text(r.fib_trie@)),
        field("Public IP"@, r.public_ip@),
        Seq::empty(),
        "── System ──"@,
        field("Uptime"@, uptime_text(r.uptime_secs as nat)),
        Seq::empty(),
        "  Rust Native (v0.1.0)"@,
    ]
}

/// Appends `s` to `lines`.
fn push_line(lines: &mut Vec<String>, s: String)
    ensures
        line_views(final(lines)@) == line_views(old(lines)@).push(s@),
{
    let ghost before = line_views(lines@);
    let ghost v = s@;
    lines.push(s);
    assert(line_views(lines@) =~= before.push(v));
}

fn as_opt_str(o: &Option<String>) -> (r: Option<&str>)
    ensures
        match r {
            Some(s) => Some(s@),
            None => None::<Seq<char>>,
        } == opt_view(*o),
{
    match o {
        Some(s) => Some(s.as_str()),
        None => None,
    }
}

/// Builds the report: the device, performance, storage, network and system sections.
pub fn collect_system_info(r: &Readings) -> (lines: Vec<String>)
    requires
        memory_fits(meminfo(r.meminfo@).0, meminfo(r.meminfo@).1),
    ensures
        line_views(lines@) == report_lines(*r),
{
    let mut lines: Vec<String> = Vec::new();
    push_line(&mut lines, "── Device ──".to_owned());
    self::add(&mut lines, "Model", device_model(r.cpuinfo.as_str()));
    self::add(&mut lines, "CPU", cpu_model(r.cpuinfo.as_str(), as_opt_str(&r.device_tree_model)));
    let cores = count_cpu_cores(r.cpu_entries.as_slice());
    self::add(&mut lines, "Cores", string_of(&u64_chars(cores as u64)));
    self::add(&mut lines, "Arch", r.arch.clone());
    push_line(&mut lines, String::new());
    push_line(&mut lines, "── Performance ──".to_owned());
    let ghost head = line_views(lines@);
    assert(head =~= seq![
        "── Device ──"@,
        field("Model"@, model_text(r.cpuinfo@)),
        field("CPU"@, cpu_model_text(r.cpuinfo@, opt_view(r.device_tree_model))),
        field("Cores"@, dec_chars(cpu_dir_count(line_views(r.cpu_entries@)))),
        field("Arch"@, r.arch@),
        Seq::empty(),
        "── Performance ──"@,
    ]);
    let (total_kb, avail_kb) = parse_meminfo(r.meminfo.as_str());
    if total_kb > 0 {
        let mut ram = chars_of(fmt_kb(total_kb).as_str());
        ram.push(' ');
        ram.push('/');
        ram.push(' ');
        let avail_text = chars_of(fmt_kb(avail_kb).as_str());
        append(&mut ram, avail_text.as_slice());
        assert(ram@ == kb_text(total_kb) + seq![' ', '/', ' '] + kb_text(avail_kb));
        let ram_s = string_of(&ram);
        self::add(&mut lines, "RAM", ram_s);
        let ghost l1 = line_views(lines@);
        assert(l1 == head.push(field("RAM"@, kb_text(total_kb) + seq![' ', '/', ' '] + kb_text(avail_kb))));
        let used = total_kb.saturating_sub(avail_kb);
        assert(used == if avail_kb <= total_kb { total_kb - avail_kb } else { 0 });
        let mut pct = u64_chars(used * 100 / total_kb);
        assert(pct@ == dec_chars(used_percent(total_kb, avail_kb)));
        pct.push('%');
        assert(pct@ =~= dec_chars(used_percent(total_kb, avail_kb)) + seq!['%']);
        let pct_s = string_of(&pct);
        self::add(&mut lines, "Used", pct_s);
        assert(line_views(lines@) == l1.push(field("Used"@, dec_chars(used_percent(total_kb, avail_kb)) + seq!['%'])));
        assert(line_views(lines@) =~= head + memory_fields(total_kb, avail_kb));
    } else {
        assert(line_views(lines@) =~= head + memory_fields(total_kb, avail_kb));
    }
    let ghost mid = line_views(lines@);
    push_line(&mut lines, String::new());
    push_line(&mut lines, "── Storage ──".to_owned());
    self::add(&mut lines, "Internal", storage_status(as_opt_str(&r.mountinfo)));
    push_line(&mut lines, String::new());
    push_line(&mut lines, "── Network ──".to_owned());
    self::add(&mut lines, "Local IP", local_ip(r.fib_trie.as_str()));
    self::add(&mut lines, "Public IP", r.public_ip.clone());
    push_line(&mut lines, String::new());
    push_line(&mut lines, "── System ──".to_owned());
    self::add(&mut lines, "Uptime", format_uptime(r.uptime_secs));
    push_line(&mut lines, String::new());
    push_line(&mut lines, "  Rust Native (v0.1.0)".to_owned());
    assert(line_views(lines@) =~= mid + seq![
        Seq::empty(),
        "── Storage ──"@,
        field("Internal"@, storage_text(opt_view(r.mountinfo))),
        Seq::empty(),
        "── Network ──"@,
        field("Local IP"@, local_ip_text(r.fib_trie@)),
        field("Public IP"@, r.public_ip@),
        Seq::empty(),
        "── System ──"@,
        field("Uptime"@, uptime_text(r.uptime_secs as nat)),
        Seq::empty(),
        "  Rust Native (v0.1.0)"@,
    ]);
    assert(line_views(lines@) =~= report_lines(*r));
    lines
}

/// The share of memory shown as used never exceeds 100 percent.
pub proof fn used_percent_at_most_100(total: u64, avail: u64)
    requires
        total > 0,
    ensures
        used_percent(total, avail) <= 100,
{
    let used: nat = if avail <= total {
        (total - avail) as nat
    } else {
        0
    };
    assert(used * 100 <= (total as nat) * 100) by (nonlinear_arith)
        requires
            used <= total,
    ;
    assert(used * 100 / (total as nat) <= 100) by (nonlinear_arith)
        requires
            used * 100 <= (total as nat) * 100,
            total > 0,
    ;
}

/// A field line is never taken for a section header: it starts with two spaces, so the
/// renderer draws it as body text.
pub proof fn field_is_not_section(label: Seq<char>, value: Seq<char>)
    ensures
        !crate::render::is_section(field(label, value)),
{
    assert(field(label, value)[0] == ' ');
}

/// A line the renderer can place: blank, a section header, or an indented field.
pub open spec fn title_field_or_blank(line: Seq<char>) -> bool {
    ||| line.len() == 0
    ||| crate::render::is_section(line)
    ||| (line.len() >= 2 && line[0] == ' ' && line[1] == ' ')
}

/// Every line of the report is blank, a section header or an indented field, so the
/// renderer draws each header as a title and everything else as body text.
pub proof fn report_lines_are_titles_fields_or_blank(r: Readings)
    ensures
        forall|i: int|
            0 <= i < report_lines(r).len() ==> title_field_or_blank(#[trigger] report_lines(r)[i]),
{
    reveal_strlit("── Device ──");
    reveal_strlit("── Performance ──");
    reveal_strlit("── Storage ──");
    reveal_strlit("── Network ──");
    reveal_strlit("── System ──");
    reveal_strlit("  Rust Native (v0.1.0)");
    let ls = report_lines(r);
    let (total, avail) = meminfo(r.meminfo@);
    let mem = memory_fields(total, avail);
    assert forall|i: int| 0 <= i < ls.len() implies title_field_or_blank(#[trigger] ls[i]) by {
        if 7 <= i < 7 + mem.len() {
            assert(ls[i] == mem[i - 7]);
        }
    }
}

/// Internal storage shows `Available` exactly when some line of the mountinfo, wherever it
/// stands, mentions ` /data ` and not `/loop`; otherwise, and when mountinfo could not be
/// read, `See Settings`.
pub proof fn storage_available_iff_some_line(mountinfo: Option<Seq<char>>)
    ensures
        storage_text(mountinfo) == "Available"@ || storage_text(mountinfo) == "See Settings"@,
        (storage_text(mountinfo) == "Available"@) <==> (mountinfo is Some && exists|i: int|
            0 <= i < lines_of(mountinfo->0).len() && contains(
                #[trigger] lines_of(mountinfo->0)[i],
                " /data "@,
            ) && !contains(lines_of(mountinfo->0)[i], "/loop"@)),
{
    reveal_strlit("Available");
    reveal_strlit("See Settings");
    assert("Available"@ != "See Settings"@) by {
        assert("Available"@[0] != "See Settings"@[0]);
    }
}

/// Each line of the report that is read from somewhere comes from its own source: the
/// model and CPU from `/proc/cpuinfo` (the CPU falling back to the device-tree model), the
/// cores from the CPU directory, memory from `/proc/meminfo`, storage from
/// `/proc/self/mountinfo`, the local address from `/proc/net/fib_trie`, and the uptime
/// from the seconds since boot. `m` is the number of memory lines (2 with a known total,
/// else 0).
pub proof fn report_reads_each_source(r: Readings)
    ensures
        ({
            let ls = report_lines(r);
            let (total, avail) = meminfo(r.meminfo@);
            let m = if total > 0 {
                2int
            } else {
                0
            };
            &&& ls.len() == 19 + m
            &&& ls[1] == field("Model"@, model_text(r.cpuinfo@))
            &&& ls[2] == field("CPU"@, cpu_model_text(r.cpuinfo@, opt_view(r.device_tree_model)))
            &&& ls[3] == field("Cores"@, dec_chars(cpu_dir_count(line_views(r.cpu_entries@))))
            &&& ls[4] == field("Arch"@, r.arch@)
            &&& total > 0 ==> ls[7] == field(
                "RAM"@,
                kb_text(total) + seq![' ', '/', ' '] + kb_text(avail),
            )
            &&& total > 0 ==> ls[8] == field("Used"@, dec_chars(used_percent(total, avail)) + seq!['%'])
            &&& ls[9 + m] == field("Internal"@, storage_text(opt_view(r.mountinfo)))
            &&& ls[12 + m] == field("Local IP"@, local_ip_text(r.fib_trie@))
            &&& ls[13 + m] == field("Public IP"@, r.public_ip@)
            &&& ls[16 + m] == field("Uptime"@, uptime_text(r.uptime_secs as nat))
        }),
{
    let (total, avail) = meminfo(r.meminfo@);
    let mem = memory_fields(total, avail);
    assert(mem.len() == if total > 0 {
        2int
    } else {
        0
    });
}

/// The local address comes from the first `/proc/net/fib_trie` line, wherever it
/// stands, that names one.
pub proof fn first_fib_ip_takes_first_address(ls: Seq<Seq<char>>, i: int)
    requires
        0 <= i < ls.len(),
        fib_ip(ls[i]) is Some,
        forall|j: int| 0 <= j < i ==> fib_ip(#[trigger] ls[j]) is None,
    ensures
        first_fib_ip(ls) == fib_ip(ls[i]),
    decreases i,
{
    if i > 0 {
        let t = ls.drop_first();
        assert(fib_ip(ls[0]) is None);
        assert forall|j: int| 0 <= j < i - 1 implies fib_ip(#[trigger] t[j]) is None by {
            assert(t[j] == ls[j + 1]);
        }
        first_fib_ip_takes_first_address(t, i - 1);
    }
}

} // verus!
