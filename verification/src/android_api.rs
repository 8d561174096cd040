//! The Android edition of the report: the values the app reads through JNI and from
//! `/proc`, turned into the dashboard's lines.
use vstd::prelude::*;
use crate::text::{
    Pat, append, chars_of, contains, contains_chars, dec_chars, digit_char, eq_chars, i32_chars,
    i32_chars_spec, line_views, lines_of, split_lines, split_whitespace, starts_with, string_of,
    tokens_of, trim, trim_chars, u64_chars, views,
};
use crate::procfs::{
    IpStep, ip_hosts, reply_address,
    LineTest, body_line, cpu_dir_count, first_body_line, first_value, meminfo, opt_view,
    parse_meminfo, uptime_text, value_after_colon, count_cpu_cores, format_uptime,
};
use crate::sysinfo::{field, tree_model, unknown, device_tree_model};
use crate::units::{f64_value, f64_value_exec, fixed1, fixed1_exec};

verus! {

broadcast use vstd::string::group_string_axioms;

/// Appends the field line `"  {label}: {value}"` to `lines`.
pub fn add_field(lines: &mut Vec<String>, label: &str, value: String)
    ensures
        line_views(final(lines)@) == line_views(old(lines)@).push(field(label@, value@)),
{
    crate::sysinfo::add(lines, label, value);
}

/// The index of the last `.` in `s`, or -1.
pub open spec fn last_dot(s: Seq<char>) -> int
    decreases s.len(),
{
    if s.len() == 0 {
        -1
    } else if s.last() == '.' {
        s.len() - 1
    } else {
        last_dot(s.drop_last())
    }
}

/// `s` with every `.` written as `$`.
pub open spec fn dots_to_dollars(s: Seq<char>) -> Seq<char> {
    s.map_values(|c: char| if c == '.' { '$' } else { c })
}

/// Where a `Build` field path such as `VERSION.SDK_INT` leads: the class, which is the
/// inner class of `android/os/Build` named by everything before the last `.`
/// (`android/os/Build$VERSION`, each `.` written `$`), or `android/os/Build` itself for a
/// path without a `.`; and the field, the part after the last `.`.
pub open spec fn field_location_spec(path: Seq<char>) -> (Seq<char>, Seq<char>) {
    let k = last_dot(path);
    if k < 0 {
        ("android/os/Build"@, path)
    } else {
        ("android/os/Build$"@ + dots_to_dollars(path.take(k)), path.skip(k + 1))
    }
}

proof fn lemma_last_dot(s: Seq<char>, k: int)
    requires
        -1 <= k < s.len(),
        forall|j: int| k < j < s.len() ==> #[trigger] s[j] != '.',
        k >= 0 ==> s[k] == '.',
    ensures
        last_dot(s) == k,
    decreases s.len(),
{
    if s.len() > 0 && k < s.len() - 1 {
        let t = s.drop_last();
        assert forall|j: int| k < j < t.len() implies #[trigger] t[j] != '.' by {
            assert(t[j] == s[j]);
        }
        lemma_last_dot(t, k);
    }
}

/// The JNI class and static field that a `Build` field path names.
pub fn field_location(field_path: &str) -> (r: (String, String))
    ensures
        (r.0@, r.1@) == field_location_spec(field_path@),
{
    let p = chars_of(field_path);
    let mut k: usize = p.len();
    while k > 0 && p[k - 1] != '.'
        invariant
            k <= p@.len(),
            forall|j: int| k <= j < p@.len() ==> #[trigger] p@[j] != '.',
        decreases k,
    {
        k -= 1;
    }
    proof {
        lemma_last_dot(p@, k - 1);
    }
    if k == 0 {
        let class = "android/os/Build".to_owned();
        let field = string_of(&p);
        return (class, field);
    }
    let dot = k - 1;
    let mut class = chars_of("android/os/Build$");
    let ghost start = class@;
    let mut j: usize = 0;
    while j < dot
        invariant
            dot < p@.len(),
            j <= dot,
            class@ == start + dots_to_dollars(p@.take(j as int)),
        decreases dot - j,
    {
        let c = p[j];
        class.push(if c == '.' {
            '$'
        } else {
            c
        });
        j += 1;
        assert(dots_to_dollars(p@.take(j as int)) =~= dots_to_dollars(p@.take(j - 1)).push(
            if p@[j - 1] == '.' {
                '$'
            } else {
                p@[j - 1]
            },
        ));
    }
    let field = crate::text::tail(p.as_slice(), k);
    (string_of(&class), string_of(&field))
}

/// The CPU line: the value of the first `/proc/cpuinfo` line that starts with `Hardware`
/// or `Processor`, else the device-tree model, else `Unknown`.
pub open spec fn cpu_info_text(cpuinfo: Seq<char>, tree: Option<Seq<char>>) -> Seq<char> {
    match first_value(lines_of(cpuinfo), seq!["Hardware"@, "Processor"@], LineTest::Prefix) {
        Some(v) => v,
        None => match tree_model(tree) {
            Some(v) => v,
            None => unknown(),
        },
    }
}

/// The CPU line, from `/proc/cpuinfo` and, failing that, `/proc/device-tree/model`.
pub fn cpu_info(cpuinfo: &str, tree: Option<&str>) -> (r: String)
    ensures
        r@ == cpu_info_text(
            cpuinfo@,
            match tree {
                Some(t) => Some(t@),
                None => None,
            },
        ),
{
    let mut pats: Vec<&str> = Vec::new();
    pats.push("Hardware");
    pats.push("Processor");
    assert(crate::text::str_views(pats@) =~= seq!["Hardware"@, "Processor"@]);
    match value_after_colon(cpuinfo, pats.as_slice(), LineTest::Prefix) {
        Some(v) => v,
        None => match device_tree_model(tree) {
            Some(v) => v,
            None => crate::sysinfo::unknown_exec(),
        },
    }
}

/// `"{n} cores"`.
pub open spec fn cores_text(n: nat) -> Seq<char> {
    dec_chars(n) + " cores"@
}

/// The number of cores as the dashboard shows it.
pub fn cpu_cores(names: &[String]) -> (r: String)
    ensures
        r@ == cores_text(cpu_dir_count(line_views(names@))),
{
    let n = count_cpu_cores(names);
    let mut out = u64_chars(n as u64);
    let suffix = chars_of(" cores");
    append(&mut out, suffix.as_slice());
    string_of(&out)
}

/// Memory in kB as this edition shows it: the bytes (`kb * 1024`) below 1 MiB as
/// `0 MB`, otherwise in GiB to one decimal (`bytes as f64 / 2^30`, rounded half to even)
/// and ` GB`.
pub open spec fn kb_text(kb: u64) -> Seq<char> {
    let bytes = kb * 1024;
    if bytes < 0x10_0000 {
        dec_chars(0) + seq![' ', 'M', 'B']
    } else {
        fixed1(f64_value(bytes as nat), 0x4000_0000) + seq![' ', 'G', 'B']
    }
}

/// Formats an amount of memory given in kB.
pub fn fmt_kb(kb: u64) -> (r: String)
    requires
        kb * 1024 <= u64::MAX,
    ensures
        r@ == kb_text(kb),
{
    let bytes = kb * 1024;
    if bytes < 1024 * 1024 {
        let mut out = u64_chars(bytes / 1024 / 1024);
        out.push(' ');
        out.push('M');
        out.push('B');
        assert(out@ =~= kb_text(kb));
        string_of(&out)
    } else {
        let m = f64_value_exec(bytes);
        let mut out = fixed1_exec(m, 0x4000_0000);
        out.push(' ');
        out.push('G');
        out.push('B');
        assert(out@ =~= kb_text(kb));
        string_of(&out)
    }
}

/// `"N/A"`.
pub open spec fn na() -> Seq<char> {
    seq!['N', '/', 'A']
}

fn na_exec() -> (r: String)
    ensures
        r@ == na(),
{
    let mut v: Vec<char> = Vec::new();
    v.push('N');
    v.push('/');
    v.push('A');
    assert(v@ =~= na());
    string_of(&v)
}

/// The RAM line: total and available memory, or `N/A` when the total is unknown.
pub open spec fn ram_info_text(meminfo_text: Seq<char>) -> Seq<char> {
    let (total, avail) = meminfo(meminfo_text);
    if total == 0 {
        na()
    } else {
        kb_text(total) + seq![' ', '/', ' '] + kb_text(avail)
    }
}

/// Both memory figures can be turned into bytes without overflow.
pub open spec fn ram_fits(meminfo_text: Seq<char>) -> bool {
    let (total, avail) = meminfo(meminfo_text);
    total != 0 ==> total * 1024 <= u64::MAX && avail * 1024 <= u64::MAX
}

/// The RAM line, from `/proc/meminfo` text.
pub fn ram_info(meminfo_text: &str) -> (r: String)
    requires
        ram_fits(meminfo_text@),
    ensures
        r@ == ram_info_text(meminfo_text@),
{
    let (total, avail) = parse_meminfo(meminfo_text);
    if total == 0 {
        return na_exec();
    }
    let mut out = chars_of(fmt_kb(total).as_str());
    out.push(' ');
    out.push('/');
    out.push(' ');
    let a = chars_of(fmt_kb(avail).as_str());
    append(&mut out, a.as_slice());
    string_of(&out)
}

/// The share of memory in use: `"{p}% used"`, or `N/A` when the total is unknown.
pub open spec fn ram_used_text(meminfo_text: Seq<char>) -> Seq<char> {
    let (total, avail) = meminfo(meminfo_text);
    if total == 0 {
        na()
    } else {
        dec_chars(crate::sysinfo::used_percent(total, avail)) + "% used"@
    }
}

/// The share of memory in use, from `/proc/meminfo` text.
pub fn ram_used(meminfo_text: &str) -> (r: String)
    requires
        crate::sysinfo::memory_fits(meminfo(meminfo_text@).0, meminfo(meminfo_text@).1),
    ensures
        r@ == ram_used_text(meminfo_text@),
{
    let (total, avail) = parse_meminfo(meminfo_text);
    if total == 0 {
        return na_exec();
    }
    let used = total.saturating_sub(avail);
    let pct = used * 100 / total;
    let mut out = u64_chars(pct);
    let suffix = chars_of("% used");
    append(&mut out, suffix.as_slice());
    string_of(&out)
}

/// The device `/data` is mounted from, by a `/proc/self/mountinfo` line: its fourth
/// word, when the line mentions ` /data `, has at least five words, and the device is
/// neither empty nor a loop device.
pub open spec fn mount_dev(line: Seq<char>) -> Option<Seq<char>> {
    if contains(line, " /data "@) && tokens_of(line).len() >= 5 {
        let dev = trim(tokens_of(line)[3]);
        if dev.len() > 0 && !"/dev/loop"@.is_prefix_of(dev) {
            Some(dev)
        } else {
            None
        }
    } else {
        None
    }
}

/// The first device a line of `lines` names for `/data`.
pub open spec fn first_mount(lines: Seq<Seq<char>>) -> Option<Seq<char>>
    decreases lines.len(),
{
    if lines.len() == 0 {
        None
    } else {
        match mount_dev(lines[0]) {
            Some(d) => Some(d),
            None => first_mount(lines.drop_first()),
        }
    }
}

/// `Mount: {device}` for the device `/data` is mounted from, else `See Settings`.
pub open spec fn storage_info_text(mountinfo: Option<Seq<char>>) -> Seq<char> {
    match mountinfo {
        Some(d) => match first_mount(lines_of(d)) {
            Some(dev) => "Mount: "@ + dev,
            None => "See Settings"@,
        },
        None => "See Settings"@,
    }
}

/// The storage line, from `/proc/self/mountinfo` when it could be read.
pub fn storage_info(mountinfo: Option<&str>) -> (r: String)
    ensures
        r@ == storage_info_text(
            match mountinfo {
                Some(d) => Some(d@),
                None => None,
            },
        ),
{
    if let Some(data) = mountinfo {
        let chars = chars_of(data);
        let lines = split_lines(chars.as_slice());
        let pat = chars_of(" /data ");
        let lp = chars_of("/dev/loop");
        let ghost ls = lines_of(data@);
        assert(ls.skip(0) =~= ls);
        let mut i: usize = 0;
        while i < lines.len()
            invariant
                i <= lines@.len(),
                views(lines@) == ls,
                ls == lines_of(data@),
                mountinfo == Some(data),
                pat@ == " /data "@,
                lp@ == "/dev/loop"@,
                first_mount(ls) == first_mount(ls.skip(i as int)),
            decreases lines@.len() - i,
        {
            let line = lines[i].as_slice();
            assert(ls.skip(i as int)[0] == line@);
            assert(ls.skip(i as int).drop_first() =~= ls.skip(i + 1));
            if contains_chars(line, pat.as_slice()) {
                let parts = split_whitespace(line);
                if parts.len() >= 5 {
                    assert(views(parts@)[3] == parts@[3]@);
                    let dev = trim_chars(parts[3].as_slice(), &Pat::Whitespace);
                    if dev.len() > 0 && !starts_with(dev.as_slice(), lp.as_slice()) {
                        let mut out = chars_of("Mount: ");
                        append(&mut out, dev.as_slice());
                        return string_of(&out);
                    }
                }
            }
            i += 1;
        }
        assert(ls.skip(i as int) =~= Seq::<Seq<char>>::empty());
    }
    "See Settings".to_owned()
}

/// `o`'s value, or `d`.
pub open spec fn or_default(o: Option<i32>, d: i32) -> i32 {
    match o {
        Some(v) => v,
        None => d,
    }
}

/// `a / b` rounded toward zero, as Rust's integer division does.
pub open spec fn div_trunc(a: int, b: int) -> int {
    let q = (if a < 0 {
        -a
    } else {
        a
    }) / (if b < 0 {
        -b
    } else {
        b
    });
    if (a < 0) != (b < 0) {
        -q
    } else {
        q
    }
}

/// The battery level line from the battery intent's `level` and `scale` fields (0 and
/// 100 when missing): `level * 100 / scale` and `%`, or `N/A` without an intent or with a
/// zero scale.
pub open spec fn battery_level_text(fields: Option<(Option<i32>, Option<i32>)>) -> Seq<char> {
    match fields {
        None => na(),
        Some((l, s)) => {
            let level = or_default(l, 0);
            let scale = or_default(s, 100);
            if scale == 0 {
                na()
            } else {
                i32_chars_spec(div_trunc(level * 100, scale as int) as i32) + seq!['%']
            }
        },
    }
}

/// `level * 100` is an `i32` whenever it is computed (the scale is not 0).
pub open spec fn battery_level_fits(fields: Option<(Option<i32>, Option<i32>)>) -> bool {
    match fields {
        None => true,
        Some((l, s)) => or_default(s, 100) != 0 ==> i32::MIN <= or_default(l, 0) * 100 <= i32::MAX,
    }
}

/// The battery level line.
pub fn battery_level(fields: Option<(Option<i32>, Option<i32>)>) -> (r: String)
    requires
        battery_level_fits(fields),
    ensures
        r@ == battery_level_text(fields),
{
    match fields {
        None => na_exec(),
        Some((l, s)) => {
            let level: i32 = match l {
                Some(n) => n,
                None => 0,
            };
            let scale: i32 = match s {
                Some(n) => n,
                None => 100,
            };
            if scale == 0 {
                return na_exec();
            }
            let num: i64 = (level * 100) as i64;
            let den: i64 = scale as i64;
            let mag_num: i64 = if num < 0 {
                -num
            } else {
                num
            };
            let mag_den: i64 = if den < 0 {
                -den
            } else {
                den
            };
            let q: i64 = mag_num / mag_den;
            let pct: i64 = if (num < 0) != (den < 0) {
                -q
            } else {
                q
            };
            assert(pct == div_trunc(level * 100, scale as int));
            assert(q <= mag_num) by (nonlinear_arith)
                requires
                    q == mag_num / mag_den,
                    mag_den >= 1,
                    mag_num >= 0,
            ;
            let mut out = i32_chars(pct as i32);
            out.push('%');
            assert(out@ =~= battery_level_text(fields));
            string_of(&out)
        },
    }
}

/// A temperature in tenths of a degree as `format!("{:.1}°C", t as f64 / 10.0)` shows it:
/// the sign, the whole degrees, a point, the tenths.
pub open spec fn temp_text(t: int) -> Seq<char> {
    let m = if t < 0 {
        -t
    } else {
        t
    };
    (if t < 0 {
        seq!['-']
    } else {
        Seq::empty()
    }) + dec_chars((m / 10) as nat) + seq!['.', digit_char((m % 10) as nat), '°', 'C']
}

/// The battery temperature line, from the intent's `temperature` field (tenths of a
/// degree, 0 when missing), or `N/A` without an intent.
pub open spec fn battery_temp_text(field: Option<Option<i32>>) -> Seq<char> {
    match field {
        None => na(),
        Some(t) => temp_text(or_default(t, 0) as int),
    }
}

/// The battery temperature line.
pub fn battery_temp(field: Option<Option<i32>>) -> (r: String)
    ensures
        r@ == battery_temp_text(field),
{
    match field {
        None => na_exec(),
        Some(t) => {
            let temp: i32 = match t {
                Some(n) => n,
                None => 0,
            };
            let m: u64 = if temp < 0 {
                (-(temp as i64)) as u64
            } else {
                temp as u64
            };
            let mut out: Vec<char> = Vec::new();
            if temp < 0 {
                out.push('-');
            }
            let whole = u64_chars(m / 10);
            append(&mut out, whole.as_slice());
            out.push('.');
            let tenth = u64_chars(m % 10);
            assert(tenth@ =~= seq![digit_char((m % 10) as nat)]);
            append(&mut out, tenth.as_slice());
            out.push('°');
            out.push('C');
            assert(out@ =~= battery_temp_text(field));
            string_of(&out)
        },
    }
}

/// The charging line, from the intent's `status` field (-1 when missing): the four
/// known states by name, other codes as numbers, `N/A` without an intent.
pub open spec fn charging_text(field: Option<Option<i32>>) -> Seq<char> {
    match field {
        None => na(),
        Some(s) => {
            let v = or_default(s, -1i32);
            if v == 2 {
                "Charging"@
            } else if v == 3 {
                "Discharging"@
            } else if v == 4 {
                "Not charging"@
            } else if v == 5 {
                "Full"@
            } else {
                i32_chars_spec(v)
            }
        },
    }
}

/// The charging line.
pub fn charging_status(field: Option<Option<i32>>) -> (r: String)
    ensures
        r@ == charging_text(field),
{
    match field {
        None => na_exec(),
        Some(s) => {
            let status: i32 = match s {
                Some(n) => n,
                None => -1,
            };
            if status == 2 {
                "Charging".to_owned()
            } else if status == 3 {
                "Discharging".to_owned()
            } else if status == 4 {
                "Not charging".to_owned()
            } else if status == 5 {
                "Full".to_owned()
            } else {
                string_of(&i32_chars(status))
            }
        },
    }
}

/// A trimmed `/proc/net/fib_trie` line that draws the tree rather than naming an entry.
pub open spec fn tree_branch(t: Seq<char>) -> bool {
    "+--"@.is_prefix_of(t) || "|--"@.is_prefix_of(t)
}

/// Some line of `lines`, trimmed, is not a tree branch and mentions `LOCAL`.
pub open spec fn has_local(lines: Seq<Seq<char>>) -> bool {
    exists|i: int|
        0 <= i < lines.len() && !tree_branch(trim(#[trigger] lines[i])) && contains(
            trim(lines[i]),
            "LOCAL"@,
        )
}

/// The first line of `lines` that, trimmed, holds a `.`.
pub open spec fn first_dotted(lines: Seq<Seq<char>>) -> Option<Seq<char>>
    decreases lines.len(),
{
    if lines.len() == 0 {
        None
    } else if crate::text::has_char(trim(lines[0]), '.') {
        Some(lines[0])
    } else {
        first_dotted(lines.drop_first())
    }
}

/// The first word of `t`, or nothing.
pub open spec fn first_word(t: Seq<char>) -> Seq<char> {
    if tokens_of(t).len() > 0 {
        tokens_of(t)[0]
    } else {
        Seq::empty()
    }
}

/// The local IP line: when `/proc/net/fib_trie` has a `LOCAL` entry, the first word of
/// its first line holding a `.`, unless that is empty or the loopback address; otherwise
/// `127.0.0.1`.
pub open spec fn local_ip_text(fib_trie: Seq<char>) -> Seq<char> {
    let ls = lines_of(fib_trie);
    if has_local(ls) {
        match first_dotted(ls) {
            Some(l) => {
                let ip = first_word(trim(l));
                if ip.len() > 0 && ip != "127.0.0.1"@ {
                    ip
                } else {
                    "127.0.0.1"@
                }
            },
            None => "127.0.0.1"@,
        }
    } else {
        "127.0.0.1"@
    }
}

fn has_local_exec(lines: &Vec<Vec<char>>) -> (r: bool)
    ensures
        r == has_local(views(lines@)),
{
    let ghost ls = views(lines@);
    let plus = chars_of("+--");
    let bar = chars_of("|--");
    let local = chars_of("LOCAL");
    let mut i: usize = 0;
    while i < lines.len()
        invariant
            i <= lines@.len(),
            views(lines@) == ls,
            plus@ == "+--"@,
            bar@ == "|--"@,
            local@ == "LOCAL"@,
            forall|j: int|
                0 <= j < i ==> !(!tree_branch(trim(#[trigger] ls[j])) && contains(
                    trim(ls[j]),
                    "LOCAL"@,
                )),
        decreases lines@.len() - i,
    {
        assert(ls[i as int] == lines@[i as int]@);
        let t = trim_chars(lines[i].as_slice(), &Pat::Whitespace);
        if !(starts_with(t.as_slice(), plus.as_slice()) || starts_with(t.as_slice(), bar.as_slice()))
            && contains_chars(t.as_slice(), local.as_slice()) {
            assert(!tree_branch(trim(ls[i as int])) && contains(trim(ls[i as int]), "LOCAL"@));
            return true;
        }
        i += 1;
    }
    false
}

/// The local IP line, from `/proc/net/fib_trie` text.
pub fn local_ip(fib_trie: &str) -> (r: String)
    ensures
        r@ == local_ip_text(fib_trie@),
{
    let chars = chars_of(fib_trie);
    let lines = split_lines(chars.as_slice());
    let ghost ls = lines_of(fib_trie@);
    if !has_local_exec(&lines) {
        return "127.0.0.1".to_owned();
    }
    assert(has_local(ls));
    assert(ls.skip(0) =~= ls);
    let mut k: usize = 0;
    while k < lines.len()
        invariant
            k <= lines@.len(),
            views(lines@) == ls,
            ls == lines_of(fib_trie@),
            has_local(ls),
            first_dotted(ls) == first_dotted(ls.skip(k as int)),
        decreases lines@.len() - k,
    {
        let line = lines[k].as_slice();
        assert(ls.skip(k as int)[0] == line@);
        assert(ls.skip(k as int).drop_first() =~= ls.skip(k + 1));
        let t = trim_chars(line, &Pat::Whitespace);
        if crate::text::find(t.as_slice(), '.') < t.len() {
            let words = split_whitespace(t.as_slice());
            let ip: Vec<char> = if words.len() > 0 {
                assert(views(words@)[0] == words@[0]@);
                words[0].clone()
            } else {
                Vec::new()
            };
            assert(ip@ == first_word(t@));
            let loopback = chars_of("127.0.0.1");
            if ip.len() > 0 && !eq_chars(ip.as_slice(), loopback.as_slice()) {
                return string_of(&ip);
            }
            return "127.0.0.1".to_owned();
        }
        k += 1;
    }
    assert(ls.skip(k as int) =~= Seq::<Seq<char>>::empty());
    "127.0.0.1".to_owned()
}

/// The lines of a reply that are HTTP headers or markup rather than the address.
pub open spec fn reply_skips() -> Seq<Seq<char>> {
    seq!["HTTP/"@, "<!"@, "Date:"@, "Server:"@, "Content-"@, "Connection:"@, "X-"@]
}

/// The public address in a plain-text HTTP reply: its first line that is not empty and
/// not a status line, a header (including `X-` ones) or markup.
pub fn public_ip_from_response(response: &str) -> (r: Option<String>)
    ensures
        opt_view(r) == body_line(lines_of(response@), reply_skips()),
{
    let mut skips: Vec<&str> = Vec::new();
    skips.push("HTTP/");
    skips.push("<!");
    skips.push("Date:");
    skips.push("Server:");
    skips.push("Content-");
    skips.push("Connection:");
    skips.push("X-");
    assert(crate::text::str_views(skips@) =~= reply_skips());
    first_body_line(response, skips.as_slice())
}

/// The step after asking host `host` of `ip_hosts` for the public address, given its
/// reply (`None` when it could not be reached or read): the address the reply gives, else
/// the next host, else `Unavailable`.
pub fn public_ip_next(host: usize, reply: Option<&str>) -> (r: IpStep)
    requires
        host < ip_hosts().len(),
    ensures
        match reply_address(
            match reply {
                Some(t) => Some(t@),
                None => None,
            },
            reply_skips(),
        ) {
            Some(v) => r matches IpStep::Done(s) && s@ == v,
            None => if host + 1 < ip_hosts().len() {
                r == IpStep::Ask((host + 1) as usize)
            } else {
                r matches IpStep::Done(s) && s@ == "Unavailable"@
            },
        },
{
    let mut skips: Vec<&str> = Vec::new();
    skips.push("HTTP/");
    skips.push("<!");
    skips.push("Date:");
    skips.push("Server:");
    skips.push("Content-");
    skips.push("Connection:");
    skips.push("X-");
    assert(crate::text::str_views(skips@) =~= reply_skips());
    crate::procfs::public_ip_next(host, reply, skips.as_slice())
}

/// What the Android report is built from: the `Build` fields and battery intent fields
/// read through JNI, the text of the `/proc` files read, the entry names of
/// `/sys/devices/system/cpu`, and the public address found over the network. The display,
/// network-type, connection, cellular and sensor lines are always `N/A` and read nothing.
pub struct Readings {
    /// `Build.MODEL`, when it could be read.
    pub model: Option<String>,
    /// `Build.MANUFACTURER`, when it could be read.
    pub manufacturer: Option<String>,
    /// `Build.VERSION.RELEASE`, when it could be read.
    pub android_version: Option<String>,
    /// `Build.VERSION.SDK_INT`, when it could be read.
    pub sdk: Option<i32>,
    /// `Build.DISPLAY`, when it could be read.
    pub build: Option<String>,
    /// `/proc/cpuinfo`, empty when it could not be read.
    pub cpuinfo: String,
    /// `/proc/device-tree/model`, when it could be read.
    pub device_tree_model: Option<String>,
    /// The entry names of `/sys/devices/system/cpu` (none when it could not be listed).
    pub cpu_entries: Vec<String>,
    /// `/proc/meminfo`, empty when it could not be read.
    pub meminfo: String,
    /// `/proc/self/mountinfo`, when it could be read.
    pub mountinfo: Option<String>,
    /// The battery intent's `level` and `scale`, when there is an intent.
    pub battery_level: Option<(Option<i32>, Option<i32>)>,
    /// The battery intent's `temperature`, when there is an intent.
    pub battery_temp: Option<Option<i32>>,
    /// The battery intent's `status`, when there is an intent.
    pub battery_status: Option<Option<i32>>,
    /// `/proc/net/fib_trie`, empty when it could not be read.
    pub fib_trie: String,
    /// The public address, as found over the network.
    pub public_ip: String,
    /// Whole seconds since boot.
    pub uptime_secs: u64,
}

/// A `Build` string field as shown: its text, or `N/A` when it could not be read.
pub open spec fn or_na(o: Option<Seq<char>>) -> Seq<char> {
    match o {
        Some(t) => t,
        None => na(),
    }
}

/// A `Build` integer field as shown: in decimal, or `N/A` when it could not be read.
pub open spec fn int_or_na(o: Option<i32>) -> Seq<char> {
    match o {
        Some(n) => i32_chars_spec(n),
        None => na(),
    }
}

/// A `Build` string field as shown.
pub fn string_or_na(o: &Option<String>) -> (r: String)
    ensures
        r@ == or_na(opt_view(*o)),
{
    match o {
        Some(t) => t.clone(),
        None => na_exec(),
    }
}

/// A `Build` integer field as shown.
pub fn int_string_or_na(o: Option<i32>) -> (r: String)
    ensures
        r@ == int_or_na(o),
{
    match o {
        Some(n) => string_of(&i32_chars(n)),
        None => na_exec(),
    }
}

/// The Android report for `r`, line by line.
pub open spec fn report_lines(r: Readings) -> Seq<Seq<char>> {
    seq![
        "── Device ──"@,
        field("Model"@, or_na(opt_view(r.model))),
        field("Manufacturer"@, or_na(opt_view(r.manufacturer))),
        field("Android"@, or_na(opt_view(r.android_version))),
        field("SDK"@, int_or_na(r.sdk)),
        field("Build"@, or_na(opt_view(r.build))),
        Seq::empty(),
        "── Performance ──"@,
        field("CPU"@, cpu_info_text(r.cpuinfo@, opt_view(r.device_tree_model))),
        field("Cores"@, cores_text(cpu_dir_count(line_views(r.cpu_entries@)))),
        field("RAM"@, ram_info_text(r.meminfo@)),
        field("RAM Used"@, ram_used_text(r.meminfo@)),
        Seq::empty(),
        "── Storage ──"@,
        field("Internal"@, storage_info_text(opt_view(r.mountinfo))),
    ] + seq![
        Seq::empty(),
        "── Battery ──"@,
        field("Level"@, battery_level_text(r.battery_level)),
        field("Temp"@, battery_temp_text(r.battery_temp)),
        field("Status"@, charging_text(r.battery_status)),
        Seq::empty(),
        "── Display ──"@,
        field("Resolution"@, na()),
        field("Density"@, na()),
    ] + seq![
        Seq::empty(),
        "── Network ──"@,
        field("Type"@, na()),
        field("Status"@, na()),
        field("Local IP"@, local_ip_text(r.fib_trie@)),
        field("Public IP"@, r.public_ip@),
        field("Capable"@, na()),
        Seq::empty(),
        "── System ──"@,
        field("Sensors"@, na()),
        field("Uptime"@, uptime_text(r.uptime_secs as nat)),
        Seq::empty(),
        "  Rust Native (v0.1.0)"@,
    ]
}

/// The readings can be reported without an arithmetic overflow.
pub open spec fn readings_fit(r: Readings) -> bool {
    &&& ram_fits(r.meminfo@)
    &&& crate::sysinfo::memory_fits(meminfo(r.meminfo@).0, meminfo(r.meminfo@).1)
    &&& battery_level_fits(r.battery_level)
}

/// The line shown when the app could not attach to the Java VM.
pub open spec fn attach_error() -> Seq<char> {
    "JNI Error: attach failed"@
}

fn push_line(lines: &mut Vec<String>, s: String)
    ensures
        line_views(final(lines)@) == line_views(old(lines)@).push(s@),
{
    let ghost before = line_views(lines@);
    let ghost v = s@;
    lines.push(s);
    assert(line_views(lines@) =~= before.push(v));
}

fn as_opt_str(o: &Option<String>) -> (r: Option<&str>)
    ensures
        match r {
            Some(s) => Some(s@),
            None => None::<Seq<char>>,
        } == opt_view(*o),
{
    match o {
        Some(s) => Some(s.as_str()),
        None => None,
    }
}

/// Builds the Android report; without readings (the VM could not be attached) it is the
/// single error line.
pub fn collect_system_info(r: Option<&Readings>) -> (lines: Vec<String>)
    requires
        match r {
            Some(x) => readings_fit(*x),
            None => true,
        },
    ensures
        line_views(lines@) == match r {
            Some(x) => report_lines(*x),
            None => seq![attach_error()],
        },
{
    let mut lines: Vec<String> = Vec::new();
    let r = match r {
        Some(x) => x,
        None => {
            push_line(&mut lines, "JNI Error: attach failed".to_owned());
            assert(line_views(lines@) =~= seq![attach_error()]);
            return lines;
        },
    };
    push_line(&mut lines, "── Device ──".to_owned());
    add_field(&mut lines, "Model", string_or_na(&r.model));
    add_field(&mut lines, "Manufacturer", string_or_na(&r.manufacturer));
    add_field(&mut lines, "Android", string_or_na(&r.android_version));
    add_field(&mut lines, "SDK", int_string_or_na(r.sdk));
    add_field(&mut lines, "Build", string_or_na(&r.build));
    push_line(&mut lines, String::new());
    push_line(&mut lines, "── Performance ──".to_owned());
    add_field(&mut lines, "CPU", cpu_info(r.cpuinfo.as_str(), as_opt_str(&r.device_tree_model)));
    add_field(&mut lines, "Cores", cpu_cores(r.cpu_entries.as_slice()));
    add_field(&mut lines, "RAM", ram_info(r.meminfo.as_str()));
    add_field(&mut lines, "RAM Used", ram_used(r.meminfo.as_str()));
    push_line(&mut lines, String::new());
    push_line(&mut lines, "── Storage ──".to_owned());
    add_field(&mut lines, "Internal", storage_info(as_opt_str(&r.mountinfo)));
    let ghost part1 = line_views(lines@);
    push_line(&mut lines, String::new());
    push_line(&mut lines, "── Battery ──".to_owned());
    add_field(&mut lines, "Level", battery_level(r.battery_level));
    add_field(&mut lines, "Temp", battery_temp(r.battery_temp));
    add_field(&mut lines, "Status", charging_status(r.battery_status));
    push_line(&mut lines, String::new());
    push_line(&mut lines, "── Display ──".to_owned());
    add_field(&mut lines, "Resolution", na_exec());
    add_field(&mut lines, "Density", na_exec());
    let ghost part2 = line_views(lines@);
    push_line(&mut lines, String::new());
    push_line(&mut lines, "── Network ──".to_owned());
    add_field(&mut lines, "Type", na_exec());
    add_field(&mut lines, "Status", na_exec());
    add_field(&mut lines, "Local IP", local_ip(r.fib_trie.as_str()));
    add_field(&mut lines, "Public IP", r.public_ip.clone());
    add_field(&mut lines, "Capable", na_exec());
    push_line(&mut lines, String::new());
    push_line(&mut lines, "── System ──".to_owned());
    add_field(&mut lines, "Sensors", na_exec());
    add_field(&mut lines, "Uptime", format_uptime(r.uptime_secs));
    push_line(&mut lines, String::new());
    push_line(&mut lines, "  Rust Native (v0.1.0)".to_owned());
    assert(part1 =~= report_lines(*r).take(15));
    assert(part2 =~= report_lines(*r).take(24));
    assert(line_views(lines@) =~= report_lines(*r));
    lines
}

/// Every line of the Android report is blank, a section header or an indented field, so
/// the renderer draws each header as a title and everything else as body text.
pub proof fn report_lines_are_titles_fields_or_blank(r: Readings)
    ensures
        forall|i: int|
            0 <= i < report_lines(r).len() ==> crate::sysinfo::title_field_or_blank(
                #[trigger] report_lines(r)[i],
            ),
{
    reveal_strlit("── Device ──");
    reveal_strlit("── Performance ──");
    reveal_strlit("── Storage ──");
    reveal_strlit("── Battery ──");
    reveal_strlit("── Display ──");
    reveal_strlit("── Network ──");
    reveal_strlit("── System ──");
    reveal_strlit("  Rust Native (v0.1.0)");
}

/// Both editions show an amount of memory alike: scaling to bytes before the division
/// changes nothing, so `kb * 1024` bytes in GiB reads the same as `kb` in GiB.
pub proof fn kb_texts_agree(kb: u64)
    requires
        kb * 1024 <= u64::MAX,
    ensures
        kb_text(kb) == crate::sysinfo::kb_text(kb),
{
    crate::units::lemma_two_pow_10();
    crate::units::lemma_f64_value_scale(kb as nat, 10);
    let f = f64_value(kb as nat);
    crate::units::lemma_fixed1_scale(f, 0x10_0000, 1024);
    assert(f * 1024 == 1024 * f);
    assert(((kb * 1024) as u64) as nat == (kb as nat) * 1024);
}

/// Both editions show the same uptime line for the same number of seconds: the third
/// line from the end of each report.
pub proof fn editions_agree_on_uptime(a: crate::sysinfo::Readings, b: Readings)
    requires
        a.uptime_secs == b.uptime_secs,
    ensures
        ({
            let la = crate::sysinfo::report_lines(a);
            let lb = report_lines(b);
            &&& la.len() >= 3
            &&& lb.len() >= 3
            &&& la[la.len() - 3] == field("Uptime"@, uptime_text(b.uptime_secs as nat))
            &&& lb[lb.len() - 3] == field("Uptime"@, uptime_text(b.uptime_secs as nat))
        }),
{
    let la = crate::sysinfo::report_lines(a);
    let (total, avail) = meminfo(a.meminfo@);
    let mem = crate::sysinfo::memory_fields(total, avail);
    assert(la.len() == 19 + mem.len());
    assert(la[la.len() - 3] == field("Uptime"@, uptime_text(a.uptime_secs as nat)));
}

/// The storage line names the device of the first mountinfo line that mounts `/data`
/// from a device other than a loop device, wherever that line stands.
pub proof fn storage_info_finds_first_data_mount(d: Seq<char>, i: int)
    requires
        0 <= i < lines_of(d).len(),
        mount_dev(lines_of(d)[i]) is Some,
        forall|j: int| 0 <= j < i ==> mount_dev(#[trigger] lines_of(d)[j]) is None,
    ensures
        storage_info_text(Some(d)) == "Mount: "@ + mount_dev(lines_of(d)[i])->0,
{
    lemma_first_mount_at(lines_of(d), i);
}

proof fn lemma_first_mount_at(ls: Seq<Seq<char>>, i: int)
    requires
        0 <= i < ls.len(),
        mount_dev(ls[i]) is Some,
        forall|j: int| 0 <= j < i ==> mount_dev(#[trigger] ls[j]) is None,
    ensures
        first_mount(ls) == mount_dev(ls[i]),
    decreases i,
{
    if i > 0 {
        let t = ls.drop_first();
        assert(mount_dev(ls[0]) is None);
        assert forall|j: int| 0 <= j < i - 1 implies mount_dev(#[trigger] t[j]) is None by {
            assert(t[j] == ls[j + 1]);
        }
        lemma_first_mount_at(t, i - 1);
    }
}

/// Each line of the Android report comes from its own source: the `Build` lines from the
/// `Build` fields, CPU from `/proc/cpuinfo` (falling back to the device-tree model), the
/// cores from the CPU directory, both memory lines from `/proc/meminfo`, storage from
/// `/proc/self/mountinfo`, the battery lines from the battery intent's fields, the local
/// address from `/proc/net/fib_trie`, the uptime from the seconds since boot; the
/// display, network-type, connection, cellular and sensor lines are `N/A`.
pub proof fn report_reads_each_source(r: Readings)
    ensures
        ({
            let ls = report_lines(r);
            &&& ls.len() == 37
            &&& ls[1] == field("Model"@, or_na(opt_view(r.model)))
            &&& ls[2] == field("Manufacturer"@, or_na(opt_view(r.manufacturer)))
            &&& ls[3] == field("Android"@, or_na(opt_view(r.android_version)))
            &&& ls[4] == field("SDK"@, int_or_na(r.sdk))
            &&& ls[5] == field("Build"@, or_na(opt_view(r.build)))
            &&& ls[8] == field("CPU"@, cpu_info_text(r.cpuinfo@, opt_view(r.device_tree_model)))
            &&& ls[9] == field("Cores"@, cores_text(cpu_dir_count(line_views(r.cpu_entries@))))
            &&& ls[10] == field("RAM"@, ram_info_text(r.meminfo@))
            &&& ls[11] == field("RAM Used"@, ram_used_text(r.meminfo@))
            &&& ls[14] == field("Internal"@, storage_info_text(opt_view(r.mountinfo)))
            &&& ls[17] == field("Level"@, battery_level_text(r.battery_level))
            &&& ls[18] == field("Temp"@, battery_temp_text(r.battery_temp))
            &&& ls[19] == field("Status"@, charging_text(r.battery_status))
            &&& ls[22] == field("Resolution"@, na())
            &&& ls[23] == field("Density"@, na())
            &&& ls[26] == field("Type"@, na())
            &&& ls[27] == field("Status"@, na())
            &&& ls[28] == field("Local IP"@, local_ip_text(r.fib_trie@))
            &&& ls[29] == field("Public IP"@, r.public_ip@)
            &&& ls[30] == field("Capable"@, na())
            &&& ls[33] == field("Sensors"@, na())
            &&& ls[34] == field("Uptime"@, uptime_text(r.uptime_secs as nat))
        }),
{
}

/// The line the Android edition takes its address from is the first line, wherever it
/// stands, that holds a `.` once trimmed.
pub proof fn first_dotted_takes_first_dotted_line(ls: Seq<Seq<char>>, i: int)
    requires
        0 <= i < ls.len(),
        crate::text::has_char(trim(ls[i]), '.'),
        forall|j: int| 0 <= j < i ==> !crate::text::has_char(trim(#[trigger] ls[j]), '.'),
    ensures
        first_dotted(ls) == Some(ls[i]),
    decreases i,
{
    if i > 0 {
        let t = ls.drop_first();
        assert(!crate::text::has_char(trim(ls[0]), '.'));
        assert forall|j: int| 0 <= j < i - 1 implies !crate::text::has_char(trim(#[trigger] t[j]), '.') by {
            assert(t[j] == ls[j + 1]);
        }
        first_dotted_takes_first_dotted_line(t, i - 1);
    }
}

} // verus!
