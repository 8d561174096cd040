//! Parsers for the text that `/proc`, `/sys` and a plain HTTP reply hold, and the text the
//! dashboard makes of what they yield.
use vstd::prelude::*;
use crate::text::{
    Pat, after_first, append, chars_of, contains, contains_chars, dec_chars, find, has_char,
    is_digit, lines_of, parse_u64, parse_u64_spec, split_lines, split_whitespace, starts_with,
    str_views, string_of, tail, tokens_of, trim, trim_chars, u64_chars, utf8_len,
    utf8_len_exceeds, views,
};

verus! {

/// How a line is tested against a pattern.
pub enum LineTest {
    /// The line, trimmed, starts with the pattern.
    TrimmedPrefix,
    /// The line starts with the pattern.
    Prefix,
    /// The pattern occurs in the line.
    Contains,
}

pub open spec fn pat_hit(test: LineTest, line: Seq<char>, pat: Seq<char>) -> bool {
    match test {
        LineTest::TrimmedPrefix => pat.is_prefix_of(trim(line)),
        LineTest::Prefix => pat.is_prefix_of(line),
        LineTest::Contains => contains(line, pat),
    }
}

/// Some pattern of `pats` hits `line`.
pub open spec fn line_selected(test: LineTest, line: Seq<char>, pats: Seq<Seq<char>>) -> bool {
    exists|i: int| 0 <= i < pats.len() && #[trigger] pat_hit(test, line, pats[i])
}

/// The value part, trimmed, of the first line that a pattern hits and that holds a `:`:
/// what follows its first `:`.
pub open spec fn first_value(lines: Seq<Seq<char>>, pats: Seq<Seq<char>>, test: LineTest) -> Option<
    Seq<char>,
>
    decreases lines.len(),
{
    if lines.len() == 0 {
        None
    } else if line_selected(test, lines[0], pats) && has_char(lines[0], ':') {
        Some(trim(after_first(lines[0], ':')))
    } else {
        first_value(lines.drop_first(), pats, test)
    }
}

/// The characters of an optional string.
pub open spec fn opt_view(o: Option<String>) -> Option<Seq<char>> {
    match o {
        Some(s) => Some(s@),
        None => None,
    }
}

fn pat_hit_exec(test: &LineTest, line: &[char], pat: &[char]) -> (r: bool)
    ensures
        r == pat_hit(*test, line@, pat@),
{
    match test {
        LineTest::TrimmedPrefix => {
            let t = trim_chars(line, &Pat::Whitespace);
            starts_with(t.as_slice(), pat)
        },
        LineTest::Prefix => starts_with(line, pat),
        LineTest::Contains => contains_chars(line, pat),
    }
}

fn line_selected_exec(test: &LineTest, line: &[char], pats: &Vec<Vec<char>>) -> (r: bool)
    ensures
        r == line_selected(*test, line@, views(pats@)),
{
    let mut k: usize = 0;
    while k < pats.len()
        invariant
            k <= pats@.len(),
            forall|j: int| 0 <= j < k ==> !#[trigger] pat_hit(*test, line@, views(pats@)[j]),
        decreases pats@.len() - k,
    {
        if pat_hit_exec(test, line, pats[k].as_slice()) {
            assert(pat_hit(*test, line@, views(pats@)[k as int]));
            return true;
        }
        k += 1;
    }
    false
}

/// The characters of each pattern.
pub fn pattern_chars(pats: &[&str]) -> (r: Vec<Vec<char>>)
    ensures
        views(r@) == str_views(pats@),
{
    let mut r: Vec<Vec<char>> = Vec::new();
    let mut k: usize = 0;
    while k < pats.len()
        invariant
            k <= pats@.len(),
            views(r@) == str_views(pats@).take(k as int),
        decreases pats@.len() - k,
    {
        let ghost before = views(r@);
        r.push(chars_of(pats[k]));
        assert(views(r@) =~= before.push(pats@[k as int]@));
        assert(str_views(pats@).take(k + 1) =~= str_views(pats@).take(k as int).push(pats@[k as int]@));
        k += 1;
    }
    assert(str_views(pats@).take(pats@.len() as int) =~= str_views(pats@));
    r
}

/// The value after the first `:` of the first line of `data` that a pattern hits, trimmed.
pub fn value_after_colon(data: &str, pats: &[&str], test: LineTest) -> (r: Option<String>)
    ensures
        opt_view(r) == first_value(lines_of(data@), str_views(pats@), test),
{
    let chars = chars_of(data);
    let lines = split_lines(chars.as_slice());
    let pv = pattern_chars(pats);
    let ghost ls = lines_of(data@);
    let ghost ps = str_views(pats@);
    assert(ls.skip(0) =~= ls);
    let mut i: usize = 0;
    while i < lines.len()
        invariant
            i <= lines@.len(),
            views(lines@) == ls,
            views(pv@) == ps,
            ls == lines_of(data@),
            ps == str_views(pats@),
            first_value(ls, ps, test) == first_value(ls.skip(i as int), ps, test),
        decreases lines@.len() - i,
    {
        let line = lines[i].as_slice();
        assert(ls.skip(i as int)[0] == line@);
        assert(ls.skip(i as int).drop_first() =~= ls.skip(i + 1));
        if line_selected_exec(&test, line, &pv) {
            let k = find(line, ':');
            if k < line.len() {
                let rest = tail(line, k + 1);
                let value = trim_chars(rest.as_slice(), &Pat::Whitespace);
                assert(has_char(line@, ':'));
                assert(after_first(line@, ':') == rest@);
                assert(first_value(ls.skip(i as int), ps, test) == Some(trim(after_first(line@, ':'))));
                return Some(string_of(&value));
            }
        }
        i += 1;
    }
    assert(ls.skip(i as int) =~= Seq::<Seq<char>>::empty());
    None
}

/// `s` read as a `u64`, or 0 when it is not one: `s.parse().unwrap_or(0)`.
pub open spec fn parse_or_zero(s: Seq<char>) -> u64 {
    match parse_u64_spec(s) {
        Some(v) => v,
        None => 0,
    }
}

/// The value a `key` line sets: its second word read as a number, when the line starts
/// with `key` and has a second word; otherwise `cur` stays.
pub open spec fn keyed_value(line: Seq<char>, key: Seq<char>, cur: u64) -> u64 {
    if key.is_prefix_of(line) && tokens_of(line).len() > 1 {
        parse_or_zero(tokens_of(line)[1])
    } else {
        cur
    }
}

/// The `MemTotal:` and `MemAvailable:` values (in kB) after reading `lines`, starting
/// from `(total, avail)`; a later line overrides an earlier one.
pub open spec fn meminfo_from(lines: Seq<Seq<char>>, total: u64, avail: u64) -> (u64, u64)
    decreases lines.len(),
{
    if lines.len() == 0 {
        (total, avail)
    } else {
        meminfo_from(
            lines.drop_first(),
            keyed_value(lines[0], "MemTotal:"@, total),
            keyed_value(lines[0], "MemAvailable:"@, avail),
        )
    }
}

/// `(MemTotal, MemAvailable)` of `/proc/meminfo` text, 0 for what is missing.
pub open spec fn meminfo(data: Seq<char>) -> (u64, u64) {
    meminfo_from(lines_of(data), 0, 0)
}

fn keyed_value_exec(line: &[char], key: &[char], cur: u64) -> (r: u64)
    ensures
        r == keyed_value(line@, key@, cur),
{
    if starts_with(line, key) {
        let words = split_whitespace(line);
        if words.len() > 1 {
            assert(views(words@)[1] == words@[1]@);
            return match parse_u64(words[1].as_slice()) {
                Some(v) => v,
                None => 0,
            };
        }
    }
    cur
}

/// Reads `MemTotal:` and `MemAvailable:` (kB) from `/proc/meminfo` text.
pub fn parse_meminfo(data: &str) -> (r: (u64, u64))
    ensures
        r == meminfo(data@),
{
    let chars = chars_of(data);
    let lines = split_lines(chars.as_slice());
    let total_key = chars_of("MemTotal:");
    let avail_key = chars_of("MemAvailable:");
    let ghost ls = lines_of(data@);
    assert(ls.skip(0) =~= ls);
    let mut total: u64 = 0;
    let mut avail: u64 = 0;
    let mut i: usize = 0;
    while i < lines.len()
        invariant
            i <= lines@.len(),
            views(lines@) == ls,
            ls == lines_of(data@),
            total_key@ == "MemTotal:"@,
            avail_key@ == "MemAvailable:"@,
            meminfo(data@) == meminfo_from(ls.skip(i as int), total, avail),
        decreases lines@.len() - i,
    {
        let line = lines[i].as_slice();
        assert(ls.skip(i as int)[0] == line@);
        assert(ls.skip(i as int).drop_first() =~= ls.skip(i + 1));
        total = keyed_value_exec(line, total_key.as_slice(), total);
        avail = keyed_value_exec(line, avail_key.as_slice(), avail);
        i += 1;
    }
    assert(ls.skip(i as int) =~= Seq::<Seq<char>>::empty());
    (total, avail)
}

/// A directory of `/sys/devices/system/cpu` that stands for one core: `cpu` followed by
/// at least one more byte, all of them ASCII digits.
pub open spec fn is_cpu_dir(name: Seq<char>) -> bool {
    &&& seq!['c', 'p', 'u'].is_prefix_of(name)
    &&& utf8_len(name) > 3
    &&& forall|i: int| 3 <= i < name.len() ==> is_digit(#[trigger] name[i])
}

/// The number of names in `names` that stand for a core.
pub open spec fn cpu_dir_count(names: Seq<Seq<char>>) -> nat
    decreases names.len(),
{
    if names.len() == 0 {
        0
    } else {
        cpu_dir_count(names.drop_last()) + if is_cpu_dir(names.last()) {
            1nat
        } else {
            0nat
        }
    }
}

/// Whether `name` stands for a core.
pub fn is_cpu_dir_name(name: &str) -> (r: bool)
    ensures
        r == is_cpu_dir(name@),
{
    let n = chars_of(name);
    let prefix = ['c', 'p', 'u'];
    if !starts_with(n.as_slice(), &prefix) {
        assert(prefix@ =~= seq!['c', 'p', 'u']);
        return false;
    }
    assert(prefix@ =~= seq!['c', 'p', 'u']);
    if !utf8_len_exceeds(n.as_slice(), 3) {
        return false;
    }
    let mut k: usize = 3;
    while k < n.len()
        invariant
            3 <= k <= n@.len(),
            n@ == name@,
            forall|i: int| 3 <= i < k ==> is_digit(#[trigger] n@[i]),
        decreases n@.len() - k,
    {
        let u = n[k] as u32;
        if u < 48 || u > 57 {
            assert(!is_digit(n@[k as int]));
            return false;
        }
        k += 1;
    }
    true
}

/// The number of core directories among the entry names of `/sys/devices/system/cpu`.
pub fn count_cpu_cores(names: &[String]) -> (r: usize)
    ensures
        r == cpu_dir_count(crate::text::line_views(names@)),
{
    let ghost nv = crate::text::line_views(names@);
    let mut c: usize = 0;
    let mut k: usize = 0;
    while k < names.len()
        invariant
            k <= names@.len(),
            nv == crate::text::line_views(names@),
            c == cpu_dir_count(nv.take(k as int)),
            c <= k,
        decreases names@.len() - k,
    {
        assert(nv.take(k + 1).drop_last() =~= nv.take(k as int));
        if is_cpu_dir_name(names[k].as_str()) {
            c += 1;
        }
        k += 1;
    }
    assert(nv.take(names@.len() as int) =~= nv);
    c
}

/// `"{d}d {h}h {m}m"`: whole days, then the hours and minutes left over.
pub open spec fn uptime_text(secs: nat) -> Seq<char> {
    dec_chars(secs / 86400) + seq!['d', ' '] + dec_chars((secs % 86400) / 3600) + seq!['h', ' ']
        + dec_chars((secs % 3600) / 60) + seq!['m']
}

/// Formats an uptime given in whole seconds.
pub fn format_uptime(secs: u64) -> (r: String)
    ensures
        r@ == uptime_text(secs as nat),
{
    let days = secs / 86400;
    let hours = (secs % 86400) / 3600;
    let mins = (secs % 3600) / 60;
    let mut out = u64_chars(days);
    out.push('d');
    out.push(' ');
    let h = u64_chars(hours);
    append(&mut out, h.as_slice());
    out.push('h');
    out.push(' ');
    let m = u64_chars(mins);
    append(&mut out, m.as_slice());
    out.push('m');
    assert(out@ =~= uptime_text(secs as nat));
    string_of(&out)
}

/// `s` with every trailing copy of `suffix` removed: `str::trim_end_matches`.
pub open spec fn strip_suffixes(s: Seq<char>, suffix: Seq<char>) -> Seq<char>
    decreases s.len(),
{
    if suffix.len() > 0 && suffix.is_suffix_of(s) {
        strip_suffixes(s.take(s.len() - suffix.len()), suffix)
    } else {
        s
    }
}

/// The plain HTTP/1.0 request for `/` that asks `host` (written `name:80`) for the
/// caller's public address.
pub open spec fn ip_request(host: Seq<char>) -> Seq<char> {
    "GET / HTTP/1.0\r\nHost: "@ + strip_suffixes(host, ":80"@) + "\r\nConnection: close\r\n\r\n"@
}

/// `suffix` ends the first `n` characters of `s`.
fn ends_with_at(s: &[char], n: usize, suffix: &[char]) -> (r: bool)
    requires
        n <= s@.len(),
    ensures
        r == suffix@.is_suffix_of(s@.take(n as int)),
{
    if suffix.len() > n {
        return false;
    }
    let off = n - suffix.len();
    let mut k: usize = 0;
    while k < suffix.len()
        invariant
            n <= s@.len(),
            off + suffix@.len() == n,
            k <= suffix@.len(),
            forall|j: int| 0 <= j < k ==> suffix@[j] == s@.take(n as int)[off + j],
        decreases suffix@.len() - k,
    {
        if suffix[k] != s[off + k] {
            assert(suffix@[k as int] != s@.take(n as int)[off + k]);
            return false;
        }
        k += 1;
    }
    true
}

/// The request sent to `host` for the public address.
pub fn public_ip_request(host: &str) -> (r: String)
    ensures
        r@ == ip_request(host@),
{
    let port = chars_of(":80");
    let h = chars_of(host);
    let mut n = h.len();
    proof {
        reveal_strlit(":80");
    }
    assert(h@.take(n as int) =~= h@);
    while ends_with_at(h.as_slice(), n, port.as_slice())
        invariant
            n <= h@.len(),
            port@ == ":80"@,
            port@.len() == 3,
            strip_suffixes(host@, ":80"@) == strip_suffixes(h@.take(n as int), ":80"@),
        decreases n,
    {
        assert(h@.take(n as int).take(n - 3) =~= h@.take(n - 3));
        n -= 3;
    }
    let mut out = chars_of("GET / HTTP/1.0\r\nHost: ");
    let mut k: usize = 0;
    let ghost start = out@;
    while k < n
        invariant
            k <= n <= h@.len(),
            out@ == start + h@.take(k as int),
        decreases n - k,
    {
        out.push(h[k]);
        k += 1;
        assert(start + h@.take(k as int) =~= (start + h@.take(k - 1)).push(h@[k - 1]));
    }
    let end = chars_of("\r\nConnection: close\r\n\r\n");
    append(&mut out, end.as_slice());
    assert(out@ =~= ip_request(host@));
    string_of(&out)
}

/// Some pattern of `pats` starts `t`.
pub open spec fn has_any_prefix(t: Seq<char>, pats: Seq<Seq<char>>) -> bool {
    exists|i: int| 0 <= i < pats.len() && #[trigger] pats[i].is_prefix_of(t)
}

/// The first line of `lines` that, trimmed, is not empty and starts with none of `skips`;
/// trimmed.
pub open spec fn body_line(lines: Seq<Seq<char>>, skips: Seq<Seq<char>>) -> Option<Seq<char>>
    decreases lines.len(),
{
    if lines.len() == 0 {
        None
    } else {
        let t = trim(lines[0]);
        if t.len() > 0 && !has_any_prefix(t, skips) {
            Some(t)
        } else {
            body_line(lines.drop_first(), skips)
        }
    }
}

fn has_any_prefix_exec(t: &[char], pats: &Vec<Vec<char>>) -> (r: bool)
    ensures
        r == has_any_prefix(t@, views(pats@)),
{
    let mut k: usize = 0;
    while k < pats.len()
        invariant
            k <= pats@.len(),
            forall|j: int| 0 <= j < k ==> !#[trigger] views(pats@)[j].is_prefix_of(t@),
        decreases pats@.len() - k,
    {
        if starts_with(t, pats[k].as_slice()) {
            assert(views(pats@)[k as int].is_prefix_of(t@));
            return true;
        }
        k += 1;
    }
    false
}

/// The first line of `response` that, trimmed, is neither empty nor starts with one of
/// `skips`: the body of a plain-text HTTP reply.
pub fn first_body_line(response: &str, skips: &[&str]) -> (r: Option<String>)
    ensures
        opt_view(r) == body_line(lines_of(response@), str_views(skips@)),
{
    let chars = chars_of(response);
    let lines = split_lines(chars.as_slice());
    let pv = pattern_chars(skips);
    let ghost ls = lines_of(response@);
    let ghost ps = str_views(skips@);
    assert(ls.skip(0) =~= ls);
    let mut i: usize = 0;
    while i < lines.len()
        invariant
            i <= lines@.len(),
            views(lines@) == ls,
            views(pv@) == ps,
            ls == lines_of(response@),
            ps == str_views(skips@),
            body_line(ls, ps) == body_line(ls.skip(i as int), ps),
        decreases lines@.len() - i,
    {
        let line = lines[i].as_slice();
        assert(ls.skip(i as int)[0] == line@);
        assert(ls.skip(i as int).drop_first() =~= ls.skip(i + 1));
        let t = trim_chars(line, &Pat::Whitespace);
        if t.len() > 0 && !has_any_prefix_exec(t.as_slice(), &pv) {
            return Some(string_of(&t));
        }
        i += 1;
    }
    assert(ls.skip(i as int) =~= Seq::<Seq<char>>::empty());
    None
}

/// The line a reply yields is not empty, already trimmed, and starts with none of
/// `skips`.
pub proof fn body_line_is_trimmed(lines: Seq<Seq<char>>, skips: Seq<Seq<char>>)
    ensures
        match body_line(lines, skips) {
            Some(t) => t.len() > 0 && trim(t) == t && !has_any_prefix(t, skips),
            None => true,
        },
    decreases lines.len(),
{
    if lines.len() > 0 {
        let t = trim(lines[0]);
        if t.len() > 0 && !has_any_prefix(t, skips) {
            crate::text::trim_by_is_idempotent(lines[0], Pat::Whitespace);
        } else {
            body_line_is_trimmed(lines.drop_first(), skips);
        }
    }
}

/// The hosts asked, in turn, for the device's public address.
pub open spec fn ip_hosts() -> Seq<Seq<char>> {
    seq!["api.ipify.org:80"@, "icanhazip.com:80"@]
}

/// Host `i` of `ip_hosts`.
pub fn ip_host(i: usize) -> (r: &'static str)
    requires
        i < ip_hosts().len(),
    ensures
        r@ == ip_hosts()[i as int],
{
    if i == 0 {
        "api.ipify.org:80"
    } else {
        "icanhazip.com:80"
    }
}

/// What to do next in the search for the public address.
pub enum IpStep {
    /// Ask host `i` of `ip_hosts`.
    Ask(usize),
    /// The search is over; this is the address line shown.
    Done(String),
}

/// The address a reply gives: its body line, when there was a reply.
pub open spec fn reply_address(reply: Option<Seq<char>>, skips: Seq<Seq<char>>) -> Option<Seq<char>> {
    match reply {
        Some(t) => body_line(lines_of(t), skips),
        None => None,
    }
}

/// The step after asking host `host`, which answered `reply` (`None` when it could not be
/// reached or read): the address the reply gives, else the next host, else `Unavailable`.
pub fn public_ip_next(host: usize, reply: Option<&str>, skips: &[&str]) -> (r: IpStep)
    requires
        host < ip_hosts().len(),
    ensures
        match reply_address(
            match reply {
                Some(t) => Some(t@),
                None => None,
            },
            str_views(skips@),
        ) {
            Some(v) => r matches IpStep::Done(s) && s@ == v,
            None => if host + 1 < ip_hosts().len() {
                r == IpStep::Ask((host + 1) as usize)
            } else {
                r matches IpStep::Done(s) && s@ == "Unavailable"@
            },
        },
{
    if let Some(t) = reply {
        if let Some(v) = first_body_line(t, skips) {
            return IpStep::Done(v);
        }
    }
    if host + 1 < 2 {
        IpStep::Ask(host + 1)
    } else {
        IpStep::Done("Unavailable".to_owned())
    }
}

/// The search for the public address ends with `Unavailable` or with a line that is not
/// empty, already trimmed, and none of the skipped header or markup lines.
pub proof fn public_ip_found_is_trimmed(reply: Option<Seq<char>>, skips: Seq<Seq<char>>)
    ensures
        match reply_address(reply, skips) {
            Some(v) => v.len() > 0 && trim(v) == v && !has_any_prefix(v, skips),
            None => true,
        },
{
    if let Some(t) = reply {
        body_line_is_trimmed(lines_of(t), skips);
    }
}

/// The days, hours and minutes an uptime is shown as account for it to the minute: the
/// hours are below 24, the minutes below 60, and together they fall short of the uptime
/// by less than a minute.
pub proof fn uptime_parts_cover(secs: nat)
    ensures
        (secs % 86400) / 3600 < 24,
        (secs % 3600) / 60 < 60,
        (secs / 86400) * 86400 + ((secs % 86400) / 3600) * 3600 + ((secs % 3600) / 60) * 60
            <= secs,
        secs < (secs / 86400) * 86400 + ((secs % 86400) / 3600) * 3600 + ((secs % 3600) / 60)
            * 60 + 60,
{
    let d = secs / 86400;
    let r = secs % 86400;
    let h = r / 3600;
    let m = (secs % 3600) / 60;
    vstd::arithmetic::div_mod::lemma_fundamental_div_mod(secs as int, 86400);
    vstd::arithmetic::div_mod::lemma_fundamental_div_mod(r as int, 3600);
    vstd::arithmetic::div_mod::lemma_fundamental_div_mod(secs as int, 3600);
    vstd::arithmetic::div_mod::lemma_fundamental_div_mod((secs % 3600) as int, 60);
    // secs % 3600 == r % 3600, since 86400 is a multiple of 3600
    vstd::arithmetic::div_mod::lemma_fundamental_div_mod_converse(
        secs as int,
        3600,
        (24 * d + h) as int,
        (r % 3600) as int,
    );
}

/// The value comes from the first line, wherever it stands, that a pattern hits and that
/// holds a `:`: everything after its first `:`, trimmed.
pub proof fn first_value_takes_first_hit(
    lines: Seq<Seq<char>>,
    pats: Seq<Seq<char>>,
    test: LineTest,
    i: int,
)
    requires
        0 <= i < lines.len(),
        line_selected(test, lines[i], pats),
        has_char(lines[i], ':'),
        forall|j: int|
            0 <= j < i ==> !(line_selected(test, #[trigger] lines[j], pats) && has_char(lines[j], ':')),
    ensures
        first_value(lines, pats, test) == Some(trim(after_first(lines[i], ':'))),
    decreases i,
{
    if i > 0 {
        let t = lines.drop_first();
        assert(!(line_selected(test, lines[0], pats) && has_char(lines[0], ':')));
        assert forall|j: int| 0 <= j < i - 1 implies !(line_selected(test, #[trigger] t[j], pats)
            && has_char(t[j], ':')) by {
            assert(t[j] == lines[j + 1]);
        }
        first_value_takes_first_hit(t, pats, test, i - 1);
    }
}

/// No line that a pattern hits holds a `:`: there is no value.
pub proof fn first_value_none_without_hit(lines: Seq<Seq<char>>, pats: Seq<Seq<char>>, test: LineTest)
    requires
        forall|j: int|
            0 <= j < lines.len() ==> !(line_selected(test, #[trigger] lines[j], pats) && has_char(
                lines[j],
                ':',
            )),
    ensures
        first_value(lines, pats, test) is None,
    decreases lines.len(),
{
    if lines.len() > 0 {
        let t = lines.drop_first();
        assert(!(line_selected(test, lines[0], pats) && has_char(lines[0], ':')));
        assert forall|j: int| 0 <= j < t.len() implies !(line_selected(test, #[trigger] t[j], pats)
            && has_char(t[j], ':')) by {
            assert(t[j] == lines[j + 1]);
        }
        first_value_none_without_hit(t, pats, test);
    }
}

/// The reply's address is its first line, wherever it stands, that is not blank once
/// trimmed and starts with none of the skipped prefixes, trimmed.
pub proof fn body_line_takes_first_body(lines: Seq<Seq<char>>, skips: Seq<Seq<char>>, i: int)
    requires
        0 <= i < lines.len(),
        trim(lines[i]).len() > 0,
        !has_any_prefix(trim(lines[i]), skips),
        forall|j: int|
            0 <= j < i ==> !(trim(#[trigger] lines[j]).len() > 0 && !has_any_prefix(
                trim(lines[j]),
                skips,
            )),
    ensures
        body_line(lines, skips) == Some(trim(lines[i])),
    decreases i,
{
    if i > 0 {
        let t = lines.drop_first();
        assert(!(trim(lines[0]).len() > 0 && !has_any_prefix(trim(lines[0]), skips)));
        assert forall|j: int| 0 <= j < i - 1 implies !(trim(#[trigger] t[j]).len() > 0
            && !has_any_prefix(trim(t[j]), skips)) by {
            assert(t[j] == lines[j + 1]);
        }
        body_line_takes_first_body(t, skips, i - 1);
    }
}

/// `line` sets the value of `key`: it starts with `key` and has a second word.
pub open spec fn sets_key(line: Seq<char>, key: Seq<char>) -> bool {
    key.is_prefix_of(line) && tokens_of(line).len() > 1
}

proof fn lemma_meminfo_unset(ls: Seq<Seq<char>>, total: u64, avail: u64)
    ensures
        (forall|j: int| 0 <= j < ls.len() ==> !sets_key(#[trigger] ls[j], "MemTotal:"@))
            ==> meminfo_from(ls, total, avail).0 == total,
        (forall|j: int| 0 <= j < ls.len() ==> !sets_key(#[trigger] ls[j], "MemAvailable:"@))
            ==> meminfo_from(ls, total, avail).1 == avail,
    decreases ls.len(),
{
    if ls.len() > 0 {
        let t = ls.drop_first();
        lemma_meminfo_unset(t, keyed_value(ls[0], "MemTotal:"@, total), keyed_value(ls[0], "MemAvailable:"@, avail));
        assert forall|j: int| 0 <= j < t.len() implies #[trigger] t[j] == ls[j + 1] by {}
    }
}

/// `MemTotal` is read from the last line that sets it, wherever it stands: its second
/// word as a number (0 when it is not one); `MemAvailable` likewise.
pub proof fn meminfo_takes_last_setting(ls: Seq<Seq<char>>, total: u64, avail: u64, i: int)
    requires
        0 <= i < ls.len(),
    ensures
        sets_key(ls[i], "MemTotal:"@) && (forall|j: int| i < j < ls.len() ==> !sets_key(
            #[trigger] ls[j],
            "MemTotal:"@,
        )) ==> meminfo_from(ls, total, avail).0 == parse_or_zero(tokens_of(ls[i])[1]),
        sets_key(ls[i], "MemAvailable:"@) && (forall|j: int| i < j < ls.len() ==> !sets_key(
            #[trigger] ls[j],
            "MemAvailable:"@,
        )) ==> meminfo_from(ls, total, avail).1 == parse_or_zero(tokens_of(ls[i])[1]),
    decreases i,
{
    let t = ls.drop_first();
    let t2 = keyed_value(ls[0], "MemTotal:"@, total);
    let a2 = keyed_value(ls[0], "MemAvailable:"@, avail);
    assert forall|j: int| 0 <= j < t.len() implies #[trigger] t[j] == ls[j + 1] by {}
    if i == 0 {
        lemma_meminfo_unset(t, t2, a2);
        if forall|j: int| 0 < j < ls.len() ==> !sets_key(#[trigger] ls[j], "MemTotal:"@) {
            assert forall|j: int| 0 <= j < t.len() implies !sets_key(#[trigger] t[j], "MemTotal:"@) by {
                assert(t[j] == ls[j + 1]);
            }
        }
        if forall|j: int| 0 < j < ls.len() ==> !sets_key(#[trigger] ls[j], "MemAvailable:"@) {
            assert forall|j: int| 0 <= j < t.len() implies !sets_key(#[trigger] t[j], "MemAvailable:"@) by {
                assert(t[j] == ls[j + 1]);
            }
        }
    } else {
        meminfo_takes_last_setting(t, t2, a2, i - 1);
        if forall|j: int| i < j < ls.len() ==> !sets_key(#[trigger] ls[j], "MemTotal:"@) {
            assert forall|j: int| i - 1 < j < t.len() implies !sets_key(#[trigger] t[j], "MemTotal:"@) by {
                assert(t[j] == ls[j + 1]);
            }
        }
        if forall|j: int| i < j < ls.len() ==> !sets_key(#[trigger] ls[j], "MemAvailable:"@) {
            assert forall|j: int| i - 1 < j < t.len() implies !sets_key(#[trigger] t[j], "MemAvailable:"@) by {
                assert(t[j] == ls[j + 1]);
            }
        }
    }
}

} // verus!
