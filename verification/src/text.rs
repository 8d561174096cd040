//! Character-sequence primitives: conversions between `str` and `Vec<char>`, and the
//! handful of `str` operations the library's parsers are built from.
use vstd::prelude::*;

verus! {

broadcast use vstd::string::group_string_axioms;

/// The characters of `s`, in order.
pub fn chars_of(s: &str) -> (v: Vec<char>)
    ensures
        v@ == s@,
{
    let mut v: Vec<char> = Vec::new();
    for c in it: s.chars()
        invariant
            v@ == it.seq().take(it.index() as int),
    {
        v.push(c);
    }
    v
}

/// The `String` made of the characters of `v`.
/// Trusted: calls std's `FromIterator<&char> for String` (`v.iter().collect()`), which
/// pushes each character in order, so the result's characters are exactly `v`'s.
#[verifier::external_body]
pub fn string_of(v: &Vec<char>) -> (s: String)
    ensures
        s@ == v@,
{
    v.iter().collect()
}

/// `char::is_whitespace`: the characters with the Unicode `White_Space` property.
pub open spec fn is_ws(c: char) -> bool {
    let u = c as u32;
    ||| 0x9 <= u <= 0xD
    ||| u == 0x20
    ||| u == 0x85
    ||| u == 0xA0
    ||| u == 0x1680
    ||| 0x2000 <= u <= 0x200A
    ||| u == 0x2028
    ||| u == 0x2029
    ||| u == 0x202F
    ||| u == 0x205F
    ||| u == 0x3000
}

pub fn is_whitespace(c: char) -> (r: bool)
    ensures
        r == is_ws(c),
{
    let u = c as u32;
    (0x9 <= u && u <= 0xD) || u == 0x20 || u == 0x85 || u == 0xA0 || u == 0x1680 || (0x2000 <= u
        && u <= 0x200A) || u == 0x2028 || u == 0x2029 || u == 0x202F || u == 0x205F || u == 0x3000
}

/// What a trim removes: whitespace, or every copy of one character.
pub enum Pat {
    Whitespace,
    Exactly(char),
}

pub open spec fn pat_matches(p: Pat, c: char) -> bool {
    match p {
        Pat::Whitespace => is_ws(c),
        Pat::Exactly(d) => c == d,
    }
}

pub fn matches_pat(p: &Pat, c: char) -> (r: bool)
    ensures
        r == pat_matches(*p, c),
{
    match p {
        Pat::Whitespace => is_whitespace(c),
        Pat::Exactly(d) => c == *d,
    }
}

/// The number of leading characters of `s` that `p` matches.
pub open spec fn lead_len(s: Seq<char>, p: Pat) -> nat
    decreases s.len(),
{
    if s.len() > 0 && pat_matches(p, s[0]) {
        1 + lead_len(s.drop_first(), p)
    } else {
        0
    }
}

/// The number of trailing characters of `s` that `p` matches.
pub open spec fn trail_len(s: Seq<char>, p: Pat) -> nat
    decreases s.len(),
{
    if s.len() > 0 && pat_matches(p, s.last()) {
        1 + trail_len(s.drop_last(), p)
    } else {
        0
    }
}

/// `s` with its leading characters matched by `p` removed.
pub open spec fn trim_start_by(s: Seq<char>, p: Pat) -> Seq<char> {
    s.skip(lead_len(s, p) as int)
}

/// `s` with its trailing characters matched by `p` removed.
pub open spec fn trim_end_by(s: Seq<char>, p: Pat) -> Seq<char> {
    s.take(s.len() - trail_len(s, p))
}

/// `str::trim_matches` (and, for `Pat::Whitespace`, `str::trim`).
pub open spec fn trim_by(s: Seq<char>, p: Pat) -> Seq<char> {
    trim_end_by(trim_start_by(s, p), p)
}

/// `str::trim`.
pub open spec fn trim(s: Seq<char>) -> Seq<char> {
    trim_by(s, Pat::Whitespace)
}

/// The leading run stops at the end or at a character `p` does not match.
pub proof fn lemma_lead_len_stop(s: Seq<char>, p: Pat)
    ensures
        lead_len(s, p) <= s.len(),
        lead_len(s, p) < s.len() ==> !pat_matches(p, s[lead_len(s, p) as int]),
    decreases s.len(),
{
    if s.len() > 0 && pat_matches(p, s[0]) {
        let t = s.drop_first();
        lemma_lead_len_stop(t, p);
        if lead_len(t, p) < t.len() {
            assert(t[lead_len(t, p) as int] == s[lead_len(s, p) as int]);
        }
    }
}

/// The trailing run stops at the start or at a character `p` does not match.
pub proof fn lemma_trail_len_stop(s: Seq<char>, p: Pat)
    ensures
        trail_len(s, p) <= s.len(),
        trail_len(s, p) < s.len() ==> !pat_matches(p, s[s.len() - trail_len(s, p) - 1]),
    decreases s.len(),
{
    if s.len() > 0 && pat_matches(p, s.last()) {
        let t = s.drop_last();
        lemma_trail_len_stop(t, p);
        if trail_len(t, p) < t.len() {
            assert(t[t.len() - trail_len(t, p) - 1] == s[s.len() - trail_len(s, p) - 1]);
        }
    }
}

/// Trimming twice trims no more than trimming once; a trimmed sequence that is not empty
/// starts and ends with a character `p` does not match.
pub proof fn trim_by_is_idempotent(s: Seq<char>, p: Pat)
    ensures
        trim_by(trim_by(s, p), p) == trim_by(s, p),
        trim_by(s, p).len() > 0 ==> !pat_matches(p, trim_by(s, p)[0]),
        trim_by(s, p).len() > 0 ==> !pat_matches(p, trim_by(s, p).last()),
{
    lemma_lead_len_stop(s, p);
    let a = s.skip(lead_len(s, p) as int);
    assert(a =~= trim_start_by(s, p));
    if a.len() > 0 {
        assert(a[0] == s[lead_len(s, p) as int]);
    }
    assert(lead_len(a, p) == 0);
    lemma_trail_len_stop(a, p);
    let r = a.take(a.len() - trail_len(a, p));
    assert(r =~= trim_by(s, p));
    if r.len() > 0 {
        assert(r[0] == a[0]);
        assert(r.last() == a[a.len() - trail_len(a, p) - 1]);
    }
    assert(lead_len(r, p) == 0);
    assert(trail_len(r, p) == 0);
    assert(r.skip(0) =~= r);
    assert(r.take(r.len() as int) =~= r);
}

/// Skipping `i` matched characters leaves the rest of the leading run.
pub proof fn lemma_lead_len_skip(s: Seq<char>, p: Pat, i: int)
    requires
        0 <= i <= s.len(),
        forall|k: int| 0 <= k < i ==> pat_matches(p, #[trigger] s[k]),
    ensures
        lead_len(s, p) == i + lead_len(s.skip(i), p),
    decreases i,
{
    if i == 0 {
        assert(s.skip(0) =~= s);
    } else {
        let t = s.drop_first();
        assert forall|k: int| 0 <= k < i - 1 implies pat_matches(p, #[trigger] t[k]) by {
            assert(t[k] == s[k + 1]);
        }
        lemma_lead_len_skip(t, p, i - 1);
        assert(t.skip(i - 1) =~= s.skip(i));
    }
}

/// Taking all but `n - j` matched trailing characters leaves the rest of the trailing run.
pub proof fn lemma_trail_len_take(s: Seq<char>, p: Pat, j: int)
    requires
        0 <= j <= s.len(),
        forall|k: int| j <= k < s.len() ==> pat_matches(p, #[trigger] s[k]),
    ensures
        trail_len(s, p) == (s.len() - j) + trail_len(s.take(j), p),
    decreases s.len() - j,
{
    if j == s.len() {
        assert(s.take(j) =~= s);
    } else {
        let t = s.drop_last();
        assert forall|k: int| j <= k < t.len() implies pat_matches(p, #[trigger] t[k]) by {
            assert(t[k] == s[k]);
        }
        lemma_trail_len_take(t, p, j);
        assert(t.take(j) =~= s.take(j));
    }
}

/// `str::trim_matches` / `str::trim` on a character sequence.
pub fn trim_chars(s: &[char], p: &Pat) -> (r: Vec<char>)
    ensures
        r@ == trim_by(s@, *p),
{
    let n = s.len();
    let mut a: usize = 0;
    while a < n && matches_pat(p, s[a])
        invariant
            a <= n == s@.len(),
            forall|k: int| 0 <= k < a ==> pat_matches(*p, #[trigger] s@[k]),
        decreases n - a,
    {
        a += 1;
    }
    proof {
        lemma_lead_len_skip(s@, *p, a as int);
        assert(lead_len(s@.skip(a as int), *p) == 0);
    }
    let ghost t = s@.skip(a as int);
    let mut b: usize = n;
    while b > a && matches_pat(p, s[b - 1])
        invariant
            a <= b <= n == s@.len(),
            t == s@.skip(a as int),
            forall|k: int| b <= k < n ==> pat_matches(*p, #[trigger] s@[k]),
        decreases b,
    {
        b -= 1;
    }
    proof {
        assert forall|k: int| b - a <= k < t.len() implies pat_matches(*p, #[trigger] t[k]) by {
            assert(t[k] == s@[k + a]);
        }
        lemma_trail_len_take(t, *p, b - a);
        assert(trail_len(t.take(b - a), *p) == 0) by {
            if b > a {
                assert(t.take(b - a).last() == s@[b - 1]);
            }
        }
    }
    let mut r: Vec<char> = Vec::new();
    let mut k: usize = a;
    while k < b
        invariant
            a <= k <= b <= n == s@.len(),
            r@ == s@.subrange(a as int, k as int),
        decreases b - k,
    {
        r.push(s[k]);
        k += 1;
    }
    assert(r@ =~= t.take(t.len() - trail_len(t, *p)));
    r
}

/// `str::starts_with` for a character prefix.
pub fn starts_with(s: &[char], prefix: &[char]) -> (r: bool)
    ensures
        r == prefix@.is_prefix_of(s@),
{
    if prefix.len() > s.len() {
        return false;
    }
    let mut k: usize = 0;
    while k < prefix.len()
        invariant
            prefix@.len() <= s@.len(),
            k <= prefix@.len(),
            forall|j: int| 0 <= j < k ==> prefix@[j] == s@[j],
        decreases prefix@.len() - k,
    {
        if prefix[k] != s[k] {
            return false;
        }
        k += 1;
    }
    true
}

/// Appends the characters of `src` to `dst`.
pub fn append(dst: &mut Vec<char>, src: &[char])
    ensures
        final(dst)@ == old(dst)@ + src@,
{
    let ghost start = dst@;
    let mut k: usize = 0;
    while k < src.len()
        invariant
            k <= src@.len(),
            dst@ == start + src@.take(k as int),
        decreases src@.len() - k,
    {
        dst.push(src[k]);
        k += 1;
        assert(start + src@.take(k as int) =~= (start + src@.take(k - 1)).push(src@[k - 1]));
    }
    assert(src@.take(src@.len() as int) =~= src@);
}

/// `s` without one trailing carriage return.
pub open spec fn strip_cr(s: Seq<char>) -> Seq<char> {
    if s.len() > 0 && s.last() == '\r' {
        s.drop_last()
    } else {
        s
    }
}

/// The lines of `cur + s` (`cur` being the start of the line in progress): `str::lines`,
/// which ends a line at each `\n`, drops a `\r` just before it, and yields no empty line
/// after a final `\n`.
pub open spec fn lines_from(s: Seq<char>, cur: Seq<char>) -> Seq<Seq<char>>
    decreases s.len(),
{
    if s.len() == 0 {
        if cur.len() > 0 {
            seq![cur]
        } else {
            Seq::empty()
        }
    } else if s[0] == '\n' {
        seq![strip_cr(cur)] + lines_from(s.drop_first(), Seq::empty())
    } else {
        lines_from(s.drop_first(), cur.push(s[0]))
    }
}

/// `str::lines`.
pub open spec fn lines_of(s: Seq<char>) -> Seq<Seq<char>> {
    lines_from(s, Seq::empty())
}

fn strip_cr_exec(v: Vec<char>) -> (r: Vec<char>)
    ensures
        r@ == strip_cr(v@),
{
    let mut v = v;
    if v.len() > 0 && v[v.len() - 1] == '\r' {
        v.pop();
    }
    v
}

/// The characters of each string.
pub open spec fn line_views(lines: Seq<String>) -> Seq<Seq<char>> {
    lines.map_values(|l: String| l@)
}

/// The characters of each string slice.
pub open spec fn str_views(strs: Seq<&str>) -> Seq<Seq<char>> {
    strs.map_values(|l: &str| l@)
}

/// The character sequences held by `v`.
pub open spec fn views(v: Seq<Vec<char>>) -> Seq<Seq<char>> {
    v.map_values(|l: Vec<char>| l@)
}

/// The lines of `s`, as `str::lines` splits them.
pub fn split_lines(s: &[char]) -> (r: Vec<Vec<char>>)
    ensures
        views(r@) == lines_of(s@),
{
    let mut out: Vec<Vec<char>> = Vec::new();
    let mut cur: Vec<char> = Vec::new();
    assert(s@.skip(0) =~= s@);
    assert(views(out@) + lines_of(s@) =~= lines_of(s@));
    let mut i: usize = 0;
    while i < s.len()
        invariant
            i <= s@.len(),
            lines_of(s@) == views(out@) + lines_from(s@.skip(i as int), cur@),
        decreases s@.len() - i,
    {
        let ghost rest = s@.skip(i as int);
        let ghost old_out = views(out@);
        let ghost old_cur = cur@;
        assert(rest[0] == s@[i as int]);
        assert(rest.drop_first() =~= s@.skip(i + 1));
        if s[i] == '\n' {
            let line = strip_cr_exec(cur);
            out.push(line);
            cur = Vec::new();
            assert(views(out@) =~= old_out.push(strip_cr(old_cur)));
            assert(old_out + (seq![strip_cr(old_cur)] + lines_from(s@.skip(i + 1), Seq::empty()))
                =~= old_out.push(strip_cr(old_cur)) + lines_from(s@.skip(i + 1), Seq::empty()));
        } else {
            cur.push(s[i]);
        }
        i += 1;
    }
    assert(s@.skip(i as int) =~= Seq::<char>::empty());
    let ghost last_out = views(out@);
    if cur.len() > 0 {
        let ghost c = cur@;
        out.push(cur);
        assert(views(out@) =~= last_out.push(c));
        assert(last_out + seq![c] =~= last_out.push(c));
    } else {
        assert(last_out + Seq::<Seq<char>>::empty() =~= last_out);
    }
    out
}

/// The whitespace-separated words of `cur + s` (`cur` being the word in progress):
/// `str::split_whitespace`.
pub open spec fn tokens_from(s: Seq<char>, cur: Seq<char>) -> Seq<Seq<char>>
    decreases s.len(),
{
    let done: Seq<Seq<char>> = if cur.len() > 0 {
        seq![cur]
    } else {
        Seq::empty()
    };
    if s.len() == 0 {
        done
    } else if is_ws(s[0]) {
        done + tokens_from(s.drop_first(), Seq::empty())
    } else {
        tokens_from(s.drop_first(), cur.push(s[0]))
    }
}

/// `str::split_whitespace`.
pub open spec fn tokens_of(s: Seq<char>) -> Seq<Seq<char>> {
    tokens_from(s, Seq::empty())
}

/// The words of `s`, as `str::split_whitespace` splits them.
pub fn split_whitespace(s: &[char]) -> (r: Vec<Vec<char>>)
    ensures
        views(r@) == tokens_of(s@),
{
    let mut out: Vec<Vec<char>> = Vec::new();
    let mut cur: Vec<char> = Vec::new();
    assert(s@.skip(0) =~= s@);
    assert(views(out@) + tokens_of(s@) =~= tokens_of(s@));
    let mut i: usize = 0;
    while i < s.len()
        invariant
            i <= s@.len(),
            tokens_of(s@) == views(out@) + tokens_from(s@.skip(i as int), cur@),
        decreases s@.len() - i,
    {
        let ghost rest = s@.skip(i as int);
        let ghost old_out = views(out@);
        let ghost old_cur = cur@;
        assert(rest[0] == s@[i as int]);
        assert(rest.drop_first() =~= s@.skip(i + 1));
        if is_whitespace(s[i]) {
            assert(tokens_from(rest, old_cur) == (if old_cur.len() > 0 {
                seq![old_cur]
            } else {
                Seq::<Seq<char>>::empty()
            }) + tokens_from(s@.skip(i + 1), Seq::empty()));
            if cur.len() > 0 {
                out.push(cur);
                cur = Vec::new();
                assert(views(out@) =~= old_out.push(old_cur));
                assert(old_out + (seq![old_cur] + tokens_from(s@.skip(i + 1), Seq::empty()))
                    =~= old_out.push(old_cur) + tokens_from(s@.skip(i + 1), Seq::empty()));
                assert(tokens_of(s@) == views(out@) + tokens_from(s@.skip(i + 1), cur@));
            } else {
                assert(Seq::<Seq<char>>::empty() + tokens_from(s@.skip(i + 1), Seq::empty())
                    =~= tokens_from(s@.skip(i + 1), Seq::empty()));
                assert(cur@ =~= Seq::<char>::empty());
                assert(tokens_of(s@) == views(out@) + tokens_from(s@.skip(i + 1), cur@));
            }
        } else {
            assert(tokens_from(rest, old_cur) == tokens_from(s@.skip(i + 1), old_cur.push(s@[i as int])));
            cur.push(s[i]);
        }
        i += 1;
    }
    assert(s@.skip(i as int) =~= Seq::<char>::empty());
    let ghost last_out = views(out@);
    if cur.len() > 0 {
        let ghost c = cur@;
        out.push(cur);
        assert(views(out@) =~= last_out.push(c));
        assert(last_out + seq![c] =~= last_out.push(c));
    } else {
        assert(last_out + Seq::<Seq<char>>::empty() =~= last_out);
    }
    out
}

/// The index of the first `c` in `s`, or `s.len()` when there is none.
pub open spec fn find_char(s: Seq<char>, c: char) -> nat
    decreases s.len(),
{
    if s.len() == 0 {
        0
    } else if s[0] == c {
        0
    } else {
        1 + find_char(s.drop_first(), c)
    }
}

pub proof fn lemma_find_char(s: Seq<char>, c: char, m: int)
    requires
        0 <= m <= s.len(),
        forall|k: int| 0 <= k < m ==> #[trigger] s[k] != c,
        m == s.len() || s[m] == c,
    ensures
        find_char(s, c) == m,
    decreases m,
{
    if m > 0 {
        let t = s.drop_first();
        assert forall|k: int| 0 <= k < m - 1 implies #[trigger] t[k] != c by {
            assert(t[k] == s[k + 1]);
        }
        lemma_find_char(t, c, m - 1);
    }
}

/// The index of the first `c` in `s`, or `s.len()` when there is none.
pub fn find(s: &[char], c: char) -> (r: usize)
    ensures
        r == find_char(s@, c),
        r <= s@.len(),
{
    let mut k: usize = 0;
    while k < s.len() && s[k] != c
        invariant
            k <= s@.len(),
            forall|j: int| 0 <= j < k ==> #[trigger] s@[j] != c,
        decreases s@.len() - k,
    {
        k += 1;
    }
    proof {
        lemma_find_char(s@, c, k as int);
    }
    k
}

/// The characters after the first `c` in `s` (`s` must hold a `c`): the second part of
/// `str::splitn(2, c)`.
pub open spec fn after_first(s: Seq<char>, c: char) -> Seq<char> {
    s.skip(find_char(s, c) as int + 1)
}

/// `s` holds `c`.
pub open spec fn has_char(s: Seq<char>, c: char) -> bool {
    find_char(s, c) < s.len()
}

/// The characters of `s` from index `from` on.
pub fn tail(s: &[char], from: usize) -> (r: Vec<char>)
    requires
        from <= s@.len(),
    ensures
        r@ == s@.skip(from as int),
{
    let mut r: Vec<char> = Vec::new();
    let mut k: usize = from;
    while k < s.len()
        invariant
            from <= k <= s@.len(),
            r@ == s@.subrange(from as int, k as int),
        decreases s@.len() - k,
    {
        r.push(s[k]);
        k += 1;
    }
    r
}

/// `pat` occurs in `s` starting at index `i`.
pub open spec fn occurs_at(s: Seq<char>, pat: Seq<char>, i: int) -> bool {
    0 <= i && i + pat.len() <= s.len() && s.subrange(i, i + pat.len()) == pat
}

/// `str::contains` for a string pattern.
pub open spec fn contains(s: Seq<char>, pat: Seq<char>) -> bool {
    exists|i: int| #[trigger] occurs_at(s, pat, i)
}

fn matches_at(s: &[char], pat: &[char], i: usize) -> (r: bool)
    requires
        i + pat@.len() <= s@.len(),
    ensures
        r == occurs_at(s@, pat@, i as int),
{
    let n = s.len();
    let mut k: usize = 0;
    while k < pat.len()
        invariant
            n == s@.len(),
            i + pat@.len() <= s@.len(),
            k <= pat@.len(),
            forall|j: int| 0 <= j < k ==> s@[i + j] == pat@[j],
        decreases pat@.len() - k,
    {
        if s[i + k] != pat[k] {
            assert(s@.subrange(i as int, i + pat@.len())[k as int] != pat@[k as int]);
            return false;
        }
        k += 1;
    }
    assert(s@.subrange(i as int, i + pat@.len()) =~= pat@);
    true
}

/// `pat` occurs somewhere in `s`.
pub fn contains_chars(s: &[char], pat: &[char]) -> (r: bool)
    ensures
        r == contains(s@, pat@),
{
    if pat.len() == 0 {
        assert(s@.subrange(0, 0) =~= pat@);
        assert(occurs_at(s@, pat@, 0));
        return true;
    }
    if pat.len() > s.len() {
        assert forall|i: int| !#[trigger] occurs_at(s@, pat@, i) by {}
        return false;
    }
    let n = s.len();
    let last = n - pat.len();
    let mut i: usize = 0;
    while i <= last
        invariant
            n == s@.len(),
            last + pat@.len() == s@.len(),
            pat@.len() > 0,
            i <= last + 1,
            forall|j: int| 0 <= j < i ==> !#[trigger] occurs_at(s@, pat@, j),
        decreases last + 1 - i,
    {
        if matches_at(s, pat, i) {
            return true;
        }
        i += 1;
    }
    assert forall|j: int| !#[trigger] occurs_at(s@, pat@, j) by {
        if 0 <= j && j + pat@.len() <= s@.len() {
            assert(j < i);
        }
    }
    false
}

/// The number of copies of `c` in `s`.
pub open spec fn count_char(s: Seq<char>, c: char) -> nat
    decreases s.len(),
{
    if s.len() == 0 {
        0
    } else {
        count_char(s.drop_last(), c) + if s.last() == c {
            1nat
        } else {
            0nat
        }
    }
}

/// The number of copies of `c` in `s`.
pub fn count(s: &[char], c: char) -> (r: usize)
    ensures
        r == count_char(s@, c),
{
    let mut n: usize = 0;
    let mut k: usize = 0;
    while k < s.len()
        invariant
            k <= s@.len(),
            n == count_char(s@.take(k as int), c),
            n <= k,
        decreases s@.len() - k,
    {
        assert(s@.take(k + 1).drop_last() =~= s@.take(k as int));
        if s[k] == c {
            n += 1;
        }
        k += 1;
    }
    assert(s@.take(s@.len() as int) =~= s@);
    n
}

/// The number of bytes `c` takes in UTF-8.
pub open spec fn utf8_width(c: char) -> nat {
    let u = c as u32;
    if u < 0x80 {
        1
    } else if u < 0x800 {
        2
    } else if u < 0x10000 {
        3
    } else {
        4
    }
}

/// The length of `s` in UTF-8 bytes: `str::len`.
pub open spec fn utf8_len(s: Seq<char>) -> nat
    decreases s.len(),
{
    if s.len() == 0 {
        0
    } else {
        utf8_len(s.drop_last()) + utf8_width(s.last())
    }
}

pub proof fn lemma_utf8_len_prefix(s: Seq<char>, k: int)
    requires
        0 <= k <= s.len(),
    ensures
        utf8_len(s.take(k)) <= utf8_len(s),
    decreases s.len() - k,
{
    if k < s.len() {
        lemma_utf8_len_prefix(s, k + 1);
        assert(s.take(k + 1).drop_last() =~= s.take(k));
        assert(utf8_len(s.take(k + 1)) == utf8_len(s.take(k)) + utf8_width(s.take(k + 1).last()));
    } else {
        assert(s.take(k) =~= s);
    }
}

/// Whether `s` takes more than `limit` bytes in UTF-8.
pub fn utf8_len_exceeds(s: &[char], limit: usize) -> (r: bool)
    ensures
        r == (utf8_len(s@) > limit),
{
    let mut n: usize = 0;
    let mut k: usize = 0;
    while k < s.len()
        invariant
            k <= s@.len(),
            n == utf8_len(s@.take(k as int)),
            n <= limit,
        decreases s@.len() - k,
    {
        assert(s@.take(k + 1).drop_last() =~= s@.take(k as int));
        let u = s[k] as u32;
        let width: usize = if u < 0x80 {
            1
        } else if u < 0x800 {
            2
        } else if u < 0x10000 {
            3
        } else {
            4
        };
        if width > limit - n {
            proof {
                lemma_utf8_len_prefix(s@, k + 1);
            }
            return true;
        }
        n += width;
        k += 1;
    }
    assert(s@.take(s@.len() as int) =~= s@);
    false
}

/// `c` is an ASCII decimal digit.
pub open spec fn is_digit(c: char) -> bool {
    48 <= (c as u32) <= 57
}

/// The value of the decimal digits `d`.
pub open spec fn digits_value(d: Seq<char>) -> nat
    decreases d.len(),
{
    if d.len() == 0 {
        0
    } else {
        digits_value(d.drop_last()) * 10 + ((d.last() as u32) - 48) as nat
    }
}

pub open spec fn all_digits(d: Seq<char>) -> bool {
    forall|i: int| 0 <= i < d.len() ==> is_digit(#[trigger] d[i])
}

/// `str::parse::<u64>`: an optional `+`, then one or more decimal digits whose value fits.
pub open spec fn parse_u64_spec(s: Seq<char>) -> Option<u64> {
    let d = if s.len() > 0 && s[0] == '+' {
        s.drop_first()
    } else {
        s
    };
    if d.len() > 0 && all_digits(d) && digits_value(d) <= u64::MAX {
        Some(digits_value(d) as u64)
    } else {
        None
    }
}

/// Parses `s` as `str::parse::<u64>` does.
pub fn parse_u64(s: &[char]) -> (r: Option<u64>)
    ensures
        r == parse_u64_spec(s@),
{
    let start: usize = if s.len() > 0 && s[0] == '+' {
        1
    } else {
        0
    };
    let ghost d = s@.skip(start as int);
    assert(d =~= if s@.len() > 0 && s@[0] == '+' {
        s@.drop_first()
    } else {
        s@
    });
    if start == s.len() {
        return None;
    }
    let mut acc: u64 = 0;
    let mut overflow = false;
    let mut i: usize = start;
    while i < s.len()
        invariant
            start <= i <= s@.len(),
            d == s@.skip(start as int),
            d == if s@.len() > 0 && s@[0] == '+' {
                s@.drop_first()
            } else {
                s@
            },
            forall|k: int| 0 <= k < i - start ==> is_digit(#[trigger] d[k]),
            !overflow ==> acc == digits_value(d.take(i - start)),
            overflow ==> digits_value(d.take(i - start)) > u64::MAX,
        decreases s@.len() - i,
    {
        let c = s[i];
        let u = c as u32;
        assert(d[i - start] == c);
        if u < 48 || u > 57 {
            assert(!is_digit(d[i - start]));
            assert(!all_digits(d));
            return None;
        }
        assert(d.take(i - start + 1).drop_last() =~= d.take(i - start));
        let dig = (u - 48) as u64;
        if !overflow {
            match acc.checked_mul(10) {
                Some(t) => match t.checked_add(dig) {
                    Some(v) => {
                        acc = v;
                    },
                    None => {
                        overflow = true;
                    },
                },
                None => {
                    overflow = true;
                },
            }
        }
        i += 1;
    }
    assert(d.take(d.len() as int) =~= d);
    if overflow {
        None
    } else {
        Some(acc)
    }
}

/// The character of the decimal digit `d` (0 to 9).
pub open spec fn digit_char(d: nat) -> char {
    if d == 0 {
        '0'
    } else if d == 1 {
        '1'
    } else if d == 2 {
        '2'
    } else if d == 3 {
        '3'
    } else if d == 4 {
        '4'
    } else if d == 5 {
        '5'
    } else if d == 6 {
        '6'
    } else if d == 7 {
        '7'
    } else if d == 8 {
        '8'
    } else {
        '9'
    }
}

fn digit(d: u128) -> (c: char)
    requires
        d < 10,
    ensures
        c == digit_char(d as nat),
{
    if d == 0 {
        '0'
    } else if d == 1 {
        '1'
    } else if d == 2 {
        '2'
    } else if d == 3 {
        '3'
    } else if d == 4 {
        '4'
    } else if d == 5 {
        '5'
    } else if d == 6 {
        '6'
    } else if d == 7 {
        '7'
    } else if d == 8 {
        '8'
    } else {
        '9'
    }
}

/// The decimal digits of `n`, most significant first, without leading zeros.
pub open spec fn dec_chars(n: nat) -> Seq<char>
    decreases n,
{
    if n < 10 {
        seq![digit_char(n)]
    } else {
        dec_chars(n / 10).push(digit_char(n % 10))
    }
}

/// `n.to_string()` for a `u128`.
pub fn u128_chars(n: u128) -> (r: Vec<char>)
    ensures
        r@ == dec_chars(n as nat),
    decreases n,
{
    let d = digit(n % 10);
    if n < 10 {
        let mut v: Vec<char> = Vec::new();
        v.push(d);
        v
    } else {
        let mut v = u128_chars(n / 10);
        v.push(d);
        v
    }
}

/// `n.to_string()` for a `u64`.
pub fn u64_chars(n: u64) -> (r: Vec<char>)
    ensures
        r@ == dec_chars(n as nat),
{
    u128_chars(n as u128)
}

/// `n.to_string()` for an `i32`: a minus sign for negative numbers, then the digits.
pub open spec fn i32_chars_spec(n: i32) -> Seq<char> {
    if n < 0 {
        seq!['-'] + dec_chars((-n) as nat)
    } else {
        dec_chars(n as nat)
    }
}

/// `n.to_string()` for an `i32`.
pub fn i32_chars(n: i32) -> (r: Vec<char>)
    ensures
        r@ == i32_chars_spec(n),
{
    if n < 0 {
        let m: u64 = (-(n as i64)) as u64;
        let digits = u64_chars(m);
        let mut v: Vec<char> = Vec::new();
        v.push('-');
        append(&mut v, digits.as_slice());
        v
    } else {
        u64_chars(n as u64)
    }
}

/// The digits of a number read back give the number: parsing is the inverse of printing.
pub proof fn parse_u64_inverts_dec(n: u64)
    ensures
        parse_u64_spec(dec_chars(n as nat)) == Some(n),
{
    lemma_dec_chars_digits(n as nat);
    let s = dec_chars(n as nat);
    assert(s[0] != '+');
}

proof fn lemma_digit_char(d: nat)
    requires
        d < 10,
    ensures
        digit_char(d) as u32 == 48 + d,
{
    assert('0' as u32 == 48);
    assert('9' as u32 == 57);
}

proof fn lemma_dec_chars_digits(n: nat)
    ensures
        dec_chars(n).len() > 0,
        all_digits(dec_chars(n)),
        digits_value(dec_chars(n)) == n,
    decreases n,
{
    lemma_digit_char(n % 10);
    if n < 10 {
        let s = dec_chars(n);
        assert(s.drop_last() =~= Seq::<char>::empty());
        assert(digits_value(s) == digits_value(s.drop_last()) * 10 + ((s.last() as u32) - 48) as nat);
    } else {
        lemma_dec_chars_digits(n / 10);
        let s = dec_chars(n);
        assert(s.drop_last() =~= dec_chars(n / 10));
        assert(digits_value(s) == digits_value(s.drop_last()) * 10 + ((s.last() as u32) - 48) as nat);
        assert(n == (n / 10) * 10 + n % 10);
        assert forall|i: int| 0 <= i < s.len() implies is_digit(#[trigger] s[i]) by {
            if i < s.len() - 1 {
                assert(s[i] == dec_chars(n / 10)[i]);
            }
        }
    }
}

/// Whether `a` and `b` hold the same characters.
pub fn eq_chars(a: &[char], b: &[char]) -> (r: bool)
    ensures
        r == (a@ == b@),
{
    if a.len() != b.len() {
        return false;
    }
    let mut k: usize = 0;
    while k < a.len()
        invariant
            a@.len() == b@.len(),
            k <= a@.len(),
            forall|j: int| 0 <= j < k ==> a@[j] == b@[j],
        decreases a@.len() - k,
    {
        if a[k] != b[k] {
            return false;
        }
        k += 1;
    }
    assert(a@ =~= b@);
    true
}

} // verus!
