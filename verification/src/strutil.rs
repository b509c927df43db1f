//! Verified text helpers: trimming, comparison, search and splitting over
//! `&str`, each proved against a small recursive specification.

use vstd::prelude::*;

verus! {

/// Unicode `White_Space`, the set `str::trim` removes.
pub open spec fn is_space(c: char) -> bool {
    (9 <= c as u32 <= 13) || c as u32 == 32 || c as u32 == 0x85 || c as u32 == 0xA0 || c as u32
        == 0x1680 || (0x2000 <= c as u32 <= 0x200A) || c as u32 == 0x2028 || c as u32 == 0x2029
        || c as u32 == 0x202F || c as u32 == 0x205F || c as u32 == 0x3000
}

/// Whether `c` is one of the status markers stripped from the front of a
/// list line: checkbox and cart emoji, a bullet, and the emoji variation
/// selector.
pub open spec fn is_line_marker(c: char) -> bool {
    c == '☑' || c == '✅' || c == '⬜' || c == '🛒' || c == '•' || c == '🗑' || c == '\u{fe0f}'
}

/// ASCII digit or whitespace: what quantity normalization strips in front.
pub open spec fn is_digit_or_space(c: char) -> bool {
    (48 <= c as u32 <= 57) || is_space(c)
}

pub fn is_space_char(c: char) -> (r: bool)
    ensures
        r == is_space(c),
{
    let u = c as u32;
    (9 <= u && u <= 13) || u == 32 || u == 0x85 || u == 0xA0 || u == 0x1680 || (0x2000 <= u && u
        <= 0x200A) || u == 0x2028 || u == 0x2029 || u == 0x202F || u == 0x205F || u == 0x3000
}

pub fn is_line_marker_char(c: char) -> (r: bool)
    ensures
        r == is_line_marker(c),
{
    c == '☑' || c == '✅' || c == '⬜' || c == '🛒' || c == '•' || c == '🗑' || c == '\u{fe0f}'
}

pub fn is_digit_or_space_char(c: char) -> (r: bool)
    ensures
        r == is_digit_or_space(c),
{
    let u = c as u32;
    (48 <= u && u <= 57) || is_space_char(c)
}

/// Drop every leading character satisfying `p`.
pub open spec fn ltrim_by(s: Seq<char>, p: spec_fn(char) -> bool) -> Seq<char>
    decreases s.len(),
{
    if s.len() > 0 && p(s[0]) {
        ltrim_by(s.skip(1), p)
    } else {
        s
    }
}

/// Drop every trailing character satisfying `p`.
pub open spec fn rtrim_by(s: Seq<char>, p: spec_fn(char) -> bool) -> Seq<char>
    decreases s.len(),
{
    if s.len() > 0 && p(s.last()) {
        rtrim_by(s.drop_last(), p)
    } else {
        s
    }
}

/// Both ends trimmed of whitespace, as `str::trim` leaves a string.
pub open spec fn trim_spec(s: Seq<char>) -> Seq<char> {
    rtrim_by(ltrim_by(s, |c: char| is_space(c)), |c: char| is_space(c))
}

/// If the first `i` characters satisfy `p` and the next one (if any) does
/// not, the left trim is exactly the suffix from `i`.
pub proof fn lemma_ltrim_at(s: Seq<char>, p: spec_fn(char) -> bool, i: int)
    requires
        0 <= i <= s.len(),
        forall|j: int| 0 <= j < i ==> p(s[j]),
        i == s.len() || !p(s[i]),
    ensures
        ltrim_by(s, p) == s.skip(i),
    decreases i,
{
    if i == 0 {
        assert(s.skip(0) =~= s);
    } else {
        let t = s.skip(1);
        assert(forall|j: int| 0 <= j < i - 1 ==> p(#[trigger] t[j]));
        assert(i - 1 == t.len() || !p(t[i - 1]));
        lemma_ltrim_at(t, p, i - 1);
        assert(t.skip(i - 1) =~= s.skip(i));
    }
}

/// If the characters from `k` on satisfy `p` and the one before `k` (if
/// any) does not, the right trim is exactly the prefix up to `k`.
pub proof fn lemma_rtrim_at(s: Seq<char>, p: spec_fn(char) -> bool, k: int)
    requires
        0 <= k <= s.len(),
        forall|j: int| k <= j < s.len() ==> p(s[j]),
        k == 0 || !p(s[k - 1]),
    ensures
        rtrim_by(s, p) == s.take(k),
    decreases s.len() - k,
{
    if k == s.len() {
        assert(s.take(k) =~= s);
    } else {
        let t = s.drop_last();
        assert(p(s.last()));
        assert(forall|j: int| k <= j < t.len() ==> p(#[trigger] t[j]));
        lemma_rtrim_at(t, p, k);
        assert(t.take(k) =~= s.take(k));
    }
}

/// `str::trim`: the string without leading and trailing whitespace.
pub fn trim_ws(s: &str) -> (r: &str)
    ensures
        r@ == trim_spec(s@),
{
    let n = s.unicode_len();
    let mut start: usize = 0;
    while start < n && is_space_char(s.get_char(start))
        invariant
            0 <= start <= n,
            n == s@.len(),
            forall|j: int| 0 <= j < start ==> is_space(s@[j]),
        decreases n - start,
    {
        start = start + 1;
    }
    let mut end: usize = n;
    while end > start && is_space_char(s.get_char(end - 1))
        invariant
            start <= end <= n,
            n == s@.len(),
            forall|j: int| 0 <= j < start ==> is_space(s@[j]),
            forall|j: int| end <= j < n ==> is_space(s@[j]),
        decreases end,
    {
        end = end - 1;
    }
    let r = s.substring_char(start, end);
    proof {
        let p = |c: char| is_space(c);
        lemma_ltrim_at(s@, p, start as int);
        let u = s@.skip(start as int);
        assert(forall|j: int| end - start <= j < u.len() ==> p(#[trigger] u[j]));
        if end > start {
            assert(u[end - start - 1] == s@[end - 1]);
        }
        lemma_rtrim_at(u, p, end - start);
        assert(u.take(end - start) =~= s@.subrange(start as int, end as int));
    }
    r
}

/// Leading characters of the marker set stripped, then whitespace trimmed:
/// how a list line is cleaned.
pub open spec fn clean_line_spec(s: Seq<char>) -> Seq<char> {
    trim_spec(ltrim_by(s, |c: char| is_line_marker(c)))
}

/// The line without its leading status markers, whitespace-trimmed.
pub fn clean_line(s: &str) -> (r: &str)
    ensures
        r@ == clean_line_spec(s@),
{
    let n = s.unicode_len();
    let mut start: usize = 0;
    while start < n && is_line_marker_char(s.get_char(start))
        invariant
            0 <= start <= n,
            n == s@.len(),
            forall|j: int| 0 <= j < start ==> is_line_marker(s@[j]),
        decreases n - start,
    {
        start = start + 1;
    }
    let stripped = s.substring_char(start, n);
    proof {
        let p = |c: char| is_line_marker(c);
        lemma_ltrim_at(s@, p, start as int);
        assert(s@.subrange(start as int, n as int) =~= s@.skip(start as int));
    }
    trim_ws(stripped)
}

/// Leading digits and whitespace stripped, then whitespace trimmed: the
/// quantity-free core of an item text.
pub open spec fn strip_quantity_spec(s: Seq<char>) -> Seq<char> {
    trim_spec(ltrim_by(s, |c: char| is_digit_or_space(c)))
}

/// The text without any leading quantity digits or spaces.
pub fn strip_quantity(s: &str) -> (r: &str)
    ensures
        r@ == strip_quantity_spec(s@),
{
    let n = s.unicode_len();
    let mut start: usize = 0;
    while start < n && is_digit_or_space_char(s.get_char(start))
        invariant
            0 <= start <= n,
            n == s@.len(),
            forall|j: int| 0 <= j < start ==> is_digit_or_space(s@[j]),
        decreases n - start,
    {
        start = start + 1;
    }
    let stripped = s.substring_char(start, n);
    proof {
        let p = |c: char| is_digit_or_space(c);
        lemma_ltrim_at(s@, p, start as int);
        assert(s@.subrange(start as int, n as int) =~= s@.skip(start as int));
    }
    trim_ws(stripped)
}

/// Character-for-character string equality.
pub fn str_eq(a: &str, b: &str) -> (r: bool)
    ensures
        r == (a@ == b@),
{
    let na = a.unicode_len();
    let nb = b.unicode_len();
    if na != nb {
        proof {
            assert(a@ != b@);
        }
        return false;
    }
    let mut i: usize = 0;
    while i < na
        invariant
            0 <= i <= na,
            na == a@.len(),
            na == b@.len(),
            forall|j: int| 0 <= j < i ==> a@[j] == b@[j],
        decreases na - i,
    {
        if a.get_char(i) != b.get_char(i) {
            return false;
        }
        i = i + 1;
    }
    proof {
        assert(a@ =~= b@);
    }
    true
}

/// Whether `p` is a prefix of `s`.
pub open spec fn starts_with_spec(s: Seq<char>, p: Seq<char>) -> bool {
    s.len() >= p.len() && s.take(p.len() as int) == p
}

pub fn starts_with(s: &str, p: &str) -> (r: bool)
    ensures
        r == starts_with_spec(s@, p@),
{
    let ns = s.unicode_len();
    let np = p.unicode_len();
    if ns < np {
        return false;
    }
    let mut i: usize = 0;
    while i < np
        invariant
            0 <= i <= np,
            np <= ns,
            ns == s@.len(),
            np == p@.len(),
            forall|j: int| 0 <= j < i ==> s@[j] == p@[j],
        decreases np - i,
    {
        if s.get_char(i) != p.get_char(i) {
            proof {
                assert(s@.take(np as int)[i as int] != p@[i as int]);
            }
            return false;
        }
        i = i + 1;
    }
    proof {
        assert(s@.take(np as int) =~= p@);
    }
    true
}

/// Whether `pat` occurs in `s` starting at position `i`.
pub open spec fn matches_at(s: Seq<char>, pat: Seq<char>, i: int) -> bool {
    0 <= i && i + pat.len() <= s.len() && s.subrange(i, i + pat.len()) == pat
}

/// Whether `pat` occurs anywhere in `s`.
pub open spec fn contains_spec(s: Seq<char>, pat: Seq<char>) -> bool {
    exists|i: int| matches_at(s, pat, i)
}

/// Whether `pat` occurs at position `i` of `s`, checked directly.
fn matches_at_exec(s: &str, pat: &str, i: usize) -> (r: bool)
    requires
        i + pat@.len() <= s@.len(),
    ensures
        r == matches_at(s@, pat@, i as int),
{
    let np = pat.unicode_len();
    let ns = s.unicode_len();
    let mut j: usize = 0;
    while j < np
        invariant
            0 <= j <= np,
            np == pat@.len(),
            ns == s@.len(),
            i + np <= ns,
            forall|k: int| 0 <= k < j ==> s@[i + k] == pat@[k],
        decreases np - j,
    {
        if s.get_char(i + j) != pat.get_char(j) {
            proof {
                assert(s@.subrange(i as int, i + np)[j as int] != pat@[j as int]);
            }
            return false;
        }
        j = j + 1;
    }
    proof {
        assert(s@.subrange(i as int, i + np) =~= pat@);
    }
    true
}

/// Substring search, as `str::contains`.
pub fn contains_str(s: &str, pat: &str) -> (r: bool)
    ensures
        r == contains_spec(s@, pat@),
{
    let ns = s.unicode_len();
    let np = pat.unicode_len();
    if np > ns {
        proof {
            assert(forall|i: int| !matches_at(s@, pat@, i));
        }
        return false;
    }
    if np == 0 {
        proof {
            assert(s@.subrange(0, 0) =~= pat@);
            assert(matches_at(s@, pat@, 0));
        }
        return true;
    }
    let mut i: usize = 0;
    while i <= ns - np
        invariant
            0 <= i <= ns - np + 1,
            ns == s@.len(),
            np == pat@.len(),
            1 <= np <= ns,
            forall|k: int| 0 <= k < i ==> !matches_at(s@, pat@, k),
        decreases ns - i,
    {
        if matches_at_exec(s, pat, i) {
            return true;
        }
        i = i + 1;
    }
    proof {
        assert(forall|k: int| !matches_at(s@, pat@, k)) by {
            assert(forall|k: int| k + pat@.len() > s@.len() ==> !matches_at(s@, pat@, k));
        }
    }
    false
}

/// Index of the first character satisfying `p`, or the length if none does.
pub open spec fn find_by(s: Seq<char>, p: spec_fn(char) -> bool) -> int
    decreases s.len(),
{
    if s.len() == 0 {
        0
    } else if p(s[0]) {
        0
    } else {
        1 + find_by(s.skip(1), p)
    }
}

pub proof fn lemma_find_by_props(s: Seq<char>, p: spec_fn(char) -> bool)
    ensures
        0 <= find_by(s, p) <= s.len(),
        find_by(s, p) < s.len() ==> p(s[find_by(s, p)]),
        forall|j: int| 0 <= j < find_by(s, p) ==> !p(s[j]),
    decreases s.len(),
{
    if s.len() == 0 || p(s[0]) {
    } else {
        let t = s.skip(1);
        lemma_find_by_props(t, p);
        assert(forall|j: int| 1 <= j < find_by(s, p) ==> !p(#[trigger] s[j])) by {
            assert(forall|j: int| 0 <= j < find_by(t, p) ==> !p(#[trigger] t[j]));
            assert(forall|j: int| 1 <= j < find_by(s, p) ==> s[j] == t[j - 1]);
        }
    }
}

/// If no character before `i` satisfies `p` and the one at `i` does (or `i`
/// is the length), then `i` is the first hit.
pub proof fn lemma_find_by_at(s: Seq<char>, p: spec_fn(char) -> bool, i: int)
    requires
        0 <= i <= s.len(),
        forall|j: int| 0 <= j < i ==> !p(s[j]),
        i == s.len() || p(s[i]),
    ensures
        find_by(s, p) == i,
    decreases i,
{
    if i == 0 {
        if s.len() > 0 {
            lemma_find_by_props(s, p);
        }
    } else {
        let t = s.skip(1);
        assert(forall|j: int| 0 <= j < i - 1 ==> !p(#[trigger] t[j]));
        assert(i - 1 == t.len() || p(t[i - 1]));
        lemma_find_by_at(t, p, i - 1);
    }
}

/// The pieces of `s` between characters satisfying `p`; the separators
/// themselves are dropped.  An empty string yields one empty piece.
pub open spec fn split_by(s: Seq<char>, p: spec_fn(char) -> bool) -> Seq<Seq<char>>
    decreases s.len(),
    via split_by_decreases
{
    let f = find_by(s, p);
    if f == s.len() {
        seq![s]
    } else {
        seq![s.take(f)] + split_by(s.skip(f + 1), p)
    }
}

#[via_fn]
proof fn split_by_decreases(s: Seq<char>, p: spec_fn(char) -> bool) {
    lemma_find_by_props(s, p);
}

/// Index of the first occurrence of `pat`, or the length if there is none.
pub open spec fn find_sub(s: Seq<char>, pat: Seq<char>) -> int
    decreases s.len(),
{
    if matches_at(s, pat, 0) {
        0
    } else if s.len() == 0 {
        0
    } else {
        1 + find_sub(s.skip(1), pat)
    }
}

pub proof fn lemma_matches_at_skip(s: Seq<char>, pat: Seq<char>, k: int)
    requires
        s.len() > 0,
        k >= 0,
    ensures
        matches_at(s.skip(1), pat, k) == matches_at(s, pat, k + 1),
{
    let t = s.skip(1);
    if k + pat.len() <= t.len() {
        assert(t.subrange(k, k + pat.len() as int) =~= s.subrange(k + 1, k + 1 + pat.len() as int));
    }
}

pub proof fn lemma_find_sub_props(s: Seq<char>, pat: Seq<char>)
    requires
        pat.len() > 0,
    ensures
        0 <= find_sub(s, pat) <= s.len(),
        find_sub(s, pat) < s.len() ==> matches_at(s, pat, find_sub(s, pat)),
        forall|k: int| 0 <= k < find_sub(s, pat) ==> !matches_at(s, pat, k),
    decreases s.len(),
{
    if matches_at(s, pat, 0) || s.len() == 0 {
    } else {
        let t = s.skip(1);
        lemma_find_sub_props(t, pat);
        let f = find_sub(s, pat);
        assert(f == 1 + find_sub(t, pat));
        if find_sub(t, pat) < t.len() {
            lemma_matches_at_skip(s, pat, find_sub(t, pat));
        }
        assert(forall|k: int| 0 <= k < find_sub(t, pat) ==> !matches_at(t, pat, k));
        assert forall|k: int| 1 <= k < f implies !matches_at(s, pat, k) by {
            lemma_matches_at_skip(s, pat, k - 1);
        }
    }
}

/// If `pat` does not occur before `i` and occurs at `i` (or `i` is the
/// length), then `i` is its first occurrence.
pub proof fn lemma_find_sub_at(s: Seq<char>, pat: Seq<char>, i: int)
    requires
        pat.len() > 0,
        0 <= i <= s.len(),
        forall|k: int| 0 <= k < i ==> !matches_at(s, pat, k),
        i == s.len() || matches_at(s, pat, i),
    ensures
        find_sub(s, pat) == i,
    decreases i,
{
    if i == 0 {
        if s.len() > 0 && !matches_at(s, pat, 0) {
            lemma_find_sub_props(s, pat);
        }
    } else {
        let t = s.skip(1);
        assert forall|k: int| 0 <= k < i - 1 implies !matches_at(t, pat, k) by {
            lemma_matches_at_skip(s, pat, k);
        }
        if i < s.len() {
            lemma_matches_at_skip(s, pat, i - 1);
        }
        lemma_find_sub_at(t, pat, i - 1);
    }
}

/// The pieces of `s` between occurrences of `pat`; occurrences are dropped.
pub open spec fn split_sub(s: Seq<char>, pat: Seq<char>) -> Seq<Seq<char>>
    decreases s.len(),
    when pat.len() > 0
    via split_sub_decreases
{
    let f = find_sub(s, pat);
    if f == s.len() {
        seq![s]
    } else {
        seq![s.take(f)] + split_sub(s.skip(f + pat.len()), pat)
    }
}

#[via_fn]
proof fn split_sub_decreases(s: Seq<char>, pat: Seq<char>) {
    lemma_find_sub_props(s, pat);
}

/// Find the first separator character; used by the item-list splitters.
fn find_char_pred(s: &str, mode: u8) -> (f: usize)
    requires
        mode == 1 || mode == 2 || mode == 3,
    ensures
        mode == 1 ==> f == find_by(s@, |c: char| c == ','),
        mode == 2 ==> f == find_by(s@, |c: char| c == ',' || c == '\n'),
        mode == 3 ==> f == find_by(s@, |c: char| c == '\n'),
        f <= s@.len(),
{
    let n = s.unicode_len();
    let ghost p: spec_fn(char) -> bool = if mode == 1 {
        |c: char| c == ','
    } else if mode == 2 {
        |c: char| c == ',' || c == '\n'
    } else {
        |c: char| c == '\n'
    };
    let mut i: usize = 0;
    while i < n
        invariant
            0 <= i <= n,
            n == s@.len(),
            mode == 1 || mode == 2 || mode == 3,
            p == (if mode == 1 {
                |c: char| c == ','
            } else if mode == 2 {
                |c: char| c == ',' || c == '\n'
            } else {
                |c: char| c == '\n'
            }),
            forall|j: int| 0 <= j < i ==> !p(s@[j]),
        decreases n - i,
    {
        let c = s.get_char(i);
        let hit = if mode == 1 {
            c == ','
        } else if mode == 2 {
            c == ',' || c == '\n'
        } else {
            c == '\n'
        };
        if hit {
            proof {
                lemma_find_by_at(s@, p, i as int);
            }
            return i;
        }
        i = i + 1;
    }
    proof {
        lemma_find_by_at(s@, p, n as int);
    }
    n
}

/// Split at commas, as `str::split(',')`.
pub fn split_commas(s: &str) -> (r: Vec<String>)
    ensures
        r.deep_view() == split_by(s@, |c: char| c == ','),
    decreases s@.len(),
{
    let n = s.unicode_len();
    let f = find_char_pred(s, 1);
    if f == n {
        let mut out: Vec<String> = Vec::new();
        out.push(s.to_owned());
        proof {
            assert(out.deep_view() =~= seq![s@]);
        }
        out
    } else {
        let head = s.substring_char(0, f).to_owned();
        let tail = s.substring_char(f + 1, n);
        let mut rest = split_commas(tail);
        let mut out: Vec<String> = Vec::new();
        out.push(head);
        out.append(&mut rest);
        proof {
            assert(s@.subrange(0, f as int) =~= s@.take(f as int));
            assert(s@.subrange(f + 1, n as int) =~= s@.skip(f + 1));
            assert(out.deep_view() =~= seq![s@.take(f as int)] + split_by(
                s@.skip(f + 1),
                |c: char| c == ',',
            ));
        }
        out
    }
}

/// Split at commas and newlines, the first stage of item extraction.
pub fn split_list_seps(s: &str) -> (r: Vec<String>)
    ensures
        r.deep_view() == split_by(s@, |c: char| c == ',' || c == '\n'),
    decreases s@.len(),
{
    let n = s.unicode_len();
    let f = find_char_pred(s, 2);
    if f == n {
        let mut out: Vec<String> = Vec::new();
        out.push(s.to_owned());
        proof {
            assert(out.deep_view() =~= seq![s@]);
        }
        out
    } else {
        let head = s.substring_char(0, f).to_owned();
        let tail = s.substring_char(f + 1, n);
        let mut rest = split_list_seps(tail);
        let mut out: Vec<String> = Vec::new();
        out.push(head);
        out.append(&mut rest);
        proof {
            assert(s@.subrange(0, f as int) =~= s@.take(f as int));
            assert(s@.subrange(f + 1, n as int) =~= s@.skip(f + 1));
            assert(out.deep_view() =~= seq![s@.take(f as int)] + split_by(
                s@.skip(f + 1),
                |c: char| c == ',' || c == '\n',
            ));
        }
        out
    }
}


/// Split at newlines, as `str::split('\n')`.
pub fn split_newlines(s: &str) -> (r: Vec<String>)
    ensures
        r.deep_view() == split_by(s@, |c: char| c == '\n'),
    decreases s@.len(),
{
    let n = s.unicode_len();
    let f = find_char_pred(s, 3);
    if f == n {
        let mut out: Vec<String> = Vec::new();
        out.push(s.to_owned());
        proof {
            assert(out.deep_view() =~= seq![s@]);
        }
        out
    } else {
        let head = s.substring_char(0, f).to_owned();
        let tail = s.substring_char(f + 1, n);
        let mut rest = split_newlines(tail);
        let mut out: Vec<String> = Vec::new();
        out.push(head);
        out.append(&mut rest);
        proof {
            assert(s@.subrange(0, f as int) =~= s@.take(f as int));
            assert(s@.subrange(f + 1, n as int) =~= s@.skip(f + 1));
            assert(out.deep_view() =~= seq![s@.take(f as int)] + split_by(
                s@.skip(f + 1),
                |c: char| c == '\n',
            ));
        }
        out
    }
}

/// Split at each occurrence of `pat`, as `str::split` with a string pattern.
pub fn split_at_sub(s: &str, pat: &str) -> (r: Vec<String>)
    requires
        pat@.len() > 0,
    ensures
        r.deep_view() == split_sub(s@, pat@),
    decreases s@.len(),
{
    let ns = s.unicode_len();
    let np = pat.unicode_len();
    let mut i: usize = 0;
    let mut found = ns;
    let mut hit = false;
    if np <= ns {
        while i <= ns - np && !hit
            invariant
                0 <= i <= ns - np + 1,
                ns == s@.len(),
                np == pat@.len(),
                1 <= np <= ns,
                !hit ==> forall|k: int| 0 <= k < i ==> !matches_at(s@, pat@, k),
                hit ==> found == i && matches_at(s@, pat@, i as int) && forall|k: int|
                    0 <= k < i ==> !matches_at(s@, pat@, k),
                !hit ==> found == ns,
            decreases ns - i + (if hit {
                0int
            } else {
                1int
            }),
        {
            if matches_at_exec(s, pat, i) {
                hit = true;
                found = i;
            } else {
                i = i + 1;
            }
        }
    }
    proof {
        if hit {
            lemma_find_sub_at(s@, pat@, found as int);
        } else {
            assert forall|k: int| 0 <= k < ns implies !matches_at(s@, pat@, k) by {
                if k >= i {
                    assert(k + np > ns);
                }
            }
            lemma_find_sub_at(s@, pat@, ns as int);
        }
    }
    if !hit {
        let mut out: Vec<String> = Vec::new();
        out.push(s.to_owned());
        proof {
            assert(out.deep_view() =~= seq![s@]);
        }
        out
    } else {
        let head = s.substring_char(0, found).to_owned();
        let tail = s.substring_char(found + np, ns);
        let mut rest = split_at_sub(tail, pat);
        let mut out: Vec<String> = Vec::new();
        out.push(head);
        out.append(&mut rest);
        proof {
            assert(s@.subrange(0, found as int) =~= s@.take(found as int));
            assert(s@.subrange(found + np, ns as int) =~= s@.skip(found + np));
            assert(out.deep_view() =~= seq![s@.take(found as int)] + split_sub(
                s@.skip(found + np),
                pat@,
            ));
        }
        out
    }
}


} // verus!
