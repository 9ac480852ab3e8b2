//! Verified helpers for character-level string processing.
//!
//! All parsing and normalization in this crate is specified over `Seq<char>`
//! views; the executable functions here connect `&str` / `String` values to
//! those specifications.

use vstd::prelude::*;

verus! {

/// ASCII whitespace, as recognized by the trimming helpers.
pub open spec fn is_space_char(c: char) -> bool {
    c == ' ' || c == '\t' || c == '\n' || c == '\r' || c == '\u{b}' || c == '\u{c}'
}

/// Lowercase a single ASCII letter; any other character is unchanged.
pub open spec fn lower_char(c: char) -> char {
    if 'A' <= c && c <= 'Z' {
        (((c as u32) + 32) as u8) as char
    } else {
        c
    }
}

/// ASCII-lowercase every character of a string.
pub open spec fn spec_lower(s: Seq<char>) -> Seq<char> {
    s.map_values(|c: char| lower_char(c))
}

/// Drop leading whitespace.
pub open spec fn spec_trim_start(s: Seq<char>) -> Seq<char>
    decreases s.len(),
{
    if s.len() > 0 && is_space_char(s[0]) {
        spec_trim_start(s.drop_first())
    } else {
        s
    }
}

/// Drop trailing whitespace.
pub open spec fn spec_trim_end(s: Seq<char>) -> Seq<char>
    decreases s.len(),
{
    if s.len() > 0 && is_space_char(s.last()) {
        spec_trim_end(s.drop_last())
    } else {
        s
    }
}

/// Drop leading and trailing whitespace.
pub open spec fn spec_trim(s: Seq<char>) -> Seq<char> {
    spec_trim_end(spec_trim_start(s))
}

/// Drop every trailing occurrence of `d`.
pub open spec fn spec_trim_end_char(s: Seq<char>, d: char) -> Seq<char>
    decreases s.len(),
{
    if s.len() > 0 && s.last() == d {
        spec_trim_end_char(s.drop_last(), d)
    } else {
        s
    }
}

/// Remove `p` from the front of `s` when it is a prefix; otherwise keep `s`.
pub open spec fn spec_strip_prefix(s: Seq<char>, p: Seq<char>) -> Seq<char> {
    if p.is_prefix_of(s) {
        s.skip(p.len() as int)
    } else {
        s
    }
}

/// Index of the first occurrence of `d` in `s`, or -1 if absent.
pub open spec fn spec_find(s: Seq<char>, d: char) -> int
    decreases s.len(),
{
    if s.len() == 0 {
        -1
    } else if s[0] == d {
        0
    } else {
        let r = spec_find(s.drop_first(), d);
        if r == -1 {
            -1
        } else {
            r + 1
        }
    }
}

/// Index of the last occurrence of `d` in `s`, or -1 if absent.
pub open spec fn spec_rfind(s: Seq<char>, d: char) -> int
    decreases s.len(),
{
    if s.len() == 0 {
        -1
    } else if s.last() == d {
        s.len() - 1
    } else {
        spec_rfind(s.drop_last(), d)
    }
}

/// `spec_find` returns either -1 with no occurrence, or the first occurrence.
pub proof fn lemma_find_char(s: Seq<char>, d: char)
    ensures
        spec_find(s, d) == -1 ==> forall|k: int| 0 <= k < s.len() ==> s[k] != d,
        spec_find(s, d) != -1 ==> {
            let i = spec_find(s, d);
            &&& 0 <= i < s.len()
            &&& s[i] == d
            &&& forall|k: int| 0 <= k < i ==> s[k] != d
        },
    decreases s.len(),
{
    if s.len() > 0 && s[0] != d {
        lemma_find_char(s.drop_first(), d);
        let r = spec_find(s.drop_first(), d);
        if r == -1 {
            assert forall|k: int| 0 <= k < s.len() implies s[k] != d by {
                if k > 0 {
                    assert(s.drop_first()[k - 1] == s[k]);
                }
            }
        } else {
            assert(s[r + 1] == s.drop_first()[r]);
            assert forall|k: int| 0 <= k < r + 1 implies s[k] != d by {
                if k > 0 {
                    assert(s.drop_first()[k - 1] == s[k]);
                }
            }
        }
    }
}

/// `spec_rfind` returns either -1 with no occurrence, or the last occurrence.
pub proof fn lemma_rfind_char(s: Seq<char>, d: char)
    ensures
        spec_rfind(s, d) == -1 ==> forall|k: int| 0 <= k < s.len() ==> s[k] != d,
        spec_rfind(s, d) != -1 ==> {
            let i = spec_rfind(s, d);
            &&& 0 <= i < s.len()
            &&& s[i] == d
            &&& forall|k: int| i < k < s.len() ==> s[k] != d
        },
    decreases s.len(),
{
    if s.len() > 0 && s.last() != d {
        lemma_rfind_char(s.drop_last(), d);
        let r = spec_rfind(s.drop_last(), d);
        assert forall|k: int| 0 <= k < s.len() - 1 implies s[k] == s.drop_last()[k] by {}
        if r == -1 {
            assert forall|k: int| 0 <= k < s.len() implies s[k] != d by {
                if k < s.len() - 1 {
                    assert(s.drop_last()[k] == s[k]);
                }
            }
        }
    }
}

/// Split `s` at every occurrence of `d`; `n` delimiters yield `n + 1` parts.
pub open spec fn spec_split(s: Seq<char>, d: char) -> Seq<Seq<char>>
    decreases s.len(),
{
    if s.len() == 0 {
        seq![Seq::<char>::empty()]
    } else if s[0] == d {
        seq![Seq::<char>::empty()] + spec_split(s.drop_first(), d)
    } else {
        let rest = spec_split(s.drop_first(), d);
        seq![seq![s[0]] + rest[0]] + rest.drop_first()
    }
}

/// `spec_split` always yields at least one part.
pub proof fn lemma_split_nonempty(s: Seq<char>, d: char)
    ensures
        spec_split(s, d).len() >= 1,
    decreases s.len(),
{
    if s.len() > 0 {
        lemma_split_nonempty(s.drop_first(), d);
    }
}

/// Unroll `spec_split` at the first occurrence of the delimiter: the first
/// part is everything before it, and the rest splits the remainder.
pub proof fn lemma_split_step(s: Seq<char>, d: char)
    ensures
        spec_find(s, d) == -1 ==> spec_split(s, d) == seq![s],
        spec_find(s, d) != -1 ==> spec_split(s, d) == seq![s.take(spec_find(s, d))]
            + spec_split(s.skip(spec_find(s, d) + 1), d),
    decreases s.len(),
{
    lemma_find_char(s, d);
    lemma_split_nonempty(s, d);
    if s.len() == 0 {
        assert(spec_split(s, d) =~~= seq![s]);
    } else if s[0] == d {
        assert(s.skip(1) =~= s.drop_first());
        assert(spec_split(s, d) =~~= seq![s.take(0)] + spec_split(s.skip(1), d));
    } else {
        lemma_split_step(s.drop_first(), d);
        lemma_split_nonempty(s.drop_first(), d);
        lemma_find_char(s.drop_first(), d);
        let i = spec_find(s, d);
        if i == -1 {
            assert(spec_find(s.drop_first(), d) == -1);
            assert(seq![s[0]] + s.drop_first() =~= s);
            assert(spec_split(s, d) =~~= seq![s]);
        } else {
            assert(spec_find(s.drop_first(), d) == i - 1);
            let rest = spec_split(s.drop_first(), d);
            assert(rest[0] == s.drop_first().take(i - 1));
            assert(seq![s[0]] + s.drop_first().take(i - 1) =~= s.take(i));
            assert(rest.drop_first() =~= spec_split(s.drop_first().skip(i), d));
            assert(s.drop_first().skip(i) =~= s.skip(i + 1));
            assert(spec_split(s, d) =~~= seq![s.take(i)] + spec_split(s.skip(i + 1), d));
        }
    }
}

/// One line of `str::lines`-style output: drop a single trailing `'\r'`.
pub open spec fn spec_strip_cr(s: Seq<char>) -> Seq<char> {
    if s.len() > 0 && s.last() == '\r' {
        s.drop_last()
    } else {
        s
    }
}

/// Split into lines at `'\n'`, dropping one trailing `'\r'` per line.
/// Unlike `str::lines`, a final newline yields a final empty part.
pub open spec fn spec_split_lines(s: Seq<char>) -> Seq<Seq<char>> {
    spec_split(s, '\n').map_values(|line: Seq<char>| spec_strip_cr(line))
}

/// Strict lexicographic order on character sequences (by code point).
pub open spec fn spec_str_lt(a: Seq<char>, b: Seq<char>) -> bool
    decreases a.len(),
{
    if b.len() == 0 {
        false
    } else if a.len() == 0 {
        true
    } else if a[0] != b[0] {
        (a[0] as u32) < (b[0] as u32)
    } else {
        spec_str_lt(a.drop_first(), b.drop_first())
    }
}

/// Whether `sub` occurs contiguously anywhere in `s`.
pub open spec fn spec_contains_sub(s: Seq<char>, sub: Seq<char>) -> bool {
    exists|i: int|
        0 <= i && i + sub.len() <= s.len() && #[trigger] s.subrange(i, i + sub.len() as int)
            == sub
}

/// Exec mirror of [`is_space_char`].
pub fn char_is_space(c: char) -> (r: bool)
    ensures
        r == is_space_char(c),
{
    c == ' ' || c == '\t' || c == '\n' || c == '\r' || c == '\u{b}' || c == '\u{c}'
}

/// Exec mirror of [`lower_char`].
pub fn char_lower(c: char) -> (r: char)
    ensures
        r == lower_char(c),
{
    if 'A' <= c && c <= 'Z' {
        (((c as u32) + 32) as u8) as char
    } else {
        c
    }
}

/// Relies on `String::push`: appends one character to the string.
#[verifier::external_body]
pub fn push_char(s: &mut String, c: char)
    ensures
        final(s)@ == old(s)@.push(c),
{
    s.push(c);
}

/// Copy the character range `[from, to)` of `s` into a fresh `String`.
pub fn substring_string(s: &str, from: usize, to: usize) -> (r: String)
    requires
        from <= to <= s@.len(),
    ensures
        r@ == s@.subrange(from as int, to as int),
{
    s.substring_char(from, to).to_owned()
}

/// Character-for-character equality of two string slices.
pub fn str_eq_str(a: &str, b: &str) -> (r: bool)
    ensures
        r == (a@ == b@),
{
    let alen = a.unicode_len();
    let blen = b.unicode_len();
    if alen != blen {
        proof {
            assert(a@ != b@) by {
                assert(a@.len() != b@.len());
            }
        }
        return false;
    }
    let mut i: usize = 0;
    while i < alen
        invariant
            i <= alen,
            alen == a@.len(),
            alen == b@.len(),
            forall|k: int| 0 <= k < i ==> a@[k] == b@[k],
        decreases alen - i,
    {
        if a.get_char(i) != b.get_char(i) {
            proof {
                assert(a@[i as int] != b@[i as int]);
            }
            return false;
        }
        i += 1;
    }
    proof {
        assert(a@ =~= b@);
    }
    true
}

/// Whether `p@` is a prefix of `s@`.
pub fn has_prefix(s: &str, p: &str) -> (r: bool)
    ensures
        r == p@.is_prefix_of(s@),
{
    let plen = p.unicode_len();
    let slen = s.unicode_len();
    if plen > slen {
        return false;
    }
    let mut i: usize = 0;
    while i < plen
        invariant
            i <= plen,
            plen == p@.len(),
            slen == s@.len(),
            plen <= slen,
            forall|k: int| 0 <= k < i ==> s@[k] == p@[k],
        decreases plen - i,
    {
        if s.get_char(i) != p.get_char(i) {
            proof {
                assert(s@.take(p@.len() as int)[i as int] != p@[i as int]);
            }
            return false;
        }
        i += 1;
    }
    proof {
        assert(s@.take(p@.len() as int) =~= p@);
    }
    true
}

/// Whether `p@` is a suffix of `s@`.
pub fn has_suffix(s: &str, p: &str) -> (r: bool)
    ensures
        r == p@.is_suffix_of(s@),
{
    let plen = p.unicode_len();
    let slen = s.unicode_len();
    if plen > slen {
        return false;
    }
    let off = slen - plen;
    let mut i: usize = 0;
    while i < plen
        invariant
            i <= plen,
            plen == p@.len(),
            slen == s@.len(),
            off == slen - plen,
            forall|k: int| 0 <= k < i ==> s@[off + k] == p@[k],
        decreases plen - i,
    {
        if s.get_char(off + i) != p.get_char(i) {
            proof {
                assert(s@.skip(off as int)[i as int] != p@[i as int]);
            }
            return false;
        }
        i += 1;
    }
    proof {
        assert(s@.skip(off as int) =~= p@);
    }
    true
}

/// Drop every leading occurrence of `d`.
pub open spec fn spec_trim_start_char(s: Seq<char>, d: char) -> Seq<char>
    decreases s.len(),
{
    if s.len() > 0 && s[0] == d {
        spec_trim_start_char(s.drop_first(), d)
    } else {
        s
    }
}

/// Drop every leading and trailing occurrence of `d`.
pub open spec fn spec_trim_char_both(s: Seq<char>, d: char) -> Seq<char> {
    spec_trim_start_char(spec_trim_end_char(s, d), d)
}

/// Trim every leading and trailing occurrence of `d`.
pub fn trim_char_both_str(s: &str, d: char) -> (r: String)
    ensures
        r@ == spec_trim_char_both(s@, d),
{
    let n = s.unicode_len();
    let mut end: usize = n;
    proof {
        assert(s@.take(n as int) =~= s@);
    }
    while end > 0 && s.get_char(end - 1) == d
        invariant
            end <= n,
            n == s@.len(),
            spec_trim_end_char(s@, d) == spec_trim_end_char(s@.take(end as int), d),
        decreases end,
    {
        proof {
            assert(s@.take(end as int).last() == s@[end - 1]);
            assert(s@.take(end as int).drop_last() =~= s@.take(end - 1));
        }
        end -= 1;
    }
    proof {
        if end > 0 {
            assert(s@.take(end as int).last() == s@[end - 1]);
        }
        assert(spec_trim_end_char(s@, d) == s@.take(end as int));
    }
    let ghost u = s@.take(end as int);
    let mut start: usize = 0;
    proof {
        assert(u.skip(0) =~= u);
    }
    while start < end && s.get_char(start) == d
        invariant
            start <= end <= n,
            n == s@.len(),
            u == s@.take(end as int),
            spec_trim_start_char(u, d) == spec_trim_start_char(u.skip(start as int), d),
        decreases end - start,
    {
        proof {
            assert(u.skip(start as int)[0] == s@[start as int]);
            assert(u.skip(start as int).drop_first() =~= u.skip(start + 1));
        }
        start += 1;
    }
    proof {
        if start < end {
            assert(u.skip(start as int)[0] == s@[start as int]);
        }
        assert(spec_trim_start_char(u, d) == u.skip(start as int));
    }
    let r = substring_string(s, start, end);
    proof {
        assert(r@ =~= u.skip(start as int));
    }
    r
}

/// Remove `p` from the end of `s` when it is a suffix; otherwise keep `s`.
pub open spec fn spec_strip_suffix(s: Seq<char>, p: Seq<char>) -> Seq<char> {
    if p.is_suffix_of(s) {
        s.take(s.len() - p.len())
    } else {
        s
    }
}

/// Remove `p` from the end of `s` when it is a suffix.
pub fn strip_suffix_str(s: &str, p: &str) -> (r: Option<String>)
    ensures
        r is Some <==> p@.is_suffix_of(s@),
        r is Some ==> r->0@ == s@.take(s@.len() - p@.len()),
{
    if has_suffix(s, p) {
        let pl = p.unicode_len();
        let sl = s.unicode_len();
        Some(substring_string(s, 0, sl - pl))
    } else {
        None
    }
}

/// Remove `p` from the front of `s` when it is a prefix.
pub fn strip_prefix_str(s: &str, p: &str) -> (r: Option<String>)
    ensures
        r is Some <==> p@.is_prefix_of(s@),
        r is Some ==> r->0@ == s@.skip(p@.len() as int),
{
    if has_prefix(s, p) {
        let pl = p.unicode_len();
        let sl = s.unicode_len();
        Some(substring_string(s, pl, sl))
    } else {
        None
    }
}

/// Trim leading and trailing ASCII whitespace.
pub fn trim_str(s: &str) -> (r: String)
    ensures
        r@ == spec_trim(s@),
{
    let n = s.unicode_len();
    let mut start: usize = 0;
    proof {
        assert(s@.skip(0) =~= s@);
    }
    while start < n && char_is_space(s.get_char(start))
        invariant
            start <= n,
            n == s@.len(),
            spec_trim_start(s@) == spec_trim_start(s@.skip(start as int)),
        decreases n - start,
    {
        proof {
            assert(s@.skip(start as int).drop_first() =~= s@.skip(start + 1));
        }
        start += 1;
    }
    proof {
        assert(spec_trim_start(s@) == s@.skip(start as int));
    }
    let ghost u = s@.skip(start as int);
    let mut end: usize = n;
    proof {
        assert(u.take(n - start) =~= u);
    }
    while end > start && char_is_space(s.get_char(end - 1))
        invariant
            start <= end <= n,
            n == s@.len(),
            u == s@.skip(start as int),
            spec_trim_end(u) == spec_trim_end(u.take(end - start)),
        decreases end,
    {
        proof {
            assert(u.take(end - start).last() == s@[end - 1]);
            assert(u.take(end - start).drop_last() =~= u.take(end - 1 - start));
        }
        end -= 1;
    }
    proof {
        if end > start {
            assert(u.take(end - start).last() == s@[end - 1]);
        }
        assert(spec_trim_end(u) == u.take(end - start));
    }
    let r = substring_string(s, start, end);
    proof {
        assert(r@ =~= u.take(end - start));
    }
    r
}

/// Trim every trailing occurrence of `d`.
pub fn trim_end_char_str(s: &str, d: char) -> (r: String)
    ensures
        r@ == spec_trim_end_char(s@, d),
{
    let n = s.unicode_len();
    let mut end: usize = n;
    proof {
        assert(s@.take(n as int) =~= s@);
    }
    while end > 0 && s.get_char(end - 1) == d
        invariant
            end <= n,
            n == s@.len(),
            spec_trim_end_char(s@, d) == spec_trim_end_char(s@.take(end as int), d),
        decreases end,
    {
        proof {
            assert(s@.take(end as int).last() == s@[end - 1]);
            assert(s@.take(end as int).drop_last() =~= s@.take(end - 1));
        }
        end -= 1;
    }
    proof {
        if end > 0 {
            assert(s@.take(end as int).last() == s@[end - 1]);
        }
        assert(spec_trim_end_char(s@, d) == s@.take(end as int));
    }
    substring_string(s, 0, end)
}

/// Index of the first occurrence of `d` in `s`, if any.
pub fn find_char_str(s: &str, d: char) -> (r: Option<usize>)
    ensures
        r is None <==> spec_find(s@, d) == -1,
        r is Some ==> r->0 == spec_find(s@, d),
{
    let n = s.unicode_len();
    let mut i: usize = 0;
    while i < n
        invariant
            i <= n,
            n == s@.len(),
            forall|k: int| 0 <= k < i ==> s@[k] != d,
        decreases n - i,
    {
        if s.get_char(i) == d {
            proof {
                lemma_find_char(s@, d);
            }
            return Some(i);
        }
        i += 1;
    }
    proof {
        lemma_find_char(s@, d);
    }
    None
}

/// Index of the last occurrence of `d` in `s`, if any.
pub fn rfind_char_str(s: &str, d: char) -> (r: Option<usize>)
    ensures
        r is None <==> spec_rfind(s@, d) == -1,
        r is Some ==> r->0 == spec_rfind(s@, d),
{
    let n = s.unicode_len();
    let mut i: usize = n;
    while i > 0
        invariant
            i <= n,
            n == s@.len(),
            forall|k: int| i <= k < n ==> s@[k] != d,
        decreases i,
    {
        if s.get_char(i - 1) == d {
            proof {
                lemma_rfind_char(s@, d);
            }
            return Some(i - 1);
        }
        i -= 1;
    }
    proof {
        lemma_rfind_char(s@, d);
    }
    None
}

/// The views of a vector of strings.
pub open spec fn views_of(v: Seq<String>) -> Seq<Seq<char>> {
    v.map_values(|x: String| x@)
}

/// Split `s` at every occurrence of `d`.
pub fn split_char_str(s: &str, d: char) -> (r: Vec<String>)
    ensures
        views_of(r@) == spec_split(s@, d),
{
    let n = s.unicode_len();
    let mut out: Vec<String> = Vec::new();
    let mut seg_start: usize = 0;
    let mut i: usize = 0;
    proof {
        assert(s@.skip(0) =~= s@);
        assert(views_of(out@) + spec_split(s@.skip(0), d) =~~= spec_split(s@, d));
    }
    while i < n
        invariant
            seg_start <= i <= n,
            n == s@.len(),
            forall|k: int| seg_start <= k < i ==> s@[k] != d,
            spec_split(s@, d) == views_of(out@) + spec_split(s@.skip(seg_start as int), d),
        decreases n - i,
    {
        if s.get_char(i) == d {
            let piece = substring_string(s, seg_start, i);
            proof {
                let u = s@.skip(seg_start as int);
                lemma_find_char(u, d);
                assert(u[i - seg_start] == s@[i as int]);
                assert forall|k: int| 0 <= k < i - seg_start implies u[k] != d by {
                    assert(u[k] == s@[seg_start + k]);
                }
                assert(spec_find(u, d) == i - seg_start);
                lemma_split_step(u, d);
                assert(u.take(i - seg_start) =~= piece@);
                assert(u.skip(i - seg_start + 1) =~= s@.skip(i + 1));
                assert(views_of(out@.push(piece)) =~= views_of(out@) + seq![piece@]);
                assert(views_of(out@) + spec_split(u, d) =~~= views_of(out@.push(piece))
                    + spec_split(s@.skip(i + 1), d));
            }
            out.push(piece);
            seg_start = i + 1;
        }
        i += 1;
    }
    let piece = substring_string(s, seg_start, n);
    proof {
        let u = s@.skip(seg_start as int);
        lemma_find_char(u, d);
        assert forall|k: int| 0 <= k < u.len() implies u[k] != d by {
            assert(u[k] == s@[seg_start + k]);
        }
        assert(spec_find(u, d) == -1);
        lemma_split_step(u, d);
        assert(u =~= piece@);
        assert(views_of(out@.push(piece)) =~~= views_of(out@) + seq![u]);
    }
    out.push(piece);
    out
}

/// Split `s` into lines at `'\n'`, dropping one trailing `'\r'` per line.
pub fn split_lines_str(s: &str) -> (r: Vec<String>)
    ensures
        views_of(r@) == spec_split_lines(s@),
{
    let raw = split_char_str(s, '\n');
    let mut out: Vec<String> = Vec::new();
    let mut i: usize = 0;
    proof {
        assert(views_of(out@) =~= views_of(raw@).take(0).map_values(
            |line: Seq<char>| spec_strip_cr(line),
        ));
    }
    while i < raw.len()
        invariant
            i <= raw.len(),
            views_of(raw@) == spec_split(s@, '\n'),
            views_of(out@) =~= views_of(raw@).take(i as int).map_values(
                |line: Seq<char>| spec_strip_cr(line),
            ),
        decreases raw.len() - i,
    {
        let line = &raw[i];
        let m = line.as_str().unicode_len();
        let stripped = if m > 0 && line.as_str().get_char(m - 1) == '\r' {
            substring_string(line.as_str(), 0, m - 1)
        } else {
            line.clone()
        };
        proof {
            assert(line@.take(m - 1) =~= line@.drop_last());
            assert(stripped@ == spec_strip_cr(views_of(raw@)[i as int]));
            assert(views_of(out@.push(stripped)) =~= views_of(out@) + seq![stripped@]);
            assert(views_of(raw@).take(i + 1).map_values(|line: Seq<char>| spec_strip_cr(line))
                =~= views_of(raw@).take(i as int).map_values(
                |line: Seq<char>| spec_strip_cr(line),
            ) + seq![spec_strip_cr(views_of(raw@)[i as int])]);
        }
        out.push(stripped);
        i += 1;
    }
    proof {
        assert(views_of(raw@).take(raw@.len() as int) =~= views_of(raw@));
        assert(views_of(out@) =~= spec_split_lines(s@));
    }
    out
}

/// Whether `sub@` occurs contiguously in `s@`.
pub fn contains_sub_str(s: &str, sub: &str) -> (r: bool)
    ensures
        r == spec_contains_sub(s@, sub@),
{
    let n = s.unicode_len();
    let m = sub.unicode_len();
    if m > n {
        return false;
    }
    if m == 0 {
        proof {
            let j: int = 0;
            assert(s@.subrange(j, j + sub@.len()) =~= sub@);
            assert(spec_contains_sub(s@, sub@));
        }
        return true;
    }
    let mut i: usize = 0;
    while i <= n - m
        invariant
            m <= n,
            n == s@.len(),
            m == sub@.len(),
            i <= n - m + 1,
            1 <= m,
            forall|k: int|
                0 <= k < i ==> #[trigger] s@.subrange(k, k + sub@.len()) != sub@,
        decreases n - i,
    {
        let window = s.substring_char(i, i + m);
        if str_eq_str(window, sub) {
            proof {
                assert(s@.subrange(i as int, i + sub@.len()) == sub@);
            }
            return true;
        }
        proof {
            assert(s@.subrange(i as int, i + sub@.len()) != sub@);
        }
        i += 1;
    }
    false
}

/// Exec mirror of [`spec_str_lt`].
pub fn str_lt_str(a: &str, b: &str) -> (r: bool)
    ensures
        r == spec_str_lt(a@, b@),
{
    let alen = a.unicode_len();
    let blen = b.unicode_len();
    let mut i: usize = 0;
    proof {
        assert(a@.skip(0) =~= a@);
        assert(b@.skip(0) =~= b@);
    }
    while i < alen && i < blen
        invariant
            i <= alen,
            i <= blen,
            alen == a@.len(),
            blen == b@.len(),
            spec_str_lt(a@, b@) == spec_str_lt(a@.skip(i as int), b@.skip(i as int)),
        decreases alen - i,
    {
        let ca = a.get_char(i);
        let cb = b.get_char(i);
        if ca != cb {
            proof {
                assert(a@.skip(i as int)[0] == ca);
                assert(b@.skip(i as int)[0] == cb);
            }
            return (ca as u32) < (cb as u32);
        }
        proof {
            assert(a@.skip(i as int)[0] == ca);
            assert(b@.skip(i as int)[0] == cb);
            assert(a@.skip(i as int).drop_first() =~= a@.skip(i + 1));
            assert(b@.skip(i as int).drop_first() =~= b@.skip(i + 1));
        }
        i += 1;
    }
    proof {
        assert(a@.skip(i as int).len() == alen - i);
        assert(b@.skip(i as int).len() == blen - i);
    }
    i == alen && i < blen
}

/// ASCII-lowercase a string slice into a fresh `String`.
pub fn lower_str(s: &str) -> (r: String)
    ensures
        r@ == spec_lower(s@),
{
    let n = s.unicode_len();
    let mut out = String::new();
    let mut i: usize = 0;
    proof {
        assert(out@ =~= spec_lower(s@.take(0)));
    }
    while i < n
        invariant
            i <= n,
            n == s@.len(),
            out@ == spec_lower(s@.take(i as int)),
        decreases n - i,
    {
        let c = char_lower(s.get_char(i));
        push_char(&mut out, c);
        proof {
            assert(out@ =~= spec_lower(s@.take(i + 1)));
        }
        i += 1;
    }
    proof {
        assert(s@.take(n as int) =~= s@);
    }
    out
}

/// Whether `c` is an ASCII digit.
pub open spec fn is_digit_char(c: char) -> bool {
    '0' <= c && c <= '9'
}

/// Exec mirror of [`is_digit_char`].
pub fn char_is_digit(c: char) -> (r: bool)
    ensures
        r == is_digit_char(c),
{
    '0' <= c && c <= '9'
}

/// Index of the first occurrence of `pat` as a contiguous run in `s`, or
/// -1 if absent.
pub open spec fn spec_find_sub(s: Seq<char>, pat: Seq<char>) -> int
    decreases s.len(),
{
    if pat.len() == 0 {
        0
    } else if s.len() < pat.len() {
        -1
    } else if s.take(pat.len() as int) == pat {
        0
    } else {
        let r = spec_find_sub(s.drop_first(), pat);
        if r == -1 {
            -1
        } else {
            r + 1
        }
    }
}

/// `spec_find_sub` is either -1 with no occurrence, or the first one.
pub proof fn lemma_find_sub(s: Seq<char>, pat: Seq<char>)
    ensures
        spec_find_sub(s, pat) == -1 ==> forall|k: int|
            0 <= k && k + pat.len() <= s.len() ==> #[trigger] s.subrange(k, k + pat.len()) != pat,
        spec_find_sub(s, pat) != -1 ==> {
            let i = spec_find_sub(s, pat);
            &&& 0 <= i && i + pat.len() <= s.len()
            &&& s.subrange(i, i + pat.len()) == pat
            &&& forall|k: int|
                0 <= k < i ==> #[trigger] s.subrange(k, k + pat.len()) != pat
        },
    decreases s.len(),
{
    if pat.len() == 0 {
        assert(s.subrange(0, 0) =~= pat);
    } else if s.len() >= pat.len() && s.take(pat.len() as int) != pat {
        lemma_find_sub(s.drop_first(), pat);
        assert(s.subrange(0, pat.len() as int) =~= s.take(pat.len() as int));
        let r = spec_find_sub(s.drop_first(), pat);
        if r == -1 {
            assert forall|k: int| 0 <= k && k + pat.len() <= s.len() implies #[trigger] s.subrange(
                k,
                k + pat.len(),
            ) != pat by {
                if k > 0 {
                    assert(s.drop_first().subrange(k - 1, k - 1 + pat.len()) =~= s.subrange(
                        k,
                        k + pat.len(),
                    ));
                }
            }
        } else {
            assert(s.drop_first().subrange(r, r + pat.len()) =~= s.subrange(
                r + 1,
                r + 1 + pat.len(),
            ));
            assert forall|k: int| 0 <= k < r + 1 implies #[trigger] s.subrange(k, k + pat.len())
                != pat by {
                if k > 0 {
                    assert(s.drop_first().subrange(k - 1, k - 1 + pat.len()) =~= s.subrange(
                        k,
                        k + pat.len(),
                    ));
                }
            }
        }
    } else if s.len() < pat.len() {
        assert forall|k: int| 0 <= k && k + pat.len() <= s.len() implies #[trigger] s.subrange(
            k,
            k + pat.len(),
        ) != pat by {}
    }
}

/// Index of the first occurrence of `pat` in `s`, if any.
pub fn find_sub_str(s: &str, pat: &str) -> (r: Option<usize>)
    ensures
        r is None <==> spec_find_sub(s@, pat@) == -1,
        r is Some ==> r->0 == spec_find_sub(s@, pat@),
{
    let n = s.unicode_len();
    let m = pat.unicode_len();
    if m > n {
        proof {
            lemma_find_sub(s@, pat@);
        }
        return None;
    }
    if m == 0 {
        proof {
            assert(s@.subrange(0, 0) =~= pat@);
        }
        return Some(0);
    }
    let mut i: usize = 0;
    while i <= n - m
        invariant
            1 <= m <= n,
            n == s@.len(),
            m == pat@.len(),
            i <= n - m + 1,
            forall|k: int| 0 <= k < i ==> #[trigger] s@.subrange(k, k + pat@.len()) != pat@,
        decreases n - i,
    {
        let window = s.substring_char(i, i + m);
        if str_eq_str(window, pat) {
            proof {
                assert(s@.subrange(i as int, i + pat@.len()) == pat@);
                lemma_find_sub(s@, pat@);
            }
            return Some(i);
        }
        proof {
            assert(s@.subrange(i as int, i + pat@.len()) != pat@);
        }
        i += 1;
    }
    proof {
        lemma_find_sub(s@, pat@);
    }
    None
}

/// The maximal runs of non-whitespace characters in `s`, in order.
pub open spec fn spec_fields(s: Seq<char>) -> Seq<Seq<char>>
    decreases s.len(),
{
    if s.len() == 0 {
        Seq::<Seq<char>>::empty()
    } else if is_space_char(s[0]) {
        spec_fields(s.drop_first())
    } else {
        let rest = spec_fields(s.drop_first());
        if s.len() > 1 && !is_space_char(s[1]) {
            seq![seq![s[0]] + rest[0]] + rest.drop_first()
        } else {
            seq![seq![s[0]]] + rest
        }
    }
}

/// Unroll `spec_fields` at a field start: the first field runs to the next
/// whitespace character (or the end), and the rest of the fields are the
/// fields of what follows.
pub proof fn lemma_fields_step(s: Seq<char>, e: int)
    requires
        s.len() > 0,
        !is_space_char(s[0]),
        0 < e <= s.len(),
        forall|k: int| 0 <= k < e ==> !is_space_char(#[trigger] s[k]),
        e < s.len() ==> is_space_char(s[e]),
    ensures
        spec_fields(s) == seq![s.take(e)] + spec_fields(s.skip(e)),
    decreases s.len(),
{
    if e == 1 {
        if s.len() > 1 {
            assert(is_space_char(s[1]));
            assert(s.take(1) =~= seq![s[0]]);
            assert(s.skip(1) =~= s.drop_first());
            assert(spec_fields(s) =~~= seq![s.take(1)] + spec_fields(s.skip(1)));
        } else {
            assert(s.take(1) =~= seq![s[0]]);
            assert(s.skip(1) =~= Seq::<char>::empty());
            assert(spec_fields(s) =~~= seq![s.take(1)] + spec_fields(s.skip(1)));
        }
    } else {
        assert(!is_space_char(s[1]));
        assert forall|k: int| 0 <= k < e - 1 implies !is_space_char(
            #[trigger] s.drop_first()[k],
        ) by {
            assert(s.drop_first()[k] == s[k + 1]);
        }
        if e - 1 < s.drop_first().len() {
            assert(s.drop_first()[e - 1] == s[e]);
        }
        lemma_fields_step(s.drop_first(), e - 1);
        let rest = spec_fields(s.drop_first());
        assert(rest[0] == s.drop_first().take(e - 1));
        assert(seq![s[0]] + s.drop_first().take(e - 1) =~= s.take(e));
        assert(rest.drop_first() =~= spec_fields(s.drop_first().skip(e - 1)));
        assert(s.drop_first().skip(e - 1) =~= s.skip(e));
        assert(spec_fields(s) =~~= seq![s.take(e)] + spec_fields(s.skip(e)));
    }
}

/// Split `s` into whitespace-separated fields.
pub fn fields_of(s: &str) -> (r: Vec<String>)
    ensures
        views_of(r@) == spec_fields(s@),
{
    let n = s.unicode_len();
    let mut out: Vec<String> = Vec::new();
    let mut i: usize = 0;
    proof {
        assert(s@.skip(0) =~= s@);
        assert(views_of(out@) + spec_fields(s@) =~~= spec_fields(s@));
    }
    while i < n
        invariant
            i <= n,
            n == s@.len(),
            spec_fields(s@) == views_of(out@) + spec_fields(s@.skip(i as int)),
        decreases n - i,
    {
        if char_is_space(s.get_char(i)) {
            proof {
                assert(s@.skip(i as int)[0] == s@[i as int]);
                assert(s@.skip(i as int).drop_first() =~= s@.skip(i + 1));
            }
            i += 1;
        } else {
            let start = i;
            let mut j = i + 1;
            while j < n && !char_is_space(s.get_char(j))
                invariant
                    start < j <= n,
                    n == s@.len(),
                    forall|k: int| start <= k < j ==> !is_space_char(#[trigger] s@[k]),
                    !is_space_char(s@[start as int]),
                decreases n - j,
            {
                j += 1;
            }
            let piece = substring_string(s, start, j);
            proof {
                let u = s@.skip(start as int);
                assert(u[0] == s@[start as int]);
                assert forall|k: int| 0 <= k < j - start implies !is_space_char(
                    #[trigger] u[k],
                ) by {
                    assert(u[k] == s@[start + k]);
                }
                if j < n {
                    assert(u[j - start] == s@[j as int]);
                }
                lemma_fields_step(u, j - start);
                assert(u.take(j - start) =~= piece@);
                assert(u.skip(j - start) =~= s@.skip(j as int));
                assert(views_of(out@.push(piece)) =~= views_of(out@) + seq![piece@]);
                assert(views_of(out@) + spec_fields(u) =~~= views_of(out@.push(piece))
                    + spec_fields(s@.skip(j as int)));
            }
            out.push(piece);
            i = j;
        }
    }
    proof {
        assert(s@.skip(n as int) =~= Seq::<char>::empty());
        assert(views_of(out@) + Seq::<Seq<char>>::empty() =~= views_of(out@));
    }
    out
}

} // verus!
