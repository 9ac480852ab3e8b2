//! URL normalization, ancestor computation, and project grouping.

use vstd::prelude::*;

use crate::discover::{spec_source_label, spec_source_rank, InstalledPackage};
use crate::strutil::{
    is_space_char, lemma_rfind_char, lower_char, lower_str, rfind_char_str, spec_lower,
    spec_rfind, spec_str_lt, spec_strip_prefix, spec_trim, spec_trim_end, spec_trim_end_char,
    spec_trim_start, str_eq_str, str_lt_str, strip_prefix_str, substring_string,
    trim_end_char_str, trim_str, views_of,
};

verus! {

/// The first normalization stage: trim whitespace, then drop trailing `/`
/// characters.
pub open spec fn spec_pre_normalize(u: Seq<char>) -> Seq<char> {
    spec_trim_end_char(spec_trim(u), '/')
}

/// The second stage: drop one leading `https://` or `http://` scheme. The
/// match is literal, so an uppercase scheme is not stripped.
pub open spec fn spec_strip_scheme(t: Seq<char>) -> Seq<char> {
    if "https://"@.is_prefix_of(t) {
        t.skip("https://"@.len() as int)
    } else {
        spec_strip_prefix(t, "http://"@)
    }
}

/// The grouping key of a raw URL: trim whitespace, drop trailing `/`
/// characters, drop one leading `https://` or `http://` scheme, drop one
/// leading `www.` host label, and ASCII-lowercase the remainder.
pub open spec fn spec_normalize(u: Seq<char>) -> Seq<char> {
    spec_lower(spec_strip_prefix(spec_strip_scheme(spec_pre_normalize(u)), "www."@))
}

/// Normalize a URL into its grouping key.
///
/// Two URLs group together exactly when their normalized forms are equal;
/// this is a mechanical heuristic, not true URL equivalence. Empty input
/// yields the empty string, reserved as the "no project URL" bucket key.
pub fn normalize_url(url: &str) -> (r: String)
    ensures
        r@ == spec_normalize(url@),
{
    let t0 = trim_str(url);
    let t = trim_end_char_str(t0.as_str(), '/');
    let t1: String = match strip_prefix_str(t.as_str(), "https://") {
        Some(x) => x,
        None => match strip_prefix_str(t.as_str(), "http://") {
            Some(x) => x,
            None => t,
        },
    };
    let t2: String = match strip_prefix_str(t1.as_str(), "www.") {
        Some(x) => x,
        None => t1,
    };
    lower_str(t2.as_str())
}

/// The ancestor of a grouping key: the key with its final `/`-delimited
/// segment removed. Keys without `/` (bare domains) and the empty key have
/// no ancestor.
pub open spec fn spec_ancestor(k: Seq<char>) -> Option<Seq<char>> {
    if k.len() == 0 {
        None
    } else if spec_rfind(k, '/') == -1 {
        None
    } else {
        Some(k.take(spec_rfind(k, '/')))
    }
}

/// Compute the parent key by stripping the last path segment.
///
/// Returns `None` for bare domains (no `/` in the key) and for the empty
/// string (the no-URL bucket).
pub fn compute_ancestor(normalized_url: &str) -> (r: Option<String>)
    ensures
        r is Some <==> spec_ancestor(normalized_url@) is Some,
        r is Some ==> r->0@ == spec_ancestor(normalized_url@)->0,
{
    if normalized_url.unicode_len() == 0 {
        return None;
    }
    match rfind_char_str(normalized_url, '/') {
        None => None,
        Some(pos) => {
            proof {
                lemma_rfind_char(normalized_url@, '/');
            }
            Some(substring_string(normalized_url, 0, pos))
        },
    }
}

/// Lowercasing a character twice is the same as lowercasing it once.
proof fn lemma_lower_char_idempotent(c: char)
    ensures
        lower_char(lower_char(c)) == lower_char(c),
{
    if 'A' <= c && c <= 'Z' {
        assert((lower_char(c) as u32) == (c as u32) + 32);
    }
}

/// ASCII-lowercasing is idempotent.
pub proof fn lemma_lower_idempotent(s: Seq<char>)
    ensures
        spec_lower(spec_lower(s)) == spec_lower(s),
{
    assert forall|i: int| 0 <= i < s.len() implies lower_char(lower_char(s[i])) == lower_char(
        s[i],
    ) by {
        lemma_lower_char_idempotent(s[i]);
    }
    assert(spec_lower(spec_lower(s)) =~= spec_lower(s));
}

/// A trailing run of `d` never survives `spec_trim_end_char`.
proof fn lemma_trim_end_char_last(s: Seq<char>, d: char)
    ensures
        spec_trim_end_char(s, d).len() > 0 ==> spec_trim_end_char(s, d).last() != d,
    decreases s.len(),
{
    if s.len() > 0 && s.last() == d {
        lemma_trim_end_char_last(s.drop_last(), d);
    }
}

/// A normalized key never ends with `/`: the trailing-slash strip happens
/// before the prefix strips, which only shorten the front, and lowercasing
/// maps no character to `/`.
proof fn lemma_normalize_no_trailing_slash(u: Seq<char>)
    ensures
        spec_trim_end_char(spec_normalize(u), '/') == spec_normalize(u),
{
    let t = spec_trim_end_char(spec_trim(u), '/');
    lemma_trim_end_char_last(spec_trim(u), '/');
    let t1 = if "https://"@.is_prefix_of(t) {
        t.skip("https://"@.len() as int)
    } else {
        spec_strip_prefix(t, "http://"@)
    };
    let t2 = spec_strip_prefix(t1, "www."@);
    let r = spec_normalize(u);
    if r.len() > 0 {
        assert(t2.len() > 0);
        assert(t2.last() == t.last());
        assert(r.last() == lower_char(t2.last()));
        assert(lower_char(t2.last()) != '/') by {
            if 'A' <= t2.last() && t2.last() <= 'Z' {
                assert((lower_char(t2.last()) as u32) == (t2.last() as u32) + 32);
            }
        }
    }
}

/// Normalization is idempotent, for every URL whose normalized form has no
/// leading or trailing whitespace and does not itself begin with a scheme
/// or `www.` label. (The strips are literal: an input such as a URL with an
/// uppercase scheme normalizes to a key that still carries the scheme, and a
/// second pass then strips it.)
pub proof fn lemma_normalize_idempotent(u: Seq<char>)
    requires
        spec_trim(spec_normalize(u)) == spec_normalize(u),
        !"https://"@.is_prefix_of(spec_normalize(u)),
        !"http://"@.is_prefix_of(spec_normalize(u)),
        !"www."@.is_prefix_of(spec_normalize(u)),
    ensures
        spec_normalize(spec_normalize(u)) == spec_normalize(u),
{
    let r = spec_normalize(u);
    lemma_normalize_no_trailing_slash(u);
    let t = spec_trim_end_char(spec_trim(r), '/');
    assert(t == r);
    let t1 = if "https://"@.is_prefix_of(t) {
        t.skip("https://"@.len() as int)
    } else {
        spec_strip_prefix(t, "http://"@)
    };
    assert(t1 == r);
    let t2 = spec_strip_prefix(t1, "www."@);
    assert(t2 == r);
    let w = spec_trim_end_char(spec_trim(u), '/');
    let w1 = if "https://"@.is_prefix_of(w) {
        w.skip("https://"@.len() as int)
    } else {
        spec_strip_prefix(w, "http://"@)
    };
    let w2 = spec_strip_prefix(w1, "www."@);
    assert(r == spec_lower(w2));
    lemma_lower_idempotent(w2);
}

/// Lowercasing keeps whitespace exactly where it was.
proof fn lemma_lower_char_space(c: char)
    ensures
        is_space_char(lower_char(c)) == is_space_char(c),
{
    if 'A' <= c && c <= 'Z' {
        assert((lower_char(c) as u32) == (c as u32) + 32);
    }
}

/// Lowercasing keeps `/` characters exactly where they were.
proof fn lemma_lower_char_slash(c: char)
    ensures
        (lower_char(c) == '/') == (c == '/'),
{
    if 'A' <= c && c <= 'Z' {
        assert((lower_char(c) as u32) == (c as u32) + 32);
    }
}

/// Lowercasing commutes with trimming whitespace.
proof fn lemma_trim_lower_commute(s: Seq<char>)
    ensures
        spec_trim_start(spec_lower(s)) == spec_lower(spec_trim_start(s)),
        spec_trim_end(spec_lower(s)) == spec_lower(spec_trim_end(s)),
    decreases s.len(),
{
    if s.len() > 0 {
        lemma_lower_char_space(s[0]);
        lemma_lower_char_space(s.last());
        assert(spec_lower(s)[0] == lower_char(s[0]));
        assert(spec_lower(s).last() == lower_char(s.last()));
        lemma_trim_lower_commute(s.drop_first());
        lemma_trim_lower_commute(s.drop_last());
        assert(spec_lower(s).drop_first() =~= spec_lower(s.drop_first()));
        assert(spec_lower(s).drop_last() =~= spec_lower(s.drop_last()));
    }
}

/// Lowercasing commutes with dropping trailing `/` characters.
proof fn lemma_trim_slash_lower_commute(s: Seq<char>)
    ensures
        spec_trim_end_char(spec_lower(s), '/') == spec_lower(spec_trim_end_char(s, '/')),
    decreases s.len(),
{
    if s.len() > 0 {
        lemma_lower_char_slash(s.last());
        assert(spec_lower(s).last() == lower_char(s.last()));
        lemma_trim_slash_lower_commute(s.drop_last());
        assert(spec_lower(s).drop_last() =~= spec_lower(s.drop_last()));
    }
}

/// Lowercasing commutes with the whole first normalization stage.
proof fn lemma_pre_normalize_lower_commute(u: Seq<char>)
    ensures
        spec_pre_normalize(spec_lower(u)) == spec_lower(spec_pre_normalize(u)),
{
    lemma_trim_lower_commute(u);
    lemma_trim_lower_commute(spec_trim_start(u));
    lemma_trim_slash_lower_commute(spec_trim(u));
}

/// Normalization is case-insensitive: two URLs that differ only in ASCII
/// case normalize to the same key, provided the literal scheme and `www.`
/// prefix matches come out the same way for both (an uppercase scheme is
/// not stripped, so `HTTPS://x` and `https://x` genuinely normalize
/// differently).
pub proof fn lemma_normalize_case_insensitive(u1: Seq<char>, u2: Seq<char>)
    requires
        spec_lower(u1) == spec_lower(u2),
        "https://"@.is_prefix_of(spec_pre_normalize(u1)) == "https://"@.is_prefix_of(
            spec_pre_normalize(u2),
        ),
        "http://"@.is_prefix_of(spec_pre_normalize(u1)) == "http://"@.is_prefix_of(
            spec_pre_normalize(u2),
        ),
        "www."@.is_prefix_of(spec_strip_scheme(spec_pre_normalize(u1))) == "www."@.is_prefix_of(
            spec_strip_scheme(spec_pre_normalize(u2)),
        ),
    ensures
        spec_normalize(u1) == spec_normalize(u2),
{
    let t1 = spec_pre_normalize(u1);
    let t2 = spec_pre_normalize(u2);
    lemma_pre_normalize_lower_commute(u1);
    lemma_pre_normalize_lower_commute(u2);
    assert(spec_lower(t1) == spec_lower(t2)) by {
        assert(spec_pre_normalize(spec_lower(u1)) == spec_pre_normalize(spec_lower(u2)));
    }
    let s1 = spec_strip_scheme(t1);
    let s2 = spec_strip_scheme(t2);
    assert(spec_lower(s1) == spec_lower(s2)) by {
        reveal_strlit("https://");
        reveal_strlit("http://");
        if "https://"@.is_prefix_of(t1) {
            assert(spec_lower(t1.skip(8)) =~= spec_lower(t1).skip(8));
            assert(spec_lower(t2.skip(8)) =~= spec_lower(t2).skip(8));
        } else if "http://"@.is_prefix_of(t1) {
            assert(spec_lower(t1.skip(7)) =~= spec_lower(t1).skip(7));
            assert(spec_lower(t2.skip(7)) =~= spec_lower(t2).skip(7));
        } else {
            assert(s1 == t1);
            assert(s2 == t2);
        }
    }
    let w1 = spec_strip_prefix(s1, "www."@);
    let w2 = spec_strip_prefix(s2, "www."@);
    assert(spec_lower(w1) == spec_lower(w2)) by {
        reveal_strlit("www.");
        if "www."@.is_prefix_of(s1) {
            assert(spec_lower(s1.skip(4)) =~= spec_lower(s1).skip(4));
            assert(spec_lower(s2.skip(4)) =~= spec_lower(s2).skip(4));
        } else {
            assert(w1 == s1);
            assert(w2 == s2);
        }
    }
}

/// A normalized key is already lowercase: normalization is insensitive to
/// the case of everything that survives the prefix strips.
pub proof fn lemma_normalize_lowercase(u: Seq<char>)
    ensures
        spec_lower(spec_normalize(u)) == spec_normalize(u),
{
    let t = spec_trim_end_char(spec_trim(u), '/');
    let t1 = if "https://"@.is_prefix_of(t) {
        t.skip("https://"@.len() as int)
    } else {
        spec_strip_prefix(t, "http://"@)
    };
    let t2 = spec_strip_prefix(t1, "www."@);
    assert(spec_normalize(u) == spec_lower(t2));
    lemma_lower_idempotent(t2);
}

/// A group of packages sharing one upstream project: either one exact
/// normalized URL, or a common URL ancestor of two or more sibling URLs.
#[derive(Debug)]
pub struct ProjectGroup<'a> {
    /// Normalized URL used as the grouping key. For ancestor groups this is
    /// the common prefix; for single-project groups the exact URL.
    pub url: String,
    /// Individual project URLs within this ancestor group, sorted ascending.
    /// Empty for single-project groups and for the no-URL bucket.
    pub project_urls: Vec<String>,
    /// All packages belonging to this group.
    pub packages: Vec<&'a InstalledPackage>,
}

/// The mathematical value of a group: its key, its member URLs, and its
/// packages.
pub type SpecGroup = (Seq<char>, Seq<Seq<char>>, Seq<InstalledPackage>);

/// The grouping key of a package: its normalized URL, or the empty string
/// for a package without a URL.
pub open spec fn spec_key_of(p: InstalledPackage) -> Seq<char> {
    match p.url {
        Some(u) => spec_normalize(u@),
        None => Seq::<char>::empty(),
    }
}

/// The distinct grouping keys of a package list, in first-seen order.
pub open spec fn spec_distinct_keys(pkgs: Seq<InstalledPackage>) -> Seq<Seq<char>>
    decreases pkgs.len(),
{
    if pkgs.len() == 0 {
        Seq::<Seq<char>>::empty()
    } else {
        let prior = spec_distinct_keys(pkgs.drop_last());
        let k = spec_key_of(pkgs.last());
        if prior.contains(k) {
            prior
        } else {
            prior.push(k)
        }
    }
}

/// The packages whose grouping key is `k`, in their original order.
pub open spec fn spec_bucket(pkgs: Seq<InstalledPackage>, k: Seq<char>) -> Seq<InstalledPackage>
    decreases pkgs.len(),
{
    if pkgs.len() == 0 {
        Seq::<InstalledPackage>::empty()
    } else {
        let prior = spec_bucket(pkgs.drop_last(), k);
        if spec_key_of(pkgs.last()) == k {
            prior.push(pkgs.last())
        } else {
            prior
        }
    }
}

/// The ancestor under which a key may be merged: its parent key, unless the
/// parent is empty or the key has none.
pub open spec fn spec_merge_ancestor(k: Seq<char>) -> Option<Seq<char>> {
    match spec_ancestor(k) {
        Some(a) => if a.len() > 0 {
            Some(a)
        } else {
            None
        },
        None => None,
    }
}

/// The keys in `keys` whose merge ancestor is `a`, in order.
pub open spec fn spec_children(keys: Seq<Seq<char>>, a: Seq<char>) -> Seq<Seq<char>>
    decreases keys.len(),
{
    if keys.len() == 0 {
        Seq::<Seq<char>>::empty()
    } else {
        let prior = spec_children(keys.drop_last(), a);
        if spec_merge_ancestor(keys.last()) == Some(a) {
            prior.push(keys.last())
        } else {
            prior
        }
    }
}

/// The distinct merge ancestors of `keys`, in first-seen order.
pub open spec fn spec_ancestor_list(keys: Seq<Seq<char>>) -> Seq<Seq<char>>
    decreases keys.len(),
{
    if keys.len() == 0 {
        Seq::<Seq<char>>::empty()
    } else {
        let prior = spec_ancestor_list(keys.drop_last());
        match spec_merge_ancestor(keys.last()) {
            Some(a) => if prior.contains(a) {
                prior
            } else {
                prior.push(a)
            },
            None => prior,
        }
    }
}

/// The ancestors in `ancs` that have at least two child keys in `keys`.
pub open spec fn spec_filter_merged(ancs: Seq<Seq<char>>, keys: Seq<Seq<char>>) -> Seq<Seq<char>>
    decreases ancs.len(),
{
    if ancs.len() == 0 {
        Seq::<Seq<char>>::empty()
    } else {
        let prior = spec_filter_merged(ancs.drop_last(), keys);
        if spec_children(keys, ancs.last()).len() >= 2 {
            prior.push(ancs.last())
        } else {
            prior
        }
    }
}

/// The ancestors eligible for merging: distinct merge ancestors with two or
/// more distinct child keys.
pub open spec fn spec_merged_ancestors(keys: Seq<Seq<char>>) -> Seq<Seq<char>> {
    spec_filter_merged(spec_ancestor_list(keys), keys)
}

/// Whether key `k` is consumed by an ancestor merge over `keys`.
pub open spec fn spec_key_merged(keys: Seq<Seq<char>>, k: Seq<char>) -> bool {
    match spec_merge_ancestor(k) {
        Some(a) => spec_children(keys, a).len() >= 2,
        None => false,
    }
}

/// Insert `x` into a sorted list of strings, after every element that is
/// not strictly greater (so insertion is stable).
pub open spec fn spec_insert_sorted(sorted: Seq<Seq<char>>, x: Seq<char>) -> Seq<Seq<char>>
    decreases sorted.len(),
{
    if sorted.len() > 0 && !spec_str_lt(x, sorted[0]) {
        seq![sorted[0]] + spec_insert_sorted(sorted.drop_first(), x)
    } else {
        seq![x] + sorted
    }
}

/// Stable insertion sort of a list of strings, ascending.
pub open spec fn spec_sort_strings(s: Seq<Seq<char>>) -> Seq<Seq<char>>
    decreases s.len(),
{
    if s.len() == 0 {
        Seq::<Seq<char>>::empty()
    } else {
        spec_insert_sorted(spec_sort_strings(s.drop_last()), s.last())
    }
}

/// The concatenation of the buckets of `urls`, in `urls` order.
pub open spec fn spec_concat_buckets(
    pkgs: Seq<InstalledPackage>,
    urls: Seq<Seq<char>>,
) -> Seq<InstalledPackage>
    decreases urls.len(),
{
    if urls.len() == 0 {
        Seq::<InstalledPackage>::empty()
    } else {
        spec_concat_buckets(pkgs, urls.drop_last()) + spec_bucket(pkgs, urls.last())
    }
}

/// The group made by merging the children of ancestor `a`: keyed by `a`,
/// member URLs sorted ascending, packages concatenated in sorted child-key
/// order (keeping each bucket's own order).
pub open spec fn spec_merged_group(pkgs: Seq<InstalledPackage>, a: Seq<char>) -> SpecGroup {
    let cs = spec_sort_strings(spec_children(spec_distinct_keys(pkgs), a));
    (a, cs, spec_concat_buckets(pkgs, cs))
}

/// The merged groups of `pkgs`, one per ancestor in `ancs`, in order.
pub open spec fn spec_merged_groups(
    pkgs: Seq<InstalledPackage>,
    ancs: Seq<Seq<char>>,
) -> Seq<SpecGroup>
    decreases ancs.len(),
{
    if ancs.len() == 0 {
        Seq::<SpecGroup>::empty()
    } else {
        spec_merged_groups(pkgs, ancs.drop_last()).push(spec_merged_group(pkgs, ancs.last()))
    }
}

/// The standalone groups of `pkgs`: one per non-merged key in `keys`, with
/// no member URLs and the key's own bucket.
pub open spec fn spec_standalone_groups(
    pkgs: Seq<InstalledPackage>,
    keys: Seq<Seq<char>>,
) -> Seq<SpecGroup>
    decreases keys.len(),
{
    if keys.len() == 0 {
        Seq::<SpecGroup>::empty()
    } else {
        let prior = spec_standalone_groups(pkgs, keys.drop_last());
        if spec_key_merged(spec_distinct_keys(pkgs), keys.last()) {
            prior
        } else {
            prior.push((keys.last(), Seq::<Seq<char>>::empty(), spec_bucket(pkgs, keys.last())))
        }
    }
}

/// Insert a group into a key-sorted list of groups, after every group whose
/// key is not strictly greater (so insertion is stable).
pub open spec fn spec_insert_group(sorted: Seq<SpecGroup>, x: SpecGroup) -> Seq<SpecGroup>
    decreases sorted.len(),
{
    if sorted.len() > 0 && !spec_str_lt(x.0, sorted[0].0) {
        seq![sorted[0]] + spec_insert_group(sorted.drop_first(), x)
    } else {
        seq![x] + sorted
    }
}

/// Stable insertion sort of groups by key, ascending.
pub open spec fn spec_sort_groups(s: Seq<SpecGroup>) -> Seq<SpecGroup>
    decreases s.len(),
{
    if s.len() == 0 {
        Seq::<SpecGroup>::empty()
    } else {
        spec_insert_group(spec_sort_groups(s.drop_last()), s.last())
    }
}

/// The full grouping of a package list: merged ancestor groups followed by
/// standalone exact groups, sorted by key ascending (stably, merged groups
/// first among equal keys).
pub open spec fn spec_group_by_project(pkgs: Seq<InstalledPackage>) -> Seq<SpecGroup> {
    let keys = spec_distinct_keys(pkgs);
    spec_sort_groups(
        spec_merged_groups(pkgs, spec_merged_ancestors(keys)) + spec_standalone_groups(pkgs, keys),
    )
}

/// The mathematical value of one executable group.
pub open spec fn spec_group_view<'a>(g: ProjectGroup<'a>) -> SpecGroup {
    (g.url@, views_of(g.project_urls@), g.packages@.map_values(|p: &InstalledPackage| *p))
}

/// The mathematical values of a list of executable groups.
pub open spec fn spec_groups_view<'a>(gs: Seq<ProjectGroup<'a>>) -> Seq<SpecGroup> {
    gs.map_values(|g: ProjectGroup<'a>| spec_group_view(g))
}

/// The grouping key of one package.
pub fn package_key(p: &InstalledPackage) -> (r: String)
    ensures
        r@ == spec_key_of(*p),
{
    match &p.url {
        Some(u) => normalize_url(u.as_str()),
        None => String::new(),
    }
}

/// Whether `v` holds a string with the characters of `x`.
fn vec_contains_str(v: &Vec<String>, x: &str) -> (r: bool)
    ensures
        r == views_of(v@).contains(x@),
{
    let mut i: usize = 0;
    while i < v.len()
        invariant
            i <= v@.len(),
            forall|k: int| 0 <= k < i ==> views_of(v@)[k] != x@,
        decreases v@.len() - i,
    {
        if str_eq_str(v[i].as_str(), x) {
            proof {
                assert(views_of(v@)[i as int] == x@);
            }
            return true;
        }
        proof {
            assert(views_of(v@)[i as int] == v@[i as int]@);
        }
        i += 1;
    }
    false
}

/// The ancestor under which a key may be merged, if any.
fn merge_ancestor(k: &str) -> (r: Option<String>)
    ensures
        r is Some <==> spec_merge_ancestor(k@) is Some,
        r is Some ==> r->0@ == spec_merge_ancestor(k@)->0,
{
    match compute_ancestor(k) {
        None => None,
        Some(a) => {
            if a.as_str().unicode_len() == 0 {
                None
            } else {
                Some(a)
            }
        },
    }
}

/// The distinct grouping keys of `packages`, in first-seen order.
fn distinct_keys_exec(packages: &Vec<InstalledPackage>) -> (keys: Vec<String>)
    ensures
        views_of(keys@) == spec_distinct_keys(packages@),
{
    let mut keys: Vec<String> = Vec::new();
    let mut i: usize = 0;
    proof {
        assert(views_of(keys@) =~= spec_distinct_keys(packages@.take(0)));
    }
    while i < packages.len()
        invariant
            i <= packages@.len(),
            views_of(keys@) == spec_distinct_keys(packages@.take(i as int)),
        decreases packages@.len() - i,
    {
        let k = package_key(&packages[i]);
        proof {
            assert(packages@.take(i + 1).drop_last() =~= packages@.take(i as int));
            assert(packages@.take(i + 1).last() == packages@[i as int]);
        }
        if !vec_contains_str(&keys, k.as_str()) {
            keys.push(k);
            proof {
                assert(views_of(keys@) =~= spec_distinct_keys(packages@.take(i + 1)));
            }
        }
        i += 1;
    }
    proof {
        assert(packages@.take(packages@.len() as int) =~= packages@);
    }
    keys
}

/// The keys in `keys` whose merge ancestor is `a`, in order.
fn children_exec(keys: &Vec<String>, a: &str) -> (r: Vec<String>)
    ensures
        views_of(r@) == spec_children(views_of(keys@), a@),
{
    let ghost kv = views_of(keys@);
    let mut r: Vec<String> = Vec::new();
    let mut i: usize = 0;
    proof {
        assert(views_of(r@) =~= spec_children(kv.take(0), a@));
    }
    while i < keys.len()
        invariant
            i <= keys@.len(),
            kv == views_of(keys@),
            views_of(r@) == spec_children(kv.take(i as int), a@),
        decreases keys@.len() - i,
    {
        proof {
            assert(kv.take(i + 1).drop_last() =~= kv.take(i as int));
            assert(kv.take(i + 1).last() == kv[i as int]);
            assert(kv[i as int] == keys@[i as int]@);
        }
        match merge_ancestor(keys[i].as_str()) {
            Some(anc) => {
                if str_eq_str(anc.as_str(), a) {
                    r.push(keys[i].clone());
                    proof {
                        assert(views_of(r@) =~= spec_children(kv.take(i + 1), a@));
                    }
                } else {
                    proof {
                        assert(spec_merge_ancestor(kv[i as int]) != Some(a@));
                    }
                }
            },
            None => {},
        }
        i += 1;
    }
    proof {
        assert(kv.take(kv.len() as int) =~= kv);
    }
    r
}

/// The distinct merge ancestors of `keys`, in first-seen order.
fn ancestor_list_exec(keys: &Vec<String>) -> (r: Vec<String>)
    ensures
        views_of(r@) == spec_ancestor_list(views_of(keys@)),
{
    let ghost kv = views_of(keys@);
    let mut r: Vec<String> = Vec::new();
    let mut i: usize = 0;
    proof {
        assert(views_of(r@) =~= spec_ancestor_list(kv.take(0)));
    }
    while i < keys.len()
        invariant
            i <= keys@.len(),
            kv == views_of(keys@),
            views_of(r@) == spec_ancestor_list(kv.take(i as int)),
        decreases keys@.len() - i,
    {
        proof {
            assert(kv.take(i + 1).drop_last() =~= kv.take(i as int));
            assert(kv.take(i + 1).last() == kv[i as int]);
            assert(kv[i as int] == keys@[i as int]@);
        }
        match merge_ancestor(keys[i].as_str()) {
            Some(anc) => {
                if !vec_contains_str(&r, anc.as_str()) {
                    r.push(anc);
                    proof {
                        assert(views_of(r@) =~= spec_ancestor_list(kv.take(i + 1)));
                    }
                }
            },
            None => {},
        }
        i += 1;
    }
    proof {
        assert(kv.take(kv.len() as int) =~= kv);
    }
    r
}

/// The ancestors of `keys` eligible for merging: those with two or more
/// distinct child keys.
fn merged_ancestors_exec(keys: &Vec<String>) -> (r: Vec<String>)
    ensures
        views_of(r@) == spec_merged_ancestors(views_of(keys@)),
{
    let ancs = ancestor_list_exec(keys);
    let ghost av = views_of(ancs@);
    let mut r: Vec<String> = Vec::new();
    let mut i: usize = 0;
    proof {
        assert(views_of(r@) =~= spec_filter_merged(av.take(0), views_of(keys@)));
    }
    while i < ancs.len()
        invariant
            i <= ancs@.len(),
            av == views_of(ancs@),
            views_of(r@) == spec_filter_merged(av.take(i as int), views_of(keys@)),
        decreases ancs@.len() - i,
    {
        proof {
            assert(av.take(i + 1).drop_last() =~= av.take(i as int));
            assert(av.take(i + 1).last() == av[i as int]);
            assert(av[i as int] == ancs@[i as int]@);
        }
        let children = children_exec(keys, ancs[i].as_str());
        if children.len() >= 2 {
            r.push(ancs[i].clone());
            proof {
                assert(views_of(children@).len() == children@.len());
                assert(views_of(r@) =~= spec_filter_merged(av.take(i + 1), views_of(keys@)));
            }
        } else {
            proof {
                assert(views_of(children@).len() == children@.len());
            }
        }
        i += 1;
    }
    proof {
        assert(av.take(av.len() as int) =~= av);
    }
    r
}

/// The packages of `packages` whose grouping key is `k`, as references, in
/// their original order.
fn bucket_refs<'a>(packages: &'a Vec<InstalledPackage>, k: &str) -> (r: Vec<
    &'a InstalledPackage,
>)
    ensures
        r@.map_values(|p: &InstalledPackage| *p) == spec_bucket(packages@, k@),
{
    let mut r: Vec<&'a InstalledPackage> = Vec::new();
    let mut i: usize = 0;
    proof {
        assert(r@.map_values(|p: &InstalledPackage| *p) =~= spec_bucket(packages@.take(0), k@));
    }
    while i < packages.len()
        invariant
            i <= packages@.len(),
            r@.map_values(|p: &InstalledPackage| *p) == spec_bucket(packages@.take(i as int), k@),
        decreases packages@.len() - i,
    {
        proof {
            assert(packages@.take(i + 1).drop_last() =~= packages@.take(i as int));
            assert(packages@.take(i + 1).last() == packages@[i as int]);
        }
        let key = package_key(&packages[i]);
        if str_eq_str(key.as_str(), k) {
            let p: &'a InstalledPackage = &packages[i];
            r.push(p);
            proof {
                assert(r@.map_values(|p: &InstalledPackage| *p) =~= spec_bucket(
                    packages@.take(i + 1),
                    k@,
                ));
            }
        }
        i += 1;
    }
    proof {
        assert(packages@.take(packages@.len() as int) =~= packages@);
    }
    r
}

/// Insert `x` into an ascending list of strings, after every element not
/// strictly greater than it.
fn insert_string_sorted(sorted: Vec<String>, x: String) -> (r: Vec<String>)
    ensures
        views_of(r@) == spec_insert_sorted(views_of(sorted@), x@),
{
    let ghost sv = views_of(sorted@);
    let mut idx: usize = 0;
    proof {
        assert(sv.skip(0) =~= sv);
        assert(sv.take(0) + spec_insert_sorted(sv.skip(0), x@) =~= spec_insert_sorted(sv, x@));
    }
    while idx < sorted.len() && !str_lt_str(x.as_str(), sorted[idx].as_str())
        invariant
            idx <= sorted@.len(),
            sv == views_of(sorted@),
            spec_insert_sorted(sv, x@) == sv.take(idx as int) + spec_insert_sorted(
                sv.skip(idx as int),
                x@,
            ),
        decreases sorted@.len() - idx,
    {
        proof {
            assert(sv.skip(idx as int)[0] == sv[idx as int]);
            assert(sv[idx as int] == sorted@[idx as int]@);
            assert(sv.skip(idx as int).drop_first() =~= sv.skip(idx + 1));
            assert(sv.take(idx as int) + (seq![sv[idx as int]] + spec_insert_sorted(
                sv.skip(idx + 1),
                x@,
            )) =~= sv.take(idx + 1) + spec_insert_sorted(sv.skip(idx + 1), x@));
        }
        idx += 1;
    }
    proof {
        if idx < sorted@.len() {
            assert(sv.skip(idx as int)[0] == sorted@[idx as int]@);
        }
        assert(spec_insert_sorted(sv.skip(idx as int), x@) == seq![x@] + sv.skip(idx as int));
    }
    let mut out = sorted;
    out.insert(idx, x);
    proof {
        assert(views_of(out@) =~= sv.take(idx as int) + (seq![x@] + sv.skip(idx as int)));
    }
    out
}

/// Sort a list of strings ascending (stably).
pub(crate) fn sort_strings_exec(v: Vec<String>) -> (r: Vec<String>)
    ensures
        views_of(r@) == spec_sort_strings(views_of(v@)),
{
    let ghost vv = views_of(v@);
    let mut out: Vec<String> = Vec::new();
    let mut i: usize = 0;
    proof {
        assert(views_of(out@) =~= spec_sort_strings(vv.take(0)));
    }
    while i < v.len()
        invariant
            i <= v@.len(),
            vv == views_of(v@),
            views_of(out@) == spec_sort_strings(vv.take(i as int)),
        decreases v@.len() - i,
    {
        proof {
            assert(vv.take(i + 1).drop_last() =~= vv.take(i as int));
            assert(vv.take(i + 1).last() == vv[i as int]);
            assert(vv[i as int] == v@[i as int]@);
        }
        out = insert_string_sorted(out, v[i].clone());
        i += 1;
    }
    proof {
        assert(vv.take(vv.len() as int) =~= vv);
    }
    out
}

/// Insert a group into a key-ascending list, after every group whose key is
/// not strictly greater.
fn insert_group_sorted<'a>(sorted: Vec<ProjectGroup<'a>>, x: ProjectGroup<'a>) -> (r: Vec<
    ProjectGroup<'a>,
>)
    ensures
        spec_groups_view(r@) == spec_insert_group(spec_groups_view(sorted@), spec_group_view(x)),
{
    let ghost sv = spec_groups_view(sorted@);
    let ghost xv = spec_group_view(x);
    let mut idx: usize = 0;
    proof {
        assert(sv.skip(0) =~= sv);
        assert(sv.take(0) + spec_insert_group(sv.skip(0), xv) =~= spec_insert_group(sv, xv));
    }
    while idx < sorted.len() && !str_lt_str(x.url.as_str(), sorted[idx].url.as_str())
        invariant
            idx <= sorted@.len(),
            sv == spec_groups_view(sorted@),
            xv == spec_group_view(x),
            spec_insert_group(sv, xv) == sv.take(idx as int) + spec_insert_group(
                sv.skip(idx as int),
                xv,
            ),
        decreases sorted@.len() - idx,
    {
        proof {
            assert(sv.skip(idx as int)[0] == sv[idx as int]);
            assert(sv[idx as int] == spec_group_view(sorted@[idx as int]));
            assert(sv.skip(idx as int).drop_first() =~= sv.skip(idx + 1));
            assert(sv.take(idx as int) + (seq![sv[idx as int]] + spec_insert_group(
                sv.skip(idx + 1),
                xv,
            )) =~= sv.take(idx + 1) + spec_insert_group(sv.skip(idx + 1), xv));
        }
        idx += 1;
    }
    proof {
        if idx < sorted@.len() {
            assert(sv.skip(idx as int)[0] == spec_group_view(sorted@[idx as int]));
        }
        assert(spec_insert_group(sv.skip(idx as int), xv) == seq![xv] + sv.skip(idx as int));
    }
    let mut out = sorted;
    out.insert(idx, x);
    proof {
        assert(spec_groups_view(out@) =~= sv.take(idx as int) + (seq![xv] + sv.skip(idx as int)));
    }
    out
}

/// Group packages by their normalized upstream URL, then merge sibling
/// groups that share a common URL ancestor when two or more exist.
///
/// Packages without a URL are collected under the empty-string key. The
/// returned groups are sorted ascending by key; a merged group lists its
/// member URLs sorted ascending and concatenates their packages in that
/// order, keeping each bucket's own order.
pub fn group_by_project<'a>(packages: &'a Vec<InstalledPackage>) -> (groups: Vec<ProjectGroup<'a>>)
    ensures
        spec_groups_view(groups@) == spec_group_by_project(packages@),
{
    let keys = distinct_keys_exec(packages);
    let merged = merged_ancestors_exec(&keys);
    let ghost kv = views_of(keys@);
    let ghost mv = views_of(merged@);
    let mut groups: Vec<ProjectGroup<'a>> = Vec::new();
    let mut i: usize = 0;
    proof {
        assert(spec_groups_view(groups@) =~= spec_sort_groups(
            spec_merged_groups(packages@, mv.take(0)),
        ));
    }
    while i < merged.len()
        invariant
            i <= merged@.len(),
            kv == views_of(keys@),
            mv == views_of(merged@),
            kv == spec_distinct_keys(packages@),
            mv == spec_merged_ancestors(kv),
            spec_groups_view(groups@) == spec_sort_groups(
                spec_merged_groups(packages@, mv.take(i as int)),
            ),
        decreases merged@.len() - i,
    {
        let a = &merged[i];
        let children = children_exec(&keys, a.as_str());
        let sorted_children = sort_strings_exec(children);
        let ghost scv = views_of(sorted_children@);
        let mut members: Vec<&'a InstalledPackage> = Vec::new();
        let mut j: usize = 0;
        proof {
            assert(members@.map_values(|p: &InstalledPackage| *p) =~= spec_concat_buckets(
                packages@,
                scv.take(0),
            ));
        }
        while j < sorted_children.len()
            invariant
                j <= sorted_children@.len(),
                scv == views_of(sorted_children@),
                members@.map_values(|p: &InstalledPackage| *p) == spec_concat_buckets(
                    packages@,
                    scv.take(j as int),
                ),
            decreases sorted_children@.len() - j,
        {
            proof {
                assert(scv.take(j + 1).drop_last() =~= scv.take(j as int));
                assert(scv.take(j + 1).last() == scv[j as int]);
                assert(scv[j as int] == sorted_children@[j as int]@);
            }
            let mut bucket = bucket_refs(packages, sorted_children[j].as_str());
            proof {
                assert((members@ + bucket@).map_values(|p: &InstalledPackage| *p)
                    =~= members@.map_values(|p: &InstalledPackage| *p) + bucket@.map_values(
                    |p: &InstalledPackage| *p,
                ));
            }
            members.append(&mut bucket);
            j += 1;
        }
        proof {
            assert(scv.take(scv.len() as int) =~= scv);
            assert(mv.take(i + 1).drop_last() =~= mv.take(i as int));
            assert(mv.take(i + 1).last() == mv[i as int]);
            assert(mv[i as int] == merged@[i as int]@);
        }
        let g = ProjectGroup { url: a.clone(), project_urls: sorted_children, packages: members };
        proof {
            assert(spec_group_view(g) == spec_merged_group(packages@, mv[i as int]));
            let processed = spec_merged_groups(packages@, mv.take(i as int));
            assert(processed.push(spec_group_view(g)).drop_last() =~= processed);
            assert(spec_merged_groups(packages@, mv.take(i + 1)) =~= processed.push(
                spec_group_view(g),
            ));
        }
        groups = insert_group_sorted(groups, g);
        i += 1;
    }
    proof {
        assert(mv.take(mv.len() as int) =~= mv);
        assert(spec_standalone_groups(packages@, kv.take(0)) =~= Seq::<SpecGroup>::empty());
        assert(spec_merged_groups(packages@, mv) + spec_standalone_groups(packages@, kv.take(0))
            =~= spec_merged_groups(packages@, mv));
    }
    let mut j: usize = 0;
    while j < keys.len()
        invariant
            j <= keys@.len(),
            kv == views_of(keys@),
            mv == views_of(merged@),
            kv == spec_distinct_keys(packages@),
            mv == spec_merged_ancestors(kv),
            spec_groups_view(groups@) == spec_sort_groups(
                spec_merged_groups(packages@, mv) + spec_standalone_groups(
                    packages@,
                    kv.take(j as int),
                ),
            ),
        decreases keys@.len() - j,
    {
        proof {
            assert(kv.take(j + 1).drop_last() =~= kv.take(j as int));
            assert(kv.take(j + 1).last() == kv[j as int]);
            assert(kv[j as int] == keys@[j as int]@);
        }
        let is_merged = match merge_ancestor(keys[j].as_str()) {
            Some(anc) => children_exec(&keys, anc.as_str()).len() >= 2,
            None => false,
        };
        proof {
            assert(is_merged == spec_key_merged(kv, kv[j as int]));
        }
        if !is_merged {
            let bucket = bucket_refs(packages, keys[j].as_str());
            let g = ProjectGroup {
                url: keys[j].clone(),
                project_urls: Vec::new(),
                packages: bucket,
            };
            proof {
                assert(spec_group_view(g) == (
                    kv[j as int],
                    Seq::<Seq<char>>::empty(),
                    spec_bucket(packages@, kv[j as int]),
                )) by {
                    assert(views_of(g.project_urls@) =~= Seq::<Seq<char>>::empty());
                }
                let pre = spec_merged_groups(packages@, mv) + spec_standalone_groups(
                    packages@,
                    kv.take(j as int),
                );
                assert((pre.push(spec_group_view(g))).drop_last() =~= pre);
                assert(spec_merged_groups(packages@, mv) + spec_standalone_groups(
                    packages@,
                    kv.take(j + 1),
                ) =~= pre.push(spec_group_view(g)));
            }
            groups = insert_group_sorted(groups, g);
        } else {
            proof {
                assert(spec_merged_groups(packages@, mv) + spec_standalone_groups(
                    packages@,
                    kv.take(j + 1),
                ) =~= spec_merged_groups(packages@, mv) + spec_standalone_groups(
                    packages@,
                    kv.take(j as int),
                ));
            }
        }
        j += 1;
    }
    proof {
        assert(kv.take(kv.len() as int) =~= kv);
    }
    groups
}

/// Return a page of items from a slice, plus how many items remain beyond
/// the page. A `limit` of 0 means "show all".
pub fn paginate<'a, T>(items: &'a [T], limit: usize) -> (r: (&'a [T], usize))
    ensures
        limit == 0 || limit >= items@.len() ==> r.0@ == items@ && r.1 == 0,
        0 < limit < items@.len() ==> r.0@ == items@.take(limit as int) && r.1 == items@.len()
            - limit,
{
    if limit == 0 || limit >= items.len() {
        (items, 0)
    } else {
        proof {
            assert(items@.subrange(0, limit as int) =~= items@.take(limit as int));
        }
        (vstd::slice::slice_subrange(items, 0, limit), items.len() - limit)
    }
}

/// The sort order of the package report: case-insensitively by name, then
/// by package source.
pub open spec fn spec_pkg_lt(a: InstalledPackage, b: InstalledPackage) -> bool {
    ||| spec_str_lt(spec_lower(a.name@), spec_lower(b.name@))
    ||| (spec_lower(a.name@) == spec_lower(b.name@) && spec_source_rank(a.source)
        < spec_source_rank(b.source))
}

/// Insert a package into a sorted list, after every package not strictly
/// greater (so insertion is stable).
pub open spec fn spec_insert_pkg(
    sorted: Seq<InstalledPackage>,
    x: InstalledPackage,
) -> Seq<InstalledPackage>
    decreases sorted.len(),
{
    if sorted.len() > 0 && !spec_pkg_lt(x, sorted[0]) {
        seq![sorted[0]] + spec_insert_pkg(sorted.drop_first(), x)
    } else {
        seq![x] + sorted
    }
}

/// Stable insertion sort of packages in report order.
pub open spec fn spec_sort_packages(s: Seq<InstalledPackage>) -> Seq<InstalledPackage>
    decreases s.len(),
{
    if s.len() == 0 {
        Seq::<InstalledPackage>::empty()
    } else {
        spec_insert_pkg(spec_sort_packages(s.drop_last()), s.last())
    }
}

/// Exec mirror of [`spec_pkg_lt`].
fn pkg_lt(a: &InstalledPackage, b: &InstalledPackage) -> (r: bool)
    ensures
        r == spec_pkg_lt(*a, *b),
{
    let la = lower_str(a.name.as_str());
    let lb = lower_str(b.name.as_str());
    if str_lt_str(la.as_str(), lb.as_str()) {
        true
    } else if str_eq_str(la.as_str(), lb.as_str()) {
        a.source.rank() < b.source.rank()
    } else {
        false
    }
}

/// Sort packages case-insensitively by name, then by source (stably).
pub fn sort_packages(packages: &mut Vec<InstalledPackage>)
    ensures
        final(packages)@ == spec_sort_packages(old(packages)@),
{
    let ghost orig = old(packages)@;
    let mut i: usize = 0;
    proof {
        assert(packages@ =~= spec_sort_packages(orig.take(0)) + orig.skip(0));
    }
    while i < packages.len()
        invariant
            i <= orig.len(),
            packages@.len() == orig.len(),
            packages@ == spec_sort_packages(orig.take(i as int)) + orig.skip(i as int),
        decreases orig.len() - i,
    {
        let ghost sp = spec_sort_packages(orig.take(i as int));
        proof {
            assert(sp.len() == packages@.len() - orig.skip(i as int).len());
            assert(packages@[i as int] == orig.skip(i as int)[0]);
            assert(orig.skip(i as int)[0] == orig[i as int]);
        }
        let x = packages.remove(i);
        let ghost xv = x;
        proof {
            assert(packages@ =~= sp + orig.skip(i + 1));
            assert(sp.skip(0) =~= sp);
            assert(sp.take(0) + spec_insert_pkg(sp.skip(0), xv) =~= spec_insert_pkg(sp, xv));
        }
        let mut idx: usize = 0;
        while idx < i && !pkg_lt(&x, &packages[idx])
            invariant
                idx <= i,
                i <= orig.len(),
                xv == x,
                sp == spec_sort_packages(orig.take(i as int)),
                sp.len() == i,
                packages@ == sp + orig.skip(i + 1),
                spec_insert_pkg(sp, xv) == sp.take(idx as int) + spec_insert_pkg(
                    sp.skip(idx as int),
                    xv,
                ),
            decreases i - idx,
        {
            proof {
                assert(sp.skip(idx as int)[0] == sp[idx as int]);
                assert(sp[idx as int] == packages@[idx as int]);
                assert(sp.skip(idx as int).drop_first() =~= sp.skip(idx + 1));
                assert(sp.take(idx as int) + (seq![sp[idx as int]] + spec_insert_pkg(
                    sp.skip(idx + 1),
                    xv,
                )) =~= sp.take(idx + 1) + spec_insert_pkg(sp.skip(idx + 1), xv));
            }
            idx += 1;
        }
        proof {
            if idx < i {
                assert(sp.skip(idx as int)[0] == packages@[idx as int]);
            }
            assert(spec_insert_pkg(sp.skip(idx as int), xv) == seq![xv] + sp.skip(idx as int));
        }
        packages.insert(idx, x);
        proof {
            assert(orig.take(i + 1).drop_last() =~= orig.take(i as int));
            assert(orig.take(i + 1).last() == orig[i as int]);
            assert(spec_sort_packages(orig.take(i + 1)) == spec_insert_pkg(sp, xv));
            assert(packages@ =~= (sp.take(idx as int) + (seq![xv] + sp.skip(idx as int)))
                + orig.skip(i + 1));
        }
        i += 1;
    }
    proof {
        assert(orig.take(orig.len() as int) =~= orig);
        assert(orig.skip(orig.len() as int) =~= Seq::<InstalledPackage>::empty());
        assert(packages@ =~= spec_sort_packages(orig));
    }
}

/// Format a package name, with its source in brackets when the report
/// mixes several sources.
pub fn format_package_terminal(pkg: &InstalledPackage, show_source: bool) -> (r: String)
    ensures
        show_source ==> r@ == pkg.name@ + " ["@ + spec_source_label(pkg.source) + "]"@,
        !show_source ==> r@ == pkg.name@,
{
    if show_source {
        let mut r = pkg.name.clone();
        r.append(" [");
        r.append(pkg.source.label());
        r.append("]");
        r
    } else {
        pkg.name.clone()
    }
}

/// A list of strings is sorted ascending: no later element is strictly
/// below an earlier one.
pub open spec fn spec_strings_sorted(s: Seq<Seq<char>>) -> bool {
    forall|i: int, j: int| 0 <= i < j < s.len() ==> !spec_str_lt(#[trigger] s[j], #[trigger] s[i])
}

/// Every element of an insertion result is the inserted element or one of
/// the original elements.
proof fn lemma_insert_sorted_elems(s: Seq<Seq<char>>, x: Seq<char>)
    ensures
        forall|k: int|
            0 <= k < spec_insert_sorted(s, x).len() ==> #[trigger] spec_insert_sorted(s, x)[k]
                == x || exists|j: int| 0 <= j < s.len() && spec_insert_sorted(s, x)[k] == s[j],
    decreases s.len(),
{
    if s.len() > 0 && !spec_str_lt(x, s[0]) {
        lemma_insert_sorted_elems(s.drop_first(), x);
        let r = spec_insert_sorted(s, x);
        let rest = spec_insert_sorted(s.drop_first(), x);
        assert forall|k: int| 0 <= k < r.len() implies #[trigger] r[k] == x || exists|j: int|
            0 <= j < s.len() && r[k] == s[j] by {
            if k == 0 {
                assert(r[0] == s[0]);
            } else {
                assert(r[k] == rest[k - 1]);
                if rest[k - 1] != x {
                    let j = choose|j: int| 0 <= j < s.drop_first().len() && rest[k - 1]
                        == s.drop_first()[j];
                    assert(s.drop_first()[j] == s[j + 1]);
                }
            }
        }
    }
}

/// Inserting into a sorted list keeps it sorted.
proof fn lemma_insert_sorted_keeps_sorted(s: Seq<Seq<char>>, x: Seq<char>)
    requires
        spec_strings_sorted(s),
    ensures
        spec_strings_sorted(spec_insert_sorted(s, x)),
    decreases s.len(),
{
    let r = spec_insert_sorted(s, x);
    if s.len() > 0 && !spec_str_lt(x, s[0]) {
        assert forall|k: int| 0 <= k < s.drop_first().len() implies !spec_str_lt(
            #[trigger] s.drop_first()[k],
            s[0],
        ) by {
            assert(s.drop_first()[k] == s[k + 1]);
        }
        assert(spec_strings_sorted(s.drop_first())) by {
            assert forall|i: int, j: int| 0 <= i < j < s.drop_first().len() implies !spec_str_lt(
                #[trigger] s.drop_first()[j],
                #[trigger] s.drop_first()[i],
            ) by {
                assert(s.drop_first()[i] == s[i + 1]);
                assert(s.drop_first()[j] == s[j + 1]);
            }
        }
        lemma_insert_sorted_keeps_sorted(s.drop_first(), x);
        lemma_insert_sorted_elems(s.drop_first(), x);
        let rest = spec_insert_sorted(s.drop_first(), x);
        assert forall|i: int, j: int| 0 <= i < j < r.len() implies !spec_str_lt(
            #[trigger] r[j],
            #[trigger] r[i],
        ) by {
            if i == 0 {
                assert(r[0] == s[0]);
                assert(r[j] == rest[j - 1]);
                if rest[j - 1] != x {
                    let m = choose|m: int| 0 <= m < s.drop_first().len() && rest[j - 1]
                        == s.drop_first()[m];
                    assert(s.drop_first()[m] == s[m + 1]);
                    assert(!spec_str_lt(s[m + 1], s[0]));
                }
            } else {
                assert(r[i] == rest[i - 1]);
                assert(r[j] == rest[j - 1]);
            }
        }
    } else {
        assert forall|i: int, j: int| 0 <= i < j < r.len() implies !spec_str_lt(
            #[trigger] r[j],
            #[trigger] r[i],
        ) by {
            if i == 0 && s.len() > 0 {
                assert(r[0] == x);
                assert(r[j] == s[j - 1]);
                if j == 1 {
                    lemma_str_lt_not_both(x, s[0]);
                } else {
                    assert(!spec_str_lt(s[j - 1], s[0]));
                    lemma_str_lt_step_down(x, s[0], s[j - 1]);
                }
            } else if i > 0 {
                assert(r[i] == s[i - 1]);
                assert(r[j] == s[j - 1]);
            }
        }
    }
}

/// Strict lexicographic order is asymmetric.
proof fn lemma_str_lt_not_both(a: Seq<char>, b: Seq<char>)
    ensures
        !(spec_str_lt(a, b) && spec_str_lt(b, a)),
    decreases a.len(),
{
    if a.len() > 0 && b.len() > 0 && a[0] == b[0] {
        lemma_str_lt_not_both(a.drop_first(), b.drop_first());
    }
}

/// An element not below `x` cannot get below anything `x` is below: one
/// step of transitivity, in the form the insertion proof needs.
proof fn lemma_str_lt_step_down(x: Seq<char>, h: Seq<char>, c: Seq<char>)
    requires
        spec_str_lt(x, h),
        !spec_str_lt(c, h),
    ensures
        !spec_str_lt(c, x),
    decreases x.len(),
{
    if spec_str_lt(c, x) {
        lemma_str_lt_trans(c, x, h);
    }
}

/// Strict lexicographic order is transitive.
proof fn lemma_str_lt_trans(a: Seq<char>, b: Seq<char>, c: Seq<char>)
    requires
        spec_str_lt(a, b),
        spec_str_lt(b, c),
    ensures
        spec_str_lt(a, c),
    decreases a.len(),
{
    if a.len() > 0 && b.len() > 0 && c.len() > 0 && a[0] == b[0] && b[0] == c[0] {
        lemma_str_lt_trans(a.drop_first(), b.drop_first(), c.drop_first());
    }
}

/// A sorted string list stays sorted through the whole insertion sort.
pub proof fn lemma_sort_strings_sorted(s: Seq<Seq<char>>)
    ensures
        spec_strings_sorted(spec_sort_strings(s)),
    decreases s.len(),
{
    if s.len() > 0 {
        lemma_sort_strings_sorted(s.drop_last());
        lemma_insert_sorted_keeps_sorted(spec_sort_strings(s.drop_last()), s.last());
    }
}

/// The grouping output is sorted ascending by key, and so is each merged
/// group's member-URL list.
pub proof fn lemma_groups_sorted(pkgs: Seq<InstalledPackage>)
    ensures
        spec_strings_sorted(spec_group_by_project(pkgs).map_values(|g: SpecGroup| g.0)),
        forall|i: int|
            0 <= i < spec_group_by_project(pkgs).len() ==> spec_strings_sorted(
                (#[trigger] spec_group_by_project(pkgs)[i]).1,
            ),
{
    let keys = spec_distinct_keys(pkgs);
    let merged = spec_merged_groups(pkgs, spec_merged_ancestors(keys));
    let standalone = spec_standalone_groups(pkgs, keys);
    let pre = merged + standalone;
    lemma_merged_groups_members_sorted(pkgs, spec_merged_ancestors(keys));
    lemma_standalone_groups_members_sorted(pkgs, keys);
    assert forall|i: int| 0 <= i < pre.len() implies spec_strings_sorted(
        (#[trigger] pre[i]).1,
    ) by {
        if i < merged.len() {
            assert(pre[i] == merged[i]);
        } else {
            assert(pre[i] == standalone[i - merged.len()]);
        }
    }
    lemma_sort_groups_sorted(pre);
    lemma_sort_groups_members(pre);
}

/// Every merged group lists its member URLs sorted ascending.
proof fn lemma_merged_groups_members_sorted(pkgs: Seq<InstalledPackage>, ancs: Seq<Seq<char>>)
    ensures
        forall|i: int|
            0 <= i < spec_merged_groups(pkgs, ancs).len() ==> spec_strings_sorted(
                (#[trigger] spec_merged_groups(pkgs, ancs)[i]).1,
            ),
    decreases ancs.len(),
{
    if ancs.len() > 0 {
        lemma_merged_groups_members_sorted(pkgs, ancs.drop_last());
        lemma_sort_strings_sorted(spec_children(spec_distinct_keys(pkgs), ancs.last()));
        let r = spec_merged_groups(pkgs, ancs);
        let prior = spec_merged_groups(pkgs, ancs.drop_last());
        assert forall|i: int| 0 <= i < r.len() implies spec_strings_sorted(
            (#[trigger] r[i]).1,
        ) by {
            if i < prior.len() {
                assert(r[i] == prior[i]);
            } else {
                assert(r[i] == spec_merged_group(pkgs, ancs.last()));
            }
        }
    }
}

/// Standalone groups have no member URLs, a trivially sorted list.
proof fn lemma_standalone_groups_members_sorted(
    pkgs: Seq<InstalledPackage>,
    keys: Seq<Seq<char>>,
)
    ensures
        forall|i: int|
            0 <= i < spec_standalone_groups(pkgs, keys).len() ==> spec_strings_sorted(
                (#[trigger] spec_standalone_groups(pkgs, keys)[i]).1,
            ),
    decreases keys.len(),
{
    if keys.len() > 0 {
        lemma_standalone_groups_members_sorted(pkgs, keys.drop_last());
        let r = spec_standalone_groups(pkgs, keys);
        let prior = spec_standalone_groups(pkgs, keys.drop_last());
        assert forall|i: int| 0 <= i < r.len() implies spec_strings_sorted(
            (#[trigger] r[i]).1,
        ) by {
            if i < prior.len() {
                assert(r[i] == prior[i]);
            }
        }
    }
}

/// The group list after sorting is ascending by key.
proof fn lemma_sort_groups_sorted(s: Seq<SpecGroup>)
    ensures
        spec_strings_sorted(spec_sort_groups(s).map_values(|g: SpecGroup| g.0)),
    decreases s.len(),
{
    if s.len() > 0 {
        lemma_sort_groups_sorted(s.drop_last());
        lemma_insert_group_keeps_sorted(spec_sort_groups(s.drop_last()), s.last());
    } else {
        assert(spec_sort_groups(s).map_values(|g: SpecGroup| g.0) =~= Seq::<Seq<char>>::empty());
    }
}

/// Inserting a group into a key-sorted list keeps it key-sorted.
proof fn lemma_insert_group_keeps_sorted(s: Seq<SpecGroup>, x: SpecGroup)
    requires
        spec_strings_sorted(s.map_values(|g: SpecGroup| g.0)),
    ensures
        spec_strings_sorted(spec_insert_group(s, x).map_values(|g: SpecGroup| g.0)),
    decreases s.len(),
{
    let keys = s.map_values(|g: SpecGroup| g.0);
    let rkeys = spec_insert_group(s, x).map_values(|g: SpecGroup| g.0);
    assert(rkeys =~= spec_insert_sorted_groups_keys(s, x)) by {
        lemma_insert_group_keys(s, x);
    }
    lemma_insert_sorted_keeps_sorted(keys, x.0);
}

/// The keys of a group insertion are the insertion of the keys.
spec fn spec_insert_sorted_groups_keys(s: Seq<SpecGroup>, x: SpecGroup) -> Seq<Seq<char>> {
    spec_insert_sorted(s.map_values(|g: SpecGroup| g.0), x.0)
}

/// Inserting a group then reading the keys equals inserting the key.
proof fn lemma_insert_group_keys(s: Seq<SpecGroup>, x: SpecGroup)
    ensures
        spec_insert_group(s, x).map_values(|g: SpecGroup| g.0) =~= spec_insert_sorted(
            s.map_values(|g: SpecGroup| g.0),
            x.0,
        ),
    decreases s.len(),
{
    if s.len() > 0 && !spec_str_lt(x.0, s[0].0) {
        lemma_insert_group_keys(s.drop_first(), x);
        assert(s.map_values(|g: SpecGroup| g.0)[0] == s[0].0);
        assert(s.drop_first().map_values(|g: SpecGroup| g.0) =~= s.map_values(
            |g: SpecGroup| g.0,
        ).drop_first());
    } else if s.len() > 0 {
        assert(s.map_values(|g: SpecGroup| g.0)[0] == s[0].0);
    }
}

/// Every merged group's member-URL list is sorted; standalone groups have
/// none. Sorting the group list permutes the groups, so the property
/// survives it.
proof fn lemma_sort_groups_members(pre: Seq<SpecGroup>)
    requires
        forall|i: int| 0 <= i < pre.len() ==> spec_strings_sorted((#[trigger] pre[i]).1),
    ensures
        forall|i: int|
            0 <= i < spec_sort_groups(pre).len() ==> spec_strings_sorted(
                (#[trigger] spec_sort_groups(pre)[i]).1,
            ),
    decreases pre.len(),
{
    if pre.len() > 0 {
        assert forall|i: int| 0 <= i < pre.drop_last().len() implies spec_strings_sorted(
            (#[trigger] pre.drop_last()[i]).1,
        ) by {
            assert(pre.drop_last()[i] == pre[i]);
        }
        lemma_sort_groups_members(pre.drop_last());
        lemma_insert_group_members(spec_sort_groups(pre.drop_last()), pre.last());
    }
}

/// Insertion keeps the per-group member-sortedness of every element.
proof fn lemma_insert_group_members(s: Seq<SpecGroup>, x: SpecGroup)
    requires
        forall|i: int| 0 <= i < s.len() ==> spec_strings_sorted((#[trigger] s[i]).1),
        spec_strings_sorted(x.1),
    ensures
        forall|i: int|
            0 <= i < spec_insert_group(s, x).len() ==> spec_strings_sorted(
                (#[trigger] spec_insert_group(s, x)[i]).1,
            ),
    decreases s.len(),
{
    if s.len() > 0 && !spec_str_lt(x.0, s[0].0) {
        assert forall|i: int| 0 <= i < s.drop_first().len() implies spec_strings_sorted(
            (#[trigger] s.drop_first()[i]).1,
        ) by {
            assert(s.drop_first()[i] == s[i + 1]);
        }
        lemma_insert_group_members(s.drop_first(), x);
        let r = spec_insert_group(s, x);
        let rest = spec_insert_group(s.drop_first(), x);
        assert forall|i: int| 0 <= i < r.len() implies spec_strings_sorted(
            (#[trigger] r[i]).1,
        ) by {
            if i == 0 {
                assert(r[0] == s[0]);
            } else {
                assert(r[i] == rest[i - 1]);
            }
        }
    } else {
        let r = spec_insert_group(s, x);
        assert forall|i: int| 0 <= i < r.len() implies spec_strings_sorted(
            (#[trigger] r[i]).1,
        ) by {
            if i == 0 {
                assert(r[0] == x);
            } else {
                assert(r[i] == s[i - 1]);
            }
        }
    }
}

/// A list in which every package shares one grouping key forms exactly one
/// group, keyed by that key, with no member URLs and every package in it.
pub proof fn lemma_group_uniform_key(pkgs: Seq<InstalledPackage>, k: Seq<char>)
    requires
        pkgs.len() > 0,
        forall|i: int| 0 <= i < pkgs.len() ==> spec_key_of(#[trigger] pkgs[i]) == k,
    ensures
        spec_group_by_project(pkgs) == seq![(k, Seq::<Seq<char>>::empty(), pkgs)],
{
    lemma_distinct_keys_uniform(pkgs, k);
    lemma_bucket_uniform(pkgs, k);
    let keys = spec_distinct_keys(pkgs);
    assert(keys == seq![k]);
    assert(keys.drop_last() =~= Seq::<Seq<char>>::empty());
    assert(keys.last() == k);
    let ancs = spec_ancestor_list(keys);
    assert(spec_ancestor_list(keys.drop_last()) == Seq::<Seq<char>>::empty());
    assert(spec_children(keys.drop_last(), spec_merge_ancestor(k)->0) == Seq::<Seq<char>>::empty());
    match spec_merge_ancestor(k) {
        Some(a) => {
            assert(spec_merge_ancestor(keys.last()) == Some(a));
            assert(!Seq::<Seq<char>>::empty().contains(a));
            assert(ancs == Seq::<Seq<char>>::empty().push(a));
            assert(ancs =~= seq![a]);
            assert(ancs.drop_last() =~= Seq::<Seq<char>>::empty());
            assert(spec_filter_merged(ancs.drop_last(), keys) == Seq::<Seq<char>>::empty());
            assert(spec_children(keys.drop_last(), a) == Seq::<Seq<char>>::empty());
            assert(spec_children(keys, a) == Seq::<Seq<char>>::empty().push(k));
            assert(spec_children(keys, a).len() == 1);
            assert(spec_filter_merged(ancs, keys) =~= Seq::<Seq<char>>::empty());
            assert(!spec_key_merged(keys, k));
        },
        None => {
            assert(ancs =~= Seq::<Seq<char>>::empty());
            assert(spec_filter_merged(ancs, keys) =~= Seq::<Seq<char>>::empty());
            assert(!spec_key_merged(keys, k));
        },
    }
    assert(spec_merged_groups(pkgs, spec_merged_ancestors(keys)) =~= Seq::<SpecGroup>::empty());
    let g = (k, Seq::<Seq<char>>::empty(), spec_bucket(pkgs, k));
    assert(spec_standalone_groups(pkgs, keys.drop_last()) == Seq::<SpecGroup>::empty());
    assert(spec_standalone_groups(pkgs, keys) == Seq::<SpecGroup>::empty().push(g));
    assert(spec_standalone_groups(pkgs, keys) =~= seq![g]);
    let pre = spec_merged_groups(pkgs, spec_merged_ancestors(keys)) + spec_standalone_groups(
        pkgs,
        keys,
    );
    assert(pre =~= seq![g]);
    assert(pre.drop_last() =~= Seq::<SpecGroup>::empty());
    assert(pre.last() == g);
    assert(spec_sort_groups(pre.drop_last()) == Seq::<SpecGroup>::empty());
    assert(spec_sort_groups(pre) == spec_insert_group(Seq::<SpecGroup>::empty(), g));
    assert(spec_insert_group(Seq::<SpecGroup>::empty(), g) =~= seq![g]);
}

/// Every package list with one shared key: its distinct-key list is that
/// one key.
proof fn lemma_distinct_keys_uniform(pkgs: Seq<InstalledPackage>, k: Seq<char>)
    requires
        pkgs.len() > 0,
        forall|i: int| 0 <= i < pkgs.len() ==> spec_key_of(#[trigger] pkgs[i]) == k,
    ensures
        spec_distinct_keys(pkgs) == seq![k],
    decreases pkgs.len(),
{
    if pkgs.len() == 1 {
        assert(pkgs.drop_last() =~= Seq::<InstalledPackage>::empty());
        assert(spec_distinct_keys(pkgs.drop_last()) == Seq::<Seq<char>>::empty());
        assert(spec_key_of(pkgs.last()) == k);
        assert(spec_distinct_keys(pkgs) == Seq::<Seq<char>>::empty().push(k));
        assert(Seq::<Seq<char>>::empty().push(k) =~= seq![k]);
    } else {
        assert forall|i: int| 0 <= i < pkgs.drop_last().len() implies spec_key_of(
            #[trigger] pkgs.drop_last()[i],
        ) == k by {
            assert(pkgs.drop_last()[i] == pkgs[i]);
        }
        lemma_distinct_keys_uniform(pkgs.drop_last(), k);
        assert(spec_key_of(pkgs.last()) == k);
        assert(seq![k][0] == k);
        assert(seq![k].contains(k));
    }
}

/// Every package list with one shared key: that key's bucket is the whole
/// list.
proof fn lemma_bucket_uniform(pkgs: Seq<InstalledPackage>, k: Seq<char>)
    requires
        forall|i: int| 0 <= i < pkgs.len() ==> spec_key_of(#[trigger] pkgs[i]) == k,
    ensures
        spec_bucket(pkgs, k) == pkgs,
    decreases pkgs.len(),
{
    if pkgs.len() > 0 {
        assert forall|i: int| 0 <= i < pkgs.drop_last().len() implies spec_key_of(
            #[trigger] pkgs.drop_last()[i],
        ) == k by {
            assert(pkgs.drop_last()[i] == pkgs[i]);
        }
        lemma_bucket_uniform(pkgs.drop_last(), k);
        assert(spec_key_of(pkgs.last()) == k);
        assert(pkgs.drop_last().push(pkgs.last()) =~= pkgs);
    } else {
        assert(spec_bucket(pkgs, k) =~= pkgs);
    }
}

} // verus!
