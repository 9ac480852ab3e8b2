//! The merge engine: fusing enrichment results onto a base project record.
//!
//! Each backend returns a best-effort augmented copy of the project; the
//! engine folds those copies onto the base with [`merge_enrichment`], whose
//! first-writer-wins rule makes the fixed backend order a priority order.

pub mod github;
pub mod liberapay;
pub mod license_classify;
pub mod open_collective;

use vstd::prelude::*;

use crate::project::{FundingChannel, UpstreamProject};
use crate::strutil::str_eq_str;

verus! {

/// Error signalled by an enrichment backend that could not complete. The
/// caller treats it as "no contribution from this backend this round".
#[derive(Debug)]
pub struct BackendError {
    /// Human-readable description of the failure.
    pub message: String,
}

impl BackendError {
    /// Human-readable description of the failure.
    pub fn message(&self) -> (r: String)
        ensures
            r == self.message,
    {
        self.message.clone()
    }
}

/// An enrichment backend: one source of supplementary project metadata.
///
/// Implementations enrich an [`UpstreamProject`] with data from a
/// particular source and return the result as a new value; the caller
/// merges it with the base through [`merge_enrichment`], so the fixed
/// order in which backends run is a priority order. `enrich` must not
/// mutate its input and signals unrecoverable failure with an error rather
/// than a silently degraded result.
pub trait EnrichmentBackend {
    /// A stable, lowercase identifier for this backend.
    fn name(&self) -> &'static str;

    /// Whether this backend can operate in the current environment; called
    /// once at startup to filter the active set, so it must be cheap.
    fn is_available(&self) -> bool;

    /// Enrich a project with additional metadata from this source.
    fn enrich(&self, project: &UpstreamProject) -> Result<UpstreamProject, BackendError>;
}

/// First-writer-wins on a single optional field: a populated base value is
/// kept; an empty one adopts the contribution.
pub open spec fn spec_first_some<T>(base: Option<T>, contribution: Option<T>) -> Option<T> {
    if base is Some {
        base
    } else {
        contribution
    }
}

/// Whether some string in `s` has the same characters as `v`.
pub open spec fn spec_contains_string(s: Seq<String>, v: Seq<char>) -> bool {
    exists|i: int| 0 <= i < s.len() && #[trigger] s[i]@ == v
}

/// Whether some funding channel in `s` has URL `url`.
pub open spec fn spec_contains_funding_url(s: Seq<FundingChannel>, url: Seq<char>) -> bool {
    exists|i: int| 0 <= i < s.len() && #[trigger] s[i].url@ == url
}

/// Deduplicated union of license lists: keep `acc` as-is, then append each
/// element of `xs` in order unless an equal string is already present.
pub open spec fn spec_union_licenses(acc: Seq<String>, xs: Seq<String>) -> Seq<String>
    decreases xs.len(),
{
    if xs.len() == 0 {
        acc
    } else {
        let acc2 = if spec_contains_string(acc, xs[0]@) {
            acc
        } else {
            acc.push(xs[0])
        };
        spec_union_licenses(acc2, xs.drop_first())
    }
}

/// Deduplicated union of funding channels, keyed by URL alone: the platform
/// label of the first channel seen for a URL wins.
pub open spec fn spec_union_funding(
    acc: Seq<FundingChannel>,
    xs: Seq<FundingChannel>,
) -> Seq<FundingChannel>
    decreases xs.len(),
{
    if xs.len() == 0 {
        acc
    } else {
        let acc2 = if spec_contains_funding_url(acc, xs[0].url@) {
            acc
        } else {
            acc.push(xs[0])
        };
        spec_union_funding(acc2, xs.drop_first())
    }
}

/// Whether `licenses` already holds a string equal to `v`.
pub(crate) fn contains_license(licenses: &Vec<String>, v: &String) -> (r: bool)
    ensures
        r == spec_contains_string(licenses@, v@),
{
    let mut i: usize = 0;
    while i < licenses.len()
        invariant
            i <= licenses@.len(),
            forall|k: int| 0 <= k < i ==> #[trigger] licenses@[k]@ != v@,
        decreases licenses@.len() - i,
    {
        if str_eq_str(licenses[i].as_str(), v.as_str()) {
            return true;
        }
        i += 1;
    }
    false
}

/// Whether `funding` already holds a channel with URL `url`.
pub(crate) fn contains_funding_url(funding: &Vec<FundingChannel>, url: &String) -> (r: bool)
    ensures
        r == spec_contains_funding_url(funding@, url@),
{
    let mut i: usize = 0;
    while i < funding.len()
        invariant
            i <= funding@.len(),
            forall|k: int| 0 <= k < i ==> #[trigger] funding@[k].url@ != url@,
        decreases funding@.len() - i,
    {
        if str_eq_str(funding[i].url.as_str(), url.as_str()) {
            return true;
        }
        i += 1;
    }
    false
}

/// Clone an optional string, keeping the base value when it is populated.
fn first_some_string(base: &Option<String>, contribution: &Option<String>) -> (r: Option<String>)
    ensures
        r == spec_first_some(*base, *contribution),
{
    match base {
        Some(b) => Some(b.clone()),
        None => match contribution {
            Some(c) => Some(c.clone()),
            None => None,
        },
    }
}

/// Merge enriched data onto a base project.
///
/// Every scalar or optional field follows first-writer-wins: a populated
/// base field is never replaced. `licenses` and `funding` grow by
/// deduplicated union — base entries first and in order, then new entries
/// from the contribution; funding channels are deduplicated by URL alone,
/// so the first-seen platform label for a URL wins. `name` and `repo_url`
/// always stay the base's.
pub fn merge_enrichment(base: &UpstreamProject, enriched: &UpstreamProject) -> (r: UpstreamProject)
    ensures
        r.name == base.name,
        r.repo_url == base.repo_url,
        r.homepage == spec_first_some(base.homepage, enriched.homepage),
        r.bug_tracker == spec_first_some(base.bug_tracker, enriched.bug_tracker),
        r.contributing_url == spec_first_some(base.contributing_url, enriched.contributing_url),
        r.documentation_url == spec_first_some(base.documentation_url, enriched.documentation_url),
        r.good_first_issues_url == spec_first_some(
            base.good_first_issues_url,
            enriched.good_first_issues_url,
        ),
        r.is_open_source == spec_first_some(base.is_open_source, enriched.is_open_source),
        r.stars == spec_first_some(base.stars, enriched.stars),
        r.licenses@ == spec_union_licenses(base.licenses@, enriched.licenses@),
        r.funding@ == spec_union_funding(base.funding@, enriched.funding@),
{
    let mut licenses = base.licenses.clone();
    proof {
        assert(licenses@ =~= base.licenses@);
        assert(enriched.licenses@.skip(0) =~= enriched.licenses@);
    }
    let mut i: usize = 0;
    while i < enriched.licenses.len()
        invariant
            i <= enriched.licenses@.len(),
            spec_union_licenses(base.licenses@, enriched.licenses@) == spec_union_licenses(
                licenses@,
                enriched.licenses@.skip(i as int),
            ),
        decreases enriched.licenses@.len() - i,
    {
        let lic = &enriched.licenses[i];
        proof {
            assert(enriched.licenses@.skip(i as int)[0] == enriched.licenses@[i as int]);
            assert(enriched.licenses@.skip(i as int).drop_first() =~= enriched.licenses@.skip(
                i + 1,
            ));
        }
        if !contains_license(&licenses, lic) {
            licenses.push(lic.clone());
        }
        i += 1;
    }
    proof {
        assert(spec_union_licenses(licenses@, enriched.licenses@.skip(
            enriched.licenses@.len() as int,
        )) == licenses@);
    }
    let mut funding = base.funding.clone();
    proof {
        assert(funding@ =~= base.funding@);
        assert(enriched.funding@.skip(0) =~= enriched.funding@);
    }
    let mut j: usize = 0;
    while j < enriched.funding.len()
        invariant
            j <= enriched.funding@.len(),
            spec_union_funding(base.funding@, enriched.funding@) == spec_union_funding(
                funding@,
                enriched.funding@.skip(j as int),
            ),
        decreases enriched.funding@.len() - j,
    {
        let chan = &enriched.funding[j];
        proof {
            assert(enriched.funding@.skip(j as int)[0] == enriched.funding@[j as int]);
            assert(enriched.funding@.skip(j as int).drop_first() =~= enriched.funding@.skip(j + 1));
        }
        if !contains_funding_url(&funding, &chan.url) {
            funding.push(chan.clone());
        }
        j += 1;
    }
    proof {
        assert(spec_union_funding(funding@, enriched.funding@.skip(enriched.funding@.len() as int))
            == funding@);
    }
    UpstreamProject {
        name: base.name.clone(),
        repo_url: first_some_string(&base.repo_url, &base.repo_url),
        homepage: first_some_string(&base.homepage, &enriched.homepage),
        licenses,
        funding,
        bug_tracker: first_some_string(&base.bug_tracker, &enriched.bug_tracker),
        contributing_url: first_some_string(&base.contributing_url, &enriched.contributing_url),
        is_open_source: if base.is_open_source.is_some() {
            base.is_open_source
        } else {
            enriched.is_open_source
        },
        documentation_url: first_some_string(&base.documentation_url, &enriched.documentation_url),
        good_first_issues_url: first_some_string(
            &base.good_first_issues_url,
            &enriched.good_first_issues_url,
        ),
        stars: if base.stars.is_some() {
            base.stars
        } else {
            enriched.stars
        },
    }
}

/// Build a funding channel — convenience constructor shared by backends.
pub fn funding_channel(platform: &str, url: String) -> (r: FundingChannel)
    ensures
        r.platform@ == platform@,
        r.url == url,
{
    FundingChannel { platform: platform.to_owned(), url }
}

/// The base record never loses a populated optional field to a merge:
/// whatever the contribution holds, the merged field equals the base's.
pub proof fn lemma_merge_keeps_populated_field<T>(base: Option<T>, contribution: Option<T>)
    ensures
        base is Some ==> spec_first_some(base, contribution) == base,
{
}

/// Prefixes compose: a prefix of a prefix is a prefix.
proof fn lemma_prefix_transitive<T>(a: Seq<T>, b: Seq<T>, c: Seq<T>)
    requires
        a.is_prefix_of(b),
        b.is_prefix_of(c),
    ensures
        a.is_prefix_of(c),
{
    assert(a =~= c.take(a.len() as int));
}

/// A merge only extends the license list: the base's licenses survive in
/// place as a prefix of the merged list.
pub proof fn lemma_merge_extends_licenses(acc: Seq<String>, xs: Seq<String>)
    ensures
        acc.is_prefix_of(spec_union_licenses(acc, xs)),
    decreases xs.len(),
{
    if xs.len() > 0 {
        let acc2 = if spec_contains_string(acc, xs[0]@) {
            acc
        } else {
            acc.push(xs[0])
        };
        lemma_merge_extends_licenses(acc2, xs.drop_first());
        assert(acc.is_prefix_of(acc2));
        lemma_prefix_transitive(acc, acc2, spec_union_licenses(acc2, xs.drop_first()));
    } else {
        assert(acc =~= spec_union_licenses(acc, xs).take(acc.len() as int));
    }
}

/// A merge only extends the funding list: the base's channels survive in
/// place as a prefix of the merged list.
pub proof fn lemma_merge_extends_funding(acc: Seq<FundingChannel>, xs: Seq<FundingChannel>)
    ensures
        acc.is_prefix_of(spec_union_funding(acc, xs)),
    decreases xs.len(),
{
    if xs.len() > 0 {
        let acc2 = if spec_contains_funding_url(acc, xs[0].url@) {
            acc
        } else {
            acc.push(xs[0])
        };
        lemma_merge_extends_funding(acc2, xs.drop_first());
        assert(acc.is_prefix_of(acc2));
        lemma_prefix_transitive(acc, acc2, spec_union_funding(acc2, xs.drop_first()));
    } else {
        assert(acc =~= spec_union_funding(acc, xs).take(acc.len() as int));
    }
}

/// Merged funding channels have pairwise-distinct URLs whenever the base's
/// already do: the union never introduces a duplicate URL.
pub proof fn lemma_merge_funding_distinct(acc: Seq<FundingChannel>, xs: Seq<FundingChannel>)
    requires
        forall|i: int, j: int|
            0 <= i < j < acc.len() ==> acc[i].url@ != acc[j].url@,
    ensures
        forall|i: int, j: int|
            0 <= i < j < spec_union_funding(acc, xs).len() ==> spec_union_funding(acc, xs)[i].url@
                != spec_union_funding(acc, xs)[j].url@,
    decreases xs.len(),
{
    if xs.len() > 0 {
        let acc2 = if spec_contains_funding_url(acc, xs[0].url@) {
            acc
        } else {
            acc.push(xs[0])
        };
        assert forall|i: int, j: int| 0 <= i < j < acc2.len() implies acc2[i].url@
            != acc2[j].url@ by {
            if acc2.len() > acc.len() && j == acc.len() {
                assert(!spec_contains_funding_url(acc, xs[0].url@));
                assert(acc2[i] == acc[i]);
                if acc[i].url@ == xs[0].url@ {
                    assert(spec_contains_funding_url(acc, xs[0].url@));
                }
            }
        }
        lemma_merge_funding_distinct(acc2, xs.drop_first());
        assert(spec_union_funding(acc, xs) == spec_union_funding(acc2, xs.drop_first()));
    }
}

} // verus!
