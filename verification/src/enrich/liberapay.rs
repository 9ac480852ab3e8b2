//! Liberapay enrichment: adding a funding channel when the project has a
//! Liberapay account. The account probe itself is a network call made
//! outside the library; [`LiberapayBackend::apply_probe`] applies its
//! outcome.

use vstd::prelude::*;

use crate::project::{FundingChannel, UpstreamProject};
use crate::strutil::str_eq_str;

verus! {

/// Whether some channel in `s` carries the platform label `platform`.
pub open spec fn spec_contains_platform(s: Seq<FundingChannel>, platform: Seq<char>) -> bool {
    exists|i: int| 0 <= i < s.len() && #[trigger] s[i].platform@ == platform
}

/// Whether `funding` holds a channel of platform `platform`.
pub(crate) fn contains_platform(funding: &Vec<FundingChannel>, platform: &str) -> (r: bool)
    ensures
        r == spec_contains_platform(funding@, platform@),
{
    let mut i: usize = 0;
    while i < funding.len()
        invariant
            i <= funding@.len(),
            forall|k: int| 0 <= k < i ==> #[trigger] funding@[k].platform@ != platform@,
        decreases funding@.len() - i,
    {
        if str_eq_str(funding[i].platform.as_str(), platform) {
            return true;
        }
        i += 1;
    }
    false
}

/// Enrichment backend that checks the public Liberapay API for an account
/// named after the project.
#[derive(Debug)]
pub struct LiberapayBackend;

impl LiberapayBackend {
    /// The URL whose probe decides the outcome: the project's public
    /// Liberapay page.
    pub fn probe_url(project: &UpstreamProject) -> (r: String)
        ensures
            r@ == "https://liberapay.com/"@ + project.name@ + "/public.json"@,
    {
        let mut url = "https://liberapay.com/".to_owned();
        url.append(project.name.as_str());
        url.append("/public.json");
        url
    }

    /// Apply the probe outcome: when the account exists and the project
    /// does not already list a Liberapay channel, add one; otherwise
    /// return the project unchanged.
    pub fn apply_probe(project: &UpstreamProject, found: bool) -> (r: UpstreamProject)
        ensures
            r.name == project.name,
            r.repo_url == project.repo_url,
            r.homepage == project.homepage,
            r.licenses@ == project.licenses@,
            r.bug_tracker == project.bug_tracker,
            r.contributing_url == project.contributing_url,
            r.is_open_source == project.is_open_source,
            r.documentation_url == project.documentation_url,
            r.good_first_issues_url == project.good_first_issues_url,
            r.stars == project.stars,
            spec_contains_platform(project.funding@, "Liberapay"@) || !found ==> r.funding@
                == project.funding@,
            !spec_contains_platform(project.funding@, "Liberapay"@) && found ==> ({
                &&& r.funding@.len() == project.funding@.len() + 1
                &&& r.funding@.take(project.funding@.len() as int) == project.funding@
                &&& r.funding@.last().platform@ == "Liberapay"@
                &&& r.funding@.last().url@ == "https://liberapay.com/"@ + project.name@
            }),
    {
        if contains_platform(&project.funding, "Liberapay") {
            return project.clone();
        }
        if found {
            let mut enriched = project.clone();
            let mut url = "https://liberapay.com/".to_owned();
            url.append(project.name.as_str());
            enriched.funding.push(FundingChannel { platform: "Liberapay".to_owned(), url });
            proof {
                assert(enriched.funding@.take(project.funding@.len() as int)
                    =~= project.funding@);
            }
            enriched
        } else {
            project.clone()
        }
    }
}

} // verus!
