//! Open Collective enrichment: adding a funding channel when a collective
//! with the project's slug exists. The probe itself is a network call made
//! outside the library; [`OpenCollectiveBackend::apply_probe`] applies its
//! outcome.

use vstd::prelude::*;

use crate::enrich::liberapay::{contains_platform, spec_contains_platform};
use crate::project::{FundingChannel, UpstreamProject};
use crate::strutil::{lower_char, push_char, spec_lower};

verus! {

/// A project name turned into a collective slug: lowercased, with spaces
/// replaced by hyphens.
pub open spec fn spec_slug(s: Seq<char>) -> Seq<char> {
    spec_lower(s).map_values(|c: char| if c == ' ' { '-' } else { c })
}

/// Derive the Open Collective slug from a project name.
pub fn collective_slug(name: &str) -> (r: String)
    ensures
        r@ == spec_slug(name@),
{
    let n = name.unicode_len();
    let mut out = String::new();
    let mut i: usize = 0;
    proof {
        assert(out@ =~= spec_slug(name@.take(0)));
    }
    while i < n
        invariant
            i <= n,
            n == name@.len(),
            out@ == spec_slug(name@.take(i as int)),
        decreases n - i,
    {
        let c = lower_char_exec_slug(name.get_char(i));
        push_char(&mut out, c);
        proof {
            assert(out@ =~= spec_slug(name@.take(i + 1)));
        }
        i += 1;
    }
    proof {
        assert(name@.take(n as int) =~= name@);
    }
    out
}

/// One character of a slug: lowercase it, then replace a space by `-`.
fn lower_char_exec_slug(c: char) -> (r: char)
    ensures
        r == if lower_char(c) == ' ' { '-' } else { lower_char(c) },
{
    let l = crate::strutil::char_lower(c);
    if l == ' ' {
        '-'
    } else {
        l
    }
}

/// Enrichment backend that checks the public Open Collective API for a
/// collective whose slug matches the project name.
#[derive(Debug)]
pub struct OpenCollectiveBackend;

impl OpenCollectiveBackend {
    /// The URL whose probe decides the outcome.
    pub fn probe_url(project: &UpstreamProject) -> (r: String)
        ensures
            r@ == "https://api.opencollective.com/v1/collectives/"@ + spec_slug(project.name@),
    {
        let mut url = "https://api.opencollective.com/v1/collectives/".to_owned();
        url.append(collective_slug(project.name.as_str()).as_str());
        url
    }

    /// Apply the probe outcome: when the collective exists and the project
    /// does not already list an Open Collective channel, add one pointing
    /// at the collective's page; otherwise return the project unchanged.
    pub fn apply_probe(project: &UpstreamProject, found: bool) -> (r: UpstreamProject)
        ensures
            r.name == project.name,
            r.repo_url == project.repo_url,
            r.homepage == project.homepage,
            r.licenses@ == project.licenses@,
            r.bug_tracker == project.bug_tracker,
            r.contributing_url == project.contributing_url,
            r.is_open_source == project.is_open_source,
            r.documentation_url == project.documentation_url,
            r.good_first_issues_url == project.good_first_issues_url,
            r.stars == project.stars,
            spec_contains_platform(project.funding@, "Open Collective"@) || !found ==> r.funding@
                == project.funding@,
            !spec_contains_platform(project.funding@, "Open Collective"@) && found ==> ({
                &&& r.funding@.len() == project.funding@.len() + 1
                &&& r.funding@.take(project.funding@.len() as int) == project.funding@
                &&& r.funding@.last().platform@ == "Open Collective"@
                &&& r.funding@.last().url@ == "https://opencollective.com/"@ + spec_slug(
                    project.name@,
                )
            }),
    {
        if contains_platform(&project.funding, "Open Collective") {
            return project.clone();
        }
        if found {
            let mut enriched = project.clone();
            let mut url = "https://opencollective.com/".to_owned();
            url.append(collective_slug(project.name.as_str()).as_str());
            enriched.funding.push(
                FundingChannel { platform: "Open Collective".to_owned(), url },
            );
            proof {
                assert(enriched.funding@.take(project.funding@.len() as int)
                    =~= project.funding@);
            }
            enriched
        } else {
            project.clone()
        }
    }
}

} // verus!
