//! Report-side logic: grouping, contribution lookup, and rendering
//! helpers. Printing itself happens outside the library.

pub mod html;
pub mod json;
pub mod terminal;

use vstd::prelude::*;

use crate::contribute::ContributionOpportunity;
use crate::strutil::str_eq_str;

verus! {

/// Contribution opportunities keyed by normalized project URL, with
/// pairwise-distinct keys.
#[derive(Debug)]
pub struct ContributionMap {
    /// The (URL, opportunities) entries.
    pub entries: Vec<(String, Vec<ContributionOpportunity>)>,
}

/// The opportunities stored under `key`, reading the first matching entry.
pub open spec fn spec_contrib_lookup(
    entries: Seq<(String, Vec<ContributionOpportunity>)>,
    key: Seq<char>,
) -> Seq<ContributionOpportunity>
    decreases entries.len(),
{
    if entries.len() == 0 {
        Seq::<ContributionOpportunity>::empty()
    } else if entries[0].0@ == key {
        entries[0].1@
    } else {
        spec_contrib_lookup(entries.drop_first(), key)
    }
}

impl ContributionMap {
    /// An empty map.
    pub fn new() -> (r: ContributionMap)
        ensures
            r.entries@.len() == 0,
    {
        ContributionMap { entries: Vec::new() }
    }

    /// Add the opportunities of one project URL. The caller keeps keys
    /// distinct; a repeated key would shadow the later entry.
    pub fn insert(&mut self, key: String, opportunities: Vec<ContributionOpportunity>)
        ensures
            final(self).entries@ == old(self).entries@.push((key, opportunities)),
    {
        self.entries.push((key, opportunities));
    }

    /// Read the opportunities stored under `key`; absent keys yield none.
    pub fn get(&self, key: &str) -> (r: Vec<ContributionOpportunity>)
        ensures
            r@ == spec_contrib_lookup(self.entries@, key@),
    {
        let mut i: usize = 0;
        proof {
            assert(self.entries@.skip(0) =~= self.entries@);
        }
        while i < self.entries.len()
            invariant
                i <= self.entries@.len(),
                spec_contrib_lookup(self.entries@, key@) == spec_contrib_lookup(
                    self.entries@.skip(i as int),
                    key@,
                ),
            decreases self.entries@.len() - i,
        {
            proof {
                assert(self.entries@.skip(i as int)[0] == self.entries@[i as int]);
                assert(self.entries@.skip(i as int).drop_first() =~= self.entries@.skip(i + 1));
            }
            if str_eq_str(self.entries[i].0.as_str(), key) {
                let found = self.entries[i].1.clone();
                proof {
                    assert(found@ =~= self.entries@[i as int].1@);
                }
                return found;
            }
            i += 1;
        }
        proof {
            assert(self.entries@.skip(self.entries@.len() as int) =~= Seq::<(
                String,
                Vec<ContributionOpportunity>,
            )>::empty());
        }
        Vec::new()
    }
}

/// The concatenated lookups of the member URLs.
pub open spec fn spec_member_contribs(
    entries: Seq<(String, Vec<ContributionOpportunity>)>,
    urls: Seq<Seq<char>>,
) -> Seq<ContributionOpportunity>
    decreases urls.len(),
{
    if urls.len() == 0 {
        Seq::<ContributionOpportunity>::empty()
    } else {
        spec_member_contribs(entries, urls.drop_last()) + spec_contrib_lookup(
            entries,
            urls.last(),
        )
    }
}

/// Look up contributions for a project group: those stored under the
/// group's own key, followed by those of each member URL of an ancestor
/// group, in order.
pub fn lookup_contributions(
    group_url: &str,
    project_urls: &Vec<String>,
    contributions: &ContributionMap,
) -> (r: Vec<ContributionOpportunity>)
    ensures
        r@ == spec_contrib_lookup(contributions.entries@, group_url@) + spec_member_contribs(
            contributions.entries@,
            crate::strutil::views_of(project_urls@),
        ),
{
    let ghost uv = crate::strutil::views_of(project_urls@);
    let mut r = contributions.get(group_url);
    let mut i: usize = 0;
    proof {
        assert(spec_member_contribs(contributions.entries@, uv.take(0)) =~= Seq::<
            ContributionOpportunity,
        >::empty());
        assert(r@ =~= spec_contrib_lookup(contributions.entries@, group_url@)
            + spec_member_contribs(contributions.entries@, uv.take(0)));
    }
    while i < project_urls.len()
        invariant
            i <= project_urls@.len(),
            uv == crate::strutil::views_of(project_urls@),
            r@ == spec_contrib_lookup(contributions.entries@, group_url@) + spec_member_contribs(
                contributions.entries@,
                uv.take(i as int),
            ),
        decreases project_urls@.len() - i,
    {
        proof {
            assert(uv.take(i + 1).drop_last() =~= uv.take(i as int));
            assert(uv.take(i + 1).last() == uv[i as int]);
            assert(uv[i as int] == project_urls@[i as int]@);
        }
        let mut found = contributions.get(project_urls[i].as_str());
        proof {
            assert(r@ + found@ =~= spec_contrib_lookup(contributions.entries@, group_url@)
                + spec_member_contribs(contributions.entries@, uv.take(i + 1)));
        }
        r.append(&mut found);
        i += 1;
    }
    proof {
        assert(uv.take(uv.len() as int) =~= uv);
    }
    r
}

} // verus!
