//! The JSON report's project entries: what the engine emits to report
//! consumers, one entry per project group. Serialization happens outside
//! the library.

use vstd::prelude::*;

use crate::contribute::ContributionOpportunity;
use crate::discover::InstalledPackage;
use crate::report::terminal::{spec_sort_strings, ProjectGroup};
use crate::report::{spec_contrib_lookup, spec_member_contribs, ContributionMap};
use crate::strutil::views_of;

verus! {

/// One grouped upstream project of the JSON report.
#[derive(Debug)]
pub struct JsonProject {
    /// The grouping URL: an exact project URL or a common ancestor prefix.
    pub url: String,
    /// Individual project URLs within an ancestor group; empty for
    /// single-project groups and for the no-URL bucket.
    pub project_urls: Vec<String>,
    /// Names of all packages that belong to this group, sorted ascending.
    pub package_names: Vec<String>,
    /// Contribution opportunities for this project.
    pub contributions: Vec<ContributionOpportunity>,
}

/// The mathematical value of one report entry: its key, member URLs,
/// package names and contributions.
pub type SpecEntry = (Seq<char>, Seq<Seq<char>>, Seq<Seq<char>>, Seq<ContributionOpportunity>);

/// The mathematical values of report entries.
pub open spec fn spec_entry_views(ps: Seq<JsonProject>) -> Seq<SpecEntry> {
    ps.map_values(
        |p: JsonProject|
            (p.url@, views_of(p.project_urls@), views_of(p.package_names@), p.contributions@),
    )
}

/// The names of a group's packages, in group order.
pub open spec fn spec_group_names(pkgs: Seq<InstalledPackage>) -> Seq<Seq<char>> {
    pkgs.map_values(|p: InstalledPackage| p.name@)
}

/// The report entry of one group: its key and member URLs as grouped, its
/// package names sorted ascending, and the contributions found under the
/// group key and each member URL.
pub open spec fn spec_group_entry(
    g: crate::report::terminal::SpecGroup,
    contribs: Seq<(String, Vec<ContributionOpportunity>)>,
) -> SpecEntry {
    (
        g.0,
        g.1,
        spec_sort_strings(spec_group_names(g.2)),
        spec_contrib_lookup(contribs, g.0) + spec_member_contribs(contribs, g.1),
    )
}

/// The report entries of a group list: one entry per group with a
/// non-empty key, in group order.
pub open spec fn spec_report_entries(
    gs: Seq<crate::report::terminal::SpecGroup>,
    contribs: Seq<(String, Vec<ContributionOpportunity>)>,
) -> Seq<SpecEntry>
    decreases gs.len(),
{
    if gs.len() == 0 {
        Seq::<SpecEntry>::empty()
    } else {
        let prior = spec_report_entries(gs.drop_last(), contribs);
        if gs.last().0.len() > 0 {
            prior.push(spec_group_entry(gs.last(), contribs))
        } else {
            prior
        }
    }
}

/// Build the report entries the engine emits to report consumers: one per
/// project group with a project URL, carrying the grouping key, the member
/// URLs, the package names sorted ascending, and the group's contribution
/// opportunities.
pub fn json_projects<'a>(
    groups: &Vec<ProjectGroup<'a>>,
    contributions: &ContributionMap,
) -> (r: Vec<JsonProject>)
    ensures
        spec_entry_views(r@) == spec_report_entries(
            crate::report::terminal::spec_groups_view(groups@),
            contributions.entries@,
        ),
{
    let ghost gv = crate::report::terminal::spec_groups_view(groups@);
    let mut r: Vec<JsonProject> = Vec::new();
    let mut i: usize = 0;
    proof {
        assert(spec_entry_views(r@) =~= spec_report_entries(gv.take(0), contributions.entries@));
    }
    while i < groups.len()
        invariant
            i <= groups@.len(),
            gv == crate::report::terminal::spec_groups_view(groups@),
            spec_entry_views(r@) == spec_report_entries(gv.take(i as int), contributions.entries@),
        decreases groups@.len() - i,
    {
        proof {
            assert(gv.take(i + 1).drop_last() =~= gv.take(i as int));
            assert(gv.take(i + 1).last() == gv[i as int]);
            assert(gv[i as int] == crate::report::terminal::spec_group_view(groups@[i as int]));
        }
        let g = &groups[i];
        if g.url.as_str().unicode_len() > 0 {
            let mut names: Vec<String> = Vec::new();
            let mut k: usize = 0;
            proof {
                assert(views_of(names@) =~= spec_group_names(
                    g.packages@.map_values(|p: &InstalledPackage| *p).take(0),
                ));
            }
            while k < g.packages.len()
                invariant
                    k <= g.packages@.len(),
                    views_of(names@) == spec_group_names(
                        g.packages@.map_values(|p: &InstalledPackage| *p).take(k as int),
                    ),
                decreases g.packages@.len() - k,
            {
                let nm = g.packages[k].name.clone();
                let ghost names0 = names@;
                proof {
                    assert(nm@ == (*g.packages@[k as int]).name@);
                }
                names.push(nm);
                proof {
                    let pv = g.packages@.map_values(|p: &InstalledPackage| *p);
                    let lhs = views_of(names@);
                    let rhs = spec_group_names(pv.take(k + 1));
                    assert(names@ == names0.push(nm));
                    assert(views_of(names0) == spec_group_names(pv.take(k as int)));
                    assert(views_of(names0).len() == names0.len());
                    assert(pv.len() == g.packages@.len());
                    assert(pv.take(k as int).len() == k);
                    assert(spec_group_names(pv.take(k as int)).len() == k);
                    assert(names0.len() == k);
                    assert(lhs.len() == rhs.len());
                    assert forall|j: int| 0 <= j < lhs.len() implies lhs[j] == rhs[j] by {
                        assert(pv.take(k + 1)[j] == pv[j]);
                        assert(pv[j] == *g.packages@[j]);
                        if j < k {
                            assert(names@[j] == names0[j]);
                            assert(views_of(names0)[j] == names0[j]@);
                            assert(spec_group_names(pv.take(k as int))[j] == pv.take(
                                k as int,
                            )[j].name@);
                            assert(pv.take(k as int)[j] == pv[j]);
                        } else {
                            assert(names@[j] == nm);
                        }
                    }
                    assert(lhs =~= rhs);
                }
                k += 1;
            }
            proof {
                let pv = g.packages@.map_values(|p: &InstalledPackage| *p);
                assert(pv.take(pv.len() as int) =~= pv);
            }
            let sorted_names = crate::report::terminal::sort_strings_exec(names);
            let contribs = crate::report::lookup_contributions(
                g.url.as_str(),
                &g.project_urls,
                contributions,
            );
            let project_urls = g.project_urls.clone();
            proof {
                assert(views_of(project_urls@) =~= views_of(g.project_urls@));
            }
            let entry = JsonProject {
                url: g.url.clone(),
                project_urls,
                package_names: sorted_names,
                contributions: contribs,
            };
            proof {
                assert(contributions.entries@.len() >= 0);
            }
            r.push(entry);
            proof {
                assert(spec_entry_views(r@) =~~= spec_report_entries(
                    gv.take(i + 1),
                    contributions.entries@,
                ));
            }
        } else {
            proof {
                assert(spec_report_entries(gv.take(i + 1), contributions.entries@)
                    =~= spec_report_entries(gv.take(i as int), contributions.entries@));
            }
        }
        i += 1;
    }
    proof {
        assert(gv.take(gv.len() as int) =~= gv);
    }
    r
}

} // verus!
