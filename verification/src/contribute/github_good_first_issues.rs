//! The good-first-issues backend: extracting `owner/repo` from GitHub URLs
//! and turning fetched issue lists into contribution opportunities. The
//! issue fetch itself is a network call made outside the library.

use vstd::prelude::*;

use crate::contribute::{ContributionKind, ContributionOpportunity};
use crate::strutil::{
    find_char_str, has_prefix, lemma_find_char, spec_find, spec_strip_prefix, spec_strip_suffix,
    spec_trim_end_char, strip_prefix_str, strip_suffix_str, substring_string, trim_end_char_str,
};

verus! {

/// The `owner/repo` part of a GitHub URL in SSH form
/// (`git@github.com:owner/repo[.git]`), when both parts are non-empty.
pub open spec fn spec_ssh_owner_repo(rest: Seq<char>) -> Option<Seq<char>> {
    let r = spec_strip_suffix(rest, ".git"@);
    let i = spec_find(r, '/');
    if 0 < i && i + 1 < r.len() {
        Some(r)
    } else {
        None
    }
}

/// The `owner/repo` part of a GitHub URL in web form, after the scheme has
/// been stripped: requires a `github.com/` host (an optional `www.` label
/// is dropped), tolerates a `.git` suffix, trailing slashes and extra path
/// segments.
pub open spec fn spec_web_owner_repo(u: Seq<char>) -> Option<Seq<char>> {
    let h = spec_strip_prefix(u, "www."@);
    if !"github.com/"@.is_prefix_of(h) {
        None
    } else {
        let path = spec_trim_end_char(
            spec_strip_suffix(h.skip("github.com/"@.len() as int), ".git"@),
            '/',
        );
        let i = spec_find(path, '/');
        if i == -1 {
            None
        } else {
            let owner = path.take(i);
            let rest = path.skip(i + 1);
            let j = spec_find(rest, '/');
            let repo = if j == -1 {
                rest
            } else {
                rest.take(j)
            };
            if owner.len() > 0 && repo.len() > 0 {
                Some(owner + "/"@ + repo)
            } else {
                None
            }
        }
    }
}

/// The `owner/repo` slug of a GitHub repository URL, accepting HTTPS,
/// HTTP, `git://` and SSH forms; `None` for anything else.
pub open spec fn spec_owner_repo(url: Seq<char>) -> Option<Seq<char>> {
    if "git@github.com:"@.is_prefix_of(url) {
        spec_ssh_owner_repo(url.skip("git@github.com:"@.len() as int))
    } else if "https://"@.is_prefix_of(url) {
        spec_web_owner_repo(url.skip("https://"@.len() as int))
    } else if "http://"@.is_prefix_of(url) {
        spec_web_owner_repo(url.skip("http://"@.len() as int))
    } else if "git://"@.is_prefix_of(url) {
        spec_web_owner_repo(url.skip("git://"@.len() as int))
    } else {
        None
    }
}

/// Extract `owner/repo` from a GitHub repository URL.
///
/// Accepts `https://`, `http://` and `git://` web URLs (with an optional
/// `www.` label, `.git` suffix, trailing slash or extra path segments) and
/// `git@github.com:owner/repo[.git]` SSH references. Returns `None` for
/// every other string.
pub fn extract_github_owner_repo(url: &str) -> (r: Option<String>)
    ensures
        r is Some <==> spec_owner_repo(url@) is Some,
        r is Some ==> r->0@ == spec_owner_repo(url@)->0,
{
    if let Some(rest) = strip_prefix_str(url, "git@github.com:") {
        let rest = match strip_suffix_str(rest.as_str(), ".git") {
            Some(x) => x,
            None => rest,
        };
        match find_char_str(rest.as_str(), '/') {
            Some(i) => {
                let n = rest.as_str().unicode_len();
                proof {
                    lemma_find_char(rest@, '/');
                }
                if 0 < i && i + 1 < n {
                    Some(rest)
                } else {
                    None
                }
            },
            None => None,
        }
    } else {
        let stripped: Option<String> = match strip_prefix_str(url, "https://") {
            Some(x) => Some(x),
            None => match strip_prefix_str(url, "http://") {
                Some(x) => Some(x),
                None => strip_prefix_str(url, "git://"),
            },
        };
        let u = match stripped {
            Some(x) => x,
            None => {
                return None;
            },
        };
        let h = match strip_prefix_str(u.as_str(), "www.") {
            Some(x) => x,
            None => u,
        };
        if !has_prefix(h.as_str(), "github.com/") {
            return None;
        }
        proof {
            reveal_strlit("github.com/");
        }
        let tail = substring_string(h.as_str(), 11, h.as_str().unicode_len());
        proof {
            assert(tail@ == h@.skip("github.com/"@.len() as int));
        }
        let tail = match strip_suffix_str(tail.as_str(), ".git") {
            Some(x) => x,
            None => tail,
        };
        let path = trim_end_char_str(tail.as_str(), '/');
        let i = match find_char_str(path.as_str(), '/') {
            Some(i) => i,
            None => {
                return None;
            },
        };
        let n = path.as_str().unicode_len();
        proof {
            lemma_find_char(path@, '/');
        }
        let owner = substring_string(path.as_str(), 0, i);
        let rest = substring_string(path.as_str(), i + 1, n);
        proof {
            assert(owner@ == path@.take(i as int));
            assert(rest@ == path@.skip(i + 1));
        }
        let repo = match find_char_str(rest.as_str(), '/') {
            Some(j) => {
                proof {
                    lemma_find_char(rest@, '/');
                }
                substring_string(rest.as_str(), 0, j)
            },
            None => rest,
        };
        if owner.as_str().unicode_len() > 0 && repo.as_str().unicode_len() > 0 {
            let mut out = owner;
            out.append("/");
            out.append(repo.as_str());
            Some(out)
        } else {
            None
        }
    }
}

/// One issue fetched from the GitHub API, reduced to the plain fields the
/// logic reads.
#[derive(Debug, PartialEq)]
pub struct IssueInfo {
    /// The issue title.
    pub title: String,
    /// The issue's web URL.
    pub url: String,
    /// The names of the issue's labels.
    pub labels: Vec<String>,
}

/// The comma-and-space-joined label list of an issue.
pub open spec fn spec_join_labels(labels: Seq<Seq<char>>) -> Seq<char>
    decreases labels.len(),
{
    if labels.len() == 0 {
        Seq::<char>::empty()
    } else if labels.len() == 1 {
        labels[0]
    } else {
        spec_join_labels(labels.drop_last()) + ", "@ + labels.last()
    }
}

/// Backend that surfaces open issues labelled as good first issues on the
/// project's GitHub repository. The issue list is fetched outside the
/// library; [`GitHubGoodFirstIssuesBackend::issue_opportunities`] turns it
/// into opportunities.
#[derive(Debug)]
pub struct GitHubGoodFirstIssuesBackend;

impl GitHubGoodFirstIssuesBackend {
    /// Turn fetched issues into good-first-issue opportunities, one per
    /// issue, describing each by its label names (or nothing when the
    /// issue has no labels).
    pub fn issue_opportunities(issues: &Vec<IssueInfo>) -> (r: Vec<ContributionOpportunity>)
        ensures
            r@.len() == issues@.len(),
            forall|i: int|
                0 <= i < issues@.len() ==> {
                    let opp = #[trigger] r@[i];
                    &&& opp.kind is GoodFirstIssue
                    &&& opp.title@ == issues@[i].title@
                    &&& opp.url@ == issues@[i].url@
                    &&& issues@[i].labels@.len() == 0 ==> opp.description is None
                    &&& issues@[i].labels@.len() > 0 ==> opp.description is Some
                        && opp.description->0@ == spec_join_labels(
                        issues@[i].labels@.map_values(|l: String| l@),
                    )
                },
    {
        let mut r: Vec<ContributionOpportunity> = Vec::new();
        let mut i: usize = 0;
        while i < issues.len()
            invariant
                i <= issues@.len(),
                r@.len() == i,
                forall|k: int|
                    0 <= k < i ==> {
                        let opp = #[trigger] r@[k];
                        &&& opp.kind is GoodFirstIssue
                        &&& opp.title@ == issues@[k].title@
                        &&& opp.url@ == issues@[k].url@
                        &&& issues@[k].labels@.len() == 0 ==> opp.description is None
                        &&& issues@[k].labels@.len() > 0 ==> opp.description is Some
                            && opp.description->0@ == spec_join_labels(
                            issues@[k].labels@.map_values(|l: String| l@),
                        )
                    },
            decreases issues@.len() - i,
        {
            let issue = &issues[i];
            let description = if issue.labels.len() == 0 {
                None
            } else {
                Some(join_labels(&issue.labels))
            };
            r.push(
                ContributionOpportunity {
                    kind: ContributionKind::GoodFirstIssue,
                    title: issue.title.clone(),
                    description,
                    url: issue.url.clone(),
                },
            );
            i += 1;
        }
        r
    }
}

/// Join label names with `", "`.
fn join_labels(labels: &Vec<String>) -> (r: String)
    ensures
        r@ == spec_join_labels(labels@.map_values(|l: String| l@)),
{
    let ghost lv = labels@.map_values(|l: String| l@);
    let mut r = String::new();
    let mut i: usize = 0;
    proof {
        assert(lv.take(0) =~= Seq::<Seq<char>>::empty());
    }
    while i < labels.len()
        invariant
            i <= labels@.len(),
            lv == labels@.map_values(|l: String| l@),
            r@ == spec_join_labels(lv.take(i as int)),
        decreases labels@.len() - i,
    {
        proof {
            assert(lv.take(i + 1).drop_last() =~= lv.take(i as int));
            assert(lv.take(i + 1).last() == lv[i as int]);
            assert(lv[i as int] == labels@[i as int]@);
            if i == 0 {
                assert(lv.take(1)[0] == lv[0]);
            }
        }
        if i > 0 {
            r.append(", ");
        }
        r.append(labels[i].as_str());
        i += 1;
    }
    proof {
        assert(lv.take(lv.len() as int) =~= lv);
    }
    r
}

} // verus!
