//! The upstream-project record that enrichment fills in.

use vstd::prelude::*;

verus! {

/// A way to financially support a project.
#[derive(Debug, PartialEq)]
pub struct FundingChannel {
    /// Platform name (e.g. "GitHub Sponsors", "Open Collective").
    pub platform: String,
    /// URL of the funding page; funding channels are deduplicated by it.
    pub url: String,
}

/// An upstream open-source project, potentially backing several installed
/// packages. Mutated in place across backend applications within one run.
#[derive(Debug, PartialEq)]
pub struct UpstreamProject {
    /// Canonical project name.
    pub name: String,
    /// Source repository URL.
    pub repo_url: Option<String>,
    /// Project homepage.
    pub homepage: Option<String>,
    /// License identifiers, deduplicated.
    pub licenses: Vec<String>,
    /// Known funding channels, deduplicated by URL.
    pub funding: Vec<FundingChannel>,
    /// Bug tracker URL.
    pub bug_tracker: Option<String>,
    /// Contributing guide URL.
    pub contributing_url: Option<String>,
    /// Whether every license is OSI-approved; `None` when unclassified.
    pub is_open_source: Option<bool>,
    /// Documentation URL.
    pub documentation_url: Option<String>,
    /// Link to beginner-friendly issues.
    pub good_first_issues_url: Option<String>,
    /// Star count on the hosting platform.
    pub stars: Option<u64>,
}

impl Clone for FundingChannel {
    fn clone(&self) -> (res: FundingChannel)
        ensures
            res == *self,
    {
        FundingChannel { platform: self.platform.clone(), url: self.url.clone() }
    }
}

/// Field-for-field sameness of two project records. `Vec` identity is not
/// observable, so the collections are compared by contents.
pub open spec fn spec_project_eq(a: UpstreamProject, b: UpstreamProject) -> bool {
    &&& a.name == b.name
    &&& a.repo_url == b.repo_url
    &&& a.homepage == b.homepage
    &&& a.licenses@ == b.licenses@
    &&& a.funding@ == b.funding@
    &&& a.bug_tracker == b.bug_tracker
    &&& a.contributing_url == b.contributing_url
    &&& a.is_open_source == b.is_open_source
    &&& a.documentation_url == b.documentation_url
    &&& a.good_first_issues_url == b.good_first_issues_url
    &&& a.stars == b.stars
}

impl Clone for UpstreamProject {
    fn clone(&self) -> (res: UpstreamProject)
        ensures
            spec_project_eq(*self, res),
    {
        let licenses = self.licenses.clone();
        let funding = self.funding.clone();
        proof {
            assert(licenses@ =~= self.licenses@);
            assert(funding@ =~= self.funding@);
        }
        UpstreamProject {
            name: self.name.clone(),
            repo_url: clone_opt_string(&self.repo_url),
            homepage: clone_opt_string(&self.homepage),
            licenses,
            funding,
            bug_tracker: clone_opt_string(&self.bug_tracker),
            contributing_url: clone_opt_string(&self.contributing_url),
            is_open_source: self.is_open_source,
            documentation_url: clone_opt_string(&self.documentation_url),
            good_first_issues_url: clone_opt_string(&self.good_first_issues_url),
            stars: self.stars,
        }
    }
}

impl Clone for IdentityError {
    fn clone(&self) -> (res: IdentityError)
        ensures
            res.message == self.message,
    {
        IdentityError { message: self.message.clone() }
    }
}

/// Copy an optional string.
pub fn clone_opt_string(s: &Option<String>) -> (r: Option<String>)
    ensures
        r == *s,
{
    match s {
        Some(x) => Some(x.clone()),
        None => None,
    }
}

impl UpstreamProject {
    /// A record with only a name; every other field unset.
    pub fn empty(name: String) -> (r: UpstreamProject)
        ensures
            r.name == name,
            r.repo_url is None,
            r.homepage is None,
            r.licenses@ =~= Seq::<String>::empty(),
            r.funding@ =~= Seq::<FundingChannel>::empty(),
            r.bug_tracker is None,
            r.contributing_url is None,
            r.is_open_source is None,
            r.documentation_url is None,
            r.good_first_issues_url is None,
            r.stars is None,
    {
        UpstreamProject {
            name,
            repo_url: None,
            homepage: None,
            licenses: Vec::new(),
            funding: Vec::new(),
            bug_tracker: None,
            contributing_url: None,
            is_open_source: None,
            documentation_url: None,
            good_first_issues_url: None,
            stars: None,
        }
    }
}

/// A project's identity key: its repository URL, falling back to its
/// homepage. A record with neither cannot be cached or persisted.
pub open spec fn spec_identity_key(p: UpstreamProject) -> Option<String> {
    if p.repo_url is Some {
        p.repo_url
    } else {
        p.homepage
    }
}

/// Error raised for a project that has neither a repository URL nor a
/// homepage: such a record has no identity and must be rejected.
#[derive(Debug)]
pub struct IdentityError {
    /// Human-readable description of the failure.
    pub message: String,
}

impl IdentityError {
    /// Human-readable description of the failure.
    pub fn message(&self) -> (r: String)
        ensures
            r == self.message,
    {
        self.message.clone()
    }
}

/// The key under which a project is cached and persisted: `repo_url`,
/// falling back to `homepage`. Fails exactly when both are unset.
pub fn identity_key(project: &UpstreamProject) -> (r: Result<String, IdentityError>)
    ensures
        r is Ok <==> spec_identity_key(*project) is Some,
        r is Ok ==> Some(r->Ok_0) == spec_identity_key(*project),
{
    match &project.repo_url {
        Some(u) => Ok(u.clone()),
        None => match &project.homepage {
            Some(h) => Ok(h.clone()),
            None => Err(
                IdentityError {
                    message: "Project has no repo_url or homepage to use as key".to_owned(),
                },
            ),
        },
    }
}

} // verus!
