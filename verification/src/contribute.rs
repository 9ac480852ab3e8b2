//! Non-monetary contribution discovery: surfacing ways to help the
//! upstream projects a user depends on, beyond donations.

pub mod github_good_first_issues;

use vstd::prelude::*;

use crate::enrich::BackendError;
use crate::project::UpstreamProject;

verus! {

/// The kind of non-monetary contribution a user can make. The variant
/// order is the stable display order.
#[derive(Debug, Clone, Copy, PartialEq, Eq, Hash, PartialOrd, Ord)]
pub enum ContributionKind {
    /// Star or favourite the project on its hosting platform.
    Star,
    /// Work on a beginner-friendly issue.
    GoodFirstIssue,
    /// Report a bug through the project's issue tracker.
    BugReport,
    /// Help translate the project into other languages.
    Translation,
    /// Improve project documentation.
    Documentation,
    /// Share the project on social media or a blog.
    SpreadTheWord,
}

/// The display label of each contribution kind.
pub open spec fn spec_kind_label(k: ContributionKind) -> Seq<char> {
    match k {
        ContributionKind::Star => "star"@,
        ContributionKind::GoodFirstIssue => "good first issue"@,
        ContributionKind::BugReport => "bug report"@,
        ContributionKind::Translation => "translation"@,
        ContributionKind::Documentation => "documentation"@,
        ContributionKind::SpreadTheWord => "spread the word"@,
    }
}

impl ContributionKind {
    /// The human-readable label of this kind.
    pub fn label(&self) -> (r: &'static str)
        ensures
            r@ == spec_kind_label(*self),
    {
        match self {
            ContributionKind::Star => "star",
            ContributionKind::GoodFirstIssue => "good first issue",
            ContributionKind::BugReport => "bug report",
            ContributionKind::Translation => "translation",
            ContributionKind::Documentation => "documentation",
            ContributionKind::SpreadTheWord => "spread the word",
        }
    }
}

/// A concrete opportunity to contribute to an upstream project.
#[derive(Debug, PartialEq)]
pub struct ContributionOpportunity {
    /// What kind of contribution this is.
    pub kind: ContributionKind,
    /// Human-readable title (an issue title, or "Star on GitHub").
    pub title: String,
    /// Optional longer description or context.
    pub description: Option<String>,
    /// URL the user can visit to act on this opportunity.
    pub url: String,
}

impl Clone for ContributionOpportunity {
    fn clone(&self) -> (res: ContributionOpportunity)
        ensures
            res == *self,
    {
        ContributionOpportunity {
            kind: self.kind,
            title: self.title.clone(),
            description: crate::project::clone_opt_string(&self.description),
            url: self.url.clone(),
        }
    }
}

/// A non-monetary contribution backend: one source of contribution
/// opportunities.
///
/// `find_opportunities` inspects a project's metadata and returns the
/// actionable contributions it can offer; an empty list means the project
/// simply does not apply. Unrecoverable failures are signalled as errors,
/// which the caller logs and skips.
pub trait ContributionBackend {
    /// A stable, lowercase identifier for this backend.
    fn name(&self) -> &'static str;

    /// Whether this backend can operate in the current environment; called
    /// once at startup to filter the active set, so it must be cheap.
    fn is_available(&self) -> bool;

    /// Discover contribution opportunities for the given project.
    fn find_opportunities(&self, project: &UpstreamProject) -> Result<
        Vec<ContributionOpportunity>,
        BackendError,
    >;
}

} // verus!
