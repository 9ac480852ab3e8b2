//! GitHub URL extraction and the contribution backend interface.

use syld::contribute::github_good_first_issues::{
    extract_github_owner_repo, GitHubGoodFirstIssuesBackend, IssueInfo,
};
use syld::contribute::{ContributionBackend, ContributionKind, ContributionOpportunity};
use syld::enrich::BackendError;
use syld::project::UpstreamProject;

#[test]
fn extract_https_url() {
    assert_eq!(
        extract_github_owner_repo("https://github.com/torvalds/linux").as_deref(),
        Some("torvalds/linux")
    );
}

#[test]
fn extract_https_url_with_git_suffix() {
    assert_eq!(
        extract_github_owner_repo("https://github.com/torvalds/linux.git").as_deref(),
        Some("torvalds/linux")
    );
}

#[test]
fn extract_https_url_with_trailing_slash() {
    assert_eq!(
        extract_github_owner_repo("https://github.com/torvalds/linux/").as_deref(),
        Some("torvalds/linux")
    );
}

#[test]
fn extract_https_url_with_subpath() {
    assert_eq!(
        extract_github_owner_repo("https://github.com/torvalds/linux/tree/master").as_deref(),
        Some("torvalds/linux")
    );
}

#[test]
fn extract_ssh_url() {
    assert_eq!(
        extract_github_owner_repo("git@github.com:torvalds/linux.git").as_deref(),
        Some("torvalds/linux")
    );
}

#[test]
fn extract_ssh_url_no_suffix() {
    assert_eq!(
        extract_github_owner_repo("git@github.com:torvalds/linux").as_deref(),
        Some("torvalds/linux")
    );
}

#[test]
fn extract_git_protocol() {
    assert_eq!(
        extract_github_owner_repo("git://github.com/torvalds/linux").as_deref(),
        Some("torvalds/linux")
    );
}

#[test]
fn extract_http_url() {
    assert_eq!(
        extract_github_owner_repo("http://github.com/torvalds/linux").as_deref(),
        Some("torvalds/linux")
    );
}

#[test]
fn extract_www_url() {
    assert_eq!(
        extract_github_owner_repo("https://www.github.com/torvalds/linux").as_deref(),
        Some("torvalds/linux")
    );
}

#[test]
fn non_github_url_returns_none() {
    assert_eq!(extract_github_owner_repo("https://gitlab.com/owner/repo"), None);
}

#[test]
fn incomplete_github_url_returns_none() {
    assert_eq!(extract_github_owner_repo("https://github.com/torvalds"), None);
}

#[test]
fn empty_url_returns_none() {
    assert_eq!(extract_github_owner_repo(""), None);
}

#[test]
fn non_url_returns_none() {
    assert_eq!(extract_github_owner_repo("not a url"), None);
}

#[test]
fn contribution_kind_display() {
    assert_eq!(ContributionKind::Star.label(), "star");
    assert_eq!(ContributionKind::GoodFirstIssue.label(), "good first issue");
    assert_eq!(ContributionKind::BugReport.label(), "bug report");
    assert_eq!(ContributionKind::Translation.label(), "translation");
    assert_eq!(ContributionKind::Documentation.label(), "documentation");
    assert_eq!(ContributionKind::SpreadTheWord.label(), "spread the word");
}

#[test]
fn contribution_kind_ordering() {
    assert!(ContributionKind::Star < ContributionKind::GoodFirstIssue);
    assert!(ContributionKind::GoodFirstIssue < ContributionKind::BugReport);
    assert!(ContributionKind::Documentation < ContributionKind::SpreadTheWord);
}

struct MockBackend {
    available: bool,
}

impl ContributionBackend for MockBackend {
    fn name(&self) -> &'static str {
        "mock"
    }

    fn is_available(&self) -> bool {
        self.available
    }

    fn find_opportunities(
        &self,
        _project: &UpstreamProject,
    ) -> Result<Vec<ContributionOpportunity>, BackendError> {
        Ok(vec![ContributionOpportunity {
            kind: ContributionKind::Star,
            title: "Star this project".to_string(),
            description: None,
            url: "https://example.com".to_string(),
        }])
    }
}

#[test]
fn mock_backend_trait_object() {
    let backend: Box<dyn ContributionBackend> = Box::new(MockBackend { available: true });
    assert_eq!(backend.name(), "mock");
    assert!(backend.is_available());

    let project = UpstreamProject {
        name: "test-project".to_string(),
        repo_url: Some("https://github.com/example/repo".to_string()),
        homepage: None,
        licenses: vec![],
        funding: vec![],
        bug_tracker: None,
        contributing_url: None,
        is_open_source: None,
        documentation_url: None,
        good_first_issues_url: None,
        stars: None,
    };

    let opportunities = backend.find_opportunities(&project).unwrap();
    assert_eq!(opportunities.len(), 1);
    assert_eq!(opportunities[0].kind, ContributionKind::Star);
}

#[test]
fn unavailable_backend_filtered() {
    let backends: Vec<Box<dyn ContributionBackend>> = vec![
        Box::new(MockBackend { available: true }),
        Box::new(MockBackend { available: false }),
        Box::new(MockBackend { available: true }),
    ];

    let active: Vec<_> = backends.into_iter().filter(|b| b.is_available()).collect();

    assert_eq!(active.len(), 2);
}

#[test]
fn issue_opportunities_map_titles_and_labels() {
    let issues = vec![
        IssueInfo {
            title: "Fix typo in README".to_string(),
            url: "https://github.com/example/repo/issues/1".to_string(),
            labels: vec!["good first issue".to_string(), "documentation".to_string()],
        },
        IssueInfo {
            title: "Add missing test".to_string(),
            url: "https://github.com/example/repo/issues/2".to_string(),
            labels: vec![],
        },
    ];
    let opps = GitHubGoodFirstIssuesBackend::issue_opportunities(&issues);
    assert_eq!(opps.len(), 2);
    assert_eq!(opps[0].kind, ContributionKind::GoodFirstIssue);
    assert_eq!(opps[0].title, "Fix typo in README");
    assert_eq!(opps[0].description.as_deref(), Some("good first issue, documentation"));
    assert_eq!(opps[1].description, None);
}
