//! Contribution lookup and HTML rendering helpers.

use syld::contribute::{ContributionKind, ContributionOpportunity};
use syld::discover::{InstalledPackage, PackageSource};
use syld::report::html::{escape_html, format_package_html};
use syld::report::terminal::group_by_project;
use syld::report::{lookup_contributions, ContributionMap};

fn make_opp(kind: ContributionKind, title: &str) -> ContributionOpportunity {
    ContributionOpportunity {
        kind,
        title: title.to_string(),
        description: None,
        url: "https://example.com".to_string(),
    }
}

#[test]
fn lookup_by_group_url() {
    let mut map = ContributionMap::new();
    map.insert(
        "github.com/foo".to_string(),
        vec![make_opp(ContributionKind::Star, "Star it")],
    );

    let result = lookup_contributions("github.com/foo", &vec![], &map);
    assert_eq!(result.len(), 1);
    assert_eq!(result[0].title, "Star it");
}

#[test]
fn lookup_by_project_urls() {
    let mut map = ContributionMap::new();
    map.insert(
        "github.com/org/repo-a".to_string(),
        vec![make_opp(ContributionKind::GoodFirstIssue, "Fix bug")],
    );

    let project_urls = vec!["github.com/org/repo-a".to_string()];
    let result = lookup_contributions("github.com/org", &project_urls, &map);
    assert_eq!(result.len(), 1);
    assert_eq!(result[0].title, "Fix bug");
}

#[test]
fn lookup_merges_group_and_project_urls() {
    let mut map = ContributionMap::new();
    map.insert(
        "github.com/org".to_string(),
        vec![make_opp(ContributionKind::Star, "Star org")],
    );
    map.insert(
        "github.com/org/repo-a".to_string(),
        vec![make_opp(ContributionKind::GoodFirstIssue, "Fix bug")],
    );

    let project_urls = vec!["github.com/org/repo-a".to_string()];
    let result = lookup_contributions("github.com/org", &project_urls, &map);
    assert_eq!(result.len(), 2);
}

#[test]
fn lookup_empty_map_returns_empty() {
    let map = ContributionMap::new();
    let result = lookup_contributions("github.com/foo", &vec![], &map);
    assert!(result.is_empty());
}

#[test]
fn lookup_no_match_returns_empty() {
    let mut map = ContributionMap::new();
    map.insert(
        "github.com/other".to_string(),
        vec![make_opp(ContributionKind::Star, "Star it")],
    );

    let result = lookup_contributions("github.com/foo", &vec![], &map);
    assert!(result.is_empty());
}

#[test]
fn html_escapes_special_chars() {
    assert_eq!(escape_html("<script>"), "&lt;script&gt;");
    assert_eq!(escape_html("a&b"), "a&amp;b");
    assert_eq!(escape_html("\"quoted\""), "&quot;quoted&quot;");
}

#[test]
fn html_empty_packages() {
    let packages: Vec<InstalledPackage> = vec![];
    let groups = group_by_project(&packages);
    let with_url: Vec<_> = groups.iter().filter(|g| !g.url.is_empty()).collect();
    assert!(with_url.is_empty());
}

fn make_pkg(name: &str, source: PackageSource) -> InstalledPackage {
    InstalledPackage {
        name: name.to_string(),
        version: "128.0".to_string(),
        description: None,
        url: None,
        source,
        licenses: vec![],
    }
}

#[test]
fn format_package_without_badge() {
    let pkg = make_pkg("firefox", PackageSource::Pacman);
    assert_eq!(format_package_html(&pkg, false), "firefox");
}

#[test]
fn format_package_with_badge() {
    let pkg = make_pkg("firefox", PackageSource::Flatpak);
    let html = format_package_html(&pkg, true);
    assert!(html.contains("firefox"));
    assert!(html.contains("flatpak"));
    assert!(html.contains("badge"));
}

#[test]
fn format_package_escapes_name() {
    let pkg = make_pkg("<script>", PackageSource::Pacman);
    let html = format_package_html(&pkg, true);
    assert!(html.contains("&lt;script&gt;"));
    assert!(!html.contains("<script>"));
}

#[test]
fn json_projects_emit_sorted_names_per_group() {
    let packages = vec![
        InstalledPackage {
            name: "zsh-syntax".to_string(),
            version: "1.0".to_string(),
            description: None,
            url: Some("https://example.org/zsh".to_string()),
            source: PackageSource::Pacman,
            licenses: vec![],
        },
        InstalledPackage {
            name: "a-tool".to_string(),
            version: "1.0".to_string(),
            description: None,
            url: Some("https://example.org/zsh".to_string()),
            source: PackageSource::Pacman,
            licenses: vec![],
        },
        InstalledPackage {
            name: "orphan".to_string(),
            version: "1.0".to_string(),
            description: None,
            url: None,
            source: PackageSource::Pacman,
            licenses: vec![],
        },
    ];
    let groups = group_by_project(&packages);
    let mut map = ContributionMap::new();
    map.insert(
        "example.org/zsh".to_string(),
        vec![make_opp(ContributionKind::Star, "Star it")],
    );
    let entries = syld::report::json::json_projects(&groups, &map);
    // The no-URL bucket is not emitted.
    assert_eq!(entries.len(), 1);
    assert_eq!(entries[0].url, "example.org/zsh");
    assert!(entries[0].project_urls.is_empty());
    assert_eq!(entries[0].package_names, vec!["a-tool", "zsh-syntax"]);
    assert_eq!(entries[0].contributions.len(), 1);
    assert_eq!(entries[0].contributions[0].title, "Star it");
}
