//! Package source labels, cadence labels, and the pure enrichment
//! backends' probe application.

use syld::config::{default_currency, parse_cadence, Cadence};
use syld::discover::{parse_package_source, PackageSource};
use syld::enrich::github::{GitHubBackend, RepoMetadata};
use syld::enrich::liberapay::LiberapayBackend;
use syld::enrich::open_collective::{collective_slug, OpenCollectiveBackend};
use syld::project::UpstreamProject;

fn project(name: &str) -> UpstreamProject {
    UpstreamProject {
        name: name.to_string(),
        repo_url: None,
        homepage: None,
        licenses: vec![],
        funding: vec![],
        bug_tracker: None,
        contributing_url: None,
        is_open_source: None,
        documentation_url: None,
        good_first_issues_url: None,
        stars: None,
    }
}

#[test]
fn all_package_sources_round_trip() {
    let sources = vec![
        PackageSource::Pacman,
        PackageSource::Apt,
        PackageSource::Dnf,
        PackageSource::Flatpak,
        PackageSource::Snap,
        PackageSource::Nix,
        PackageSource::Mise,
        PackageSource::Brew,
        PackageSource::Docker,
        PackageSource::Podman,
    ];

    for source in sources {
        let s = source.label();
        let parsed = parse_package_source(s).unwrap();
        assert_eq!(parsed, source);
    }
}

#[test]
fn parse_unknown_source_errors() {
    let result = parse_package_source("unknown_manager");
    assert!(result.is_err());
}

#[test]
fn cadence_labels_round_trip() {
    assert_eq!(Cadence::Monthly.label(), "monthly");
    assert_eq!(Cadence::Yearly.label(), "yearly");
    assert_eq!(parse_cadence("yearly"), Cadence::Yearly);
    assert_eq!(parse_cadence("monthly"), Cadence::Monthly);
    assert_eq!(parse_cadence("anything else"), Cadence::Monthly);
}

#[test]
fn default_currency_is_usd() {
    assert_eq!(default_currency(), "USD");
}

#[test]
fn github_repo_metadata_fills_gaps_only() {
    let mut base = project("x");
    base.stars = Some(100);
    let repo = RepoMetadata {
        stars: Some(5),
        homepage: Some("https://x.org".to_string()),
        spdx_id: Some("MIT".to_string()),
        has_issues: Some(true),
        html_url: Some("https://github.com/x/x".to_string()),
    };
    let r = GitHubBackend::apply_repo_metadata(&base, &repo);
    assert_eq!(r.stars, Some(100));
    assert_eq!(r.homepage.as_deref(), Some("https://x.org"));
    assert_eq!(r.licenses, vec!["MIT"]);
    assert_eq!(r.bug_tracker.as_deref(), Some("https://github.com/x/x/issues"));
    assert_eq!(
        r.good_first_issues_url.as_deref(),
        Some("https://github.com/x/x/issues?q=is%3Aissue+is%3Aopen+label%3A%22good+first+issue%22")
    );
    assert_eq!(r.contributing_url.as_deref(), Some("https://github.com/x/x/blob/HEAD/CONTRIBUTING.md"));
}

#[test]
fn github_repo_metadata_skips_noassertion_license() {
    let base = project("x");
    let repo = RepoMetadata {
        stars: None,
        homepage: None,
        spdx_id: Some("NOASSERTION".to_string()),
        has_issues: None,
        html_url: None,
    };
    let r = GitHubBackend::apply_repo_metadata(&base, &repo);
    assert!(r.licenses.is_empty());
    assert!(r.bug_tracker.is_none());
}

#[test]
fn liberapay_probe_found_adds_channel() {
    let p = project("nicotine");
    let r = LiberapayBackend::apply_probe(&p, true);
    assert_eq!(r.funding.len(), 1);
    assert_eq!(r.funding[0].platform, "Liberapay");
    assert_eq!(r.funding[0].url, "https://liberapay.com/nicotine");
}

#[test]
fn liberapay_probe_not_found_is_noop() {
    let p = project("nicotine");
    let r = LiberapayBackend::apply_probe(&p, false);
    assert!(r.funding.is_empty());
}

#[test]
fn liberapay_probe_skips_when_channel_present() {
    let mut p = project("nicotine");
    p.funding.push(syld::project::FundingChannel {
        platform: "Liberapay".to_string(),
        url: "https://liberapay.com/other".to_string(),
    });
    let r = LiberapayBackend::apply_probe(&p, true);
    assert_eq!(r.funding.len(), 1);
    assert_eq!(r.funding[0].url, "https://liberapay.com/other");
}

#[test]
fn open_collective_slug_lowercases_and_hyphenates() {
    assert_eq!(collective_slug("My Project"), "my-project");
}

#[test]
fn open_collective_probe_found_adds_channel() {
    let p = project("My Project");
    let r = OpenCollectiveBackend::apply_probe(&p, true);
    assert_eq!(r.funding.len(), 1);
    assert_eq!(r.funding[0].platform, "Open Collective");
    assert_eq!(r.funding[0].url, "https://opencollective.com/my-project");
}

#[test]
fn probe_urls_name_the_public_apis() {
    let p = project("dev");
    assert_eq!(LiberapayBackend::probe_url(&p), "https://liberapay.com/dev/public.json");
    assert_eq!(
        OpenCollectiveBackend::probe_url(&p),
        "https://api.opencollective.com/v1/collectives/dev"
    );
}
