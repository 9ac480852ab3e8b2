//! Merge-engine behavior: first-writer-wins fields and deduplicated
//! collection unions.

use syld::enrich::{funding_channel, merge_enrichment};
use syld::project::{FundingChannel, UpstreamProject};

fn empty_project(name: &str) -> UpstreamProject {
    UpstreamProject {
        name: name.to_string(),
        repo_url: None,
        homepage: None,
        licenses: vec![],
        funding: vec![],
        bug_tracker: None,
        contributing_url: None,
        is_open_source: None,
        documentation_url: None,
        good_first_issues_url: None,
        stars: None,
    }
}

#[test]
fn merge_fills_empty_fields() {
    let base = empty_project("test");
    let mut enriched = empty_project("test");
    enriched.homepage = Some("https://example.com".to_string());
    enriched.stars = Some(42);
    enriched.bug_tracker = Some("https://example.com/issues".to_string());
    enriched.is_open_source = Some(true);

    let result = merge_enrichment(&base, &enriched);
    assert_eq!(result.homepage.as_deref(), Some("https://example.com"));
    assert_eq!(result.stars, Some(42));
    assert_eq!(result.bug_tracker.as_deref(), Some("https://example.com/issues"));
    assert_eq!(result.is_open_source, Some(true));
}

#[test]
fn merge_does_not_overwrite_existing() {
    let mut base = empty_project("test");
    base.homepage = Some("https://original.com".to_string());
    base.stars = Some(100);
    let mut enriched = empty_project("test");
    enriched.homepage = Some("https://new.com".to_string());
    enriched.stars = Some(200);

    let result = merge_enrichment(&base, &enriched);
    assert_eq!(result.homepage.as_deref(), Some("https://original.com"));
    assert_eq!(result.stars, Some(100));
}

#[test]
fn merge_never_replaces_populated_stars() {
    let mut base = empty_project("test");
    base.stars = Some(100);
    let mut enriched = empty_project("test");
    enriched.stars = Some(5);
    assert_eq!(merge_enrichment(&base, &enriched).stars, Some(100));
}

#[test]
fn merge_deduplicates_funding_by_url() {
    let mut base = empty_project("test");
    base.funding = vec![FundingChannel {
        platform: "GitHub Sponsors".to_string(),
        url: "https://github.com/sponsors/test".to_string(),
    }];
    let mut enriched = empty_project("test");
    enriched.funding = vec![
        FundingChannel {
            platform: "GitHub Sponsors".to_string(),
            url: "https://github.com/sponsors/test".to_string(),
        },
        FundingChannel {
            platform: "Open Collective".to_string(),
            url: "https://opencollective.com/test".to_string(),
        },
    ];

    let result = merge_enrichment(&base, &enriched);
    assert_eq!(result.funding.len(), 2);
    assert_eq!(result.funding[0].platform, "GitHub Sponsors");
    assert_eq!(result.funding[1].platform, "Open Collective");
}

#[test]
fn merge_funding_union_keeps_base_label_for_same_url() {
    let mut base = empty_project("test");
    base.funding = vec![funding_channel("First", "X".to_string())];
    let mut enriched = empty_project("test");
    enriched.funding = vec![
        funding_channel("Second", "X".to_string()),
        funding_channel("Third", "Y".to_string()),
    ];

    let result = merge_enrichment(&base, &enriched);
    assert_eq!(result.funding.len(), 2);
    assert_eq!(result.funding[0].platform, "First");
    assert_eq!(result.funding[0].url, "X");
    assert_eq!(result.funding[1].url, "Y");
}

#[test]
fn merge_deduplicates_licenses() {
    let mut base = empty_project("test");
    base.licenses = vec!["MIT".to_string()];
    let mut enriched = empty_project("test");
    enriched.licenses = vec!["MIT".to_string(), "Apache-2.0".to_string()];

    let result = merge_enrichment(&base, &enriched);
    assert_eq!(result.licenses, vec!["MIT", "Apache-2.0"]);
}

#[test]
fn merge_empty_enriched_is_noop() {
    let mut base = empty_project("test");
    base.homepage = Some("https://example.com".to_string());
    base.stars = Some(42);
    let enriched = empty_project("test");

    let result = merge_enrichment(&base, &enriched);
    assert_eq!(result.homepage.as_deref(), Some("https://example.com"));
    assert_eq!(result.stars, Some(42));
}

#[test]
fn funding_channel_builds_value() {
    let c = funding_channel("Liberapay", "https://liberapay.com/x".to_string());
    assert_eq!(c.platform, "Liberapay");
    assert_eq!(c.url, "https://liberapay.com/x");
}
