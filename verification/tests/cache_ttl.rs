//! The enrichment cache's TTL window and upsert behavior, and the project
//! identity key.

use syld::cache::{is_fresh, EnrichmentCache, CACHE_TTL_SECONDS};
use syld::project::{identity_key, UpstreamProject};

fn project(name: &str) -> UpstreamProject {
    UpstreamProject {
        name: name.to_string(),
        repo_url: None,
        homepage: None,
        licenses: vec![],
        funding: vec![],
        bug_tracker: None,
        contributing_url: None,
        is_open_source: None,
        documentation_url: None,
        good_first_issues_url: None,
        stars: None,
    }
}

const DAY: i64 = 86400;

#[test]
fn cache_entry_fresh_at_six_days_absent_at_eight() {
    let mut cache = EnrichmentCache::new();
    let t0: i64 = 1_700_000_000;
    cache.put("https://kernel.org".to_string(), project("linux"), t0);

    let hit = cache.get("https://kernel.org", t0 + 6 * DAY);
    assert_eq!(hit.map(|p| p.name), Some("linux".to_string()));

    let miss = cache.get("https://kernel.org", t0 + 8 * DAY);
    assert!(miss.is_none());
    // The stale entry is bypassed, not deleted.
    assert_eq!(cache.entries.len(), 1);
}

#[test]
fn cache_ttl_is_seven_days() {
    assert_eq!(CACHE_TTL_SECONDS, 7 * DAY);
    assert!(is_fresh(0, 7 * DAY));
    assert!(!is_fresh(0, 7 * DAY + 1));
}

#[test]
fn cache_get_missing_key() {
    let cache = EnrichmentCache::new();
    assert!(cache.get("https://nonexistent.org", 100).is_none());
}

#[test]
fn cache_put_overwrites_and_refreshes() {
    let mut cache = EnrichmentCache::new();
    cache.put("k".to_string(), project("old"), 1000);
    cache.put("k".to_string(), project("new"), 2000);
    assert_eq!(cache.entries.len(), 1);
    let hit = cache.get("k", 2000).unwrap();
    assert_eq!(hit.name, "new");
}

#[test]
fn cache_stale_entry_overwritten_by_next_write() {
    let mut cache = EnrichmentCache::new();
    let t0: i64 = 1_000_000;
    cache.put("k".to_string(), project("old"), t0);
    let later = t0 + 10 * DAY;
    assert!(cache.get("k", later).is_none());
    cache.put("k".to_string(), project("new"), later);
    assert_eq!(cache.entries.len(), 1);
    assert_eq!(cache.get("k", later).unwrap().name, "new");
}

#[test]
fn identity_key_prefers_repo_url() {
    let mut p = project("x");
    p.repo_url = Some("https://github.com/x/x".to_string());
    p.homepage = Some("https://x.org".to_string());
    assert_eq!(identity_key(&p).unwrap(), "https://github.com/x/x");
}

#[test]
fn identity_key_falls_back_to_homepage() {
    let mut p = project("x");
    p.homepage = Some("https://x.org".to_string());
    assert_eq!(identity_key(&p).unwrap(), "https://x.org");
}

#[test]
fn identity_key_rejects_project_without_urls() {
    let p = project("x");
    let err = identity_key(&p).unwrap_err();
    assert!(err.message().contains("repo_url"));
}
