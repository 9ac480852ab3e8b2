//! SPDX normalization and OSI classification.

use syld::enrich::license_classify::{is_osi_approved, normalize_spdx, LicenseClassifyBackend};
use syld::project::UpstreamProject;

fn project_with_licenses(licenses: Vec<String>) -> UpstreamProject {
    UpstreamProject {
        name: "test".to_string(),
        repo_url: None,
        homepage: None,
        licenses,
        funding: vec![],
        bug_tracker: None,
        contributing_url: None,
        is_open_source: None,
        documentation_url: None,
        good_first_issues_url: None,
        stars: None,
    }
}

#[test]
fn normalize_strips_or_later() {
    assert_eq!(normalize_spdx("GPL-3.0-or-later"), "gpl-3.0");
}

#[test]
fn normalize_strips_only() {
    assert_eq!(normalize_spdx("GPL-2.0-only"), "gpl-2.0");
}

#[test]
fn normalize_strips_plus() {
    assert_eq!(normalize_spdx("LGPL-2.1+"), "lgpl-2.1");
}

#[test]
fn license_classify_normalize_lowercases() {
    assert_eq!(normalize_spdx("MIT"), "mit");
}

#[test]
fn common_licenses_are_osi() {
    for id in &["MIT", "Apache-2.0", "GPL-3.0-or-later", "BSD-2-Clause", "ISC", "MPL-2.0"] {
        assert!(is_osi_approved(&normalize_spdx(id)), "{} should be OSI-approved", id);
    }
}

#[test]
fn non_osi_license() {
    assert!(!is_osi_approved(&normalize_spdx("WTFPL")));
    assert!(!is_osi_approved(&normalize_spdx("CC-BY-4.0")));
}

#[test]
fn classify_sets_open_source_true() {
    let project = project_with_licenses(vec!["MIT".to_string()]);
    let enriched = LicenseClassifyBackend::classify(&project);
    assert_eq!(enriched.is_open_source, Some(true));
}

#[test]
fn classify_sets_open_source_false() {
    let project = project_with_licenses(vec!["proprietary".to_string()]);
    let enriched = LicenseClassifyBackend::classify(&project);
    assert_eq!(enriched.is_open_source, Some(false));
}

#[test]
fn classify_skips_empty_licenses() {
    let project = project_with_licenses(vec![]);
    let enriched = LicenseClassifyBackend::classify(&project);
    assert!(enriched.is_open_source.is_none());
}

#[test]
fn classify_mixed_licenses_is_false() {
    let project = project_with_licenses(vec!["MIT".to_string(), "proprietary".to_string()]);
    let enriched = LicenseClassifyBackend::classify(&project);
    assert_eq!(enriched.is_open_source, Some(false));
}
