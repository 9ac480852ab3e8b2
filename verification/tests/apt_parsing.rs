//! dpkg status parsing behavior.

use syld::discover::apt::{parse_dpkg_entry, parse_dpkg_status};

#[test]
fn parse_full_entry() {
    let entry = "\
Package: curl
Version: 7.88.1-10+deb12u5
Status: install ok installed
Section: web
Homepage: https://curl.se/
Description: command line tool for transferring data with URL syntax
 curl is a command line tool for transferring data with URL syntax,
 supporting many protocols including HTTP and HTTPS.";
    let pkg = parse_dpkg_entry(entry).unwrap().unwrap();
    assert_eq!(pkg.name, "curl");
    assert_eq!(pkg.version, "7.88.1-10+deb12u5");
    assert_eq!(pkg.url.as_deref(), Some("https://curl.se/"));
    assert_eq!(
        pkg.description.as_deref(),
        Some(
            "command line tool for transferring data with URL syntax\n\
             curl is a command line tool for transferring data with URL syntax,\n\
             supporting many protocols including HTTP and HTTPS."
        )
    );
    assert_eq!(pkg.source, syld::discover::PackageSource::Apt);
    assert!(pkg.licenses.is_empty());
}

#[test]
fn parse_minimal_entry() {
    let entry = "\
Package: base-files
Version: 12.4+deb12u5
Status: install ok installed";
    let pkg = parse_dpkg_entry(entry).unwrap().unwrap();
    assert_eq!(pkg.name, "base-files");
    assert_eq!(pkg.version, "12.4+deb12u5");
    assert_eq!(pkg.description, None);
    assert_eq!(pkg.url, None);
}

#[test]
fn skips_removed_package() {
    let entry = "\
Package: old-pkg
Version: 1.0
Status: deinstall ok config-files";
    let result = parse_dpkg_entry(entry).unwrap();
    assert!(result.is_none());
}

#[test]
fn skips_half_installed_package() {
    let entry = "\
Package: broken-pkg
Version: 2.0
Status: install reinstreq half-installed";
    // "half-installed" still contains "installed": dpkg considers it an
    // installed (albeit broken) state.
    let result = parse_dpkg_entry(entry).unwrap();
    assert!(result.is_some());
}

#[test]
fn missing_package_field_errors() {
    let entry = "\
Version: 1.0
Status: install ok installed";
    let err = parse_dpkg_entry(entry).unwrap_err();
    assert!(err.message().contains("Package"));
}

#[test]
fn missing_version_field_errors() {
    let entry = "\
Package: something
Status: install ok installed";
    let err = parse_dpkg_entry(entry).unwrap_err();
    assert!(err.message().contains("Version"));
}

#[test]
fn multiline_description_with_blank_lines() {
    let entry = "\
Package: apt
Version: 2.6.1
Status: install ok installed
Description: commandline package manager
 apt provides commandline tools for searching and
 managing packages.
 .
 This package contains the apt-get and apt-cache tools.";
    let pkg = parse_dpkg_entry(entry).unwrap().unwrap();
    assert_eq!(
        pkg.description.as_deref(),
        Some(
            "commandline package manager\n\
             apt provides commandline tools for searching and\n\
             managing packages.\n\
             \n\
             This package contains the apt-get and apt-cache tools."
        )
    );
}

#[test]
fn ignores_unknown_fields() {
    let entry = "\
Package: pkg
Version: 1.0
Status: install ok installed
Maintainer: Someone <someone@example.com>
Architecture: amd64
Depends: libc6";
    let pkg = parse_dpkg_entry(entry).unwrap().unwrap();
    assert_eq!(pkg.name, "pkg");
    assert_eq!(pkg.version, "1.0");
}

#[test]
fn no_status_field_includes_package() {
    let entry = "\
Package: pkg
Version: 1.0";
    let result = parse_dpkg_entry(entry).unwrap();
    assert!(result.is_some());
}

#[test]
fn description_single_line_only() {
    let entry = "\
Package: pkg
Version: 1.0
Status: install ok installed
Description: A simple package";
    let pkg = parse_dpkg_entry(entry).unwrap().unwrap();
    assert_eq!(pkg.description.as_deref(), Some("A simple package"));
}

#[test]
fn apt_parse_multiple_packages() {
    let content = "\
Package: pkg-a
Version: 1.0
Status: install ok installed
Homepage: https://example.com/a

Package: pkg-b
Version: 2.0
Status: install ok installed

Package: removed-pkg
Version: 3.0
Status: deinstall ok config-files
";
    let packages = parse_dpkg_status(content);
    assert_eq!(packages.len(), 2);
    assert_eq!(packages[0].name, "pkg-a");
    assert_eq!(packages[0].url.as_deref(), Some("https://example.com/a"));
    assert_eq!(packages[1].name, "pkg-b");
    assert_eq!(packages[1].url, None);
}

#[test]
fn parse_empty_file() {
    let packages = parse_dpkg_status("");
    assert!(packages.is_empty());
}

#[test]
fn parse_only_whitespace() {
    let packages = parse_dpkg_status("   \n\n  \n");
    assert!(packages.is_empty());
}
