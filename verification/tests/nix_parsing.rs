//! Nix store path and profile parsing behavior.

use syld::discover::nix::{
    dedup_packages, parse_legacy_profile_format, parse_new_profile_format, parse_profile_output,
    parse_store_path, split_name_version,
};
use syld::discover::{InstalledPackage, PackageSource};

#[test]
fn parse_store_path_full() {
    let path = "/nix/store/aaaaaaaaaaaaaaaaaaaaaaaaaaaaaaaa-firefox-128.0";
    let pkg = parse_store_path(path).unwrap();
    assert_eq!(pkg.name, "firefox");
    assert_eq!(pkg.version, "128.0");
    assert_eq!(pkg.source, PackageSource::Nix);
}

#[test]
fn parse_store_path_no_version() {
    let path = "/nix/store/aaaaaaaaaaaaaaaaaaaaaaaaaaaaaaaa-coreutils";
    let pkg = parse_store_path(path).unwrap();
    assert_eq!(pkg.name, "coreutils");
    assert_eq!(pkg.version, "unknown");
}

#[test]
fn parse_store_path_hyphenated_name() {
    let path = "/nix/store/aaaaaaaaaaaaaaaaaaaaaaaaaaaaaaaa-my-cool-package-2.1.3";
    let pkg = parse_store_path(path).unwrap();
    assert_eq!(pkg.name, "my-cool-package");
    assert_eq!(pkg.version, "2.1.3");
}

#[test]
fn parse_store_path_name_with_digits() {
    let path = "/nix/store/aaaaaaaaaaaaaaaaaaaaaaaaaaaaaaaa-python3-3.12.0";
    let pkg = parse_store_path(path).unwrap();
    assert_eq!(pkg.name, "python3");
    assert_eq!(pkg.version, "3.12.0");
}

#[test]
fn parse_store_path_invalid() {
    assert!(parse_store_path("/not/a/store/path").is_none());
    assert!(parse_store_path("").is_none());
    assert!(parse_store_path("/nix/store/short-pkg").is_none());
}

#[test]
fn split_name_version_basic() {
    let (name, version) = split_name_version("firefox-128.0");
    assert_eq!(name, "firefox");
    assert_eq!(version, "128.0");
}

#[test]
fn split_name_version_complex() {
    let (name, version) = split_name_version("my-great-lib-0.1.2");
    assert_eq!(name, "my-great-lib");
    assert_eq!(version, "0.1.2");
}

#[test]
fn split_name_version_no_version() {
    let (name, version) = split_name_version("just-a-name");
    assert_eq!(name, "just-a-name");
    assert_eq!(version, "unknown");
}

#[test]
fn split_name_version_numeric_suffix_in_name() {
    let (name, version) = split_name_version("lib2to3-3.12.0");
    assert_eq!(name, "lib2to3");
    assert_eq!(version, "3.12.0");
}

#[test]
fn parse_legacy_profile() {
    let output = "\
0 flake:nixpkgs#firefox github:NixOS/nixpkgs/abc123#firefox /nix/store/aaaaaaaaaaaaaaaaaaaaaaaaaaaaaaaa-firefox-128.0
1 flake:nixpkgs#git github:NixOS/nixpkgs/abc123#git /nix/store/bbbbbbbbbbbbbbbbbbbbbbbbbbbbbbbb-git-2.45.0
";
    let packages = parse_legacy_profile_format(output);
    assert_eq!(packages.len(), 2);
    assert_eq!(packages[0].name, "firefox");
    assert_eq!(packages[0].version, "128.0");
    assert_eq!(packages[1].name, "git");
    assert_eq!(packages[1].version, "2.45.0");
}

#[test]
fn parse_new_profile() {
    let output = "\
Name:               firefox
Flake reference:    flake:nixpkgs#firefox
Store paths:        /nix/store/aaaaaaaaaaaaaaaaaaaaaaaaaaaaaaaa-firefox-128.0

Name:               git
Flake reference:    flake:nixpkgs#git
Store paths:        /nix/store/bbbbbbbbbbbbbbbbbbbbbbbbbbbbbbbb-git-2.45.0
";
    let packages = parse_new_profile_format(output);
    assert_eq!(packages.len(), 2);
    assert_eq!(packages[0].name, "firefox");
    assert_eq!(packages[0].version, "128.0");
    assert_eq!(packages[1].name, "git");
    assert_eq!(packages[1].version, "2.45.0");
}

#[test]
fn parse_profile_empty() {
    let packages = parse_profile_output("");
    assert!(packages.is_empty());
}

#[test]
fn dedup_keeps_last() {
    let mut packages = vec![
        InstalledPackage {
            name: "firefox".to_string(),
            version: "127.0".to_string(),
            description: None,
            url: None,
            source: PackageSource::Nix,
            licenses: Vec::new(),
        },
        InstalledPackage {
            name: "firefox".to_string(),
            version: "128.0".to_string(),
            description: None,
            url: None,
            source: PackageSource::Nix,
            licenses: Vec::new(),
        },
    ];
    dedup_packages(&mut packages);
    assert_eq!(packages.len(), 1);
    assert_eq!(packages[0].version, "128.0");
}
