//! Line-based parsers: rpm query output, flatpak listings, snap listings
//! and pacman desc files.

use syld::discover::dnf::{parse_rpm_line, parse_rpm_output};
use syld::discover::flatpak::{parse_flatpak_line, parse_flatpak_output};
use syld::discover::pacman::parse_desc_content;
use syld::discover::snap::{extract_description, parse_snap_output};
use syld::discover::PackageSource;

#[test]
fn dnf_parse_full_line() {
    let output = "bash\t5.2.26-3.fc40\tThe GNU Bourne Again shell\thttps://www.gnu.org/software/bash\tGPL-3.0-or-later\n";
    let packages = parse_rpm_output(output);
    assert_eq!(packages.len(), 1);
    let pkg = &packages[0];
    assert_eq!(pkg.name, "bash");
    assert_eq!(pkg.version, "5.2.26-3.fc40");
    assert_eq!(pkg.description.as_deref(), Some("The GNU Bourne Again shell"));
    assert_eq!(pkg.url.as_deref(), Some("https://www.gnu.org/software/bash"));
    assert_eq!(pkg.source, PackageSource::Dnf);
    assert_eq!(pkg.licenses, vec!["GPL-3.0-or-later"]);
}

#[test]
fn dnf_parse_multiple_packages() {
    let output = "\
bash\t5.2.26-3.fc40\tThe GNU Bourne Again shell\thttps://www.gnu.org/software/bash\tGPL-3.0-or-later
kernel\t6.8.5-301.fc40\tThe Linux kernel\thttps://www.kernel.org\tGPL-2.0-only
vim-enhanced\t9.1.158-1.fc40\tA version of the VIM editor\thttps://www.vim.org\tVim AND MIT
";
    let packages = parse_rpm_output(output);
    assert_eq!(packages.len(), 3);
    assert_eq!(packages[0].name, "bash");
    assert_eq!(packages[1].name, "kernel");
    assert_eq!(packages[2].name, "vim-enhanced");
}

#[test]
fn parse_none_url() {
    let output = "gpg-pubkey\t1234abcd-5678ef01\tgpg(Fedora 40)\t(none)\t(none)\n";
    let packages = parse_rpm_output(output);
    assert_eq!(packages.len(), 1);
    let pkg = &packages[0];
    assert_eq!(pkg.name, "gpg-pubkey");
    assert_eq!(pkg.url, None);
    assert!(pkg.licenses.is_empty());
}

#[test]
fn parse_none_description() {
    let output = "some-pkg\t1.0-1.fc40\t(none)\thttps://example.com\tMIT\n";
    let packages = parse_rpm_output(output);
    assert_eq!(packages.len(), 1);
    assert_eq!(packages[0].description, None);
}

#[test]
fn dnf_parse_minimal_line() {
    let output = "some-pkg\t1.0\n";
    let packages = parse_rpm_output(output);
    assert_eq!(packages.len(), 1);
    assert_eq!(packages[0].name, "some-pkg");
    assert_eq!(packages[0].version, "1.0");
    assert_eq!(packages[0].description, None);
    assert_eq!(packages[0].url, None);
    assert!(packages[0].licenses.is_empty());
}

#[test]
fn dnf_parse_empty_output() {
    let packages = parse_rpm_output("");
    assert!(packages.is_empty());
}

#[test]
fn dnf_parse_skips_blank_lines() {
    let output = "\nbash\t5.2.26-3.fc40\tThe GNU Bourne Again shell\thttps://www.gnu.org/software/bash\tGPL-3.0-or-later\n\n";
    let packages = parse_rpm_output(output);
    assert_eq!(packages.len(), 1);
}

#[test]
fn parse_empty_name_skipped() {
    let output = "\t1.0\tSome package\thttps://example.com\tMIT\n";
    let packages = parse_rpm_output(output);
    assert!(packages.is_empty());
}

#[test]
fn parse_missing_version_defaults_to_unknown() {
    let output = "some-pkg\t\tA description\thttps://example.com\tMIT\n";
    let packages = parse_rpm_output(output);
    assert_eq!(packages.len(), 1);
    assert_eq!(packages[0].version, "unknown");
}

#[test]
fn dnf_line_missing_name_is_error() {
    assert!(parse_rpm_line("\t1.0").is_err());
}

#[test]
fn flatpak_parse_full_line() {
    let output = "org.mozilla.firefox\t128.0\tFast, Private & Safe Web Browser\tflathub\n";
    let packages = parse_flatpak_output(output);
    assert_eq!(packages.len(), 1);
    let pkg = &packages[0];
    assert_eq!(pkg.name, "org.mozilla.firefox");
    assert_eq!(pkg.version, "128.0");
    assert_eq!(pkg.description.as_deref(), Some("Fast, Private & Safe Web Browser"));
    assert_eq!(pkg.source, PackageSource::Flatpak);
    assert!(pkg.url.is_none());
    assert!(pkg.licenses.is_empty());
}

#[test]
fn parse_multiple_apps() {
    let output = "\
org.mozilla.firefox\t128.0\tFast, Private & Safe Web Browser\tflathub
org.gimp.GIMP\t2.10.38\tGNU Image Manipulation Program\tflathub
com.spotify.Client\t1.2.26\tOnline music streaming service\tflathub
";
    let packages = parse_flatpak_output(output);
    assert_eq!(packages.len(), 3);
    assert_eq!(packages[0].name, "org.mozilla.firefox");
    assert_eq!(packages[1].name, "org.gimp.GIMP");
    assert_eq!(packages[2].name, "com.spotify.Client");
}

#[test]
fn parse_missing_version() {
    let output = "org.example.App\t\tSome App\tflathub\n";
    let packages = parse_flatpak_output(output);
    assert_eq!(packages.len(), 1);
    assert_eq!(packages[0].version, "unknown");
}

#[test]
fn parse_missing_description() {
    let output = "org.example.App\t1.0\t\tflathub\n";
    let packages = parse_flatpak_output(output);
    assert_eq!(packages.len(), 1);
    assert_eq!(packages[0].description, None);
}

#[test]
fn flatpak_parse_minimal_line() {
    let output = "org.example.App\t1.0\n";
    let packages = parse_flatpak_output(output);
    assert_eq!(packages.len(), 1);
    assert_eq!(packages[0].name, "org.example.App");
    assert_eq!(packages[0].version, "1.0");
    assert_eq!(packages[0].description, None);
}

#[test]
fn flatpak_parse_empty_output() {
    let packages = parse_flatpak_output("");
    assert!(packages.is_empty());
}

#[test]
fn flatpak_parse_skips_blank_lines() {
    let output = "\norg.example.App\t1.0\tAn App\tflathub\n\n";
    let packages = parse_flatpak_output(output);
    assert_eq!(packages.len(), 1);
}

#[test]
fn parse_empty_application_id_skipped() {
    let output = "\t1.0\tSome App\tflathub\n";
    let packages = parse_flatpak_output(output);
    assert!(packages.is_empty());
}

#[test]
fn flatpak_line_missing_id_is_error() {
    assert!(parse_flatpak_line("\t1.0").is_err());
}

#[test]
fn parse_full_output() {
    let output = "Name    Version   Rev    Tracking       Publisher   Notes\nfirefox  128.0.3   4793   latest/stable  mozilla**   -\n";
    let packages = parse_snap_output(output);
    assert_eq!(packages.len(), 1);
    let pkg = &packages[0];
    assert_eq!(pkg.name, "firefox");
    assert_eq!(pkg.version, "128.0.3");
    assert_eq!(pkg.source, PackageSource::Snap);
    assert!(pkg.licenses.is_empty());
}

#[test]
fn parse_multiple_snaps() {
    let output = "Name    Version   Rev    Tracking       Publisher   Notes
core20      20240227  2318   latest/stable  canonical**  base
firefox     128.0.3   4793   latest/stable  mozilla**    -
snapd       2.63      21759  latest/stable  canonical**  snapd
";
    let packages = parse_snap_output(output);
    assert_eq!(packages.len(), 3);
    assert_eq!(packages[0].name, "core20");
    assert_eq!(packages[1].name, "firefox");
    assert_eq!(packages[2].name, "snapd");
}

#[test]
fn snap_parse_empty_output() {
    let packages = parse_snap_output("");
    assert!(packages.is_empty());
}

#[test]
fn parse_header_only() {
    let output = "Name    Version   Rev    Tracking       Publisher   Notes\n";
    let packages = parse_snap_output(output);
    assert!(packages.is_empty());
}

#[test]
fn snap_parse_skips_blank_lines() {
    let output = "Name    Version   Rev    Tracking       Publisher   Notes\n\nfirefox  128.0  4793  latest/stable  mozilla**  -\n\n";
    let packages = parse_snap_output(output);
    assert_eq!(packages.len(), 1);
}

#[test]
fn snap_parse_minimal_line() {
    let output = "Name    Version   Rev    Tracking       Publisher   Notes\nsomepkg  1.0\n";
    let packages = parse_snap_output(output);
    assert_eq!(packages.len(), 1);
    assert_eq!(packages[0].name, "somepkg");
    assert_eq!(packages[0].version, "1.0");
}

#[test]
fn extract_description_simple() {
    let yaml = "name: firefox\ndescription: Fast web browser\nversion: 128.0\n";
    assert_eq!(extract_description(yaml), Some("Fast web browser".to_string()));
}

#[test]
fn extract_description_quoted() {
    let yaml = "description: 'A quoted description'\n";
    assert_eq!(extract_description(yaml), Some("A quoted description".to_string()));
}

#[test]
fn extract_description_missing() {
    let yaml = "name: firefox\nversion: 128.0\n";
    assert_eq!(extract_description(yaml), None);
}

#[test]
fn extract_description_empty() {
    let yaml = "description:\n";
    assert_eq!(extract_description(yaml), None);
}

#[test]
fn parse_full_desc() {
    let content = "\
%NAME%
firefox

%VERSION%
128.0-1

%DESC%
Fast, Private & Safe Web Browser

%URL%
https://www.mozilla.org/firefox/

%LICENSE%
MPL-2.0
GPL-2.0-only
LGPL-2.1-only

%DEPENDS%
dbus-glib
gtk3
";
    let pkg = parse_desc_content(content).unwrap();
    assert_eq!(pkg.name, "firefox");
    assert_eq!(pkg.version, "128.0-1");
    assert_eq!(pkg.description.as_deref(), Some("Fast, Private & Safe Web Browser"));
    assert_eq!(pkg.url.as_deref(), Some("https://www.mozilla.org/firefox/"));
    assert_eq!(pkg.source, PackageSource::Pacman);
    assert_eq!(pkg.licenses, vec!["MPL-2.0", "GPL-2.0-only", "LGPL-2.1-only"]);
}

#[test]
fn parse_minimal_desc() {
    let content = "\
%NAME%
coreutils

%VERSION%
9.5-1
";
    let pkg = parse_desc_content(content).unwrap();
    assert_eq!(pkg.name, "coreutils");
    assert_eq!(pkg.version, "9.5-1");
    assert_eq!(pkg.description, None);
    assert_eq!(pkg.url, None);
    assert!(pkg.licenses.is_empty());
}

#[test]
fn parse_missing_name_errors() {
    let content = "\
%VERSION%
1.0.0
";
    let err = parse_desc_content(content).unwrap_err();
    assert!(err.message().contains("NAME"));
}

#[test]
fn parse_missing_version_errors() {
    let content = "\
%NAME%
something
";
    let err = parse_desc_content(content).unwrap_err();
    assert!(err.message().contains("VERSION"));
}

#[test]
fn parse_ignores_unknown_fields() {
    let content = "\
%NAME%
pkg

%VERSION%
1.0

%BUILDDATE%
1700000000

%PACKAGER%
Someone <someone@example.com>
";
    let pkg = parse_desc_content(content).unwrap();
    assert_eq!(pkg.name, "pkg");
    assert_eq!(pkg.version, "1.0");
}

#[test]
fn parse_single_license() {
    let content = "\
%NAME%
mit-pkg

%VERSION%
0.1

%LICENSE%
MIT
";
    let pkg = parse_desc_content(content).unwrap();
    assert_eq!(pkg.licenses, vec!["MIT"]);
}

#[test]
fn snap_line_without_columns_is_error() {
    let err = syld::discover::snap::parse_snap_line("   ").unwrap_err();
    assert!(err.message().contains("snap name"));
}
