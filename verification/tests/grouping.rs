//! Grouping, normalization and pagination behavior.

use syld::discover::{InstalledPackage, PackageSource};
use syld::report::terminal::{
    compute_ancestor, format_package_terminal, group_by_project, normalize_url, paginate,
    sort_packages,
};

fn make_pkg(name: &str, source: PackageSource) -> InstalledPackage {
    InstalledPackage {
        name: name.to_string(),
        version: "1.0".to_string(),
        description: None,
        url: None,
        source,
        licenses: vec![],
    }
}

fn make_pkg_with_url(name: &str, url: &str) -> InstalledPackage {
    InstalledPackage {
        name: name.to_string(),
        version: "1.0".to_string(),
        description: None,
        url: Some(url.to_string()),
        source: PackageSource::Pacman,
        licenses: vec![],
    }
}

#[test]
fn sort_alphabetically_case_insensitive() {
    let mut packages = vec![
        make_pkg("zsh", PackageSource::Pacman),
        make_pkg("Alacritty", PackageSource::Pacman),
        make_pkg("bash", PackageSource::Pacman),
    ];
    sort_packages(&mut packages);
    let names: Vec<_> = packages.iter().map(|p| p.name.as_str()).collect();
    assert_eq!(names, vec!["Alacritty", "bash", "zsh"]);
}

#[test]
fn sort_same_name_by_source() {
    let mut packages = vec![
        make_pkg("firefox", PackageSource::Flatpak),
        make_pkg("firefox", PackageSource::Pacman),
    ];
    sort_packages(&mut packages);
    assert_eq!(packages[0].source, PackageSource::Pacman);
    assert_eq!(packages[1].source, PackageSource::Flatpak);
}

#[test]
fn sort_empty_is_noop() {
    let mut packages: Vec<InstalledPackage> = vec![];
    sort_packages(&mut packages);
    assert!(packages.is_empty());
}

#[test]
fn sort_single_element() {
    let mut packages = vec![make_pkg("vim", PackageSource::Pacman)];
    sort_packages(&mut packages);
    assert_eq!(packages[0].name, "vim");
}

#[test]
fn sort_already_sorted() {
    let mut packages = vec![
        make_pkg("aaa", PackageSource::Pacman),
        make_pkg("bbb", PackageSource::Pacman),
        make_pkg("ccc", PackageSource::Pacman),
    ];
    sort_packages(&mut packages);
    let names: Vec<_> = packages.iter().map(|p| p.name.as_str()).collect();
    assert_eq!(names, vec!["aaa", "bbb", "ccc"]);
}

#[test]
fn normalize_strips_trailing_slash() {
    assert_eq!(normalize_url("https://qemu.org/"), "qemu.org");
}

#[test]
fn normalize_strips_scheme() {
    assert_eq!(normalize_url("https://example.com"), "example.com");
    assert_eq!(normalize_url("http://example.com"), "example.com");
}

#[test]
fn normalize_strips_www() {
    assert_eq!(normalize_url("https://www.qemu.org/"), "qemu.org");
}

#[test]
fn terminal_normalize_lowercases() {
    assert_eq!(normalize_url("https://GitHub.com/Foo/Bar"), "github.com/foo/bar");
}

#[test]
fn normalize_preserves_path() {
    assert_eq!(normalize_url("https://github.com/user/repo"), "github.com/user/repo");
}

#[test]
fn normalize_is_idempotent_on_ordinary_urls() {
    for u in [
        "https://www.qemu.org/",
        "https://github.com/user/repo",
        "  http://example.com/a/b/ ",
        "",
        "kernel.org",
    ] {
        let once = normalize_url(u);
        assert_eq!(normalize_url(&once), once);
    }
}

#[test]
fn group_merges_same_url() {
    let packages = vec![
        make_pkg_with_url("qemu-system-x86", "https://www.qemu.org/"),
        make_pkg_with_url("qemu-user", "https://qemu.org"),
        make_pkg_with_url("qemu-img", "https://www.qemu.org"),
    ];
    let groups = group_by_project(&packages);
    let with_url: Vec<_> = groups.iter().filter(|g| !g.url.is_empty()).collect();
    assert_eq!(with_url.len(), 1);
    assert_eq!(with_url[0].packages.len(), 3);
}

#[test]
fn group_separates_different_urls() {
    let packages = vec![
        make_pkg_with_url("firefox", "https://www.mozilla.org/firefox/"),
        make_pkg_with_url("bash", "https://www.gnu.org/software/bash"),
    ];
    let groups = group_by_project(&packages);
    let with_url: Vec<_> = groups.iter().filter(|g| !g.url.is_empty()).collect();
    assert_eq!(with_url.len(), 2);
}

#[test]
fn group_collects_no_url_packages() {
    let packages = vec![
        make_pkg("orphan1", PackageSource::Pacman),
        make_pkg("orphan2", PackageSource::Pacman),
    ];
    let groups = group_by_project(&packages);
    assert_eq!(groups.len(), 1);
    assert!(groups[0].url.is_empty());
    assert_eq!(groups[0].packages.len(), 2);
}

#[test]
fn group_sorted_alphabetically() {
    let packages = vec![
        make_pkg_with_url("pkg-z", "https://z-project.org"),
        make_pkg_with_url("pkg-a", "https://a-project.org"),
    ];
    let groups = group_by_project(&packages);
    let urls: Vec<_> = groups.iter().map(|g| g.url.as_str()).collect();
    assert_eq!(urls, vec!["a-project.org", "z-project.org"]);
}

#[test]
fn group_mixed_url_and_no_url() {
    let packages = vec![
        make_pkg_with_url("firefox", "https://mozilla.org"),
        make_pkg("orphan", PackageSource::Pacman),
    ];
    let groups = group_by_project(&packages);
    assert_eq!(groups.len(), 2);
    let with_url: Vec<_> = groups.iter().filter(|g| !g.url.is_empty()).collect();
    assert_eq!(with_url.len(), 1);
    assert_eq!(with_url[0].packages[0].name, "firefox");
}

#[test]
fn group_merges_sibling_urls_under_ancestor() {
    let packages = vec![
        make_pkg_with_url("libdaemon", "https://0pointer.de/lennart/projects/libdaemon"),
        make_pkg_with_url("mod_dnssd", "https://0pointer.de/lennart/projects/mod_dnssd"),
        make_pkg_with_url("nss-mdns", "https://0pointer.de/lennart/projects/nss-mdns"),
    ];
    let groups = group_by_project(&packages);
    let with_url: Vec<_> = groups.iter().filter(|g| !g.url.is_empty()).collect();
    assert_eq!(with_url.len(), 1);
    assert_eq!(with_url[0].url, "0pointer.de/lennart/projects");
    assert_eq!(with_url[0].project_urls.len(), 3);
    assert_eq!(with_url[0].packages.len(), 3);
}

#[test]
fn group_does_not_merge_single_child() {
    let packages = vec![
        make_pkg_with_url("linux", "https://github.com/torvalds/linux"),
        make_pkg_with_url("systemd", "https://github.com/systemd/systemd"),
    ];
    let groups = group_by_project(&packages);
    let with_url: Vec<_> = groups.iter().filter(|g| !g.url.is_empty()).collect();
    assert_eq!(with_url.len(), 2);
    assert!(with_url.iter().all(|g| g.project_urls.is_empty()));
}

#[test]
fn group_merges_same_org_repos() {
    let packages = vec![
        make_pkg_with_url("systemd", "https://github.com/systemd/systemd"),
        make_pkg_with_url("systemd-resolved", "https://github.com/systemd/resolved"),
    ];
    let groups = group_by_project(&packages);
    let with_url: Vec<_> = groups.iter().filter(|g| !g.url.is_empty()).collect();
    assert_eq!(with_url.len(), 1);
    assert_eq!(with_url[0].url, "github.com/systemd");
    assert_eq!(with_url[0].project_urls.len(), 2);
}

#[test]
fn group_ancestor_mixed_with_standalone() {
    let packages = vec![
        make_pkg_with_url("gnome-calc", "https://apps.gnome.org/calculator"),
        make_pkg_with_url("gnome-cal", "https://apps.gnome.org/calendar"),
        make_pkg_with_url("linux", "https://kernel.org"),
    ];
    let groups = group_by_project(&packages);
    let with_url: Vec<_> = groups.iter().filter(|g| !g.url.is_empty()).collect();
    assert_eq!(with_url.len(), 2);
    let ancestor_group = with_url.iter().find(|g| !g.project_urls.is_empty()).unwrap();
    assert_eq!(ancestor_group.url, "apps.gnome.org");
    assert_eq!(ancestor_group.packages.len(), 2);
}

#[test]
fn group_ancestor_preserves_project_urls_sorted() {
    let packages = vec![
        make_pkg_with_url("znss", "https://0pointer.de/projects/z-project"),
        make_pkg_with_url("adaemon", "https://0pointer.de/projects/a-project"),
    ];
    let groups = group_by_project(&packages);
    let with_url: Vec<_> = groups.iter().filter(|g| !g.url.is_empty()).collect();
    assert_eq!(with_url.len(), 1);
    assert_eq!(
        with_url[0].project_urls,
        vec!["0pointer.de/projects/a-project", "0pointer.de/projects/z-project"]
    );
}

#[test]
fn group_uniform_url_yields_single_group() {
    let packages = vec![
        make_pkg_with_url("a", "https://www.one.org/p"),
        make_pkg_with_url("b", "http://one.org/p/"),
        make_pkg_with_url("c", "ONE.org/p"),
    ];
    let groups = group_by_project(&packages);
    assert_eq!(groups.len(), 1);
    assert_eq!(groups[0].url, "one.org/p");
    assert!(groups[0].project_urls.is_empty());
    assert_eq!(groups[0].packages.len(), 3);
}

#[test]
fn group_end_to_end_sorted_with_orphan() {
    let packages = vec![
        make_pkg_with_url("firefox", "https://mozilla.org"),
        make_pkg_with_url("linux", "https://kernel.org"),
    ];
    let groups = group_by_project(&packages);
    let urls: Vec<_> = groups.iter().map(|g| g.url.as_str()).collect();
    assert_eq!(urls, vec!["kernel.org", "mozilla.org"]);
    assert!(groups.iter().all(|g| g.project_urls.is_empty()));

    let with_orphan = vec![
        make_pkg_with_url("firefox", "https://mozilla.org"),
        make_pkg_with_url("linux", "https://kernel.org"),
        make_pkg("orphan", PackageSource::Pacman),
    ];
    let groups = group_by_project(&with_orphan);
    let urls: Vec<_> = groups.iter().map(|g| g.url.as_str()).collect();
    assert_eq!(urls, vec!["", "kernel.org", "mozilla.org"]);
    assert_eq!(groups[0].packages.len(), 1);
    assert_eq!(groups[0].packages[0].name, "orphan");
}

#[test]
fn paginate_returns_all_when_limit_zero() {
    let items = vec![1, 2, 3, 4, 5];
    let (page, remaining) = paginate(&items, 0);
    assert_eq!(page, &[1, 2, 3, 4, 5]);
    assert_eq!(remaining, 0);
}

#[test]
fn paginate_returns_all_when_limit_exceeds_len() {
    let items = vec![1, 2, 3];
    let (page, remaining) = paginate(&items, 10);
    assert_eq!(page, &[1, 2, 3]);
    assert_eq!(remaining, 0);
}

#[test]
fn paginate_truncates_with_remaining() {
    let items = vec![1, 2, 3, 4, 5];
    let (page, remaining) = paginate(&items, 3);
    assert_eq!(page, &[1, 2, 3]);
    assert_eq!(remaining, 2);
}

#[test]
fn paginate_limit_equals_len() {
    let items = vec![1, 2, 3];
    let (page, remaining) = paginate(&items, 3);
    assert_eq!(page, &[1, 2, 3]);
    assert_eq!(remaining, 0);
}

#[test]
fn paginate_empty_slice() {
    let items: Vec<i32> = vec![];
    let (page, remaining) = paginate(&items, 5);
    assert!(page.is_empty());
    assert_eq!(remaining, 0);
}

#[test]
fn paginate_limit_one() {
    let items = vec![10, 20, 30];
    let (page, remaining) = paginate(&items, 1);
    assert_eq!(page, &[10]);
    assert_eq!(remaining, 2);
}

#[test]
fn ancestor_empty_url_returns_none() {
    assert_eq!(compute_ancestor(""), None);
}

#[test]
fn ancestor_bare_domain_returns_none() {
    assert_eq!(compute_ancestor("qemu.org"), None);
}

#[test]
fn ancestor_single_path_segment() {
    assert_eq!(compute_ancestor("apps.gnome.org/calculator").as_deref(), Some("apps.gnome.org"));
}

#[test]
fn ancestor_multi_path_segments() {
    assert_eq!(
        compute_ancestor("0pointer.de/lennart/projects/libdaemon").as_deref(),
        Some("0pointer.de/lennart/projects")
    );
}

#[test]
fn ancestor_github_style() {
    assert_eq!(compute_ancestor("github.com/systemd/systemd").as_deref(), Some("github.com/systemd"));
}

#[test]
fn format_package_without_source() {
    let pkg = make_pkg("firefox", PackageSource::Pacman);
    assert_eq!(format_package_terminal(&pkg, false), "firefox");
}

#[test]
fn format_package_with_source() {
    let pkg = make_pkg("org.gimp.GIMP", PackageSource::Flatpak);
    assert_eq!(format_package_terminal(&pkg, true), "org.gimp.GIMP [flatpak]");
}
