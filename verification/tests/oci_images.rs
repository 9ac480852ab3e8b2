//! OCI label parsing and package building for container images.

use syld::discover::docker::{build_package, DockerImage};
use syld::discover::oci::{build_package_from_labels, parse_labels, LabelMap};
use syld::discover::podman::{short_id, PodmanImage};
use syld::discover::PackageSource;

#[test]
fn oci_parse_labels_with_oci_metadata() {
    let output = r#"{"org.opencontainers.image.source":"https://github.com/nginx/nginx","org.opencontainers.image.url":"https://nginx.org","org.opencontainers.image.description":"Official nginx image","org.opencontainers.image.licenses":"BSD-2-Clause","maintainer":"NGINX Docker Maintainers"}"#;

    let labels = parse_labels(output).unwrap();
    assert_eq!(labels.get("org.opencontainers.image.source").unwrap(), "https://github.com/nginx/nginx");
    assert_eq!(labels.get("org.opencontainers.image.description").unwrap(), "Official nginx image");
    assert_eq!(labels.get("org.opencontainers.image.licenses").unwrap(), "BSD-2-Clause");
}

#[test]
fn oci_parse_labels_null() {
    let labels = parse_labels("null\n").unwrap();
    assert!(labels.is_empty());
}

#[test]
fn oci_parse_labels_empty() {
    let labels = parse_labels("").unwrap();
    assert!(labels.is_empty());
}

#[test]
fn oci_parse_labels_empty_object() {
    let labels = parse_labels("{}").unwrap();
    assert!(labels.is_empty());
}

#[test]
fn oci_parse_labels_rejects_non_object() {
    assert!(parse_labels("[1, 2]").is_err());
}

#[test]
fn oci_build_package_full_metadata() {
    let mut labels = LabelMap::new();
    labels.insert(
        "org.opencontainers.image.source".to_string(),
        "https://github.com/nginx/nginx".to_string(),
    );
    labels.insert(
        "org.opencontainers.image.description".to_string(),
        "Official nginx image".to_string(),
    );
    labels.insert("org.opencontainers.image.licenses".to_string(), "BSD-2-Clause".to_string());

    let pkg = build_package_from_labels("nginx", "1.25.4", &labels, PackageSource::Docker);
    assert_eq!(pkg.name, "nginx");
    assert_eq!(pkg.version, "1.25.4");
    assert_eq!(pkg.description.as_deref(), Some("Official nginx image"));
    assert_eq!(pkg.url.as_deref(), Some("https://github.com/nginx/nginx"));
    assert_eq!(pkg.source, PackageSource::Docker);
    assert_eq!(pkg.licenses, vec!["BSD-2-Clause"]);
}

#[test]
fn oci_build_package_no_labels() {
    let labels = LabelMap::new();
    let pkg = build_package_from_labels("myapp", "dev", &labels, PackageSource::Podman);
    assert_eq!(pkg.name, "myapp");
    assert_eq!(pkg.version, "dev");
    assert!(pkg.description.is_none());
    assert!(pkg.url.is_none());
    assert_eq!(pkg.source, PackageSource::Podman);
    assert!(pkg.licenses.is_empty());
}

#[test]
fn oci_build_package_none_tag_becomes_unknown() {
    let labels = LabelMap::new();
    let pkg = build_package_from_labels("myapp", "<none>", &labels, PackageSource::Docker);
    assert_eq!(pkg.version, "unknown");
}

#[test]
fn oci_build_package_url_prefers_source_over_url() {
    let mut labels = LabelMap::new();
    labels.insert(
        "org.opencontainers.image.source".to_string(),
        "https://github.com/nginx/nginx".to_string(),
    );
    labels.insert("org.opencontainers.image.url".to_string(), "https://nginx.org".to_string());

    let pkg = build_package_from_labels("nginx", "latest", &labels, PackageSource::Docker);
    assert_eq!(pkg.url.as_deref(), Some("https://github.com/nginx/nginx"));
}

#[test]
fn oci_build_package_url_falls_back_to_url_label() {
    let mut labels = LabelMap::new();
    labels.insert("org.opencontainers.image.url".to_string(), "https://nginx.org".to_string());

    let pkg = build_package_from_labels("nginx", "latest", &labels, PackageSource::Podman);
    assert_eq!(pkg.url.as_deref(), Some("https://nginx.org"));
}

#[test]
fn docker_build_package_full_metadata() {
    let image = DockerImage {
        repository: "nginx".to_string(),
        tag: "1.25.4".to_string(),
        id: "abc123".to_string(),
    };

    let mut labels = LabelMap::new();
    labels.insert(
        "org.opencontainers.image.source".to_string(),
        "https://github.com/nginx/nginx".to_string(),
    );
    labels.insert(
        "org.opencontainers.image.description".to_string(),
        "Official nginx image".to_string(),
    );
    labels.insert("org.opencontainers.image.licenses".to_string(), "BSD-2-Clause".to_string());

    let pkg = build_package(&image, &labels);
    assert_eq!(pkg.name, "nginx");
    assert_eq!(pkg.version, "1.25.4");
    assert_eq!(pkg.description.as_deref(), Some("Official nginx image"));
    assert_eq!(pkg.url.as_deref(), Some("https://github.com/nginx/nginx"));
    assert_eq!(pkg.source, PackageSource::Docker);
    assert_eq!(pkg.licenses, vec!["BSD-2-Clause"]);
}

#[test]
fn docker_build_package_no_labels() {
    let image = DockerImage {
        repository: "myapp".to_string(),
        tag: "dev".to_string(),
        id: "xyz789".to_string(),
    };

    let labels = LabelMap::new();
    let pkg = build_package(&image, &labels);
    assert_eq!(pkg.name, "myapp");
    assert_eq!(pkg.version, "dev");
    assert!(pkg.description.is_none());
    assert!(pkg.url.is_none());
    assert_eq!(pkg.source, PackageSource::Docker);
    assert!(pkg.licenses.is_empty());
}

#[test]
fn docker_build_package_none_tag_becomes_unknown() {
    let image = DockerImage {
        repository: "myapp".to_string(),
        tag: "<none>".to_string(),
        id: "xyz789".to_string(),
    };

    let labels = LabelMap::new();
    let pkg = build_package(&image, &labels);
    assert_eq!(pkg.version, "unknown");
}

#[test]
fn docker_build_package_url_prefers_source_over_url() {
    let image = DockerImage {
        repository: "nginx".to_string(),
        tag: "latest".to_string(),
        id: "abc123".to_string(),
    };

    let mut labels = LabelMap::new();
    labels.insert(
        "org.opencontainers.image.source".to_string(),
        "https://github.com/nginx/nginx".to_string(),
    );
    labels.insert("org.opencontainers.image.url".to_string(), "https://nginx.org".to_string());

    let pkg = build_package(&image, &labels);
    assert_eq!(pkg.url.as_deref(), Some("https://github.com/nginx/nginx"));
}

#[test]
fn docker_build_package_url_falls_back_to_url_label() {
    let image = DockerImage {
        repository: "nginx".to_string(),
        tag: "latest".to_string(),
        id: "abc123".to_string(),
    };

    let mut labels = LabelMap::new();
    labels.insert("org.opencontainers.image.url".to_string(), "https://nginx.org".to_string());

    let pkg = build_package(&image, &labels);
    assert_eq!(pkg.url.as_deref(), Some("https://nginx.org"));
}

#[test]
fn name_and_tag_with_registry() {
    let image = PodmanImage {
        id: "sha256:abc123".to_string(),
        names: vec!["ghcr.io/owner/myapp:v1.2.3".to_string()],
    };

    let (name, tag) = image.name_and_tag();
    assert_eq!(name, "ghcr.io/owner/myapp");
    assert_eq!(tag, "v1.2.3");
}

#[test]
fn name_and_tag_no_names_uses_short_id() {
    let image = PodmanImage {
        id: "sha256:abc123def456789abcdef".to_string(),
        names: vec![],
    };

    let (name, tag) = image.name_and_tag();
    assert_eq!(name, "abc123def456");
    assert_eq!(tag, "<none>");
}

#[test]
fn name_and_tag_no_tag_separator() {
    let image = PodmanImage {
        id: "sha256:abc123".to_string(),
        names: vec!["localhost/myimage".to_string()],
    };

    let (name, tag) = image.name_and_tag();
    assert_eq!(name, "localhost/myimage");
    assert_eq!(tag, "<none>");
}

#[test]
fn name_and_tag_multiple_names_uses_first() {
    let image = PodmanImage {
        id: "sha256:abc123".to_string(),
        names: vec![
            "docker.io/library/nginx:latest".to_string(),
            "docker.io/library/nginx:1.25".to_string(),
        ],
    };

    let (name, tag) = image.name_and_tag();
    assert_eq!(name, "docker.io/library/nginx");
    assert_eq!(tag, "latest");
}

#[test]
fn short_id_strips_sha256_prefix() {
    assert_eq!(short_id("sha256:abc123def456789"), "abc123def456");
}

#[test]
fn short_id_without_prefix() {
    assert_eq!(short_id("abc123def456789"), "abc123def456");
}

#[test]
fn short_id_shorter_than_12() {
    assert_eq!(short_id("abc"), "abc");
}

#[test]
fn mise_build_description_with_source_info() {
    let source = Some(syld::discover::mise::MiseSource {
        source_type: Some("mise.toml".to_string()),
        path: Some("/home/user/project/mise.toml".to_string()),
    });
    let d = syld::discover::mise::build_description("go", &source);
    assert_eq!(d.as_deref(), Some("go (from mise.toml: /home/user/project/mise.toml)"));
}

#[test]
fn mise_build_description_without_source() {
    let d = syld::discover::mise::build_description("ruby", &None);
    assert_eq!(d.as_deref(), Some("ruby (installed via mise)"));
}
