//! FUNDING.yml parsing, YAML value handling, and base64 decoding.

use syld::enrich::github::{base64_decode, decode_base64_content, parse_funding_yml, parse_yaml_value};

#[test]
fn parse_funding_yml_github_single() {
    let content = "github: octocat\n";
    let channels = parse_funding_yml(content);
    assert_eq!(channels.len(), 1);
    assert_eq!(channels[0].platform, "GitHub Sponsors");
    assert_eq!(channels[0].url, "https://github.com/sponsors/octocat");
}

#[test]
fn parse_funding_yml_github_array() {
    let content = "github: [octocat, surftocat]\n";
    let channels = parse_funding_yml(content);
    assert_eq!(channels.len(), 2);
    assert_eq!(channels[0].url, "https://github.com/sponsors/octocat");
    assert_eq!(channels[1].url, "https://github.com/sponsors/surftocat");
}

#[test]
fn parse_funding_yml_multiple_platforms() {
    let content = "\
github: octocat
open_collective: my-project
ko_fi: myname
patreon: creator
liberapay: dev
custom: https://example.com/donate
";
    let channels = parse_funding_yml(content);
    assert_eq!(channels.len(), 6);
    assert_eq!(channels[0].platform, "GitHub Sponsors");
    assert_eq!(channels[1].platform, "Open Collective");
    assert_eq!(channels[1].url, "https://opencollective.com/my-project");
    assert_eq!(channels[2].platform, "Ko-fi");
    assert_eq!(channels[3].platform, "Patreon");
    assert_eq!(channels[4].platform, "Liberapay");
    assert_eq!(channels[5].platform, "Custom");
    assert_eq!(channels[5].url, "https://example.com/donate");
}

#[test]
fn parse_funding_yml_comments_and_blanks() {
    let content = "\
# This is a comment
github: octocat

# Another comment
";
    let channels = parse_funding_yml(content);
    assert_eq!(channels.len(), 1);
}

#[test]
fn parse_funding_yml_empty() {
    let channels = parse_funding_yml("");
    assert!(channels.is_empty());
}

#[test]
fn parse_funding_yml_custom_array() {
    let content = "custom: [\"https://a.com\", \"https://b.com\"]\n";
    let channels = parse_funding_yml(content);
    assert_eq!(channels.len(), 2);
    assert_eq!(channels[0].url, "https://a.com");
    assert_eq!(channels[1].url, "https://b.com");
}

#[test]
fn parse_yaml_value_scalar() {
    assert_eq!(parse_yaml_value("hello"), vec!["hello"]);
}

#[test]
fn parse_yaml_value_array() {
    assert_eq!(parse_yaml_value("[a, b, c]"), vec!["a", "b", "c"]);
}

#[test]
fn parse_yaml_value_quoted() {
    assert_eq!(parse_yaml_value("\"hello\""), vec!["hello"]);
}

#[test]
fn base64_decode_simple() {
    assert_eq!(base64_decode("aGVsbG8=").unwrap(), "hello");
}

#[test]
fn base64_decode_with_newlines() {
    assert_eq!(base64_decode("aGVs\nbG8=").unwrap(), "hello");
}

#[test]
fn base64_decode_rejects_bad_alphabet() {
    assert!(base64_decode("a!b~").is_none());
}

#[test]
fn base64_roundtrip_funding() {
    let encoded = "Z2l0aHViOiBvY3RvY2F0Cg==";
    let decoded = base64_decode(encoded).unwrap();
    assert_eq!(decoded, "github: octocat\n");

    let channels = parse_funding_yml(&decoded);
    assert_eq!(channels.len(), 1);
    assert_eq!(channels[0].platform, "GitHub Sponsors");
}

#[test]
fn decode_base64_content_strips_whitespace() {
    assert_eq!(decode_base64_content("  aGVs\n bG8=  "), "hello");
}

#[test]
fn decode_base64_content_bad_input_is_empty() {
    assert_eq!(decode_base64_content("!!!"), "");
}
