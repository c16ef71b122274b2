use openapi2skill::model::{Operation, OperationEntry, Server, Spec};
use openapi2skill::writer::skill::{render_description_and_navigation, render_manifest_section, render_metadata};

fn minimal_spec(urls: &[&str]) -> Spec {
    let mut spec = Spec::new("Test API".to_string(), "1.0.0".to_string());
    for u in urls {
        spec.servers.push(Server { url: u.to_string(), description: None });
    }
    spec
}

fn minimal_spec_with_deprecated() -> Spec {
    let mut spec = minimal_spec(&[]);
    let mut op = Operation::new();
    op.deprecated = Some(true);
    spec.operations.push(OperationEntry { path: "/test".to_string(), method: "GET".to_string(), op });
    spec
}

#[test]
fn server_override_replaces_spec_servers() {
    let spec = minimal_spec(&["https://spec.example.com"]);
    let overrides = vec!["https://override1.example.com".to_string(), "https://override2.example.com".to_string()];
    let out = render_metadata(&spec, &overrides, None, "openapi2skill spec.json");
    assert!(out.contains("https://override1.example.com"), "expected override1 in:\n{out}");
    assert!(out.contains("https://override2.example.com"), "expected override2 in:\n{out}");
    assert!(!out.contains("https://spec.example.com"), "spec server should be suppressed:\n{out}");
}

#[test]
fn empty_override_falls_back_to_spec_servers() {
    let spec = minimal_spec(&["https://spec.example.com"]);
    let out = render_metadata(&spec, &[], None, "openapi2skill spec.json");
    assert!(out.contains("https://spec.example.com"), "expected spec server in:\n{out}");
}

#[test]
fn no_servers_section_when_both_empty() {
    let spec = minimal_spec(&[]);
    let out = render_metadata(&spec, &[], None, "openapi2skill spec.json");
    assert!(!out.contains("**Servers:**"), "servers section should be absent:\n{out}");
}

#[test]
fn source_url_rendered_when_present() {
    let spec = minimal_spec(&[]);
    let out = render_metadata(&spec, &[], Some("https://example.com/spec.json"), "openapi2skill spec.json");
    assert!(out.contains("**Source:** https://example.com/spec.json"), "expected source line in:\n{out}");
}

#[test]
fn no_source_section_when_absent() {
    let spec = minimal_spec(&[]);
    let out = render_metadata(&spec, &[], None, "openapi2skill spec.json");
    assert!(!out.contains("**Source:**"), "source section should be absent:\n{out}");
}

#[test]
fn command_is_always_rendered() {
    let spec = minimal_spec(&[]);
    let out = render_metadata(&spec, &[], None, "openapi2skill spec.json --force");
    assert!(
        out.contains("**Generated with:** `openapi2skill spec.json --force`"),
        "expected generated-with line in:\n{out}"
    );
}

#[test]
fn manifest_section_links_filename() {
    let out = render_manifest_section("openapi.json", None);
    assert!(out.contains("[`openapi.json`](./openapi.json)"), "expected manifest link in:\n{out}");
    assert!(out.contains("Do **not** read it"), "expected do-not-read caveat in:\n{out}");
}

#[test]
fn manifest_section_includes_source_when_present() {
    let out = render_manifest_section("openapi.yml", Some("https://example.com/spec.yml"));
    assert!(out.contains("fetched from https://example.com/spec.yml"), "expected source mention in:\n{out}");
}

#[test]
fn manifest_section_omits_source_when_absent() {
    let out = render_manifest_section("openapi.json", None);
    assert!(!out.contains("fetched from"), "should not mention a source:\n{out}");
}

#[test]
fn navigation_has_no_deprecated_note_when_no_deprecated_ops() {
    let spec = minimal_spec(&[]);
    let out = render_description_and_navigation("", &spec);
    assert!(!out.contains("deprecated"), "should not contain deprecated note:\n{out}");
}

#[test]
fn navigation_has_deprecated_note_when_deprecated_ops_exist() {
    let spec = minimal_spec_with_deprecated();
    let out = render_description_and_navigation("", &spec);
    assert!(out.contains("deprecated"), "should contain deprecated note:\n{out}");
}
