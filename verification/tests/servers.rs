use openapi2skill::model::{Server, Spec};
use openapi2skill::writer::servers::effective_server_bases;

fn spec_with_servers(urls: &[&str]) -> Spec {
    let mut spec = Spec::new("Test API".to_string(), "1.0.0".to_string());
    for u in urls {
        spec.servers.push(Server { url: u.to_string(), description: None });
    }
    spec
}

fn check_prefers_override() {
    let spec = spec_with_servers(&["http://spec-host:9090"]);
    let overrides = vec!["http://cli-host:9090".to_string()];
    assert_eq!(effective_server_bases(&spec, &overrides), vec!["http://cli-host:9090".to_string()]);
}

fn check_keeps_override_list_order() {
    let spec = spec_with_servers(&["http://spec-host:9090"]);
    let overrides = vec!["http://first:9090".to_string(), "https://second:9090".to_string()];
    assert_eq!(effective_server_bases(&spec, &overrides), overrides);
}

fn check_falls_back_to_spec() {
    let spec = spec_with_servers(&["http://spec-host:9090"]);
    assert_eq!(effective_server_bases(&spec, &[]), vec!["http://spec-host:9090".to_string()]);
}

fn check_trims_trailing_slash() {
    let spec = spec_with_servers(&["http://spec-host:9090/"]);
    assert_eq!(effective_server_bases(&spec, &[]), vec!["http://spec-host:9090".to_string()]);
    let overrides = vec!["http://cli-host:9090/api/v1/".to_string()];
    assert_eq!(effective_server_bases(&spec, &overrides), vec!["http://cli-host:9090/api/v1".to_string()]);
}

fn check_empty_when_no_servers() {
    let spec = spec_with_servers(&[]);
    assert!(effective_server_bases(&spec, &[]).is_empty());
}

#[test]
fn prefers_override() {
    check_prefers_override();
}

#[test]
fn keeps_override_list_order() {
    check_keeps_override_list_order();
}

#[test]
fn falls_back_to_spec() {
    check_falls_back_to_spec();
}

#[test]
fn trims_trailing_slash() {
    check_trims_trailing_slash();
}

#[test]
fn empty_when_no_servers() {
    check_empty_when_no_servers();
}

#[test]
fn effective_server_bases_prefers_override() {
    check_prefers_override();
}

#[test]
fn effective_server_bases_keeps_override_list_order() {
    check_keeps_override_list_order();
}

#[test]
fn effective_server_bases_falls_back_to_spec() {
    check_falls_back_to_spec();
}

#[test]
fn effective_server_bases_trims_trailing_slash() {
    check_trims_trailing_slash();
}

#[test]
fn effective_server_bases_empty_when_no_servers() {
    check_empty_when_no_servers();
}
