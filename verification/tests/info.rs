use openapi2skill::model::{
    ExternalDoc, MediaType, Operation, OperationEntry, RequestBody, Response, SecurityRequirement, Server, Spec,
};
use openapi2skill::writer::endpoint::info::{format_security_scheme, render_info_table, render_security};

fn get_query_op() -> Operation {
    let mut op = Operation::new();
    op.responses = Some(vec![(
        "200".to_string(),
        Some(Response { description: Some("OK".to_string()), headers: Vec::new(), content: Vec::new(), links: Vec::new() }),
    )]);
    op
}

fn spec_with(server_url: &str, op: Operation) -> Spec {
    let mut spec = Spec::new("Test API".to_string(), "1.0.0".to_string());
    spec.servers.push(Server { url: server_url.to_string(), description: None });
    spec.operations.push(OperationEntry { path: "/query".to_string(), method: "GET".to_string(), op });
    spec
}

fn spec_with_operation(server_url: &str) -> Spec {
    spec_with(server_url, get_query_op())
}

fn render_with_suffix(spec: &Spec, servers: &[String], query_suffix: &str) -> String {
    let e = &spec.operations[0];
    render_info_table(&e.path, &e.method, &e.op, spec, servers, query_suffix)
}

fn render(spec: &Spec, servers: &[String]) -> String {
    render_with_suffix(spec, servers, "")
}

#[test]
fn full_url_uses_provided_server() {
    let spec = spec_with_operation("http://spec-host:9090");
    let servers = vec!["http://cli-host:9090".to_string()];
    let out = render(&spec, &servers);
    assert!(out.contains("| **Full URL** | `http://cli-host:9090/query` |"), "expected CLI server in Full URL:\n{out}");
    assert!(!out.contains("spec-host"), "spec server must not leak into Full URL:\n{out}");
}

#[test]
fn full_url_renders_one_row_per_server() {
    let spec = spec_with_operation("http://spec-host:9090");
    let servers = vec!["http://first:9090".to_string(), "https://second:9090".to_string()];
    let out = render(&spec, &servers);
    assert!(out.contains("| **Full URL** | `http://first:9090/query` |"), "expected first server:\n{out}");
    assert!(out.contains("| **Full URL** | `https://second:9090/query` |"), "expected second server:\n{out}");
}

#[test]
fn no_full_url_row_when_no_servers() {
    let spec = spec_with_operation("http://spec-host:9090");
    let out = render(&spec, &[]);
    assert!(!out.contains("Full URL"), "no Full URL row expected when server list is empty:\n{out}");
}

#[test]
fn full_url_appends_query_suffix() {
    let spec = spec_with_operation("https://api.example.com");
    let servers = vec!["https://api.example.com".to_string()];
    let out = render_with_suffix(&spec, &servers, "?from=string&to=string");
    assert!(
        out.contains("| **Full URL** | `https://api.example.com/query?from=string&to=string` |"),
        "expected query suffix in Full URL:\n{out}"
    );
}

#[test]
fn full_url_appends_suffix_to_all_servers() {
    let spec = spec_with_operation("https://api.example.com");
    let servers = vec!["https://prod.example.com".to_string(), "https://staging.example.com".to_string()];
    let out = render_with_suffix(&spec, &servers, "?q=string");
    assert!(out.contains("| **Full URL** | `https://prod.example.com/query?q=string` |"), "expected suffix on first server:\n{out}");
    assert!(
        out.contains("| **Full URL** | `https://staging.example.com/query?q=string` |"),
        "expected suffix on second server:\n{out}"
    );
}

#[test]
fn no_docs_row_when_no_external_docs() {
    let spec = spec_with_operation("https://api.example.com");
    let out = render(&spec, &[]);
    assert!(!out.contains("**Docs**"), "unexpected Docs row:\n{out}");
}

#[test]
fn docs_row_renders_link_with_description() {
    let mut op = get_query_op();
    op.external_docs = Some(ExternalDoc {
        url: "https://docs.example.com/query".to_string(),
        description: Some("More info".to_string()),
    });
    let spec = spec_with("https://api.example.com", op);
    let out = render(&spec, &[]);
    assert!(out.contains("| **Docs** | [More info](https://docs.example.com/query) |"), "expected Docs row with link:\n{out}");
}

#[test]
fn docs_row_renders_bare_url_without_description() {
    let mut op = get_query_op();
    op.external_docs = Some(ExternalDoc { url: "https://docs.example.com/query".to_string(), description: None });
    let spec = spec_with("https://api.example.com", op);
    let out = render(&spec, &[]);
    assert!(out.contains("| **Docs** | https://docs.example.com/query |"), "expected Docs row with bare url:\n{out}");
}

#[test]
fn info_table_exact_layout() {
    let spec = spec_with_operation("https://api.example.com");
    let out = render(&spec, &["https://api.example.com".to_string()]);
    assert_eq!(
        out,
        "| | |\n|--|--|\n| **Method** | `GET` |\n| **URL** | `/query` |\n| **Full URL** | `https://api.example.com/query` |\n| **Auth** | None |\n\n"
    );
}

#[test]
fn security_falls_back_to_document_requirements() {
    let mut spec = spec_with_operation("https://api.example.com");
    spec.security.push(SecurityRequirement { schemes: vec![("oauth".to_string(), vec!["read".to_string(), "write".to_string()])] });
    spec.security.push(SecurityRequirement { schemes: vec![("api_key".to_string(), Vec::new())] });
    assert_eq!(render_security(&Vec::new(), &spec), "oauth (scopes: read, write); api_key");
    let own = vec![SecurityRequirement { schemes: vec![("basic".to_string(), Vec::new())] }];
    assert_eq!(render_security(&own, &spec), "basic");
}

#[test]
fn security_none_without_requirements() {
    let spec = spec_with_operation("https://api.example.com");
    assert_eq!(render_security(&Vec::new(), &spec), "None");
    assert_eq!(format_security_scheme("key", &Vec::new()), "key");
}

#[test]
fn content_type_row_only_for_body_methods() {
    let mut op = get_query_op();
    op.request_body = Some(Some(RequestBody {
        content: vec![
            ("application/json".to_string(), MediaType { schema: None }),
            ("text/plain".to_string(), MediaType { schema: None }),
        ],
    }));
    let spec = spec_with("https://api.example.com", op);
    let e = &spec.operations[0];
    let post = render_info_table("/query", "POST", &e.op, &spec, &[], "");
    assert!(post.contains("| **Request Content-Type** | `application/json`, `text/plain` |"), "{post}");
    let get = render_info_table("/query", "GET", &e.op, &spec, &[], "");
    assert!(!get.contains("Content-Type"), "{get}");
}
