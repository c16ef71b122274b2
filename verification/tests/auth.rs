use openapi2skill::model::{Components, Flows, SecurityScheme, Spec};
use openapi2skill::writer::auth::{render_scheme, AuthWriter};
use openapi2skill::writer::writes::Writes;

fn api_key_scheme() -> SecurityScheme {
    SecurityScheme::ApiKey { description: None, name: "X-API-Key".to_string(), location: "header".to_string() }
}

fn http_scheme(scheme: &str) -> SecurityScheme {
    SecurityScheme::Http { description: None, scheme: scheme.to_string(), bearer_format: None }
}

fn no_flows() -> Flows {
    Flows { implicit: None, password: None, client_credentials: None, authorization_code: None }
}

fn oauth2_scheme() -> SecurityScheme {
    SecurityScheme::OAuth2 { description: None, flows: no_flows() }
}

const NOTE: &str = "The api key, token or basic auth is stored under the environment variable $TOKEN_API.\nYou are not allowed to read the content of that variable, you must call it as $TOKEN_API\nIf the following commands shows the token is not set, ask the user to provide it:\n\n```bash\n[ -n \"${TOKEN_API:+x}\" ] && echo set || echo \"unset or empty\"\n```";

#[test]
fn api_key_renders_note_before_http_example() {
    let out = render_scheme("api_key", &api_key_scheme(), Some("TOKEN_API"));
    let note_at = out.find(NOTE).expect("note should be rendered");
    let example_at = out.find("```http").expect("http example should be rendered");
    assert!(note_at < example_at);
    assert!(out.contains("X-API-Key: $TOKEN_API"));
}

#[test]
fn api_key_without_env_var_keeps_default_placeholder() {
    let out = render_scheme("api_key", &api_key_scheme(), None);
    assert!(!out.contains("environment variable"));
    assert!(out.contains("X-API-Key: your-key-here"));
}

#[test]
fn basic_auth_renders_note_and_env_var_credential() {
    let out = render_scheme("basic", &http_scheme("basic"), Some("TOKEN_API"));
    assert!(out.contains(NOTE));
    assert!(out.contains("Authorization: Basic $TOKEN_API"));
}

#[test]
fn bearer_auth_renders_note_and_env_var_credential() {
    let out = render_scheme("bearer", &http_scheme("bearer"), Some("TOKEN_API"));
    assert!(out.contains(NOTE));
    assert!(out.contains("Authorization: Bearer $TOKEN_API"));
}

#[test]
fn oauth2_ignores_env_var() {
    let out = render_scheme("oauth", &oauth2_scheme(), Some("TOKEN_API"));
    assert!(!out.contains("environment variable"));
    assert!(out.contains("Authorization: Bearer <access_token>"));
}

#[test]
fn auth_files_skip_references_and_end_with_index() {
    let mut spec = Spec::new("Test".to_string(), "1".to_string());
    spec.components = Some(Components {
        schemas: Vec::new(),
        security_schemes: vec![
            ("Api Key".to_string(), Some(api_key_scheme())),
            ("shared".to_string(), None),
            ("bearer".to_string(), Some(http_scheme("bearer"))),
        ],
        links: Vec::new(),
    });
    let mut writes = Writes::new();
    AuthWriter { token_env_var: None }.collect_writes(&spec, &mut writes);
    let files = writes.into_vec();
    let paths: Vec<String> = files.iter().map(|(p, _)| p.join("/")).collect();
    assert_eq!(paths, vec!["authentication/api-key.md", "authentication/bearer.md", "authentication/index.md"]);
    assert_eq!(files[2].1, "- [Api Key](./api-key.md)\n- [bearer](./bearer.md)\n");
    assert!(files[1].1.contains("Authorization: Bearer <token>"));
}

#[test]
fn no_auth_files_without_schemes() {
    let spec = Spec::new("Test".to_string(), "1".to_string());
    let mut writes = Writes::new();
    AuthWriter { token_env_var: Some("T".to_string()) }.collect_writes(&spec, &mut writes);
    assert!(writes.into_vec().is_empty());
}
