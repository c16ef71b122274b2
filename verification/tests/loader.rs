use openapi2skill::json::Json;
use openapi2skill::loader::{
    content_format, detected_document, is_url, manifest_extension, path_extension, prepare_document, read_document,
    read_text, url_extension, ContentFormat, LoadError,
};

#[test]
fn is_url_http() {
    assert!(is_url("http://example.com/spec.json"));
}

#[test]
fn is_url_https() {
    assert!(is_url("https://example.com/spec.json"));
}

#[test]
fn is_url_rejects_local_path() {
    assert!(!is_url("tests/assets/petstore.json"));
}

#[test]
fn loader_url_extension_json() {
    assert_eq!(url_extension("https://example.com/spec.json"), "json");
}

#[test]
fn loader_url_extension_yaml() {
    assert_eq!(url_extension("https://example.com/api.yaml"), "yaml");
}

#[test]
fn loader_url_extension_strips_query_string() {
    assert_eq!(
        url_extension("https://example.com/spec.json?version=2"),
        "json"
    );
}

#[test]
fn loader_url_extension_empty_when_no_dot() {
    assert_eq!(url_extension("https://example.com/spec"), "");
}

#[test]
fn loader_url_extension_lowercases() {
    assert_eq!(url_extension("https://example.com/spec.JSON"), "json");
}

#[test]
fn fetcher_url_extension_json() {
    assert_eq!(url_extension("https://example.com/spec.json"), "json");
}

#[test]
fn fetcher_url_extension_yaml() {
    assert_eq!(url_extension("https://example.com/api.yaml"), "yaml");
}

#[test]
fn fetcher_url_extension_strips_query_string() {
    assert_eq!(
        url_extension("https://example.com/spec.json?version=2"),
        "json"
    );
}

#[test]
fn fetcher_url_extension_empty_when_no_dot() {
    assert_eq!(url_extension("https://example.com/spec"), "");
}

#[test]
fn fetcher_url_extension_lowercases() {
    assert_eq!(url_extension("https://example.com/spec.JSON"), "json");
}

#[test]
fn url_extension_ignores_dots_in_host() {
    assert_eq!(url_extension("https://api.example.com/openapi"), "");
}

#[test]
fn path_extension_json() {
    assert_eq!(path_extension("tests/assets/petstore.json"), "json");
}

#[test]
fn path_extension_lowercases() {
    assert_eq!(path_extension("spec.YAML"), "yaml");
}

#[test]
fn path_extension_empty_when_none() {
    assert_eq!(path_extension("spec"), "");
}

#[test]
fn path_extension_of_hidden_file_is_empty() {
    assert_eq!(path_extension("dir/.hidden"), "");
    assert_eq!(path_extension("dir/.hidden.yml"), "yml");
}

#[test]
fn manifest_extension_json_passthrough() {
    assert_eq!(manifest_extension("{}", "json"), "json");
}

#[test]
fn manifest_extension_normalizes_yaml_to_yml() {
    assert_eq!(manifest_extension("openapi: 3.0.0", "yaml"), "yml");
}

#[test]
fn manifest_extension_keeps_yml() {
    assert_eq!(manifest_extension("openapi: 3.0.0", "yml"), "yml");
}

#[test]
fn manifest_extension_detects_json_from_content_when_ext_unknown() {
    assert_eq!(manifest_extension(r#"{"openapi":"3.0.0"}"#, ""), "json");
}

#[test]
fn manifest_extension_falls_back_to_yml_when_ext_unknown_and_not_json() {
    assert_eq!(manifest_extension("openapi: 3.0.0", ""), "yml");
}

#[test]
fn content_format_by_extension() {
    assert_eq!(content_format("json"), ContentFormat::Json);
    assert_eq!(content_format("yaml"), ContentFormat::Yaml);
    assert_eq!(content_format("yml"), ContentFormat::Yaml);
    assert_eq!(content_format("txt"), ContentFormat::Detect);
}

fn s(v: &str) -> Json {
    Json::String(v.to_string())
}

fn obj(members: Vec<(&str, Json)>) -> Json {
    Json::Object(members.into_iter().map(|(k, v)| (k.to_string(), v)).collect())
}

#[test]
fn prepare_document_rejects_swagger_2() {
    let doc = obj(vec![("swagger", s("2.0")), ("info", obj(vec![])), ("paths", obj(vec![]))]);
    match prepare_document(&doc) {
        Err(LoadError::UnsupportedSwaggerVersion(v)) => assert_eq!(v, "2.0"),
        other => panic!("expected a swagger error, got {:?}", other),
    }
}

#[test]
fn prepare_document_sanitizes_openapi() {
    let doc = obj(vec![("openapi", s("3.0.0")), ("type", s("any"))]);
    match prepare_document(&doc) {
        Ok(Json::Object(m)) => {
            assert_eq!(m.len(), 1);
            assert_eq!(m[0].0, "openapi");
        },
        other => panic!("expected a document, got {:?}", other),
    }
}

#[test]
fn detected_document_prefers_json_then_yaml() {
    assert!(matches!(detected_document("txt", Some(1), Some(2)), Ok(1)));
    assert!(matches!(detected_document("txt", None, Some(2)), Ok(2)));
    match detected_document::<i32>("txt", None, None) {
        Err(LoadError::InvalidFormat(ext)) => assert_eq!(ext, "txt"),
        other => panic!("unexpected {:?}", other.is_ok()),
    }
}

fn member<'a>(v: &'a Json, key: &str) -> Option<&'a Json> {
    match v {
        Json::Object(m) => m.iter().find(|(k, _)| k == key).map(|(_, x)| x),
        _ => None,
    }
}

fn title_of(doc: &Json) -> Option<&Json> {
    member(doc, "info").and_then(|i| member(i, "title"))
}

#[test]
fn fetcher_parse_content_rejects_swagger_2() {
    let err = read_document(r#"{"swagger": "2.0", "info": {}, "paths": {}}"#, "json").unwrap_err();
    assert!(matches!(err, LoadError::UnsupportedSwaggerVersion(v) if v == "2.0"));
}

#[test]
fn loader_parse_content_rejects_swagger_2() {
    let err = read_document(r#"{"swagger": "2.0", "info": {}, "paths": {}}"#, "json").unwrap_err();
    assert!(matches!(err, LoadError::UnsupportedSwaggerVersion(v) if v == "2.0"));
}

#[test]
fn parse_content_reads_yaml() {
    let doc = read_document("openapi: 3.0.0\ninfo:\n  title: T\n  version: '1'\npaths: {}\n", "yaml").unwrap();
    assert_eq!(title_of(&doc), Some(&s("T")));
}

#[test]
fn parse_content_sniffs_unknown_extension() {
    let doc = read_document(r#"{"openapi":"3.0.0","info":{"title":"T","version":"1"},"paths":{}}"#, "").unwrap();
    assert_eq!(title_of(&doc), Some(&s("T")));
}

#[test]
fn parse_content_rejects_unparseable_unknown_extension() {
    let err = read_document("not json or yaml: [", "txt").unwrap_err();
    assert!(matches!(err, LoadError::InvalidFormat(ext) if ext == "txt"));
}

#[test]
fn read_document_reports_json_syntax_errors() {
    match read_document("{\"openapi\": ", "json") {
        Err(LoadError::JsonSyntax(msg)) => assert!(!msg.is_empty()),
        other => panic!("expected a JSON error, got {:?}", other),
    }
}

#[test]
fn read_document_reports_yaml_syntax_errors() {
    match read_document("a: [", "yml") {
        Err(LoadError::YamlSyntax(msg)) => assert!(!msg.is_empty()),
        other => panic!("expected a YAML error, got {:?}", other),
    }
}

#[test]
fn read_text_keeps_member_order_and_number_text() {
    let doc = read_text(r#"{"b": 1.5, "a": [true, null, "x"]}"#, "json").unwrap();
    assert_eq!(
        doc,
        obj(vec![("b", Json::Number("1.5".to_string())), ("a", Json::Array(vec![Json::Bool(true), Json::Null, s("x")]))])
    );
}

#[test]
fn read_text_sniffs_yaml_when_json_fails() {
    let doc = read_text("title: T\n", "").unwrap();
    assert_eq!(doc, obj(vec![("title", s("T"))]));
}

#[test]
fn read_document_sanitizes() {
    let doc = read_document(r#"{"openapi": "3.0.0", "type": "any"}"#, "json").unwrap();
    assert_eq!(doc, obj(vec![("openapi", s("3.0.0"))]));
}
