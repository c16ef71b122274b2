use openapi2skill::cli::{normalize_server_url, CliConfig};

#[test]
fn normalize_keeps_https_scheme() {
    assert_eq!(
        normalize_server_url("https://api.example.com"),
        "https://api.example.com"
    );
}

#[test]
fn normalize_keeps_http_scheme() {
    assert_eq!(
        normalize_server_url("http://api.example.com"),
        "http://api.example.com"
    );
}

#[test]
fn normalize_prepends_https_when_no_scheme() {
    assert_eq!(
        normalize_server_url("api.example.com"),
        "https://api.example.com"
    );
}

#[test]
fn normalize_prepends_https_with_path() {
    assert_eq!(
        normalize_server_url("api.example.com/v1"),
        "https://api.example.com/v1"
    );
}

#[test]
fn normalize_keeps_other_schemes() {
    assert_eq!(normalize_server_url("ftp://files.example.com"), "ftp://files.example.com");
}

fn config(path_or_url: &str) -> CliConfig {
    CliConfig {
        path_or_url: path_or_url.to_string(),
        output_dir: None,
        verbose: false,
        force: false,
        server: Vec::new(),
    }
}

#[test]
fn command_string_bare_invocation() {
    let cfg = config("spec.json");
    assert_eq!(
        cfg.to_command_string("openapi2skill"),
        "openapi2skill spec.json"
    );
}

#[test]
fn command_string_includes_all_flags() {
    let mut cfg = config("spec.json");
    cfg.output_dir = Some("my_skill".to_string());
    cfg.verbose = true;
    cfg.force = true;
    cfg.server = vec!["https://a.example.com".to_string()];
    assert_eq!(
        cfg.to_command_string("openapi2skill"),
        "openapi2skill spec.json --output-dir my_skill --verbose --force --server https://a.example.com"
    );
}

#[test]
fn command_string_repeats_server_flag() {
    let mut cfg = config("spec.yml");
    cfg.server = vec!["a".to_string(), "b".to_string()];
    assert_eq!(cfg.to_command_string("o2s"), "o2s spec.yml --server a --server b");
}

#[test]
fn normalizing_twice_changes_nothing() {
    for url in ["api.example.com", "http://host:9090/api", "localhost:8080"] {
        let once = normalize_server_url(url);
        assert_eq!(normalize_server_url(&once), once);
    }
}

#[test]
fn normalize_prepends_https_when_scheme_text_appears_later() {
    assert_eq!(normalize_server_url("h.io/cb?u=http://x"), "https://h.io/cb?u=http://x");
}

#[test]
fn normalize_prepends_https_when_text_before_separator_is_no_scheme() {
    assert_eq!(normalize_server_url("1http://x"), "https://1http://x");
    assert_eq!(normalize_server_url("://x"), "https://://x");
}

#[test]
fn normalize_keeps_scheme_with_plus_dot_and_dash() {
    assert_eq!(normalize_server_url("git+ssh.v-2://host"), "git+ssh.v-2://host");
}
