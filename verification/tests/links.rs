use openapi2skill::model::{Components, Link, LinkOrRef, Spec};
use openapi2skill::writer::endpoint::links::render_response_links_table;

fn empty_spec() -> Spec {
    Spec::new("Test".to_string(), "1.0".to_string())
}

#[test]
fn empty_links_returns_empty_string() {
    let links: Vec<(String, LinkOrRef)> = Vec::new();
    assert_eq!(render_response_links_table(&links, &empty_spec()), "");
}

#[test]
fn link_id_with_params_and_description_renders_table_row() {
    let link = Link::Id {
        operation_id: "getUserByUsername".to_string(),
        parameters: vec![("username".to_string(), "$response.body#/username".to_string())],
        description: Some("Gets user address".to_string()),
    };
    let links = vec![("address".to_string(), LinkOrRef::Object(link))];
    let result = render_response_links_table(&links, &empty_spec());
    assert!(result.contains("### Links"));
    assert!(result.contains(
        "| `address` | `getUserByUsername` | username: $response.body#/username | Gets user address |"
    ));
}

#[test]
fn link_id_with_no_params_shows_dash() {
    let link = Link::Id { operation_id: "listRepos".to_string(), parameters: Vec::new(), description: None };
    let links = vec![("userRepositories".to_string(), LinkOrRef::Object(link))];
    let result = render_response_links_table(&links, &empty_spec());
    assert!(result.contains("| `userRepositories` | `listRepos` | - | - |"));
}

#[test]
fn link_ref_uses_operation_ref_in_operation_column() {
    let link = Link::Ref {
        operation_ref: "#/paths/~1users~1{username}/get".to_string(),
        parameters: vec![("username".to_string(), "$response.body#/username".to_string())],
        description: None,
    };
    let links = vec![("userRef".to_string(), LinkOrRef::Object(link))];
    let result = render_response_links_table(&links, &empty_spec());
    assert!(result.contains("| `userRef` | `#/paths/~1users~1{username}/get` |"));
}

#[test]
fn component_link_reference_is_resolved() {
    let mut spec = empty_spec();
    let target = Link::Id { operation_id: "getUser".to_string(), parameters: Vec::new(), description: None };
    spec.components = Some(Components {
        schemas: Vec::new(),
        security_schemes: Vec::new(),
        links: vec![("UserLink".to_string(), LinkOrRef::Object(target))],
    });
    let links = vec![
        ("user".to_string(), LinkOrRef::Ref("#/components/links/UserLink".to_string())),
        ("gone".to_string(), LinkOrRef::Ref("#/components/links/Missing".to_string())),
    ];
    let result = render_response_links_table(&links, &spec);
    assert!(result.contains("| `user` | `getUser` | - | - |"), "{result}");
    assert!(!result.contains("gone"), "{result}");
}
