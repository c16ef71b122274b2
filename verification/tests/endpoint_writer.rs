use openapi2skill::model::{Operation, OperationEntry, Response, Spec};
use openapi2skill::writer::endpoint::writer::{group_by_category, Endpoint, EndpointWriter};
use openapi2skill::writer::writes::Writes;

fn endpoint(summary: &str, deprecated: bool) -> Endpoint {
    Endpoint { filename: "get-pet.md".to_string(), summary: summary.to_string(), content: String::new(), deprecated }
}

#[test]
fn index_entry_plain() {
    assert_eq!(endpoint("Find a pet", false).index_entry(), "- [Find a pet](./get-pet.md)");
}

#[test]
fn index_entry_strikes_through_deprecated() {
    assert_eq!(endpoint("Find a pet", true).index_entry(), "- ~~[Find a pet](./get-pet.md)~~ *(deprecated)*");
}

#[test]
fn groups_are_sorted_and_keep_order() {
    let items = vec![
        ("store".to_string(), endpoint("a", false)),
        ("pet".to_string(), endpoint("b", false)),
        ("store".to_string(), endpoint("c", false)),
        ("admin".to_string(), endpoint("d", false)),
    ];
    let groups = group_by_category(items);
    let keys: Vec<&str> = groups.iter().map(|g| g.0.as_str()).collect();
    assert_eq!(keys, vec!["admin", "pet", "store"]);
    let store: Vec<&str> = groups[2].1.iter().map(|e| e.summary.as_str()).collect();
    assert_eq!(store, vec!["a", "c"]);
}

fn op(tags: &[&str], summary: Option<&str>) -> Operation {
    let mut op = Operation::new();
    op.tags = tags.iter().map(|t| t.to_string()).collect();
    op.summary = summary.map(|s| s.to_string());
    op.responses = Some(vec![(
        "200".to_string(),
        Some(Response { description: Some("OK".to_string()), headers: Vec::new(), content: Vec::new(), links: Vec::new() }),
    )]);
    op
}

#[test]
fn writes_one_file_per_operation_and_indexes() {
    let mut spec = Spec::new("Pets".to_string(), "1.0".to_string());
    spec.operations.push(OperationEntry { path: "/pets".to_string(), method: "GET".to_string(), op: op(&["pet"], Some("List pets")) });
    spec.operations.push(OperationEntry { path: "/orders".to_string(), method: "POST".to_string(), op: op(&[], None) });
    let writer = EndpointWriter { servers_override: Vec::new() };
    let mut writes = Writes::new();
    writer.collect_writes(&spec, &mut writes);
    let files = writes.into_vec();
    let paths: Vec<String> = files.iter().map(|(p, _)| p.join("/")).collect();
    assert_eq!(
        paths,
        vec![
            "endpoints/index.md",
            "endpoints/orders/index.md",
            "endpoints/orders/post-orders.md",
            "endpoints/pet/index.md",
            "endpoints/pet/get-pets.md",
        ]
    );
    assert_eq!(files[0].1, "- [Orders endpoints](./orders/index.md)\n- [Pet endpoints](./pet/index.md)\n");
    assert_eq!(files[1].1, "- [/orders](./post-orders.md)\n");
    assert_eq!(files[3].1, "- [List pets](./get-pets.md)\n");
}
