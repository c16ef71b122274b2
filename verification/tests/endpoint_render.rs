use openapi2skill::model::{
    MediaType, ObjectSchema, Operation, OperationEntry, Parameter, ParameterIn, RequestBody, Response, Schema,
    SchemaType, SchemaTypeSet, Spec,
};
use openapi2skill::writer::endpoint::render::render_endpoint;

fn ok_response() -> Option<Vec<(String, Option<Response>)>> {
    Some(vec![(
        "200".to_string(),
        Some(Response { description: Some("OK".to_string()), headers: Vec::new(), content: Vec::new(), links: Vec::new() }),
    )])
}

fn render_first(deprecated: bool) -> String {
    let mut op = Operation::new();
    op.deprecated = Some(deprecated);
    op.responses = ok_response();
    let mut spec = Spec::new("Test API".to_string(), "1.0.0".to_string());
    spec.operations.push(OperationEntry { path: "/test".to_string(), method: "GET".to_string(), op });
    let e = &spec.operations[0];
    render_endpoint(&e.path, &e.method, &e.op, &spec, &Vec::new(), &[])
}

#[test]
fn non_deprecated_has_no_notice() {
    let out = render_first(false);
    assert!(!out.contains("Deprecated"), "should not contain Deprecated:\n{out}");
}

#[test]
fn deprecated_has_notice() {
    let out = render_first(true);
    assert!(out.contains("Deprecated"), "should contain Deprecated:\n{out}");
}

fn typed(t: SchemaType) -> ObjectSchema {
    let mut o = ObjectSchema::new();
    o.schema_type = Some(SchemaTypeSet::Single(t));
    o
}

#[test]
fn endpoint_with_parameters_body_and_shared_schema() {
    let mut pet = typed(SchemaType::Object);
    pet.properties.push(("name".to_string(), Schema::Object(Box::new(typed(SchemaType::String)))));
    let mut spec = Spec::new("Pets".to_string(), "1.0".to_string());
    spec.schema_refs.push(("#/components/schemas/Pet".to_string(), Some(Schema::Object(Box::new(pet)))));
    let mut op = Operation::new();
    op.parameters.push(Some(Parameter {
        name: "id".to_string(),
        location: ParameterIn::Path,
        description: None,
        required: Some(true),
        schema: Some(Schema::Object(Box::new(typed(SchemaType::Integer)))),
    }));
    op.parameters.push(Some(Parameter {
        name: "dry".to_string(),
        location: ParameterIn::Query,
        description: None,
        required: Some(true),
        schema: Some(Schema::Object(Box::new(typed(SchemaType::Boolean)))),
    }));
    op.parameters.push(None);
    op.request_body = Some(Some(RequestBody {
        content: vec![("application/json".to_string(), MediaType { schema: Some(Schema::Ref("#/components/schemas/Pet".to_string())) })],
    }));
    op.responses = ok_response();
    let shared = vec!["Pet".to_string()];
    let out = render_endpoint("/pets/{id}", "PUT", &op, &spec, &shared, &["https://api.test".to_string()]);
    assert!(out.starts_with("# PUT /pets/{id}\n\n"), "{out}");
    assert!(out.contains("| **Full URL** | `https://api.test/pets/{id}?dry=boolean` |"), "{out}");
    assert!(out.contains("## Input\n\n### Path Parameters"), "{out}");
    assert!(out.contains("| `id` | integer | Yes | - |"), "{out}");
    assert!(out.contains("| `dry` | boolean | Yes | - |"), "{out}");
    assert!(out.contains("### Payload\n\nSee [Pet](../../schemas/pet.md)\n\n"), "{out}");
    assert!(out.contains("## Response 200\n\nOK\n\n"), "{out}");
    let inline = render_endpoint("/pets/{id}", "PUT", &op, &spec, &Vec::new(), &[]);
    assert!(inline.contains("```jsonc\n{\n  \"name\": \"string\"  // string, optional\n}\n```"), "{inline}");
}
