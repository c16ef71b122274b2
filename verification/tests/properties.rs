use openapi2skill::model::{Components, ObjectSchema, Schema, SchemaType, SchemaTypeSet, Spec};
use openapi2skill::writer::schema::render::render_schema_jsonc;

fn typed(t: SchemaType) -> ObjectSchema {
    let mut o = ObjectSchema::new();
    o.schema_type = Some(SchemaTypeSet::Single(t));
    o
}

fn inline(o: ObjectSchema) -> Schema {
    Schema::Object(Box::new(o))
}

fn object_with(props: Vec<(&str, Schema)>) -> ObjectSchema {
    let mut o = typed(SchemaType::Object);
    o.properties = props.into_iter().map(|(k, v)| (k.to_string(), v)).collect();
    o
}

/// A document whose component schemas are given, each given twice: as the component and as
/// the resolution of its `$ref`.
fn spec_with(schemas: Vec<(&str, ObjectSchema, ObjectSchema)>) -> Spec {
    let mut spec = Spec::new("Test API".to_string(), "1.0.0".to_string());
    let mut components = Components { schemas: Vec::new(), security_schemes: Vec::new(), links: Vec::new() };
    for (name, component, resolved) in schemas {
        spec.schema_refs.push((format!("#/components/schemas/{name}"), Some(inline(resolved))));
        components.schemas.push((name.to_string(), inline(component)));
    }
    spec.components = Some(components);
    spec
}

/// Renders a `Thing` schema with the properties that `props` builds.
fn render_thing(props: fn() -> Vec<(&'static str, Schema)>) -> String {
    let spec = spec_with(vec![("Thing", object_with(props()), object_with(props()))]);
    let schema = Schema::Ref("#/components/schemas/Thing".to_string());
    render_schema_jsonc(&schema, &spec, &Vec::new())
}

fn array_of(items: Option<Schema>) -> Schema {
    let mut o = typed(SchemaType::Array);
    o.items = items.map(Box::new);
    inline(o)
}

#[test]
fn undefined_array_item_ref_renders_named_placeholder() {
    let out = render_thing(|| {
        vec![("allocations", array_of(Some(Schema::Ref("#/components/schemas/AppFeeAllocation".to_string()))))]
    });
    assert!(out.contains("\"allocations\": [  // array of AppFeeAllocation, optional"), "missing array type label in:\n{out}");
    assert!(out.contains("{ /* AppFeeAllocation (not defined in this spec) */ }"), "missing named placeholder in:\n{out}");
    assert!(!out.contains("null"), "item should not render as null:\n{out}");
}

#[test]
fn undefined_property_ref_renders_named_placeholder() {
    let out = render_thing(|| vec![("buyer_currency_exchange", Schema::Ref("#/components/schemas/CurrencyExchange".to_string()))]);
    assert!(
        out.contains(
            "\"buyer_currency_exchange\": { /* CurrencyExchange (not defined in this spec) */ }  // unresolved ref, optional"
        ),
        "missing named placeholder in:\n{out}"
    );
}

#[test]
fn undefined_external_ref_keeps_full_path() {
    let out = render_thing(|| vec![("phone", Schema::Ref("https://example.com/common.json#Phone".to_string()))]);
    assert!(
        out.contains("{ /* https://example.com/common.json#Phone (not defined in this spec) */ }"),
        "external ref should keep its full path in:\n{out}"
    );
}

#[test]
fn array_without_items_still_renders_null() {
    let out = render_thing(|| vec![("allocations", array_of(None))]);
    assert!(out.contains("\"allocations\": [  // array of any, optional"), "missing array line in:\n{out}");
    assert!(out.contains("null"), "expected null item in:\n{out}");
}

#[test]
fn defined_ref_still_expands_inline() {
    let thing = || object_with(vec![("tag", Schema::Ref("#/components/schemas/Tag".to_string()))]);
    let tag = || object_with(vec![("name", inline(typed(SchemaType::String)))]);
    let spec = spec_with(vec![("Thing", thing(), thing()), ("Tag", tag(), tag())]);
    let schema = Schema::Ref("#/components/schemas/Thing".to_string());
    let out = render_schema_jsonc(&schema, &spec, &Vec::new());
    assert!(out.contains("\"name\": \"string\""), "resolvable ref should expand inline in:\n{out}");
    assert!(!out.contains("not defined in this spec"), "resolvable ref should not use the placeholder in:\n{out}");
}

#[test]
fn self_reference_is_linked_not_expanded() {
    let node = || object_with(vec![("next", Schema::Ref("#/components/schemas/Node".to_string()))]);
    let spec = spec_with(vec![("Node", node(), node())]);
    let schema = Schema::Ref("#/components/schemas/Node".to_string());
    let out = render_schema_jsonc(&schema, &spec, &Vec::new());
    assert_eq!(
        out,
        "{\n  \"next\": {\n    \"next\": { /* [Node](../../schemas/node.md) */ }  // object, optional\n  }\n}"
    );
}

#[test]
fn shared_schema_is_linked() {
    let thing = || object_with(vec![("tag", Schema::Ref("#/components/schemas/Tag".to_string()))]);
    let tag = || object_with(vec![("name", inline(typed(SchemaType::String)))]);
    let spec = spec_with(vec![("Thing", thing(), thing()), ("Tag", tag(), tag())]);
    let schema = Schema::Ref("#/components/schemas/Thing".to_string());
    let out = render_schema_jsonc(&schema, &spec, &vec!["Tag".to_string()]);
    assert_eq!(out, "{\n  \"tag\": { /* [Tag](../../schemas/tag.md) */ }  // object, optional\n}");
}

#[test]
fn top_level_shapes() {
    let spec = spec_with(vec![]);
    let mut s = typed(SchemaType::String);
    s.format = Some("uuid".to_string());
    assert_eq!(render_schema_jsonc(&inline(s), &spec, &Vec::new()), "\"string\"  // string, format: uuid");
    assert_eq!(render_schema_jsonc(&inline(typed(SchemaType::Object)), &spec, &Vec::new()), "{\n  // empty object\n}");
    assert_eq!(render_schema_jsonc(&Schema::Boolean(false), &spec, &Vec::new()), "false");
    assert_eq!(render_schema_jsonc(&Schema::Ref("#/components/schemas/Nope".to_string()), &spec, &Vec::new()), "{}");
    assert_eq!(
        render_schema_jsonc(&array_of(Some(inline(typed(SchemaType::Integer)))), &spec, &Vec::new()),
        "[\n  0\n]"
    );
}

#[test]
fn required_and_nested_objects() {
    let mut inner = object_with(vec![("id", inline(typed(SchemaType::Integer)))]);
    inner.required.push("id".to_string());
    let mut outer = object_with(vec![("inner", inline(inner)), ("ok", Schema::Boolean(true))]);
    outer.required.push("ok".to_string());
    let out = render_schema_jsonc(&inline(outer), &spec_with(vec![]), &Vec::new());
    assert_eq!(
        out,
        "{\n  \"inner\": {\n    \"id\": 0  // integer, required\n  },\n  \"ok\": true  // boolean, required\n}"
    );
}
