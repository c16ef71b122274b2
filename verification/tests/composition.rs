use openapi2skill::model::{Components, ObjectSchema, Schema, SchemaType, SchemaTypeSet, Spec};
use openapi2skill::writer::schema::composition::merge_all_of;

fn typed(t: SchemaType) -> ObjectSchema {
    let mut o = ObjectSchema::new();
    o.schema_type = Some(SchemaTypeSet::Single(t));
    o
}

fn inline(o: ObjectSchema) -> Schema {
    Schema::Object(Box::new(o))
}

fn reference(name: &str) -> Schema {
    Schema::Ref(format!("#/components/schemas/{name}"))
}

fn object_with(props: Vec<(&str, Schema)>, required: Vec<&str>) -> ObjectSchema {
    let mut o = typed(SchemaType::Object);
    o.properties = props.into_iter().map(|(k, v)| (k.to_string(), v)).collect();
    o.required = required.into_iter().map(|r| r.to_string()).collect();
    o
}

fn copy_object(o: &ObjectSchema) -> ObjectSchema {
    let mut c = ObjectSchema::new();
    c.schema_type = match &o.schema_type {
        Some(SchemaTypeSet::Single(t)) => Some(SchemaTypeSet::Single(*t)),
        Some(SchemaTypeSet::Multiple(ts)) => Some(SchemaTypeSet::Multiple(ts.clone())),
        None => None,
    };
    c.description = o.description.clone();
    c.required = o.required.clone();
    c.properties = o.properties.iter().map(|(k, v)| (k.clone(), copy_schema(v))).collect();
    c.all_of = o.all_of.iter().map(copy_schema).collect();
    c
}

fn copy_schema(s: &Schema) -> Schema {
    match s {
        Schema::Boolean(b) => Schema::Boolean(*b),
        Schema::Ref(p) => Schema::Ref(p.clone()),
        Schema::Object(o) => Schema::Object(Box::new(copy_object(o))),
    }
}

/// A document whose component schemas are `schemas`, with every `$ref` to them resolved.
fn spec_with_schemas(schemas: Vec<(&str, ObjectSchema)>) -> Spec {
    let mut spec = Spec::new("Test API".to_string(), "1.0.0".to_string());
    let mut components = Components { schemas: Vec::new(), security_schemes: Vec::new(), links: Vec::new() };
    for (name, o) in schemas {
        spec.schema_refs.push((format!("#/components/schemas/{name}"), Some(inline(copy_object(&o)))));
        components.schemas.push((name.to_string(), inline(o)));
    }
    spec.components = Some(components);
    spec
}

fn has(merged: &openapi2skill::writer::schema::composition::Merged, name: &str) -> bool {
    merged.property(name).is_some()
}

#[test]
fn passthrough_when_no_all_of() {
    let spec = spec_with_schemas(vec![]);
    let obj = object_with(vec![("name", inline(typed(SchemaType::String)))], vec!["name"]);
    let merged = merge_all_of(&obj, &spec);
    assert!(has(&merged, "name"));
    assert_eq!(merged.required_names(), vec!["name".to_string()]);
}

#[test]
fn merges_properties_from_inline_all_of() {
    let spec = spec_with_schemas(vec![]);
    let mut obj = typed(SchemaType::Object);
    obj.all_of.push(inline(object_with(vec![("a", inline(typed(SchemaType::String)))], vec!["a"])));
    obj.all_of.push(inline(object_with(vec![("b", inline(typed(SchemaType::Integer)))], vec![])));
    let merged = merge_all_of(&obj, &spec);
    assert!(has(&merged, "a"));
    assert!(has(&merged, "b"));
    assert_eq!(merged.required_names(), vec!["a".to_string()]);
}

#[test]
fn merges_properties_from_referenced_all_of() {
    let base = object_with(vec![("name", inline(typed(SchemaType::String)))], vec!["name"]);
    let spec = spec_with_schemas(vec![("Base", base)]);
    let mut obj = typed(SchemaType::Object);
    obj.all_of.push(reference("Base"));
    obj.all_of.push(inline(object_with(vec![("kind", inline(typed(SchemaType::String)))], vec![])));
    let merged = merge_all_of(&obj, &spec);
    assert!(has(&merged, "name"));
    assert!(has(&merged, "kind"));
    assert!(merged.required_names().contains(&"name".to_string()));
}

#[test]
fn outer_properties_take_precedence() {
    let spec = spec_with_schemas(vec![]);
    let mut outer_x = typed(SchemaType::String);
    outer_x.description = Some("outer".to_string());
    let mut inner_x = typed(SchemaType::Integer);
    inner_x.description = Some("inner".to_string());
    let mut obj = object_with(vec![("x", inline(outer_x))], vec![]);
    obj.all_of.push(inline(object_with(vec![("x", inline(inner_x))], vec![])));
    let merged = merge_all_of(&obj, &spec);
    match merged.property("x") {
        Some(Schema::Object(o)) => assert_eq!(o.description.as_deref(), Some("outer")),
        _ => panic!("expected object schema"),
    }
}

#[test]
fn handles_cyclic_all_of_refs() {
    let mut looped = object_with(vec![("x", inline(typed(SchemaType::String)))], vec![]);
    looped.all_of.push(reference("Loop"));
    let spec = spec_with_schemas(vec![("Loop", looped)]);
    let obj = match &spec.components.as_ref().unwrap().schemas[0].1 {
        Schema::Object(o) => o,
        _ => panic!("expected inline object"),
    };
    let merged = merge_all_of(obj, &spec);
    assert!(has(&merged, "x"));
}

#[test]
fn type_is_taken_from_a_part_when_missing() {
    let spec = spec_with_schemas(vec![]);
    let mut obj = ObjectSchema::new();
    obj.all_of.push(inline(typed(SchemaType::Object)));
    obj.all_of.push(inline(typed(SchemaType::String)));
    let merged = merge_all_of(&obj, &spec);
    assert!(matches!(merged.schema_type, Some(SchemaTypeSet::Single(SchemaType::Object))));
}
