use openapi2skill::model::{ObjectSchema, Schema};
use openapi2skill::writer::refs::{ref_display_name, schema_doc_link, schema_ref_name};

fn inline_string() -> Schema {
    Schema::Object(Box::new(ObjectSchema {
        schema_type: Some(openapi2skill::model::SchemaTypeSet::Single(openapi2skill::model::SchemaType::String)),
        format: None,
        description: None,
        properties: Vec::new(),
        required: Vec::new(),
        all_of: Vec::new(),
        items: None,
        enum_values: Vec::new(),
        example: None,
        default: None,
        minimum: None,
        maximum: None,
        exclusive_minimum: None,
        exclusive_maximum: None,
        min_length: None,
        max_length: None,
        pattern: None,
        min_items: None,
        max_items: None,
        extensions: Vec::new(),
    }))
}

#[test]
fn ref_name_of_component_schema() {
    let s = Schema::Ref("#/components/schemas/Pet".to_string());
    assert_eq!(schema_ref_name(&s), Some("Pet".to_string()));
}

#[test]
fn ref_name_none_for_inline_schema() {
    assert_eq!(schema_ref_name(&inline_string()), None);
}

#[test]
fn ref_name_none_for_non_schema_ref() {
    let s = Schema::Ref("#/components/responses/NotFound".to_string());
    assert_eq!(schema_ref_name(&s), None);
}

#[test]
fn display_name_strips_known_prefix() {
    assert_eq!(ref_display_name("#/components/schemas/Pet"), "Pet");
}

#[test]
fn display_name_keeps_unknown_path() {
    assert_eq!(ref_display_name("./external.json#/Pet"), "./external.json#/Pet");
}

#[test]
fn doc_link_uses_kebab_filename() {
    assert_eq!(
        schema_doc_link("AddDataSourceCommand"),
        "../../schemas/add-data-source-command.md"
    );
}
