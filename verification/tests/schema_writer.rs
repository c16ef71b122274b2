use openapi2skill::model::{Components, JsonKind, JsonLiteral, ObjectSchema, Schema, SchemaType, SchemaTypeSet, Spec};
use openapi2skill::writer::schema::writer::{render_schema_file, SchemaWriter};
use openapi2skill::writer::writes::Writes;

fn typed(t: SchemaType) -> ObjectSchema {
    let mut o = ObjectSchema::new();
    o.schema_type = Some(SchemaTypeSet::Single(t));
    o
}

#[test]
fn schema_file_has_title_description_extensions_and_jsonc() {
    let spec = Spec::new("T".to_string(), "1".to_string());
    let mut o = typed(SchemaType::String);
    o.description = Some("A pet's\nname ".to_string());
    o.extensions.push((
        "x-internal".to_string(),
        JsonLiteral { kind: JsonKind::Bool, text: "true".to_string(), string_value: None },
    ));
    let out = render_schema_file("PetName", &Schema::Object(Box::new(o)), &spec);
    assert_eq!(
        out,
        "# PetName\n\nA pet's name\n\n### Extensions\n\n| Extension | Value |\n|-----------|-------|\n| `x-internal` | `true` |\n\n```jsonc\n\"string\"  // string, A pet's\nname\n```\n"
    );
}

#[test]
fn schema_files_and_index_in_document_order() {
    let mut spec = Spec::new("T".to_string(), "1".to_string());
    spec.components = Some(Components {
        schemas: vec![
            ("PetOwner".to_string(), Schema::Object(Box::new(typed(SchemaType::Object)))),
            ("Tag".to_string(), Schema::Boolean(true)),
        ],
        security_schemes: Vec::new(),
        links: Vec::new(),
    });
    let mut writes = Writes::new();
    SchemaWriter.collect_writes(&spec, &mut writes);
    let files = writes.into_vec();
    let paths: Vec<String> = files.iter().map(|(p, _)| p.join("/")).collect();
    assert_eq!(paths, vec!["schemas/pet-owner.md", "schemas/tag.md", "schemas/index.md"]);
    assert_eq!(files[1].1, "# Tag\n\n```jsonc\ntrue\n```\n");
    assert_eq!(files[2].1, "- [PetOwner](./pet-owner.md)\n- [Tag](./tag.md)\n");
}

#[test]
fn no_schema_files_without_components() {
    let spec = Spec::new("T".to_string(), "1".to_string());
    let mut writes = Writes::new();
    SchemaWriter.collect_writes(&spec, &mut writes);
    assert!(writes.into_vec().is_empty());
}
