use openapi2skill::model::{Components, ObjectSchema, Operation, OperationEntry, Schema, SecurityScheme, Spec};
use openapi2skill::writer::pipeline::{output_dir_action, plan_skill, GenerationContext, OutputAction};

fn generation() -> GenerationContext {
    GenerationContext {
        source_url: None,
        manifest_raw: "{}".to_string(),
        manifest_extension: "json".to_string(),
        command: "openapi2skill spec.json".to_string(),
        token_env_var: None,
    }
}

#[test]
fn plan_names_the_skill_after_the_title() {
    let mut spec = Spec::new("Pet Store".to_string(), "1.0".to_string());
    let mut op = Operation::new();
    op.tags.push("pet".to_string());
    spec.operations.push(OperationEntry { path: "/pets".to_string(), method: "GET".to_string(), op });
    let plan = plan_skill(&spec, None, Vec::new(), generation());
    assert_eq!(plan.name, "api-pet-store");
    assert_eq!(plan.dir, "api-pet-store");
    let paths: Vec<String> = plan.writes.iter().map(|(p, _)| p.join("/")).collect();
    assert_eq!(
        paths,
        vec!["SKILL.md", "openapi.json", "endpoints/index.md", "endpoints/pet/index.md", "endpoints/pet/get-pets.md"]
    );
    assert!(plan.writes[0].1.starts_with("---\nname: api-pet-store\n"));
    assert_eq!(plan.writes[1].1, "{}");
}

#[test]
fn plan_uses_the_output_directory() {
    let spec = Spec::new("Pet Store".to_string(), "1.0".to_string());
    let plan = plan_skill(&spec, Some("out/my_skill"), Vec::new(), generation());
    assert_eq!(plan.name, "my_skill");
    assert_eq!(plan.dir, "out/my_skill");
}

#[test]
fn skill_links_exactly_the_written_indexes() {
    let mut spec = Spec::new("Pet Store".to_string(), "1.0".to_string());
    let plan = plan_skill(&spec, None, Vec::new(), generation());
    assert!(!plan.writes[0].1.contains("authentication/index.md"));
    assert!(!plan.writes[0].1.contains("schemas/index.md"));
    assert!(!plan.writes.iter().any(|(p, _)| p[0] == "authentication" || p[0] == "schemas"));
    spec.components = Some(Components {
        schemas: vec![("Pet".to_string(), Schema::Object(Box::new(ObjectSchema::new())))],
        security_schemes: vec![(
            "key".to_string(),
            Some(SecurityScheme::ApiKey { description: None, name: "X-Key".to_string(), location: "header".to_string() }),
        )],
        links: Vec::new(),
    });
    let plan = plan_skill(&spec, None, Vec::new(), generation());
    assert!(plan.writes[0].1.contains("[authentication/index.md](./authentication/index.md)"));
    assert!(plan.writes[0].1.contains("[schemas/index.md](./schemas/index.md)"));
    assert!(plan.writes.iter().any(|(p, _)| p.join("/") == "authentication/index.md"));
    assert!(plan.writes.iter().any(|(p, _)| p.join("/") == "schemas/index.md"));
}

#[test]
fn output_dir_is_written_replaced_or_refused() {
    assert_eq!(output_dir_action(false, false), OutputAction::Write);
    assert_eq!(output_dir_action(false, true), OutputAction::Write);
    assert_eq!(output_dir_action(true, true), OutputAction::ReplaceExisting);
    assert_eq!(output_dir_action(true, false), OutputAction::RefuseExisting);
}
