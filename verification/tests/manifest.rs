use openapi2skill::writer::manifest::ManifestWriter;
use openapi2skill::writer::writes::Writes;

#[test]
fn filename_uses_extension() {
    let writer = ManifestWriter { raw: String::new(), extension: "yml".to_string() };
    assert_eq!(writer.filename(), "openapi.yml");
}

#[test]
fn manifest_is_written_verbatim_at_the_top() {
    let writer = ManifestWriter { raw: "openapi: 3.1.0\n".to_string(), extension: "yaml".to_string() };
    let mut writes = Writes::new();
    writer.collect_writes(&mut writes);
    let files = writes.into_vec();
    assert_eq!(files.len(), 1);
    assert_eq!(files[0].0, vec!["openapi.yaml".to_string()]);
    assert_eq!(files[0].1, "openapi: 3.1.0\n");
}
