use openapi2skill::writer::writes::Writes;

#[test]
fn push_preserves_order() {
    let mut writes = Writes::default();
    writes.push(vec!["a.md".to_string()], "a".to_string());
    writes.push(vec!["b.md".to_string()], "b".to_string());
    let collected = writes.into_vec();
    assert_eq!(collected.len(), 2);
    assert_eq!(collected[0].0, vec!["a.md".to_string()]);
    assert_eq!(collected[1].0, vec!["b.md".to_string()]);
}

#[test]
fn default_is_empty() {
    assert!(Writes::default().into_vec().is_empty());
}
