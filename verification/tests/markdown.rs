use openapi2skill::writer::markdown::{build_index, desc_cell, desc_paragraph, normalize_desc, Table};

#[test]
fn table_header_separator_matches_header_width() {
    let table = Table::new(&["Extension", "Value"]);
    assert_eq!(table.finish(), "| Extension | Value |\n|-----------|-------|\n\n");
}

#[test]
fn table_renders_rows() {
    let mut table = Table::new(&["Header", "Value"]);
    table.row(&["`X-Key`", "Your API key"]);
    assert_eq!(
        table.finish(),
        "| Header | Value |\n|--------|-------|\n| `X-Key` | Your API key |\n\n"
    );
}

#[test]
fn table_unlabeled_uses_blank_header() {
    let mut table = Table::unlabeled(2);
    table.row(&["**Method**", "`GET`"]);
    assert_eq!(table.finish(), "| | |\n|--|--|\n| **Method** | `GET` |\n\n");
}

#[test]
fn table_accepts_owned_cells() {
    let mut table = Table::new(&["A"]);
    let cell = String::from("x");
    table.row(&[cell.as_str()]);
    assert!(table.finish().contains("| x |"));
}

fn check_normalize_desc_replaces_single_newline_with_space() {
    assert_eq!(normalize_desc("foo\nbar"), "foo bar");
}

fn check_normalize_desc_trims_trailing_newline() {
    assert_eq!(normalize_desc("foo\n"), "foo");
}

fn check_normalize_desc_trims_trailing_whitespace() {
    assert_eq!(normalize_desc("foo   "), "foo");
}

fn check_normalize_desc_double_newline_collapses_to_two_spaces() {
    assert_eq!(normalize_desc("foo\n\nbar"), "foo  bar");
}

fn check_normalize_desc_empty_string_stays_empty() {
    assert_eq!(normalize_desc(""), "");
}

fn check_normalize_desc_no_newlines_passthrough() {
    assert_eq!(normalize_desc("hello world"), "hello world");
}

fn check_build_index_produces_bullet_list() {
    let links = vec![
        ("pet.md".to_string(), "Pet".to_string()),
        ("tag.md".to_string(), "Tag".to_string()),
    ];
    assert_eq!(build_index(&links), "- [Pet](./pet.md)\n- [Tag](./tag.md)\n");
}

fn check_build_index_empty_is_just_newline() {
    assert_eq!(build_index(&[]), "\n");
}

#[test]
fn markdown_normalize_desc_replaces_single_newline_with_space() {
    check_normalize_desc_replaces_single_newline_with_space();
}

#[test]
fn utils_normalize_desc_replaces_single_newline_with_space() {
    check_normalize_desc_replaces_single_newline_with_space();
}

#[test]
fn markdown_normalize_desc_trims_trailing_newline() {
    check_normalize_desc_trims_trailing_newline();
}

#[test]
fn utils_normalize_desc_trims_trailing_newline() {
    check_normalize_desc_trims_trailing_newline();
}

#[test]
fn markdown_normalize_desc_trims_trailing_whitespace() {
    check_normalize_desc_trims_trailing_whitespace();
}

#[test]
fn utils_normalize_desc_trims_trailing_whitespace() {
    check_normalize_desc_trims_trailing_whitespace();
}

#[test]
fn markdown_normalize_desc_double_newline_collapses_to_two_spaces() {
    check_normalize_desc_double_newline_collapses_to_two_spaces();
}

#[test]
fn utils_normalize_desc_double_newline_collapses_to_two_spaces() {
    check_normalize_desc_double_newline_collapses_to_two_spaces();
}

#[test]
fn markdown_normalize_desc_empty_string_stays_empty() {
    check_normalize_desc_empty_string_stays_empty();
}

#[test]
fn utils_normalize_desc_empty_string_stays_empty() {
    check_normalize_desc_empty_string_stays_empty();
}

#[test]
fn markdown_normalize_desc_no_newlines_passthrough() {
    check_normalize_desc_no_newlines_passthrough();
}

#[test]
fn utils_normalize_desc_no_newlines_passthrough() {
    check_normalize_desc_no_newlines_passthrough();
}

#[test]
fn markdown_build_index_produces_bullet_list() {
    check_build_index_produces_bullet_list();
}

#[test]
fn utils_build_index_produces_bullet_list() {
    check_build_index_produces_bullet_list();
}

#[test]
fn markdown_build_index_empty_is_just_newline() {
    check_build_index_empty_is_just_newline();
}

#[test]
fn utils_build_index_empty_is_just_newline() {
    check_build_index_empty_is_just_newline();
}

#[test]
fn desc_paragraph_appends_blank_line() {
    assert_eq!(desc_paragraph(Some("A pet")), "A pet\n\n");
}

#[test]
fn desc_paragraph_empty_when_none() {
    assert_eq!(desc_paragraph(None), "");
}

#[test]
fn desc_paragraph_empty_when_blank() {
    assert_eq!(desc_paragraph(Some("  \n ")), "");
}

#[test]
fn desc_paragraph_normalizes_newlines() {
    assert_eq!(desc_paragraph(Some("a\nb")), "a b\n\n");
}

#[test]
fn desc_cell_normalizes() {
    assert_eq!(desc_cell(Some("a\nb")), "a b");
}

#[test]
fn desc_cell_dash_when_none() {
    assert_eq!(desc_cell(None), "-");
}

#[test]
fn desc_cell_dash_when_blank() {
    assert_eq!(desc_cell(Some("   ")), "-");
}

#[test]
fn table_separator_is_at_least_two_dashes() {
    let table = Table::new(&[""]);
    assert_eq!(table.finish(), "|  |\n|--|\n\n");
}

#[test]
fn normalized_descriptions_hold_no_line_break() {
    for d in ["a\nb", "\n\nx\n", "line\r\nnext", "\n"] {
        assert!(!normalize_desc(d).contains('\n'));
        assert!(!desc_cell(Some(d)).contains('\n'));
    }
}
