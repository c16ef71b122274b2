use std::hash::{Hash, Hasher};
use openapi2skill::model::Operation;
use openapi2skill::writer::naming::{
    camel_to_kebab, category_label, endpoint_filename, endpoint_filename_with_hash,
    infer_skill_name, op_category, path_to_slug, to_dashed_case, to_snake_case, MAX_FILENAME_LEN,
};

fn check_infer_skill_name_no_output_dir() {
    assert_eq!(infer_skill_name("My REST API aïé", None), "api-my-rest-api-aie");
}

fn check_infer_skill_name_with_output_dir() {
    assert_eq!(infer_skill_name("Swagger Petstore", Some("my-custom-dir")), "my-custom-dir");
}

fn check_infer_skill_name_output_dir_nested() {
    assert_eq!(infer_skill_name("Swagger Petstore", Some("/some/path/my-api")), "my-api");
}

fn check_to_dashed_case_simple() {
    assert_eq!(to_dashed_case("Swagger Petstore"), "swagger-petstore");
}

fn check_to_dashed_case_accents() {
    assert_eq!(to_dashed_case("aïé"), "aie");
}

fn check_to_dashed_case_mixed() {
    assert_eq!(to_dashed_case("My REST API aïé"), "my-rest-api-aie");
}

fn check_to_dashed_case_deduplicates_dashes() {
    assert_eq!(to_dashed_case("foo--bar"), "foo-bar");
}

fn check_snake_case_lowercases() {
    assert_eq!(to_snake_case("PetStore"), "petstore");
}

fn check_snake_case_replaces_spaces_with_underscore() {
    assert_eq!(to_snake_case("foo bar"), "foo_bar");
}

fn check_snake_case_deduplicates_underscores() {
    assert_eq!(to_snake_case("foo--bar"), "foo_bar");
}

fn check_snake_case_trims_leading_and_trailing() {
    assert_eq!(to_snake_case("-foo-"), "foo");
}

fn check_snake_case_empty_string() {
    assert_eq!(to_snake_case(""), "");
}

fn check_camel_to_kebab_pascal_case() {
    assert_eq!(camel_to_kebab("AddDataSourceCommand"), "add-data-source-command");
}

fn check_camel_to_kebab_already_lowercase_passthrough() {
    assert_eq!(camel_to_kebab("simple"), "simple");
}

fn check_camel_to_kebab_single_uppercase_char() {
    assert_eq!(camel_to_kebab("A"), "a");
}

fn check_camel_to_kebab_consecutive_uppercase() {
    assert_eq!(camel_to_kebab("MyDTO"), "my-d-t-o");
}

fn check_path_to_slug_basic() {
    assert_eq!(path_to_slug("/pet"), "pet");
}

fn check_path_to_slug_nested() {
    assert_eq!(path_to_slug("/pet/findByStatus"), "pet-find-by-status");
}

fn check_path_to_slug_with_path_param() {
    assert_eq!(path_to_slug("/pet/{petId}"), "pet-pet-id");
}

fn check_path_to_slug_root_is_empty() {
    assert_eq!(path_to_slug("/"), "");
}

fn check_category_label_single_word() {
    assert_eq!(category_label("pet"), "Pet endpoints");
}

fn check_category_label_underscore_becomes_space() {
    assert_eq!(category_label("admin_users"), "Admin users endpoints");
}

fn check_category_label_empty_slug() {
    assert_eq!(category_label(""), " endpoints");
}

#[test]
fn naming_infer_skill_name_no_output_dir() {
    check_infer_skill_name_no_output_dir();
}

#[test]
fn utils_infer_skill_name_no_output_dir() {
    check_infer_skill_name_no_output_dir();
}

#[test]
fn naming_infer_skill_name_with_output_dir() {
    check_infer_skill_name_with_output_dir();
}

#[test]
fn utils_infer_skill_name_with_output_dir() {
    check_infer_skill_name_with_output_dir();
}

#[test]
fn naming_infer_skill_name_output_dir_nested() {
    check_infer_skill_name_output_dir_nested();
}

#[test]
fn utils_infer_skill_name_output_dir_nested() {
    check_infer_skill_name_output_dir_nested();
}

#[test]
fn naming_to_dashed_case_simple() {
    check_to_dashed_case_simple();
}

#[test]
fn utils_to_dashed_case_simple() {
    check_to_dashed_case_simple();
}

#[test]
fn naming_to_dashed_case_accents() {
    check_to_dashed_case_accents();
}

#[test]
fn utils_to_dashed_case_accents() {
    check_to_dashed_case_accents();
}

#[test]
fn naming_to_dashed_case_mixed() {
    check_to_dashed_case_mixed();
}

#[test]
fn utils_to_dashed_case_mixed() {
    check_to_dashed_case_mixed();
}

#[test]
fn naming_to_dashed_case_deduplicates_dashes() {
    check_to_dashed_case_deduplicates_dashes();
}

#[test]
fn utils_to_dashed_case_deduplicates_dashes() {
    check_to_dashed_case_deduplicates_dashes();
}

#[test]
fn naming_snake_case_lowercases() {
    check_snake_case_lowercases();
}

#[test]
fn utils_snake_case_lowercases() {
    check_snake_case_lowercases();
}

#[test]
fn naming_snake_case_replaces_spaces_with_underscore() {
    check_snake_case_replaces_spaces_with_underscore();
}

#[test]
fn utils_snake_case_replaces_spaces_with_underscore() {
    check_snake_case_replaces_spaces_with_underscore();
}

#[test]
fn naming_snake_case_deduplicates_underscores() {
    check_snake_case_deduplicates_underscores();
}

#[test]
fn utils_snake_case_deduplicates_underscores() {
    check_snake_case_deduplicates_underscores();
}

#[test]
fn naming_snake_case_trims_leading_and_trailing() {
    check_snake_case_trims_leading_and_trailing();
}

#[test]
fn utils_snake_case_trims_leading_and_trailing() {
    check_snake_case_trims_leading_and_trailing();
}

#[test]
fn naming_snake_case_empty_string() {
    check_snake_case_empty_string();
}

#[test]
fn utils_snake_case_empty_string() {
    check_snake_case_empty_string();
}

#[test]
fn naming_camel_to_kebab_pascal_case() {
    check_camel_to_kebab_pascal_case();
}

#[test]
fn utils_camel_to_kebab_pascal_case() {
    check_camel_to_kebab_pascal_case();
}

#[test]
fn naming_camel_to_kebab_already_lowercase_passthrough() {
    check_camel_to_kebab_already_lowercase_passthrough();
}

#[test]
fn utils_camel_to_kebab_already_lowercase_passthrough() {
    check_camel_to_kebab_already_lowercase_passthrough();
}

#[test]
fn naming_camel_to_kebab_single_uppercase_char() {
    check_camel_to_kebab_single_uppercase_char();
}

#[test]
fn utils_camel_to_kebab_single_uppercase_char() {
    check_camel_to_kebab_single_uppercase_char();
}

#[test]
fn naming_camel_to_kebab_consecutive_uppercase() {
    check_camel_to_kebab_consecutive_uppercase();
}

#[test]
fn utils_camel_to_kebab_consecutive_uppercase() {
    check_camel_to_kebab_consecutive_uppercase();
}

#[test]
fn naming_path_to_slug_basic() {
    check_path_to_slug_basic();
}

#[test]
fn utils_path_to_slug_basic() {
    check_path_to_slug_basic();
}

#[test]
fn naming_path_to_slug_nested() {
    check_path_to_slug_nested();
}

#[test]
fn utils_path_to_slug_nested() {
    check_path_to_slug_nested();
}

#[test]
fn naming_path_to_slug_with_path_param() {
    check_path_to_slug_with_path_param();
}

#[test]
fn utils_path_to_slug_with_path_param() {
    check_path_to_slug_with_path_param();
}

#[test]
fn naming_path_to_slug_root_is_empty() {
    check_path_to_slug_root_is_empty();
}

#[test]
fn utils_path_to_slug_root_is_empty() {
    check_path_to_slug_root_is_empty();
}

#[test]
fn naming_category_label_single_word() {
    check_category_label_single_word();
}

#[test]
fn utils_category_label_single_word() {
    check_category_label_single_word();
}

#[test]
fn naming_category_label_underscore_becomes_space() {
    check_category_label_underscore_becomes_space();
}

#[test]
fn utils_category_label_underscore_becomes_space() {
    check_category_label_underscore_becomes_space();
}

#[test]
fn naming_category_label_empty_slug() {
    check_category_label_empty_slug();
}

#[test]
fn utils_category_label_empty_slug() {
    check_category_label_empty_slug();
}

#[test]
fn snake_case_keeps_non_ascii_alphanumerics() {
    assert_eq!(to_snake_case("café"), "café");
}

#[test]
fn endpoint_filename_lowercases_method() {
    assert_eq!(endpoint_filename("GET", "/pet/{petId}"), "get-pet-pet-id.md");
}

#[test]
fn endpoint_filename_truncates_and_hashes_long_paths() {
    let long_path = format!("/{}", "segment/".repeat(60));
    let filename = endpoint_filename("GET", &long_path);
    assert!(
        filename.len() <= MAX_FILENAME_LEN,
        "filename too long: {} chars",
        filename.len()
    );
    assert!(filename.starts_with("get-"));
    assert!(filename.ends_with(".md"));
}

#[test]
fn endpoint_filename_hash_disambiguates_distinct_long_paths() {
    let a = endpoint_filename("GET", &format!("/{}a", "segment/".repeat(60)));
    let b = endpoint_filename("GET", &format!("/{}b", "segment/".repeat(60)));
    assert_ne!(a, b);
}

#[test]
fn endpoint_filename_with_hash_formats_sixteen_hex_digits() {
    let long_path = format!("/{}", "segment/".repeat(60));
    let filename = endpoint_filename_with_hash("GET", &long_path, 0xab);
    assert!(filename.ends_with("-00000000000000ab.md"), "{filename}");
    assert_eq!(filename.len(), MAX_FILENAME_LEN);
}

fn operation(tags: &[&str]) -> Operation {
    Operation {
        tags: tags.iter().map(|t| t.to_string()).collect(),
        summary: None,
        operation_id: None,
        external_docs: None,
        parameters: Vec::new(),
        request_body: None,
        responses: None,
        deprecated: None,
        security: Vec::new(),
        extensions: Vec::new(),
    }
}

#[test]
fn op_category_prefers_first_tag() {
    let op = operation(&["Pet Store", "other"]);
    assert_eq!(op_category(&op, "/admin/users"), "pet_store");
}

#[test]
fn op_category_falls_back_to_first_path_segment() {
    let op = operation(&[]);
    assert_eq!(op_category(&op, "/admin/users"), "admin");
}

#[test]
fn op_category_skips_version_segment() {
    let op = operation(&[]);
    assert_eq!(op_category(&op, "/v1/admin/users"), "admin");
}

#[test]
fn op_category_keeps_segment_starting_with_v() {
    let op = operation(&[]);
    assert_eq!(op_category(&op, "/venues/list"), "venues");
}

#[test]
fn op_category_general_when_root_path_and_no_tags() {
    let op = operation(&[]);
    assert_eq!(op_category(&op, "/"), "general");
}

#[test]
fn op_category_general_when_only_version_segments() {
    let op = operation(&[]);
    assert_eq!(op_category(&op, "/v1/v2"), "general");
}

#[test]
fn endpoint_filename_hash_is_default_hasher_of_path() {
    let long_path = format!("/{}", "segment/".repeat(40));
    let mut hasher = std::collections::hash_map::DefaultHasher::new();
    long_path.as_str().hash(&mut hasher);
    let expected = format!("-{:016x}.md", hasher.finish());
    assert!(endpoint_filename("GET", &long_path).ends_with(&expected));
}

#[test]
fn dashed_case_is_plain_and_stable() {
    for s in ["  My--REST API: v2 ", "Ça va, Élodie?", "already-dashed-9", "---", ""] {
        let once = to_dashed_case(s);
        assert!(once.chars().all(|c| c.is_ascii_lowercase() || c.is_ascii_digit() || c == '-'));
        assert!(!once.starts_with('-') && !once.ends_with('-') && !once.contains("--"));
        assert_eq!(to_dashed_case(&once), once);
    }
}

#[test]
fn distinct_short_paths_can_share_a_file_name() {
    assert_eq!(endpoint_filename("GET", "/a-b"), endpoint_filename("GET", "/a/b"));
}
