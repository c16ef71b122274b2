//! Where a document comes from and how its text is read.

use vstd::prelude::*;
use vstd::string::*;
use crate::json::{find_member, get_member, sanitize_invalid_types, sanitized, well_keyed, Json, JsonV};
use crate::text::{
    chars_of, find_first, find_last, first_index, has_prefix, last_index, lemma_first_index, lemma_last_index, slice_from, slice_to,
    starts_with, str_eq, str_to_lowercase, string_of, unicode_lower,
};
use crate::writer::naming::{file_name, path_file_name};

verus! {

pub open spec fn is_url_spec(link: Seq<char>) -> bool {
    has_prefix(link, "http://"@) || has_prefix(link, "https://"@)
}

/// Whether the source is fetched over HTTP(S) rather than read from disk.
pub fn is_url(link: &str) -> (b: bool)
    ensures
        b == is_url_spec(link@),
{
    starts_with(link, "http://") || starts_with(link, "https://")
}

/// `s` up to the first `c` (all of `s` when there is none).
pub open spec fn before_first(s: Seq<char>, c: char) -> Seq<char> {
    match first_index(s, c) {
        Some(i) => s.take(i),
        None => s,
    }
}

/// `s` after the last `c` (all of `s` when there is none).
pub open spec fn after_last(s: Seq<char>, c: char) -> Seq<char> {
    match last_index(s, c) {
        Some(i) => s.skip(i + 1),
        None => s,
    }
}

/// The lower-cased extension of the last path segment of a URL, query string left out; empty
/// when the segment has no `.`.
pub open spec fn url_extension_spec(url: Seq<char>) -> Seq<char> {
    let segment = after_last(before_first(url, '?'), '/');
    match last_index(segment, '.') {
        Some(p) => unicode_lower(segment.skip(p + 1)),
        None => seq![],
    }
}

/// The extension of a URL before lower-casing: what follows the last `.` of the last path
/// segment, query string left out.
pub open spec fn url_extension_raw(url: Seq<char>) -> Seq<char> {
    let segment = after_last(before_first(url, '?'), '/');
    match last_index(segment, '.') {
        Some(p) => segment.skip(p + 1),
        None => seq![],
    }
}

/// The extension of a URL is the lower-cased text after the last `.` of its last path
/// segment; that text holds no `.`, `/` or `?`, and neither does the extension when the text
/// is ASCII.
pub proof fn lemma_url_extension_plain(url: Seq<char>)
    ensures
        url_extension_raw(url).len() > 0 ==> url_extension_spec(url) == unicode_lower(url_extension_raw(url)),
        crate::text::all_ascii(url_extension_raw(url)) ==> forall|i: int| 0 <= i < url_extension_spec(url).len() ==> {
            let c = #[trigger] url_extension_spec(url)[i];
            c != '.' && c != '/' && c != '?'
        },
        forall|i: int| 0 <= i < url_extension_raw(url).len() ==> {
            let c = #[trigger] url_extension_raw(url)[i];
            c != '.' && c != '/' && c != '?'
        },
{
    let q = before_first(url, '?');
    lemma_first_index(url, '?');
    assert forall|k: int| 0 <= k < q.len() implies q[k] != '?' by {
        if let Some(i) = first_index(url, '?') {
            assert(q[k] == url[k]);
        }
    }
    let seg = after_last(q, '/');
    lemma_last_index(q, '/');
    assert forall|k: int| 0 <= k < seg.len() implies seg[k] != '/' && seg[k] != '?' by {
        if let Some(i) = last_index(q, '/') {
            assert(seg[k] == q[k + i + 1]);
        }
    }
    lemma_last_index(seg, '.');
    if let Some(p) = last_index(seg, '.') {
        let e = seg.skip(p + 1);
        assert forall|k: int| 0 <= k < e.len() implies e[k] != '.' && e[k] != '/' && e[k] != '?' by {
            assert(e[k] == seg[k + p + 1]);
        }
    }
}

pub fn url_extension(url: &str) -> (r: String)
    ensures
        r@ == url_extension_spec(url@),
{
    let v = chars_of(url);
    let without_query = match find_first(&v, '?') {
        Some(i) => vstd::slice::slice_to_vec(slice_to(&v, i)),
        None => v.clone(),
    };
    assert(without_query@ == before_first(url@, '?'));
    let segment = match find_last(&without_query, '/') {
        Some(i) => vstd::slice::slice_to_vec(slice_from(&without_query, i + 1)),
        None => without_query.clone(),
    };
    assert(segment@ == after_last(before_first(url@, '?'), '/'));
    match find_last(&segment, '.') {
        Some(p) => {
            let ext = string_of(slice_from(&segment, p + 1));
            str_to_lowercase(ext.as_str())
        },
        None => String::new(),
    }
}

/// The extension of a file name (`Path::extension`): the part after its last `.`, unless that
/// `.` is the first character.
pub open spec fn name_extension(name: Seq<char>) -> Option<Seq<char>> {
    match last_index(name, '.') {
        Some(p) => if p > 0 { Some(name.skip(p + 1)) } else { None },
        None => None,
    }
}

/// The lower-cased extension of a file path, empty when it has none.
pub open spec fn path_extension_spec(path: Seq<char>) -> Seq<char> {
    let ext = match path_file_name(path) {
        Some(name) => match name_extension(name) {
            Some(e) => e,
            None => seq![],
        },
        None => seq![],
    };
    unicode_lower(ext)
}

pub fn path_extension(path: &str) -> (r: String)
    ensures
        r@ == path_extension_spec(path@),
{
    let ext = match file_name(path) {
        Some(name) => {
            let v = chars_of(name.as_str());
            match find_last(&v, '.') {
                Some(p) => if p > 0 { string_of(slice_from(&v, p + 1)) } else { String::new() },
                None => String::new(),
            }
        },
        None => String::new(),
    };
    str_to_lowercase(ext.as_str())
}

#[verifier::external_type_specification]
#[verifier::external_body]
pub struct ExJsonValue(serde_json::Value);

/// What `serde_json` reads from `content` as a JSON value, in the library's terms: the value,
/// or the text of the error it reports.
pub uninterp spec fn json_text_reading(content: Seq<char>) -> Result<JsonV, Seq<char>>;

/// What `serde_yaml` reads from `content` as a JSON value, in the library's terms: the value,
/// or the text of the error it reports.
pub uninterp spec fn yaml_text_reading(content: Seq<char>) -> Result<JsonV, Seq<char>>;

pub open spec fn text_result_view(r: Result<Json, String>) -> Result<JsonV, Seq<char>> {
    match r {
        Ok(j) => Ok(j@),
        Err(e) => Err(e@),
    }
}

/// A `serde_json::Value` as the library's [`Json`], one for one: numbers keep their JSON text
/// and objects the order of their members. Nothing is stated of the result: the value is
/// opaque here, and the readers below name what they return.
#[verifier::external_body]
fn json_of_value(v: &serde_json::Value) -> Json {
    match v {
        serde_json::Value::Null => Json::Null,
        serde_json::Value::Bool(b) => Json::Bool(*b),
        serde_json::Value::Number(n) => Json::Number(n.to_string()),
        serde_json::Value::String(s) => Json::String(s.clone()),
        serde_json::Value::Array(items) => Json::Array(items.iter().map(json_of_value).collect()),
        serde_json::Value::Object(m) => Json::Object(m.iter().map(|(k, x)| (k.clone(), json_of_value(x))).collect()),
    }
}

/// Reads `content` with `serde_json::from_str::<serde_json::Value>`: the value as a [`Json`],
/// or the error's text. The outcome is named, not stated, but for one fact: the objects of a
/// `serde_json::Value` are maps, so no object of the result repeats a key.
#[verifier::external_body]
fn read_json_text(content: &str) -> (r: Result<Json, String>)
    ensures
        text_result_view(r) == json_text_reading(content@),
        r matches Ok(j) ==> well_keyed(j@),
{
    match serde_json::from_str::<serde_json::Value>(content) {
        Ok(v) => Ok(json_of_value(&v)),
        Err(e) => Err(e.to_string()),
    }
}

/// Reads `content` with `serde_yaml::from_str::<serde_json::Value>`: the value as a [`Json`],
/// or the error's text. The outcome is named, not stated, but for one fact: the objects of a
/// `serde_json::Value` are maps, so no object of the result repeats a key.
#[verifier::external_body]
fn read_yaml_text(content: &str) -> (r: Result<Json, String>)
    ensures
        text_result_view(r) == yaml_text_reading(content@),
        r matches Ok(j) ==> well_keyed(j@),
{
    match serde_yaml::from_str::<serde_json::Value>(content) {
        Ok(v) => Ok(json_of_value(&v)),
        Err(e) => Err(e.to_string()),
    }
}

/// The extension of the copy of the document written next to `SKILL.md`: `yml` for YAML
/// (`yaml` is normalized), `json` for JSON; an unknown extension is settled by whether the
/// content reads as JSON.
pub open spec fn manifest_extension_spec(content: Seq<char>, ext: Seq<char>) -> Seq<char> {
    if ext == "yaml"@ || ext == "yml"@ {
        "yml"@
    } else if ext == "json"@ {
        "json"@
    } else if json_text_reading(content) is Ok {
        "json"@
    } else {
        "yml"@
    }
}

pub fn manifest_extension(content: &str, ext: &str) -> (r: String)
    ensures
        r@ == manifest_extension_spec(content@, ext@),
{
    if str_eq(ext, "yaml") || str_eq(ext, "yml") {
        String::from_str("yml")
    } else if str_eq(ext, "json") {
        String::from_str("json")
    } else if read_json_text(content).is_ok() {
        String::from_str("json")
    } else {
        String::from_str("yml")
    }
}

/// How the text of a document is read.
#[derive(Clone, Copy, Debug, PartialEq, Eq, Structural)]
pub enum ContentFormat {
    Json,
    Yaml,
    /// Unknown extension: JSON is tried first, then YAML.
    Detect,
}

pub open spec fn content_format_spec(ext: Seq<char>) -> ContentFormat {
    if ext == "json"@ {
        ContentFormat::Json
    } else if ext == "yaml"@ || ext == "yml"@ {
        ContentFormat::Yaml
    } else {
        ContentFormat::Detect
    }
}

/// The reader for a source extension.
pub fn content_format(ext: &str) -> (r: ContentFormat)
    ensures
        r == content_format_spec(ext@),
{
    if str_eq(ext, "json") {
        ContentFormat::Json
    } else if str_eq(ext, "yaml") || str_eq(ext, "yml") {
        ContentFormat::Yaml
    } else {
        ContentFormat::Detect
    }
}

/// Why a document is refused.
#[derive(Debug)]
pub enum LoadError {
    /// The extension is unknown and the text reads as neither JSON nor YAML.
    InvalidFormat(String),
    /// A Swagger 2.0 (or older) document, by its `swagger` version.
    UnsupportedSwaggerVersion(String),
    /// A `.json` document that does not read as JSON, with the reader's error.
    JsonSyntax(String),
    /// A `.yaml` or `.yml` document that does not read as YAML, with the reader's error.
    YamlSyntax(String),
}

/// A [`LoadError`] as plain values.
pub enum LoadErrorV {
    InvalidFormat(Seq<char>),
    UnsupportedSwaggerVersion(Seq<char>),
    JsonSyntax(Seq<char>),
    YamlSyntax(Seq<char>),
}

pub open spec fn load_error_view(e: LoadError) -> LoadErrorV {
    match e {
        LoadError::InvalidFormat(x) => LoadErrorV::InvalidFormat(x@),
        LoadError::UnsupportedSwaggerVersion(x) => LoadErrorV::UnsupportedSwaggerVersion(x@),
        LoadError::JsonSyntax(x) => LoadErrorV::JsonSyntax(x@),
        LoadError::YamlSyntax(x) => LoadErrorV::YamlSyntax(x@),
    }
}

pub open spec fn load_result_view(r: Result<Json, LoadError>) -> Result<JsonV, LoadErrorV> {
    match r {
        Ok(j) => Ok(j@),
        Err(e) => Err(load_error_view(e)),
    }
}

/// The `swagger` version string of a document, when it has one.
pub open spec fn swagger_version_spec(doc: JsonV) -> Option<Seq<char>> {
    match doc {
        JsonV::Object(m) => match get_member(m, "swagger"@) {
            Some(JsonV::Str(v)) => Some(v),
            _ => None,
        },
        _ => None,
    }
}

pub fn swagger_version(doc: &Json) -> (r: Option<String>)
    ensures
        crate::writer::refs::opt_view(r) == swagger_version_spec(doc@),
{
    match doc {
        Json::Object(m) => match find_member(m, "swagger") {
            Some(Json::String(v)) => Some(v.clone()),
            _ => None,
        },
        _ => None,
    }
}

/// A read document, checked and cleaned: refused when it is Swagger, sanitized otherwise.
pub open spec fn prepared_document(doc: JsonV) -> Result<JsonV, Seq<char>> {
    match swagger_version_spec(doc) {
        Some(v) => Err(v),
        None => Ok(sanitized(doc, false)),
    }
}

/// Refuses Swagger documents and sanitizes the others, ready to be read as OpenAPI.
pub fn prepare_document(doc: &Json) -> (r: Result<Json, LoadError>)
    ensures
        match r {
            Ok(d) => prepared_document(doc@) == Ok::<JsonV, Seq<char>>(d@),
            Err(LoadError::UnsupportedSwaggerVersion(v)) => prepared_document(doc@) == Err::<JsonV, Seq<char>>(v@),
            Err(_) => false,
        },
{
    match swagger_version(doc) {
        Some(v) => Err(LoadError::UnsupportedSwaggerVersion(v)),
        None => Ok(sanitize_invalid_types(doc)),
    }
}

/// The document of an unknown extension: the JSON reading when the text parses as JSON, else
/// the YAML reading when it parses as YAML, else the refusal naming the extension.
pub fn detected_document<T>(ext: &str, json: Option<T>, yaml: Option<T>) -> (r: Result<T, LoadError>)
    ensures
        match json {
            Some(j) => r == Ok::<T, LoadError>(j),
            None => match yaml {
                Some(y) => r == Ok::<T, LoadError>(y),
                None => r matches Err(LoadError::InvalidFormat(e)) && e@ == ext@,
            },
        },
{
    match json {
        Some(j) => Ok(j),
        None => match yaml {
            Some(y) => Ok(y),
            None => Err(LoadError::InvalidFormat(String::from_str(ext))),
        },
    }
}

/// The document that the text of a source reads as: JSON for `json`, YAML for `yaml` and
/// `yml`, and for any other extension JSON if it reads so, else YAML, else a refusal naming
/// the extension.
pub open spec fn text_reading(content: Seq<char>, ext: Seq<char>) -> Result<JsonV, LoadErrorV> {
    match content_format_spec(ext) {
        ContentFormat::Json => match json_text_reading(content) {
            Ok(d) => Ok(d),
            Err(e) => Err(LoadErrorV::JsonSyntax(e)),
        },
        ContentFormat::Yaml => match yaml_text_reading(content) {
            Ok(d) => Ok(d),
            Err(e) => Err(LoadErrorV::YamlSyntax(e)),
        },
        ContentFormat::Detect => match json_text_reading(content) {
            Ok(d) => Ok(d),
            Err(_) => match yaml_text_reading(content) {
                Ok(d) => Ok(d),
                Err(_) => Err(LoadErrorV::InvalidFormat(ext)),
            },
        },
    }
}

/// The document of a source, read and prepared: a reading failure, a refused Swagger
/// version, or the sanitized document.
pub open spec fn document_reading(content: Seq<char>, ext: Seq<char>) -> Result<JsonV, LoadErrorV> {
    match text_reading(content, ext) {
        Ok(d) => match prepared_document(d) {
            Ok(p) => Ok(p),
            Err(v) => Err(LoadErrorV::UnsupportedSwaggerVersion(v)),
        },
        Err(e) => Err(e),
    }
}

/// Reads the text of a source by its extension.
pub fn read_text(content: &str, ext: &str) -> (r: Result<Json, LoadError>)
    ensures
        load_result_view(r) == text_reading(content@, ext@),
        r matches Ok(j) ==> well_keyed(j@),
{
    match content_format(ext) {
        ContentFormat::Json => match read_json_text(content) {
            Ok(d) => Ok(d),
            Err(e) => Err(LoadError::JsonSyntax(e)),
        },
        ContentFormat::Yaml => match read_yaml_text(content) {
            Ok(d) => Ok(d),
            Err(e) => Err(LoadError::YamlSyntax(e)),
        },
        ContentFormat::Detect => {
            let json = match read_json_text(content) {
                Ok(d) => Some(d),
                Err(_) => None,
            };
            let yaml = match json {
                Some(_) => None,
                None => match read_yaml_text(content) {
                    Ok(d) => Some(d),
                    Err(_) => None,
                },
            };
            detected_document(ext, json, yaml)
        },
    }
}

/// Reads the text of a source and prepares the document: Swagger documents are refused and
/// the others sanitized.
pub fn read_document(content: &str, ext: &str) -> (r: Result<Json, LoadError>)
    ensures
        load_result_view(r) == document_reading(content@, ext@),
{
    let doc = read_text(content, ext)?;
    prepare_document(&doc)
}

} // verus!
