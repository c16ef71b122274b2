//! The parts of an OpenAPI 3.x document that the writers read, held as plain values.
//!
//! References that only the OpenAPI parser can follow (`$ref`s to parameters, request bodies,
//! responses and headers) arrive already followed: `None` stands for one that could not be
//! resolved. Schema `$ref`s stay references; their resolutions are listed in
//! [`Spec::schema_refs`].

use vstd::prelude::*;

verus! {

/// A JSON Schema primitive type name.
#[derive(Clone, Copy, Debug, PartialEq, Eq, Structural)]
pub enum SchemaType {
    Integer,
    Number,
    Boolean,
    String,
    Array,
    Object,
    Null,
}

/// A schema's `type`: one name, or a list of them (OpenAPI 3.1).
#[derive(Debug)]
pub enum SchemaTypeSet {
    Single(SchemaType),
    Multiple(Vec<SchemaType>),
}

/// The shape of a JSON value.
#[derive(Clone, Copy, Debug, PartialEq, Eq, Structural)]
pub enum JsonKind {
    Null,
    Bool,
    Number,
    String,
    Array,
    Object,
}

/// A JSON value as the writers read it: its shape, its compact JSON text, and, for a string,
/// its content.
#[derive(Debug)]
pub struct JsonLiteral {
    pub kind: JsonKind,
    pub text: String,
    pub string_value: Option<String>,
}

/// A schema: a boolean schema, a `$ref`, or an inline object schema.
#[derive(Debug)]
pub enum Schema {
    Boolean(bool),
    Ref(String),
    Object(Box<ObjectSchema>),
}

/// An inline schema object. Numbers are held as their JSON text.
#[derive(Debug)]
pub struct ObjectSchema {
    pub schema_type: Option<SchemaTypeSet>,
    pub format: Option<String>,
    pub description: Option<String>,
    pub properties: Vec<(String, Schema)>,
    pub required: Vec<String>,
    pub all_of: Vec<Schema>,
    pub items: Option<Box<Schema>>,
    pub enum_values: Vec<JsonLiteral>,
    pub example: Option<JsonLiteral>,
    pub default: Option<JsonLiteral>,
    pub minimum: Option<String>,
    pub maximum: Option<String>,
    pub exclusive_minimum: Option<String>,
    pub exclusive_maximum: Option<String>,
    pub min_length: Option<u64>,
    pub max_length: Option<u64>,
    pub pattern: Option<String>,
    pub min_items: Option<u64>,
    pub max_items: Option<u64>,
    pub extensions: Vec<(String, JsonLiteral)>,
}

/// Where a parameter is sent.
#[derive(Clone, Copy, Debug, PartialEq, Eq, Structural)]
pub enum ParameterIn {
    Path,
    Query,
    Header,
    Cookie,
}

#[derive(Debug)]
pub struct Parameter {
    pub name: String,
    pub location: ParameterIn,
    pub description: Option<String>,
    pub required: Option<bool>,
    pub schema: Option<Schema>,
}

#[derive(Debug)]
pub struct MediaType {
    pub schema: Option<Schema>,
}

#[derive(Debug)]
pub struct RequestBody {
    pub content: Vec<(String, MediaType)>,
}

#[derive(Debug)]
pub struct Header {
    pub description: Option<String>,
    pub schema: Option<Schema>,
}

/// A response link, by operation id or by operation reference.
#[derive(Debug)]
pub enum Link {
    Id { operation_id: String, parameters: Vec<(String, String)>, description: Option<String> },
    Ref { operation_ref: String, parameters: Vec<(String, String)>, description: Option<String> },
}

/// An inline link or a `$ref` to one.
#[derive(Debug)]
pub enum LinkOrRef {
    Object(Link),
    Ref(String),
}

#[derive(Debug)]
pub struct Response {
    pub description: Option<String>,
    pub headers: Vec<(String, Option<Header>)>,
    pub content: Vec<(String, MediaType)>,
    pub links: Vec<(String, LinkOrRef)>,
}

#[derive(Debug)]
pub struct ExternalDoc {
    pub url: String,
    pub description: Option<String>,
}

/// A security requirement: scheme names with their scopes.
#[derive(Debug)]
pub struct SecurityRequirement {
    pub schemes: Vec<(String, Vec<String>)>,
}

#[derive(Debug)]
pub struct Operation {
    pub tags: Vec<String>,
    pub summary: Option<String>,
    pub operation_id: Option<String>,
    pub external_docs: Option<ExternalDoc>,
    pub parameters: Vec<Option<Parameter>>,
    pub request_body: Option<Option<RequestBody>>,
    pub responses: Option<Vec<(String, Option<Response>)>>,
    pub deprecated: Option<bool>,
    pub security: Vec<SecurityRequirement>,
    pub extensions: Vec<(String, JsonLiteral)>,
}

/// One operation of the document, with its path and upper-case method name.
#[derive(Debug)]
pub struct OperationEntry {
    pub path: String,
    pub method: String,
    pub op: Operation,
}

#[derive(Debug)]
pub struct ImplicitFlow {
    pub authorization_url: String,
    pub scopes: Vec<(String, String)>,
}

#[derive(Debug)]
pub struct TokenFlow {
    pub token_url: String,
    pub scopes: Vec<(String, String)>,
}

#[derive(Debug)]
pub struct AuthorizationCodeFlow {
    pub authorization_url: String,
    pub token_url: String,
    pub scopes: Vec<(String, String)>,
}

#[derive(Debug)]
pub struct Flows {
    pub implicit: Option<ImplicitFlow>,
    pub password: Option<TokenFlow>,
    pub client_credentials: Option<TokenFlow>,
    pub authorization_code: Option<AuthorizationCodeFlow>,
}

#[derive(Debug)]
pub enum SecurityScheme {
    ApiKey { description: Option<String>, name: String, location: String },
    Http { description: Option<String>, scheme: String, bearer_format: Option<String> },
    OAuth2 { description: Option<String>, flows: Flows },
    OpenIdConnect { description: Option<String>, open_id_connect_url: String },
    MutualTls { description: Option<String> },
}

#[derive(Debug)]
pub struct Components {
    pub schemas: Vec<(String, Schema)>,
    /// `None` stands for a scheme given as a `$ref`.
    pub security_schemes: Vec<(String, Option<SecurityScheme>)>,
    pub links: Vec<(String, LinkOrRef)>,
}

#[derive(Debug)]
pub struct License {
    pub name: String,
    pub url: Option<String>,
}

#[derive(Debug)]
pub struct Info {
    pub title: String,
    pub description: Option<String>,
    pub version: String,
    pub license: Option<License>,
    pub terms_of_service: Option<String>,
}

#[derive(Debug)]
pub struct Server {
    pub url: String,
    pub description: Option<String>,
}

/// An OpenAPI document.
#[derive(Debug)]
pub struct Spec {
    pub info: Info,
    pub servers: Vec<Server>,
    pub operations: Vec<OperationEntry>,
    pub components: Option<Components>,
    pub security: Vec<SecurityRequirement>,
    pub external_docs: Option<ExternalDoc>,
    /// Each schema `$ref` path of the document with what it resolves to: a boolean or inline
    /// object schema, or `None` when it does not resolve.
    pub schema_refs: Vec<(String, Option<Schema>)>,
}

impl ObjectSchema {
    /// A schema object that states nothing.
    pub fn new() -> (o: ObjectSchema)
        ensures
            o.schema_type is None,
            o.format is None,
            o.description is None,
            o.properties@.len() == 0,
            o.required@.len() == 0,
            o.all_of@.len() == 0,
            o.items is None,
            o.enum_values@.len() == 0,
            o.example is None,
            o.default is None,
            o.minimum is None,
            o.maximum is None,
            o.exclusive_minimum is None,
            o.exclusive_maximum is None,
            o.min_length is None,
            o.max_length is None,
            o.pattern is None,
            o.min_items is None,
            o.max_items is None,
            o.extensions@.len() == 0,
    {
        ObjectSchema {
            schema_type: None,
            format: None,
            description: None,
            properties: Vec::new(),
            required: Vec::new(),
            all_of: Vec::new(),
            items: None,
            enum_values: Vec::new(),
            example: None,
            default: None,
            minimum: None,
            maximum: None,
            exclusive_minimum: None,
            exclusive_maximum: None,
            min_length: None,
            max_length: None,
            pattern: None,
            min_items: None,
            max_items: None,
            extensions: Vec::new(),
        }
    }
}

impl Operation {
    /// An operation that declares nothing: no parameter, body, response or requirement.
    pub fn new() -> (o: Operation)
        ensures
            o.tags@.len() == 0,
            o.summary is None,
            o.operation_id is None,
            o.external_docs is None,
            o.parameters@.len() == 0,
            o.request_body is None,
            o.responses is None,
            o.deprecated is None,
            o.security@.len() == 0,
            o.extensions@.len() == 0,
    {
        Operation {
            tags: Vec::new(),
            summary: None,
            operation_id: None,
            external_docs: None,
            parameters: Vec::new(),
            request_body: None,
            responses: None,
            deprecated: None,
            security: Vec::new(),
            extensions: Vec::new(),
        }
    }
}

impl Spec {
    /// A document with a title and a version and nothing else.
    pub fn new(title: String, version: String) -> (s: Spec)
        ensures
            s.info.title == title,
            s.info.version == version,
            s.info.description is None,
            s.info.license is None,
            s.info.terms_of_service is None,
            s.servers@.len() == 0,
            s.operations@.len() == 0,
            s.components is None,
            s.security@.len() == 0,
            s.external_docs is None,
            s.schema_refs@.len() == 0,
    {
        Spec {
            info: Info { title, description: None, version, license: None, terms_of_service: None },
            servers: Vec::new(),
            operations: Vec::new(),
            components: None,
            security: Vec::new(),
            external_docs: None,
            schema_refs: Vec::new(),
        }
    }
}

} // verus!
