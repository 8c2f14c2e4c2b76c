//! A Postman collection, as far as its description depends on it.

use vstd::prelude::*;

use crate::json::{Json, JsonView};
use crate::text::{same, words, words_of};

verus! {

/// A collection of requests.
#[derive(Debug, Default)]
pub struct Spec {
    pub info: Information,
    pub item: Vec<Items>,
    pub variable: Option<Vec<Variable>>,
    pub auth: Option<Auth>,
}

/// What a collection is called.
#[derive(Debug, Default)]
pub struct Information {
    pub name: String,
    pub description: Option<DescriptionUnion>,
}

/// A description, as plain text or with its format.
#[derive(Debug)]
pub enum DescriptionUnion {
    String(String),
    Description(Description),
}

/// A description with its format.
#[derive(Debug, Default)]
pub struct Description {
    pub content: Option<String>,
    pub description_type: Option<String>,
}

/// A named value.
#[derive(Debug, Default)]
pub struct Variable {
    pub key: Option<String>,
    pub value: Option<Json>,
    pub description: Option<DescriptionUnion>,
}

/// A request, or a folder of items.
#[derive(Debug, Default)]
pub struct Items {
    pub name: Option<String>,
    pub description: Option<DescriptionUnion>,
    pub item: Option<Vec<Items>>,
    pub request: Option<RequestUnion>,
    pub response: Option<Vec<Option<ResponseClass>>>,
    pub auth: Option<Auth>,
}

/// A request, as its address alone or in full.
#[derive(Debug)]
pub enum RequestUnion {
    RequestClass(RequestClass),
    String(String),
}

/// A request in full.
#[derive(Debug, Default)]
pub struct RequestClass {
    pub url: Option<Url>,
    pub method: Option<String>,
    pub auth: Option<Auth>,
    pub description: Option<DescriptionUnion>,
    pub header: Option<HeaderUnion>,
    pub body: Option<Body>,
}

/// An address, as plain text or in parts.
#[derive(Debug)]
pub enum Url {
    String(String),
    UrlClass(UrlClass),
}

/// An address in parts.
#[derive(Debug, Default)]
pub struct UrlClass {
    pub protocol: Option<String>,
    pub host: Option<Host>,
    pub path: Option<UrlPath>,
    pub query: Option<Vec<QueryParam>>,
    pub variable: Option<Vec<Variable>>,
}

/// A host, as plain text or in parts.
#[derive(Debug)]
pub enum Host {
    String(String),
    StringArray(Vec<String>),
}

/// A path, as plain text or in segments.
#[derive(Debug)]
pub enum UrlPath {
    String(String),
    UnionArray(Vec<PathElement>),
}

/// A segment of a path.
#[derive(Debug)]
pub enum PathElement {
    PathClass(PathClass),
    String(String),
}

/// A segment of a path with its type.
#[derive(Debug, Default)]
pub struct PathClass {
    pub path_type: Option<String>,
    pub value: Option<String>,
}

/// A parameter in the query of an address.
#[derive(Debug, Default)]
pub struct QueryParam {
    pub key: Option<String>,
    pub value: Option<String>,
    pub description: Option<DescriptionUnion>,
}

/// The headers of a request, as plain text or one by one.
#[derive(Debug)]
pub enum HeaderUnion {
    HeaderArray(Vec<Header>),
    String(String),
}

/// A header.
#[derive(Debug, Default)]
pub struct Header {
    pub key: String,
    pub value: String,
    pub description: Option<DescriptionUnion>,
}

/// The headers of a response, as plain text or one by one.
#[derive(Debug)]
pub enum Headers {
    String(String),
    UnionArray(Vec<HeaderElement>),
}

/// A header of a response, as plain text or in parts.
#[derive(Debug)]
pub enum HeaderElement {
    Header(Header),
    String(String),
}

/// The body of a request.
#[derive(Debug, Default)]
pub struct Body {
    pub mode: Option<Mode>,
    pub raw: Option<String>,
    pub urlencoded: Option<Vec<UrlEncodedParameter>>,
    pub formdata: Option<Vec<FormParameter>>,
    pub graphql: Option<GraphQlBody>,
    pub options: Option<BodyOptions>,
}

/// How a body is given.
#[derive(Debug, Clone, Copy, PartialEq, Eq)]
pub enum Mode {
    File,
    Formdata,
    GraphQl,
    Raw,
    Urlencoded,
}

/// What is known of a body by its mode.
#[derive(Debug, Default)]
pub struct BodyOptions {
    pub raw: Option<RawOptions>,
}

/// What is known of a raw body.
#[derive(Debug, Default)]
pub struct RawOptions {
    pub language: Option<String>,
}

/// A field of a form in an address-like encoding.
#[derive(Debug, Default)]
pub struct UrlEncodedParameter {
    pub key: String,
    pub value: Option<String>,
}

/// A field of a form in parts.
#[derive(Debug, Default)]
pub struct FormParameter {
    pub key: String,
    pub value: Option<String>,
    pub form_parameter_type: Option<String>,
    pub description: Option<DescriptionUnion>,
}

/// A GraphQL body, as plain text or in parts.
#[derive(Debug)]
pub enum GraphQlBody {
    String(String),
    GraphQlBodyClass(GraphQlBodyClass),
}

/// A GraphQL body in parts.
#[derive(Debug, Default)]
pub struct GraphQlBodyClass {
    pub query: Option<String>,
    pub variables: Option<String>,
}

/// A response that was saved with a request.
#[derive(Debug, Default)]
pub struct ResponseClass {
    pub name: Option<String>,
    pub status: Option<String>,
    pub code: Option<i64>,
    pub header: Option<Headers>,
    pub body: Option<String>,
    pub original_request: Option<RequestClass>,
}

/// How requests are authorized.
#[derive(Debug)]
pub struct Auth {
    pub auth_type: AuthType,
    pub apikey: Option<ApiKey>,
    pub oauth2: Option<Oauth2>,
}

/// The ways in which requests can be authorized.
#[derive(Debug, Clone, Copy, PartialEq, Eq)]
pub enum AuthType {
    Apikey,
    Awsv4,
    Basic,
    Bearer,
    Digest,
    Hawk,
    Jwt,
    Noauth,
    Ntlm,
    Oauth1,
    Oauth2,
}

/// A key that a request carries.
#[derive(Debug)]
pub struct ApiKey {
    pub key: Option<String>,
    pub location: ApiKeyLocation,
}

/// Where a request carries its key.
#[derive(Debug, Clone, Copy, PartialEq, Eq)]
pub enum ApiKeyLocation {
    Header,
    Query,
}

/// How tokens of OAuth 2 are had.
#[derive(Debug)]
pub struct Oauth2 {
    pub grant_type: Oauth2GrantType,
    pub access_token_url: Option<String>,
    pub auth_url: Option<String>,
    pub refresh_token_url: Option<String>,
    pub scope: Option<Vec<String>>,
}

/// The flows of OAuth 2.
#[derive(Debug, Clone, Copy, PartialEq, Eq)]
pub enum Oauth2GrantType {
    AuthorizationCode,
    AuthorizationCodeWithPkce,
    ClientCredentials,
    Implicit,
    PasswordCredentials,
}

/// The text of a description.
pub open spec fn description_text(description: Option<DescriptionUnion>) -> Option<Seq<char>> {
    match description {
        Some(DescriptionUnion::String(s)) => Some(s@),
        Some(DescriptionUnion::Description(d)) => d.content.deep_view(),
        None => None,
    }
}

/// The text of a description.
pub fn extract_description(description: &Option<DescriptionUnion>) -> (r: Option<String>)
    ensures
        r.deep_view() == description_text(*description),
{
    match description {
        Some(DescriptionUnion::String(s)) => Some(s.clone()),
        Some(DescriptionUnion::Description(d)) => match &d.content {
            Some(s) => Some(s.clone()),
            None => None,
        },
        None => None,
    }
}

/// One thing that is known of an authorization.
#[derive(Debug)]
pub struct Attribute {
    pub key: String,
    pub value: Option<Json>,
}

/// The text that the first of the attributes from `i` on with the key has.
pub open spec fn attribute_from(attributes: Seq<Attribute>, key: Seq<char>, i: int) -> Option<
    Seq<char>,
>
    decreases attributes.len() - i,
{
    if i >= attributes.len() {
        None
    } else if attributes[i].key@ == key {
        match attributes[i].value.deep_view() {
            Some(JsonView::String(text)) => Some(text),
            _ => None,
        }
    } else {
        attribute_from(attributes, key, i + 1)
    }
}

/// The text of the attribute with the key.
pub fn find_attribute(attributes: &Vec<Attribute>, key: &str) -> (r: Option<String>)
    ensures
        r.deep_view() == attribute_from(attributes@, key@, 0),
{
    let mut i: usize = 0;
    while i < attributes.len()
        invariant
            i <= attributes.len(),
            attribute_from(attributes@, key@, 0) == attribute_from(attributes@, key@, i as int),
        decreases attributes.len() - i,
    {
        if same(attributes[i].key.as_str(), key) {
            return match &attributes[i].value {
                Some(Json::String(text)) => Some(text.clone()),
                _ => None,
            };
        }
        i = i + 1;
    }
    None
}

/// Where a request carries its key: in the query where the attribute says so,
/// and otherwise in a header.
pub open spec fn location_named(name: Option<Seq<char>>) -> ApiKeyLocation {
    if name == Some("query"@) {
        ApiKeyLocation::Query
    } else {
        ApiKeyLocation::Header
    }
}

/// The flow of that name. A flow without a name, or with one that is not
/// known, is that of the authorization code.
pub open spec fn grant_named(name: Option<Seq<char>>) -> Oauth2GrantType {
    if name == Some("authorization_code_with_pkce"@) {
        Oauth2GrantType::AuthorizationCodeWithPkce
    } else if name == Some("client_credentials"@) {
        Oauth2GrantType::ClientCredentials
    } else if name == Some("implicit"@) {
        Oauth2GrantType::Implicit
    } else if name == Some("password_credentials"@) {
        Oauth2GrantType::PasswordCredentials
    } else {
        Oauth2GrantType::AuthorizationCode
    }
}

/// Whether the text is there and is `name`.
fn is_named(text: &Option<String>, name: &str) -> (r: bool)
    ensures
        r == (text.deep_view() == Some(name@)),
{
    match text {
        Some(text) => same(text.as_str(), name),
        None => false,
    }
}

impl ApiKey {
    /// The key that the attributes `key` and `in` speak of.
    pub fn of_attributes(attributes: &Vec<Attribute>) -> (r: ApiKey)
        ensures
            r.key.deep_view() == attribute_from(attributes@, "key"@, 0),
            r.location == location_named(attribute_from(attributes@, "in"@, 0)),
    {
        ApiKey {
            key: find_attribute(attributes, "key"),
            location: if is_named(&find_attribute(attributes, "in"), "query") {
                ApiKeyLocation::Query
            } else {
                ApiKeyLocation::Header
            },
        }
    }
}

impl Oauth2 {
    /// How tokens are had, as the attributes say. The scopes are the words of
    /// the attribute `scope`.
    pub fn of_attributes(attributes: &Vec<Attribute>) -> (r: Oauth2)
        ensures
            r.grant_type == grant_named(attribute_from(attributes@, "grant_type"@, 0)),
            r.access_token_url.deep_view() == attribute_from(attributes@, "accessTokenUrl"@, 0),
            r.auth_url.deep_view() == attribute_from(attributes@, "authUrl"@, 0),
            r.refresh_token_url.deep_view() == attribute_from(attributes@, "refreshTokenUrl"@, 0),
            r.scope.deep_view() == match attribute_from(attributes@, "scope"@, 0) {
                Some(text) => Some(words_of(text)),
                None => None,
            },
    {
        let name: Option<String> = find_attribute(attributes, "grant_type");
        let grant_type: Oauth2GrantType = if is_named(&name, "authorization_code_with_pkce") {
            Oauth2GrantType::AuthorizationCodeWithPkce
        } else if is_named(&name, "client_credentials") {
            Oauth2GrantType::ClientCredentials
        } else if is_named(&name, "implicit") {
            Oauth2GrantType::Implicit
        } else if is_named(&name, "password_credentials") {
            Oauth2GrantType::PasswordCredentials
        } else {
            Oauth2GrantType::AuthorizationCode
        };
        Oauth2 {
            grant_type,
            access_token_url: find_attribute(attributes, "accessTokenUrl"),
            auth_url: find_attribute(attributes, "authUrl"),
            refresh_token_url: find_attribute(attributes, "refreshTokenUrl"),
            scope: match find_attribute(attributes, "scope") {
                Some(text) => Some(words(text.as_str())),
                None => None,
            },
        }
    }
}

} // verus!
