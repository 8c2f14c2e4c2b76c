//! Version 3.0 of the standard.

use vstd::prelude::*;

use indexmap::IndexMap;

use crate::json::{Json, JsonView};
use crate::map::{key_at, key_from, StrMap};

verus! {

/// A thing, or the place in the description where it stands.
#[derive(Debug, PartialEq)]
pub enum ObjectOrReference<T> {
    Object(T),
    Ref { ref_path: String },
}

/// The view of `ObjectOrReference`.
#[verifier::ext_equal]
pub enum RefView<W> {
    Object(W),
    Ref { ref_path: Seq<char> },
}

impl<T: DeepView> DeepView for ObjectOrReference<T> {
    type V = RefView<T::V>;

    open spec fn deep_view(&self) -> RefView<T::V> {
        match *self {
            ObjectOrReference::Object(t) => RefView::Object(t.deep_view()),
            ObjectOrReference::Ref { ref_path } => RefView::Ref { ref_path: ref_path@ },
        }
    }
}

/// What values there can be.
#[derive(Debug, PartialEq)]
pub struct Schema {
    /// The name of their type.
    pub schema_type: Option<String>,
    /// How they are written.
    pub format: Option<String>,
    /// What they are for.
    pub description: Option<String>,
    /// The value where none is given.
    pub default: Option<Json>,
    /// One of the values.
    pub example: Option<Json>,
    /// All the values there are.
    pub enum_values: Option<Vec<String>>,
    /// Whether null is one of them.
    pub nullable: Option<bool>,
    /// The smallest value.
    pub minimum: Option<Json>,
    /// The largest value.
    pub maximum: Option<Json>,
    /// The properties that must be there.
    pub required: Option<Vec<String>>,
    /// The properties by name.
    pub properties: Option<StrMap<Schema>>,
    /// What the items of an array can be.
    pub items: Option<Box<Schema>>,
    /// The schemas of which a value meets one.
    pub any_of: Option<Vec<ObjectOrReference<Schema>>>,
}

/// The view of `Schema`.
#[verifier::ext_equal]
pub struct SchemaView {
    pub schema_type: Option<Seq<char>>,
    pub format: Option<Seq<char>>,
    pub description: Option<Seq<char>>,
    pub default: Option<JsonView>,
    pub example: Option<JsonView>,
    pub enum_values: Option<Seq<Seq<char>>>,
    pub nullable: Option<bool>,
    pub minimum: Option<JsonView>,
    pub maximum: Option<JsonView>,
    pub required: Option<Seq<Seq<char>>>,
    pub properties: Option<Seq<(Seq<char>, SchemaView)>>,
    pub items: Option<Box<SchemaView>>,
    pub any_of: Option<Seq<RefView<SchemaView>>>,
}

/// The view of a schema.
pub open spec fn schema_view(s: Schema) -> SchemaView
    decreases s,
{
    SchemaView {
        schema_type: s.schema_type.deep_view(),
        format: s.format.deep_view(),
        description: s.description.deep_view(),
        default: s.default.deep_view(),
        example: s.example.deep_view(),
        enum_values: s.enum_values.deep_view(),
        nullable: s.nullable,
        minimum: s.minimum.deep_view(),
        maximum: s.maximum.deep_view(),
        required: s.required.deep_view(),
        properties: match s.properties {
            Some(m) => Some(
                Seq::new(
                    m.entries@.len(),
                    |i: int|
                        if 0 <= i < m.entries@.len() {
                            (m.entries@[i].0@, schema_view(m.entries@[i].1))
                        } else {
                            arbitrary()
                        },
                ),
            ),
            None => None,
        },
        items: match s.items {
            Some(b) => Some(Box::new(schema_view(*b))),
            None => None,
        },
        any_of: match s.any_of {
            Some(v) => Some(
                Seq::new(
                    v@.len(),
                    |i: int|
                        if 0 <= i < v@.len() {
                            match v@[i] {
                                ObjectOrReference::Object(t) => RefView::Object(schema_view(t)),
                                ObjectOrReference::Ref { ref_path } => RefView::Ref {
                                    ref_path: ref_path@,
                                },
                            }
                        } else {
                            arbitrary()
                        },
                ),
            ),
            None => None,
        },
    }
}

impl DeepView for Schema {
    type V = SchemaView;

    open spec fn deep_view(&self) -> SchemaView {
        schema_view(*self)
    }
}

/// The view of a schema is made of the views of its parts.
pub broadcast proof fn lemma_schema_view(s: Schema)
    ensures
        (#[trigger] schema_view(s)).properties == s.properties.deep_view(),
        schema_view(s).any_of == s.any_of.deep_view(),
        s.items matches Some(b) ==> schema_view(s).items == Some(Box::new(b.deep_view())),
{
    if let Some(m) = s.properties {
        assert(schema_view(s).properties->0 =~= m.deep_view());
    }
    if let Some(v) = s.any_of {
        assert(schema_view(s).any_of->0 =~= v.deep_view());
    }
}

impl SchemaView {
    /// The view with nothing in it.
    pub open spec fn empty() -> SchemaView {
        SchemaView {
            schema_type: None,
            format: None,
            description: None,
            default: None,
            example: None,
            enum_values: None,
            nullable: None,
            minimum: None,
            maximum: None,
            required: None,
            properties: None,
            items: None,
            any_of: None,
        }
    }
}

impl Default for Schema {
    fn default() -> (r: Self)
        ensures
            r.deep_view() == SchemaView::empty(),
    {
        Schema {
            schema_type: None,
            format: None,
            description: None,
            default: None,
            example: None,
            enum_values: None,
            nullable: None,
            minimum: None,
            maximum: None,
            required: None,
            properties: None,
            items: None,
            any_of: None,
        }
    }
}

/// How a request shows that it may be made.
#[derive(Debug, PartialEq)]
pub enum SecurityScheme {
    Http { scheme: String, bearer_format: Option<String> },
    ApiKey { name: String, location: String },
    OAuth2 { flows: Box<Flows> },
}

/// The view of `SecurityScheme`.
#[verifier::ext_equal]
pub enum SecuritySchemeView {
    Http { scheme: Seq<char>, bearer_format: Option<Seq<char>> },
    ApiKey { name: Seq<char>, location: Seq<char> },
    OAuth2 { flows: FlowsView },
}

impl DeepView for SecurityScheme {
    type V = SecuritySchemeView;

    open spec fn deep_view(&self) -> SecuritySchemeView {
        match *self {
            SecurityScheme::Http { scheme, bearer_format } => SecuritySchemeView::Http {
                scheme: scheme@,
                bearer_format: bearer_format.deep_view(),
            },
            SecurityScheme::ApiKey { name, location } => SecuritySchemeView::ApiKey {
                name: name@,
                location: location@,
            },
            SecurityScheme::OAuth2 { flows } => SecuritySchemeView::OAuth2 {
                flows: flows.deep_view(),
            },
        }
    }
}

/// What a body looks like: one value, or examples by name.
#[derive(Debug, PartialEq)]
pub enum MediaTypeExample {
    Example { example: Json },
    Examples { examples: StrMap<ObjectOrReference<Example>> },
}

/// The view of `MediaTypeExample`.
#[verifier::ext_equal]
pub enum MediaTypeExampleView {
    Example { example: JsonView },
    Examples { examples: Seq<(Seq<char>, RefView<ExampleView>)> },
}

impl DeepView for MediaTypeExample {
    type V = MediaTypeExampleView;

    open spec fn deep_view(&self) -> MediaTypeExampleView {
        match *self {
            MediaTypeExample::Example { example } => MediaTypeExampleView::Example {
                example: example.deep_view(),
            },
            MediaTypeExample::Examples { examples } => MediaTypeExampleView::Examples {
                examples: examples.deep_view(),
            },
        }
    }
}

/// What an interface is called.
#[derive(Debug, PartialEq)]
pub struct Info {
    /// Its name.
    pub title: String,
    /// What it is for.
    pub description: Option<String>,
    /// Where its terms stand.
    pub terms_of_service: Option<String>,
    /// The version of its description.
    pub version: String,
}

/// The view of `Info`.
#[verifier::ext_equal]
pub struct InfoView {
    pub title: Seq<char>,
    pub description: Option<Seq<char>>,
    pub terms_of_service: Option<Seq<char>>,
    pub version: Seq<char>,
}

impl DeepView for Info {
    type V = InfoView;

    open spec fn deep_view(&self) -> InfoView {
        InfoView {
            title: self.title.deep_view(),
            description: self.description.deep_view(),
            terms_of_service: self.terms_of_service.deep_view(),
            version: self.version.deep_view(),
        }
    }
}

/// Where an interface is served.
#[derive(Debug, PartialEq)]
pub struct Server {
    /// The address.
    pub url: String,
    /// What the server is.
    pub description: Option<String>,
}

/// The view of `Server`.
#[verifier::ext_equal]
pub struct ServerView {
    pub url: Seq<char>,
    pub description: Option<Seq<char>>,
}

impl DeepView for Server {
    type V = ServerView;

    open spec fn deep_view(&self) -> ServerView {
        ServerView {
            url: self.url.deep_view(),
            description: self.description.deep_view(),
        }
    }
}

/// A scheme that a request has to follow, with its scopes; `None` asks for nothing.
#[derive(Debug, PartialEq)]
pub struct SecurityRequirement {
    /// The scopes by the name of the scheme.
    pub requirement: Option<StrMap<Vec<String>>>,
}

/// The view of `SecurityRequirement`.
#[verifier::ext_equal]
pub struct SecurityRequirementView {
    pub requirement: Option<Seq<(Seq<char>, Seq<Seq<char>>)>>,
}

impl DeepView for SecurityRequirement {
    type V = SecurityRequirementView;

    open spec fn deep_view(&self) -> SecurityRequirementView {
        SecurityRequirementView {
            requirement: self.requirement.deep_view(),
        }
    }
}

/// The implicit flow of OAuth 2.
#[derive(Debug, PartialEq)]
pub struct ImplicitFlow {
    /// Where to ask for authorization.
    pub authorization_url: String,
    /// Where to renew a token.
    pub refresh_url: Option<String>,
    /// What each scope is for.
    pub scopes: StrMap<String>,
}

/// The view of `ImplicitFlow`.
#[verifier::ext_equal]
pub struct ImplicitFlowView {
    pub authorization_url: Seq<char>,
    pub refresh_url: Option<Seq<char>>,
    pub scopes: Seq<(Seq<char>, Seq<char>)>,
}

impl DeepView for ImplicitFlow {
    type V = ImplicitFlowView;

    open spec fn deep_view(&self) -> ImplicitFlowView {
        ImplicitFlowView {
            authorization_url: self.authorization_url.deep_view(),
            refresh_url: self.refresh_url.deep_view(),
            scopes: self.scopes.deep_view(),
        }
    }
}

/// The password flow of OAuth 2.
#[derive(Debug, PartialEq)]
pub struct PasswordFlow {
    /// Where to get a token.
    pub token_url: String,
    /// Where to renew a token.
    pub refresh_url: Option<String>,
    /// What each scope is for.
    pub scopes: StrMap<String>,
}

/// The view of `PasswordFlow`.
#[verifier::ext_equal]
pub struct PasswordFlowView {
    pub token_url: Seq<char>,
    pub refresh_url: Option<Seq<char>>,
    pub scopes: Seq<(Seq<char>, Seq<char>)>,
}

impl DeepView for PasswordFlow {
    type V = PasswordFlowView;

    open spec fn deep_view(&self) -> PasswordFlowView {
        PasswordFlowView {
            token_url: self.token_url.deep_view(),
            refresh_url: self.refresh_url.deep_view(),
            scopes: self.scopes.deep_view(),
        }
    }
}

/// The client credentials flow of OAuth 2.
#[derive(Debug, PartialEq)]
pub struct ClientCredentialsFlow {
    /// Where to get a token.
    pub token_url: String,
    /// Where to renew a token.
    pub refresh_url: Option<String>,
    /// What each scope is for.
    pub scopes: StrMap<String>,
}

/// The view of `ClientCredentialsFlow`.
#[verifier::ext_equal]
pub struct ClientCredentialsFlowView {
    pub token_url: Seq<char>,
    pub refresh_url: Option<Seq<char>>,
    pub scopes: Seq<(Seq<char>, Seq<char>)>,
}

impl DeepView for ClientCredentialsFlow {
    type V = ClientCredentialsFlowView;

    open spec fn deep_view(&self) -> ClientCredentialsFlowView {
        ClientCredentialsFlowView {
            token_url: self.token_url.deep_view(),
            refresh_url: self.refresh_url.deep_view(),
            scopes: self.scopes.deep_view(),
        }
    }
}

/// The authorization code flow of OAuth 2.
#[derive(Debug, PartialEq)]
pub struct AuthorizationCodeFlow {
    /// Where to ask for authorization.
    pub authorization_url: String,
    /// Where to get a token.
    pub token_url: String,
    /// Where to renew a token.
    pub refresh_url: Option<String>,
    /// What each scope is for.
    pub scopes: StrMap<String>,
}

/// The view of `AuthorizationCodeFlow`.
#[verifier::ext_equal]
pub struct AuthorizationCodeFlowView {
    pub authorization_url: Seq<char>,
    pub token_url: Seq<char>,
    pub refresh_url: Option<Seq<char>>,
    pub scopes: Seq<(Seq<char>, Seq<char>)>,
}

impl DeepView for AuthorizationCodeFlow {
    type V = AuthorizationCodeFlowView;

    open spec fn deep_view(&self) -> AuthorizationCodeFlowView {
        AuthorizationCodeFlowView {
            authorization_url: self.authorization_url.deep_view(),
            token_url: self.token_url.deep_view(),
            refresh_url: self.refresh_url.deep_view(),
            scopes: self.scopes.deep_view(),
        }
    }
}

/// The flows of OAuth 2 that a scheme allows.
#[derive(Debug, PartialEq)]
pub struct Flows {
    pub implicit: Option<ImplicitFlow>,
    pub password: Option<PasswordFlow>,
    pub client_credentials: Option<ClientCredentialsFlow>,
    pub authorization_code: Option<AuthorizationCodeFlow>,
}

/// The view of `Flows`.
#[verifier::ext_equal]
pub struct FlowsView {
    pub implicit: Option<ImplicitFlowView>,
    pub password: Option<PasswordFlowView>,
    pub client_credentials: Option<ClientCredentialsFlowView>,
    pub authorization_code: Option<AuthorizationCodeFlowView>,
}

impl DeepView for Flows {
    type V = FlowsView;

    open spec fn deep_view(&self) -> FlowsView {
        FlowsView {
            implicit: self.implicit.deep_view(),
            password: self.password.deep_view(),
            client_credentials: self.client_credentials.deep_view(),
            authorization_code: self.authorization_code.deep_view(),
        }
    }
}

impl FlowsView {
    /// The view with nothing in it.
    pub open spec fn empty() -> FlowsView {
        FlowsView {
            implicit: None,
            password: None,
            client_credentials: None,
            authorization_code: None,
        }
    }
}

impl Default for Flows {
    fn default() -> (r: Self)
        ensures
            r.deep_view() == FlowsView::empty(),
    {
        let r: Flows = Flows {
            implicit: None,
            password: None,
            client_credentials: None,
            authorization_code: None,
        };
        assert(r.deep_view() =~= FlowsView::empty());
        r
    }
}

/// What a description shares among its parts.
#[derive(Debug, PartialEq)]
pub struct Components {
    /// The security schemes by name.
    pub security_schemes: Option<StrMap<ObjectOrReference<SecurityScheme>>>,
}

/// The view of `Components`.
#[verifier::ext_equal]
pub struct ComponentsView {
    pub security_schemes: Option<Seq<(Seq<char>, RefView<SecuritySchemeView>)>>,
}

impl DeepView for Components {
    type V = ComponentsView;

    open spec fn deep_view(&self) -> ComponentsView {
        ComponentsView {
            security_schemes: self.security_schemes.deep_view(),
        }
    }
}

impl ComponentsView {
    /// The view with nothing in it.
    pub open spec fn empty() -> ComponentsView {
        ComponentsView {
            security_schemes: None,
        }
    }
}

impl Default for Components {
    fn default() -> (r: Self)
        ensures
            r.deep_view() == ComponentsView::empty(),
    {
        let r: Components = Components {
            security_schemes: None,
        };
        assert(r.deep_view() =~= ComponentsView::empty());
        r
    }
}

/// A parameter of an operation or of a path.
#[derive(Debug, PartialEq)]
pub struct Parameter {
    /// Its name.
    pub name: String,
    /// Where it stands: `query`, `header` or `path`.
    pub location: String,
    /// What it is for.
    pub description: Option<String>,
    /// Whether it must be there.
    pub required: Option<bool>,
    /// What values it takes.
    pub schema: Option<Schema>,
}

/// The view of `Parameter`.
#[verifier::ext_equal]
pub struct ParameterView {
    pub name: Seq<char>,
    pub location: Seq<char>,
    pub description: Option<Seq<char>>,
    pub required: Option<bool>,
    pub schema: Option<SchemaView>,
}

impl DeepView for Parameter {
    type V = ParameterView;

    open spec fn deep_view(&self) -> ParameterView {
        ParameterView {
            name: self.name.deep_view(),
            location: self.location.deep_view(),
            description: self.description.deep_view(),
            required: self.required.deep_view(),
            schema: self.schema.deep_view(),
        }
    }
}

impl ParameterView {
    /// The view with nothing in it.
    pub open spec fn empty() -> ParameterView {
        ParameterView {
            name: seq![],
            location: seq![],
            description: None,
            required: None,
            schema: None,
        }
    }
}

impl Default for Parameter {
    fn default() -> (r: Self)
        ensures
            r.deep_view() == ParameterView::empty(),
    {
        let r: Parameter = Parameter {
            name: String::new(),
            location: String::new(),
            description: None,
            required: None,
            schema: None,
        };
        assert(r.deep_view() =~= ParameterView::empty());
        r
    }
}

/// A header of a response.
#[derive(Debug, PartialEq)]
pub struct Header {
    /// What values it takes.
    pub schema: Option<Schema>,
}

/// The view of `Header`.
#[verifier::ext_equal]
pub struct HeaderView {
    pub schema: Option<SchemaView>,
}

impl DeepView for Header {
    type V = HeaderView;

    open spec fn deep_view(&self) -> HeaderView {
        HeaderView {
            schema: self.schema.deep_view(),
        }
    }
}

impl HeaderView {
    /// The view with nothing in it.
    pub open spec fn empty() -> HeaderView {
        HeaderView {
            schema: None,
        }
    }
}

impl Default for Header {
    fn default() -> (r: Self)
        ensures
            r.deep_view() == HeaderView::empty(),
    {
        let r: Header = Header {
            schema: None,
        };
        assert(r.deep_view() =~= HeaderView::empty());
        r
    }
}

/// An example of a value.
#[derive(Debug, PartialEq)]
pub struct Example {
    /// A short account of it.
    pub summary: Option<String>,
    /// A long account of it.
    pub description: Option<String>,
    /// The value.
    pub value: Option<Json>,
}

/// The view of `Example`.
#[verifier::ext_equal]
pub struct ExampleView {
    pub summary: Option<Seq<char>>,
    pub description: Option<Seq<char>>,
    pub value: Option<JsonView>,
}

impl DeepView for Example {
    type V = ExampleView;

    open spec fn deep_view(&self) -> ExampleView {
        ExampleView {
            summary: self.summary.deep_view(),
            description: self.description.deep_view(),
            value: self.value.deep_view(),
        }
    }
}

/// What a body of one media type holds.
#[derive(Debug, PartialEq)]
pub struct MediaType {
    /// What values it takes.
    pub schema: Option<ObjectOrReference<Schema>>,
    /// What it looks like.
    pub examples: Option<MediaTypeExample>,
}

/// The view of `MediaType`.
#[verifier::ext_equal]
pub struct MediaTypeView {
    pub schema: Option<RefView<SchemaView>>,
    pub examples: Option<MediaTypeExampleView>,
}

impl DeepView for MediaType {
    type V = MediaTypeView;

    open spec fn deep_view(&self) -> MediaTypeView {
        MediaTypeView {
            schema: self.schema.deep_view(),
            examples: self.examples.deep_view(),
        }
    }
}

impl MediaTypeView {
    /// The view with nothing in it.
    pub open spec fn empty() -> MediaTypeView {
        MediaTypeView {
            schema: None,
            examples: None,
        }
    }
}

impl Default for MediaType {
    fn default() -> (r: Self)
        ensures
            r.deep_view() == MediaTypeView::empty(),
    {
        let r: MediaType = MediaType {
            schema: None,
            examples: None,
        };
        assert(r.deep_view() =~= MediaTypeView::empty());
        r
    }
}

/// The body of a request.
#[derive(Debug, PartialEq)]
pub struct RequestBody {
    /// What it holds, by media type.
    pub content: StrMap<MediaType>,
}

/// The view of `RequestBody`.
#[verifier::ext_equal]
pub struct RequestBodyView {
    pub content: Seq<(Seq<char>, MediaTypeView)>,
}

impl DeepView for RequestBody {
    type V = RequestBodyView;

    open spec fn deep_view(&self) -> RequestBodyView {
        RequestBodyView {
            content: self.content.deep_view(),
        }
    }
}

impl RequestBodyView {
    /// The view with nothing in it.
    pub open spec fn empty() -> RequestBodyView {
        RequestBodyView {
            content: seq![],
        }
    }
}

impl Default for RequestBody {
    fn default() -> (r: Self)
        ensures
            r.deep_view() == RequestBodyView::empty(),
    {
        let r: RequestBody = RequestBody {
            content: StrMap::new(),
        };
        assert(r.deep_view() =~= RequestBodyView::empty());
        r
    }
}

/// A response to a request.
#[derive(Debug, PartialEq)]
pub struct Response {
    /// What it means.
    pub description: Option<String>,
    /// Its headers by name.
    pub headers: Option<StrMap<ObjectOrReference<Header>>>,
    /// What its body holds, by media type.
    pub content: Option<StrMap<MediaType>>,
}

/// The view of `Response`.
#[verifier::ext_equal]
pub struct ResponseView {
    pub description: Option<Seq<char>>,
    pub headers: Option<Seq<(Seq<char>, RefView<HeaderView>)>>,
    pub content: Option<Seq<(Seq<char>, MediaTypeView)>>,
}

impl DeepView for Response {
    type V = ResponseView;

    open spec fn deep_view(&self) -> ResponseView {
        ResponseView {
            description: self.description.deep_view(),
            headers: self.headers.deep_view(),
            content: self.content.deep_view(),
        }
    }
}

impl ResponseView {
    /// The view with nothing in it.
    pub open spec fn empty() -> ResponseView {
        ResponseView {
            description: None,
            headers: None,
            content: None,
        }
    }
}

impl Default for Response {
    fn default() -> (r: Self)
        ensures
            r.deep_view() == ResponseView::empty(),
    {
        let r: Response = Response {
            description: None,
            headers: None,
            content: None,
        };
        assert(r.deep_view() =~= ResponseView::empty());
        r
    }
}

/// What a method does on a path.
#[derive(Debug, PartialEq)]
pub struct Operation {
    /// The groups it belongs to.
    pub tags: Option<Vec<String>>,
    /// A short account of it.
    pub summary: Option<String>,
    /// A long account of it.
    pub description: Option<String>,
    /// Its identifier.
    pub operation_id: Option<String>,
    /// Its parameters.
    pub parameters: Option<Vec<ObjectOrReference<Parameter>>>,
    /// The body that it takes.
    pub request_body: Option<ObjectOrReference<RequestBody>>,
    /// The responses by status code.
    pub responses: StrMap<Response>,
    /// The schemes of which a request follows one.
    pub security: Option<Vec<SecurityRequirement>>,
}

/// The view of `Operation`.
#[verifier::ext_equal]
pub struct OperationView {
    pub tags: Option<Seq<Seq<char>>>,
    pub summary: Option<Seq<char>>,
    pub description: Option<Seq<char>>,
    pub operation_id: Option<Seq<char>>,
    pub parameters: Option<Seq<RefView<ParameterView>>>,
    pub request_body: Option<RefView<RequestBodyView>>,
    pub responses: Seq<(Seq<char>, ResponseView)>,
    pub security: Option<Seq<SecurityRequirementView>>,
}

impl DeepView for Operation {
    type V = OperationView;

    open spec fn deep_view(&self) -> OperationView {
        OperationView {
            tags: self.tags.deep_view(),
            summary: self.summary.deep_view(),
            description: self.description.deep_view(),
            operation_id: self.operation_id.deep_view(),
            parameters: self.parameters.deep_view(),
            request_body: self.request_body.deep_view(),
            responses: self.responses.deep_view(),
            security: self.security.deep_view(),
        }
    }
}

impl OperationView {
    /// The view with nothing in it.
    pub open spec fn empty() -> OperationView {
        OperationView {
            tags: None,
            summary: None,
            description: None,
            operation_id: None,
            parameters: None,
            request_body: None,
            responses: seq![],
            security: None,
        }
    }
}

impl Default for Operation {
    fn default() -> (r: Self)
        ensures
            r.deep_view() == OperationView::empty(),
    {
        let r: Operation = Operation {
            tags: None,
            summary: None,
            description: None,
            operation_id: None,
            parameters: None,
            request_body: None,
            responses: StrMap::new(),
            security: None,
        };
        assert(r.deep_view() =~= OperationView::empty());
        r
    }
}

/// What there is on a path.
#[derive(Debug, PartialEq)]
pub struct PathItem {
    pub get: Option<Operation>,
    pub put: Option<Operation>,
    pub post: Option<Operation>,
    pub delete: Option<Operation>,
    pub options: Option<Operation>,
    pub patch: Option<Operation>,
    pub trace: Option<Operation>,
    /// The parameters of all its operations.
    pub parameters: Option<Vec<ObjectOrReference<Parameter>>>,
}

/// The view of `PathItem`.
#[verifier::ext_equal]
pub struct PathItemView {
    pub get: Option<OperationView>,
    pub put: Option<OperationView>,
    pub post: Option<OperationView>,
    pub delete: Option<OperationView>,
    pub options: Option<OperationView>,
    pub patch: Option<OperationView>,
    pub trace: Option<OperationView>,
    pub parameters: Option<Seq<RefView<ParameterView>>>,
}

impl DeepView for PathItem {
    type V = PathItemView;

    open spec fn deep_view(&self) -> PathItemView {
        PathItemView {
            get: self.get.deep_view(),
            put: self.put.deep_view(),
            post: self.post.deep_view(),
            delete: self.delete.deep_view(),
            options: self.options.deep_view(),
            patch: self.patch.deep_view(),
            trace: self.trace.deep_view(),
            parameters: self.parameters.deep_view(),
        }
    }
}

impl PathItemView {
    /// The view with nothing in it.
    pub open spec fn empty() -> PathItemView {
        PathItemView {
            get: None,
            put: None,
            post: None,
            delete: None,
            options: None,
            patch: None,
            trace: None,
            parameters: None,
        }
    }
}

impl Default for PathItem {
    fn default() -> (r: Self)
        ensures
            r.deep_view() == PathItemView::empty(),
    {
        let r: PathItem = PathItem {
            get: None,
            put: None,
            post: None,
            delete: None,
            options: None,
            patch: None,
            trace: None,
            parameters: None,
        };
        assert(r.deep_view() =~= PathItemView::empty());
        r
    }
}

/// An `IndexMap`, which keeps its entries in the order in which their keys
/// were first inserted.
#[verifier::external_type_specification]
#[verifier::external_body]
#[verifier::reject_recursive_types(K)]
#[verifier::reject_recursive_types(V)]
#[verifier::reject_recursive_types(S)]
pub struct ExIndexMap<K, V, S>(indexmap::IndexMap<K, V, S>);

/// The entries of the map, in its order.
pub uninterp spec fn path_entries(paths: IndexMap<String, PathItem>) -> Seq<(Seq<char>, PathItem)>;

/// `IndexMap::new` makes a map without entries.
#[verifier::external_body]
pub(crate) fn new_paths() -> (r: IndexMap<String, PathItem>)
    ensures
        path_entries(r) == Seq::<(Seq<char>, PathItem)>::empty(),
{
    IndexMap::new()
}

/// `IndexMap::insert` gives the key its value and hands back the one that it
/// had. A key that is there keeps its place; a new one comes last.
#[verifier::external_body]
pub(crate) fn insert_path(paths: &mut IndexMap<String, PathItem>, key: String, item: PathItem) -> (r:
    Option<PathItem>)
    ensures
        match key_at(path_entries(*old(paths)), key@) {
            Some(i) => path_entries(*final(paths)) == path_entries(*old(paths)).update(
                i,
                (key@, item),
            ) && r == Some(path_entries(*old(paths))[i].1),
            None => path_entries(*final(paths)) == path_entries(*old(paths)).push((key@, item)) && r
                is None,
        },
{
    paths.insert(key, item)
}

/// `IndexMap::contains_key` says whether the map has an entry with the key.
#[verifier::external_body]
pub(crate) fn has_path(paths: &IndexMap<String, PathItem>, key: &str) -> (r: bool)
    ensures
        r == (key_at(path_entries(*paths), key@) is Some),
{
    paths.contains_key(key)
}

/// `IndexMap::get_mut` lends the value of the key, if there is one. What is
/// written to it is then the value of the key; nothing else changes.
#[verifier::external_body]
pub(crate) fn path_mut<'m>(paths: &'m mut IndexMap<String, PathItem>, key: &str) -> (r: Option<
    &'m mut PathItem,
>)
    ensures
        match key_at(path_entries(*old(paths)), key@) {
            Some(i) => match r {
                Some(item) => *item == path_entries(*old(paths))[i].1 && path_entries(*final(paths))
                    == path_entries(*old(paths)).update(i, (key@, *final(item))),
                None => false,
            },
            None => r is None && path_entries(*final(paths)) == path_entries(*old(paths)),
        },
{
    paths.get_mut(key)
}

/// The description of an interface.
#[derive(Debug, PartialEq)]
pub struct Spec {
    /// The version of the standard.
    pub openapi: String,
    /// What the interface is called.
    pub info: Info,
    /// Where it is served.
    pub servers: Option<Vec<Server>>,
    /// What there is on each path.
    pub paths: IndexMap<String, PathItem>,
    /// What is shared among the parts.
    pub components: Option<Components>,
    /// The schemes of which a request follows one.
    pub security: Option<Vec<SecurityRequirement>>,
}

/// The view of the entries of a map of paths.
pub open spec fn paths_view(entries: Seq<(Seq<char>, PathItem)>) -> Seq<
    (Seq<char>, PathItemView),
> {
    entries.map_values(|e: (Seq<char>, PathItem)| (e.0, e.1.deep_view()))
}

/// The view has its keys where the map has them.
pub proof fn lemma_paths_view(entries: Seq<(Seq<char>, PathItem)>, key: Seq<char>, i: int)
    requires
        0 <= i,
    ensures
        key_from(paths_view(entries), key, i) == key_from(entries, key, i),
    decreases entries.len() - i,
{
    if i < entries.len() {
        lemma_paths_view(entries, key, i + 1);
    }
}

/// The view of `Spec`.
#[verifier::ext_equal]
pub struct SpecView {
    pub openapi: Seq<char>,
    pub info: InfoView,
    pub servers: Option<Seq<ServerView>>,
    pub paths: Seq<(Seq<char>, PathItemView)>,
    pub components: Option<ComponentsView>,
    pub security: Option<Seq<SecurityRequirementView>>,
}

impl DeepView for Spec {
    type V = SpecView;

    open spec fn deep_view(&self) -> SpecView {
        SpecView {
            openapi: self.openapi@,
            info: self.info.deep_view(),
            servers: self.servers.deep_view(),
            paths: paths_view(path_entries(self.paths)),
            components: self.components.deep_view(),
            security: self.security.deep_view(),
        }
    }
}

} // verus!
