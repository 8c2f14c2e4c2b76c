//! The bodies of requests.

use vstd::prelude::*;

use crate::context::{resolution, Context, Transpiler, VAR_REPLACE_CREDITS};
use crate::fault::{outcome, reached, Fault};
use crate::json::{infer_type, inferred_type, lemma_json_view, parse, parsed, Json, JsonView};
use crate::map::{has_key, law_put_at_has_key, law_put_has_key, lookup, put, put_at, StrMap};
use crate::openapi::v3_0::{
    lemma_schema_view, Example, ExampleView, MediaType, MediaTypeExample, MediaTypeExampleView,
    MediaTypeView, ObjectOrReference, Operation, OperationView, RefView, RequestBody,
    RequestBodyView, Schema, SchemaView,
};
use crate::postman::{
    description_text, extract_description, Body, BodyOptions, FormParameter, GraphQlBody,
    GraphQlBodyClass, Mode, RawOptions, UrlEncodedParameter,
};
use crate::schema::generated;
use crate::text::same;

verus! {

/// The view of what a body holds, by media type.
pub type Content = Seq<(Seq<char>, MediaTypeView)>;

/// The media type of a text in the language.
pub open spec fn language_type(language: Seq<char>) -> Seq<char> {
    if language == "xml"@ {
        "application/xml"@
    } else if language == "json"@ {
        "application/json"@
    } else if language == "html"@ {
        "text/html"@
    } else {
        "text/plain"@
    }
}

/// The media type of a text with these options.
pub open spec fn text_type(options: Option<BodyOptions>) -> Seq<char> {
    match options {
        Some(BodyOptions { raw: Some(RawOptions { language: Some(language) }) }) => language_type(
            language@,
        ),
        _ => "text/plain"@,
    }
}

/// The media type of a text with these options.
pub fn find_text_type(options: &Option<BodyOptions>) -> (r: &'static str)
    ensures
        r@ == text_type(*options),
{
    if let Some(options) = options {
        if let Some(raw) = &options.raw {
            if let Some(language) = &raw.language {
                return if same(language.as_str(), "xml") {
                    "application/xml"
                } else if same(language.as_str(), "json") {
                    "application/json"
                } else if same(language.as_str(), "html") {
                    "text/html"
                } else {
                    "text/plain"
                };
            }
        }
    }
    "text/plain"
}

/// What there is of the media type.
pub open spec fn held(content: Content, media_type: Seq<char>) -> MediaTypeView {
    match lookup(content, media_type) {
        Some(m) => m,
        None => MediaTypeView::empty(),
    }
}

/// An example that is the value alone.
pub open spec fn value_example(value: JsonView) -> RefView<ExampleView> {
    RefView::Object(ExampleView { summary: None, description: None, value: Some(value) })
}

/// The media type with the value as the example of that name. Where it has
/// one example without a name, that stays.
pub open spec fn with_example(m: MediaTypeView, name: Seq<char>, value: JsonView) -> MediaTypeView {
    MediaTypeView {
        examples: match m.examples {
            None => Some(
                MediaTypeExampleView::Examples {
                    examples: put(seq![], name, value_example(value)),
                },
            ),
            Some(MediaTypeExampleView::Examples { examples }) => Some(
                MediaTypeExampleView::Examples {
                    examples: put(examples, name, value_example(value)),
                },
            ),
            Some(example) => Some(example),
        },
        ..m
    }
}

pub(crate) fn example_of(value: Json) -> (r: ObjectOrReference<Example>)
    ensures
        r.deep_view() == value_example(value.deep_view()),
{
    ObjectOrReference::Object(Example { summary: None, description: None, value: Some(value) })
}

fn add_example(m: &mut MediaType, name: &str, value: Json)
    ensures
        final(m).deep_view() == with_example(old(m).deep_view(), name@, value.deep_view()),
{
    let mut examples: Option<MediaTypeExample> = None;
    std::mem::swap(&mut examples, &mut m.examples);
    m.examples = match examples {
        None => {
            let mut examples: StrMap<ObjectOrReference<Example>> = StrMap::new();
            examples.insert(name.to_owned(), example_of(value));
            Some(MediaTypeExample::Examples { examples })
        },
        Some(MediaTypeExample::Examples { examples }) => {
            let mut examples: StrMap<ObjectOrReference<Example>> = examples;
            examples.insert(name.to_owned(), example_of(value));
            Some(MediaTypeExample::Examples { examples })
        },
        Some(example) => Some(example),
    };
}

/// The content with a body given as text, which reads as `value`. An object or
/// an array is described; what else the text is, it stands as it is.
pub open spec fn text_content(
    ctx: Context,
    content: Content,
    name: Seq<char>,
    text: Seq<char>,
    value: Option<JsonView>,
    options: Option<BodyOptions>,
) -> Result<Content, Fault> {
    match value {
        Some(v) if v is Object || v is Array => match generated(ctx, v, seq![]) {
            Err(f) => Err(f),
            Ok(schema) => Ok(
                put_at(
                    content,
                    "application/json"@,
                    with_example(
                        MediaTypeView {
                            schema: Some(RefView::Object(schema)),
                            ..held(content, "application/json"@)
                        },
                        name,
                        v,
                    ),
                ),
            ),
        },
        Some(_) => Ok(
            put_at(
                content,
                "application/octet-stream"@,
                with_example(
                    held(content, "application/octet-stream"@),
                    name,
                    JsonView::String(text),
                ),
            ),
        ),
        None => Ok(
            put_at(
                content,
                text_type(options),
                with_example(held(content, text_type(options)), name, JsonView::String(text)),
            ),
        ),
    }
}

/// The content with a raw body.
pub open spec fn raw_content(
    ctx: Context,
    content: Content,
    name: Seq<char>,
    raw: Option<Seq<char>>,
    options: Option<BodyOptions>,
) -> Result<Content, Fault> {
    match raw {
        None => Ok(content),
        Some(raw) => match resolution(ctx, raw) {
            Err(f) => Err(f),
            Ok(text) => text_content(ctx, content, name, text, parsed(text), options),
        },
    }
}

/// The fields from `i` on that have a value, added to `fields`.
pub open spec fn fields_from(
    params: Seq<UrlEncodedParameter>,
    i: int,
    fields: Seq<(Seq<char>, JsonView)>,
) -> Seq<(Seq<char>, JsonView)>
    decreases params.len() - i,
{
    if i >= params.len() {
        fields
    } else {
        fields_from(
            params,
            i + 1,
            match params[i].value {
                Some(v) => put(fields, params[i].key@, JsonView::String(v@)),
                None => fields,
            },
        )
    }
}

/// The content with a form in an address-like encoding.
pub open spec fn urlencoded_content(
    ctx: Context,
    content: Content,
    name: Seq<char>,
    urlencoded: Option<Vec<UrlEncodedParameter>>,
) -> Result<Content, Fault> {
    let media_type = "application/x-www-form-urlencoded"@;
    match urlencoded {
        None => Ok(put_at(content, media_type, held(content, media_type))),
        Some(params) => {
            let form = JsonView::Object(fields_from(params@, 0, seq![]));
            match generated(ctx, form, seq![]) {
                Err(f) => Err(f),
                Ok(schema) => Ok(
                    put_at(
                        content,
                        media_type,
                        with_example(
                            MediaTypeView {
                                schema: Some(RefView::Object(schema)),
                                ..held(content, media_type)
                            },
                            name,
                            form,
                        ),
                    ),
                ),
            }
        },
    }
}

/// The schema of a field of a form in parts, of the type `t`.
pub open spec fn form_property(ctx: Context, param: FormParameter, t: Seq<char>) -> Result<
    SchemaView,
    Fault,
> {
    let base = match param.value {
        Some(v) => generated(ctx, JsonView::String(v@), seq![]),
        None => Ok(SchemaView::empty()),
    };
    match base {
        Err(f) => Err(f),
        Ok(base) => Ok(
            SchemaView {
                schema_type: Some(
                    inferred_type(
                        match param.value {
                            Some(v) => v@,
                            None => seq![],
                        },
                    ),
                ),
                format: if t == "file"@ {
                    Some("binary"@)
                } else {
                    base.format
                },
                description: description_text(param.description),
                ..base
            },
        ),
    }
}

/// The schemas of the fields from `i` on that have a type, added to `properties`.
pub open spec fn form_from(
    ctx: Context,
    params: Seq<FormParameter>,
    i: int,
    properties: Seq<(Seq<char>, SchemaView)>,
) -> Result<Seq<(Seq<char>, SchemaView)>, Fault>
    decreases params.len() - i,
{
    if i >= params.len() {
        Ok(properties)
    } else {
        match params[i].form_parameter_type {
            None => form_from(ctx, params, i + 1, properties),
            Some(t) => match form_property(ctx, params[i], t@) {
                Err(f) => Err(f),
                Ok(property) => form_from(
                    ctx,
                    params,
                    i + 1,
                    put(properties, params[i].key@, property),
                ),
            },
        }
    }
}

/// The content with a form in parts.
pub open spec fn form_content(
    ctx: Context,
    content: Content,
    formdata: Option<Vec<FormParameter>>,
) -> Result<Content, Fault> {
    let media_type = "multipart/form-data"@;
    match formdata {
        None => Ok(put_at(content, media_type, held(content, media_type))),
        Some(params) => match form_from(ctx, params@, 0, seq![]) {
            Err(f) => Err(f),
            Ok(properties) => Ok(
                put_at(
                    content,
                    media_type,
                    MediaTypeView {
                        schema: Some(
                            RefView::Object(
                                SchemaView {
                                    schema_type: Some("object"@),
                                    properties: Some(properties),
                                    ..SchemaView::empty()
                                },
                            ),
                        ),
                        ..held(content, media_type)
                    },
                ),
            ),
        },
    }
}

/// The schema of any GraphQL request.
pub open spec fn graphql_schema() -> SchemaView {
    SchemaView {
        schema_type: Some("object"@),
        properties: Some(
            put(
                put(
                    seq![],
                    "query"@,
                    SchemaView { schema_type: Some("string"@), ..SchemaView::empty() },
                ),
                "variables"@,
                SchemaView { schema_type: Some("object"@), ..SchemaView::empty() },
            ),
        ),
        ..SchemaView::empty()
    }
}

/// The example of a GraphQL request with these variables.
pub open spec fn graphql_example(query: Seq<char>, variables: Option<JsonView>) -> JsonView {
    let alone = put(seq![], "query"@, JsonView::String(query));
    JsonView::Object(
        match variables {
            Some(v) => put(alone, "variables"@, v),
            None => alone,
        },
    )
}

/// The variables of a GraphQL request, where they can be read.
pub open spec fn graphql_variables(variables: Option<Seq<char>>) -> Option<JsonView> {
    match variables {
        Some(text) => parsed(text),
        None => None,
    }
}

/// The content with a GraphQL request.
pub open spec fn graphql_content(content: Content, graphql: Option<GraphQlBody>) -> Content {
    let media_type = "application/json"@;
    put_at(
        content,
        media_type,
        MediaTypeView {
            schema: Some(RefView::Object(graphql_schema())),
            examples: match graphql {
                Some(
                    GraphQlBody::GraphQlBodyClass(GraphQlBodyClass { query: Some(query), variables }),
                ) => Some(
                    MediaTypeExampleView::Example {
                        example: graphql_example(
                            query@,
                            graphql_variables(variables.deep_view()),
                        ),
                    },
                ),
                _ => held(content, media_type).examples,
            },
        },
    )
}

/// The content with the body of a request, whose headers name the media type
/// `content_type`.
pub open spec fn body_content(
    ctx: Context,
    content: Content,
    body: Body,
    name: Seq<char>,
    content_type: Option<Seq<char>>,
) -> Result<Content, Fault> {
    match body.mode {
        Some(Mode::Raw) => raw_content(ctx, content, name, body.raw.deep_view(), body.options),
        Some(Mode::Urlencoded) => urlencoded_content(ctx, content, name, body.urlencoded),
        Some(Mode::Formdata) => form_content(ctx, content, body.formdata),
        Some(Mode::GraphQl) => Ok(graphql_content(content, body.graphql)),
        Some(Mode::File) => Ok(content),
        None => Ok(
            if content_type is None {
                put(content, "application/octet-stream"@, MediaTypeView::empty())
            } else {
                content
            },
        ),
    }
}

/// The operation with the body of a request.
pub open spec fn with_body(
    ctx: Context,
    op: OperationView,
    body: Body,
    name: Seq<char>,
    content_type: Option<Seq<char>>,
) -> Result<OperationView, Fault> {
    let content = match op.request_body {
        Some(RefView::Object(own)) => own.content,
        _ => seq![],
    };
    match body_content(ctx, content, body, name, content_type) {
        Err(f) => Err(f),
        Ok(content) => Ok(
            OperationView {
                request_body: Some(RefView::Object(RequestBodyView { content })),
                ..op
            },
        ),
    }
}

/// The fields that have a value.
fn fields_of(params: &Vec<UrlEncodedParameter>) -> (r: StrMap<Json>)
    ensures
        r.deep_view() == fields_from(params@, 0, seq![]),
{
    let mut fields: StrMap<Json> = StrMap::new();
    let ghost all = fields_from(params@, 0, fields.deep_view());
    let mut i: usize = 0;
    while i < params.len()
        invariant
            i <= params.len(),
            all == fields_from(params@, i as int, fields.deep_view()),
        decreases params.len() - i,
    {
        if let Some(v) = &params[i].value {
            fields.insert(params[i].key.clone(), Json::String(v.clone()));
        }
        i = i + 1;
    }
    fields
}

/// The example of a GraphQL request with these variables.
pub fn make_graphql_example(query: &str, variables: Option<Json>) -> (r: Json)
    ensures
        r.deep_view() == graphql_example(query@, variables.deep_view()),
{
    broadcast use lemma_json_view;

    let mut fields: StrMap<Json> = StrMap::new();
    fields.insert("query".to_owned(), Json::String(query.to_owned()));
    if let Some(v) = variables {
        fields.insert("variables".to_owned(), v);
    }
    Json::Object(fields)
}

fn make_graphql_schema() -> (r: Schema)
    ensures
        r.deep_view() == graphql_schema(),
{
    broadcast use lemma_schema_view;

    let mut properties: StrMap<Schema> = StrMap::new();
    properties.insert(
        "query".to_owned(),
        Schema { schema_type: Some("string".to_owned()), ..Schema::default() },
    );
    properties.insert(
        "variables".to_owned(),
        Schema { schema_type: Some("object".to_owned()), ..Schema::default() },
    );
    Schema {
        schema_type: Some("object".to_owned()),
        properties: Some(properties),
        ..Schema::default()
    }
}

fn add_graphql(content: &mut StrMap<MediaType>, graphql: &Option<GraphQlBody>)
    ensures
        final(content).deep_view() == graphql_content(old(content).deep_view(), *graphql),
{
    let m: &mut MediaType = content.entry("application/json", MediaType::default());
    m.schema = Some(ObjectOrReference::Object(make_graphql_schema()));
    if let Some(GraphQlBody::GraphQlBodyClass(graphql)) = graphql {
        if let Some(query) = &graphql.query {
            let variables: Option<Json> = match &graphql.variables {
                Some(text) => parse(text.as_str()),
                None => None,
            };
            m.examples = Some(
                MediaTypeExample::Example {
                    example: make_graphql_example(query.as_str(), variables),
                },
            );
        }
    }
}

impl<'a> Transpiler<'a> {
    /// Adds a body given as text, which reads as `value`.
    pub fn add_text(
        &self,
        content: &mut StrMap<MediaType>,
        name: &str,
        text: &str,
        value: Option<Json>,
        options: &Option<BodyOptions>,
    ) -> (r: Result<(), Fault>)
        ensures
            reached(r, final(content).deep_view()) == text_content(
                self.context(),
                old(content).deep_view(),
                name@,
                text@,
                value.deep_view(),
                *options,
            ),
    {
        proof {
            reveal_strlit("");
            assert(""@ =~= seq![]);
        }
        match value {
            Some(v) => {
                let described: bool = match &v {
                    Json::Object(_) => true,
                    Json::Array(_) => true,
                    _ => false,
                };
                if described {
                    let schema: Schema = match self.generate_schema(&v, "") {
                        Ok(schema) => schema,
                        Err(f) => {
                            return Err(f);
                        },
                    };
                    let m: &mut MediaType = content.entry(
                        "application/json",
                        MediaType::default(),
                    );
                    m.schema = Some(ObjectOrReference::Object(schema));
                    add_example(m, name, v);
                } else {
                    let m: &mut MediaType = content.entry(
                        "application/octet-stream",
                        MediaType::default(),
                    );
                    add_example(m, name, Json::String(text.to_owned()));
                }
            },
            None => {
                let m: &mut MediaType = content.entry(
                    find_text_type(options),
                    MediaType::default(),
                );
                add_example(m, name, Json::String(text.to_owned()));
            },
        }
        Ok(())
    }

    pub(crate) fn add_raw(
        &self,
        content: &mut StrMap<MediaType>,
        name: &str,
        raw: &Option<String>,
        options: &Option<BodyOptions>,
    ) -> (r: Result<(), Fault>)
        ensures
            reached(r, final(content).deep_view()) == raw_content(
                self.context(),
                old(content).deep_view(),
                name@,
                raw.deep_view(),
                *options,
            ),
    {
        if let Some(raw) = raw {
            let text: String = match self.resolve_variables(raw.as_str(), VAR_REPLACE_CREDITS) {
                Ok(text) => text,
                Err(f) => {
                    return Err(f);
                },
            };
            let value: Option<Json> = parse(text.as_str());
            self.add_text(content, name, text.as_str(), value, options)
        } else {
            Ok(())
        }
    }

    fn add_urlencoded(
        &self,
        content: &mut StrMap<MediaType>,
        name: &str,
        urlencoded: &Option<Vec<UrlEncodedParameter>>,
    ) -> (r: Result<(), Fault>)
        ensures
            reached(r, final(content).deep_view()) == urlencoded_content(
                self.context(),
                old(content).deep_view(),
                name@,
                *urlencoded,
            ),
    {
        broadcast use lemma_json_view;

        proof {
            reveal_strlit("");
            assert(""@ =~= seq![]);
        }
        let m: &mut MediaType = content.entry(
            "application/x-www-form-urlencoded",
            MediaType::default(),
        );
        if let Some(params) = urlencoded {
            let form: Json = Json::Object(fields_of(params));
            match self.generate_schema(&form, "") {
                Ok(schema) => {
                    m.schema = Some(ObjectOrReference::Object(schema));
                },
                Err(f) => {
                    return Err(f);
                },
            }
            add_example(m, name, form);
        }
        Ok(())
    }

    fn make_form_property(&self, param: &FormParameter, t: &str) -> (r: Result<Schema, Fault>)
        ensures
            outcome(r) == form_property(self.context(), *param, t@),
    {
        broadcast use lemma_schema_view;

        proof {
            reveal_strlit("");
            assert(""@ =~= seq![]);
        }
        let mut schema: Schema = match &param.value {
            Some(v) => match self.generate_schema(&Json::String(v.clone()), "") {
                Ok(schema) => schema,
                Err(f) => {
                    return Err(f);
                },
            },
            None => Schema::default(),
        };
        let value: &str = match &param.value {
            Some(v) => v.as_str(),
            None => "",
        };
        if same(t, "file") {
            schema.format = Some("binary".to_owned());
        }
        schema.schema_type = Some(infer_type(value).to_owned());
        schema.description = extract_description(&param.description);
        Ok(schema)
    }

    fn form_properties(&self, params: &Vec<FormParameter>) -> (r: Result<StrMap<Schema>, Fault>)
        ensures
            outcome(r) == form_from(self.context(), params@, 0, seq![]),
    {
        let ghost ctx = self.context();
        let mut properties: StrMap<Schema> = StrMap::new();
        let ghost all = form_from(ctx, params@, 0, seq![]);
        let mut i: usize = 0;
        while i < params.len()
            invariant
                ctx == self.context(),
                i <= params.len(),
                all == form_from(ctx, params@, 0, seq![]),
                all == form_from(ctx, params@, i as int, properties.deep_view()),
            decreases params.len() - i,
        {
            if let Some(t) = &params[i].form_parameter_type {
                match self.make_form_property(&params[i], t.as_str()) {
                    Ok(property) => {
                        properties.insert(params[i].key.clone(), property);
                    },
                    Err(f) => {
                        return Err(f);
                    },
                }
            }
            i = i + 1;
        }
        Ok(properties)
    }

    fn add_form(&self, content: &mut StrMap<MediaType>, formdata: &Option<Vec<FormParameter>>) -> (r:
        Result<(), Fault>)
        ensures
            reached(r, final(content).deep_view()) == form_content(
                self.context(),
                old(content).deep_view(),
                *formdata,
            ),
    {
        broadcast use lemma_schema_view;

        let m: &mut MediaType = content.entry("multipart/form-data", MediaType::default());
        if let Some(params) = formdata {
            match self.form_properties(params) {
                Ok(properties) => {
                    m.schema = Some(
                        ObjectOrReference::Object(
                            Schema {
                                schema_type: Some("object".to_owned()),
                                properties: Some(properties),
                                ..Schema::default()
                            },
                        ),
                    );
                },
                Err(f) => {
                    return Err(f);
                },
            }
        }
        Ok(())
    }

    /// Gives the operation the body of a request.
    pub fn extract_request_body(
        &self,
        body: &Body,
        op: &mut Operation,
        name: &str,
        ct: Option<String>,
    ) -> (r: Result<(), Fault>)
        ensures
            reached(r, final(op).deep_view()) == with_body(
                self.context(),
                old(op).deep_view(),
                *body,
                name@,
                ct.deep_view(),
            ),
    {
        let mut own: Option<ObjectOrReference<RequestBody>> = None;
        std::mem::swap(&mut own, &mut op.request_body);
        let mut request_body: RequestBody = match own {
            Some(ObjectOrReference::Object(request_body)) => request_body,
            _ => RequestBody::default(),
        };
        let added: Result<(), Fault> = match body.mode {
            Some(Mode::Raw) => self.add_raw(
                &mut request_body.content,
                name,
                &body.raw,
                &body.options,
            ),
            Some(Mode::Urlencoded) => self.add_urlencoded(
                &mut request_body.content,
                name,
                &body.urlencoded,
            ),
            Some(Mode::Formdata) => self.add_form(&mut request_body.content, &body.formdata),
            Some(Mode::GraphQl) => {
                add_graphql(&mut request_body.content, &body.graphql);
                Ok(())
            },
            Some(Mode::File) => Ok(()),
            None => {
                if ct.is_none() {
                    request_body.content.insert(
                        "application/octet-stream".to_owned(),
                        MediaType::default(),
                    );
                }
                Ok(())
            },
        };
        if let Err(f) = added {
            return Err(f);
        }
        op.request_body = Some(ObjectOrReference::Object(request_body));
        Ok(())
    }
}

/// The media type that a body of the mode has, whatever it holds.
pub open spec fn mode_type(mode: Mode) -> Option<Seq<char>> {
    match mode {
        Mode::Urlencoded => Some("application/x-www-form-urlencoded"@),
        Mode::Formdata => Some("multipart/form-data"@),
        Mode::GraphQl => Some("application/json"@),
        Mode::Raw | Mode::File => None,
    }
}

/// A form and a GraphQL request have the media type of their mode, and the
/// media types that an operation takes already stay.
pub proof fn law_body_types(
    ctx: Context,
    content: Content,
    body: Body,
    name: Seq<char>,
    content_type: Option<Seq<char>>,
    key: Seq<char>,
)
    requires
        has_key(content, key) || (body.mode matches Some(mode) && mode_type(mode) == Some(key)),
    ensures
        body_content(ctx, content, body, name, content_type) matches Ok(r) ==> has_key(r, key),
{
    assert forall|media_type: Seq<char>, m: MediaTypeView| #[trigger]
        has_key(put_at(content, media_type, m), key) == (key == media_type || has_key(
            content,
            key,
        )) by {
        law_put_at_has_key(content, media_type, m, key);
    }
    law_put_has_key(content, "application/octet-stream"@, MediaTypeView::empty(), key);
}

} // verus!
