//! What the bodies of requests become.

use vstd::prelude::*;

use crate::body::{
    fields_from, form_from, form_property, graphql_content, graphql_example, graphql_schema,
    raw_content, with_body, with_example, Content,
};
use crate::context::{resolution, Context};
use crate::fault::Fault;
use crate::json::{inferred_type, parsed, JsonView};
use crate::laws::schemas::{law_generated_bare, law_generated_object, law_generated_type};
use crate::map::{
    ascending, has_key, law_put_ascending, law_put_at, law_put_lookup, lemma_key_at, lookup, put,
    put_at,
};
use crate::openapi::v3_0::{
    ExampleView, MediaTypeExampleView, MediaTypeView, OperationView, RefView, SchemaView,
};
use crate::postman::{
    description_text, Body, BodyOptions, FormParameter, GraphQlBody, GraphQlBodyClass, Mode,
    UrlEncodedParameter,
};
use crate::schema::generated;

verus! {

/// What the body of an operation holds, by media type.
pub open spec fn content_in(op: OperationView) -> Content {
    match op.request_body {
        Some(RefView::Object(own)) => own.content,
        _ => seq![],
    }
}

/// The examples by name, where there are such.
pub open spec fn named(m: Option<MediaTypeView>) -> Seq<(Seq<char>, RefView<ExampleView>)> {
    match m {
        Some(m) => match m.examples {
            Some(MediaTypeExampleView::Examples { examples }) => examples,
            _ => seq![],
        },
        None => seq![],
    }
}

/// There is one example without a name.
pub open spec fn has_single(m: Option<MediaTypeView>) -> bool {
    m is Some && m->0.examples is Some && m->0.examples->0 is Example
}

/// The schema of the media type, where there is one.
pub open spec fn schema_in(m: Option<MediaTypeView>) -> Option<RefView<SchemaView>> {
    match m {
        Some(m) => m.schema,
        None => None,
    }
}

/// `after` has the value as the example of that name, and the other examples
/// as they were; one example without a name stays alone.
pub open spec fn exemplifies(
    before: Option<MediaTypeView>,
    after: Option<MediaTypeView>,
    name: Seq<char>,
    value: JsonView,
) -> bool {
    if has_single(before) {
        after is Some && after->0.examples == before->0.examples
    } else {
        &&& after is Some
        &&& after->0.examples is Some
        &&& after->0.examples->0 is Examples
        &&& lookup(named(after), name) == Some(
            RefView::Object(ExampleView { summary: None, description: None, value: Some(value) }),
        )
        &&& forall|other: Seq<char>|
            other != name ==> #[trigger] lookup(named(after), other) == lookup(
                named(before),
                other,
            )
    }
}

/// The content is as it was, but for the one media type.
pub open spec fn differs_in(before: Content, after: Content, media_type: Seq<char>) -> bool {
    forall|other: Seq<char>|
        other != media_type ==> #[trigger] lookup(after, other) == lookup(before, other)
}

/// A value that is set for a key is there, and nothing else has changed.
pub proof fn lemma_set<W>(m: Seq<(Seq<char>, W)>, key: Seq<char>, value: W)
    requires
        ascending(m),
    ensures
        lookup(put(m, key, value), key) == Some(value),
        lookup(put_at(m, key, value), key) == Some(value),
        forall|other: Seq<char>|
            other != key ==> #[trigger] lookup(put(m, key, value), other) == lookup(m, other),
        forall|other: Seq<char>|
            other != key ==> #[trigger] lookup(put_at(m, key, value), other) == lookup(m, other),
{
    law_put_at(m, key, value);
    law_put_lookup(m, key, value, key);
    assert forall|other: Seq<char>| other != key implies #[trigger] lookup(
        put(m, key, value),
        other,
    ) == lookup(m, other) by {
        law_put_lookup(m, key, value, other);
    }
}

/// An example that is given to a media type has its name, and takes the place
/// of another of that name alone. The schema stays.
pub proof fn law_example_named(
    before: Option<MediaTypeView>,
    m: MediaTypeView,
    name: Seq<char>,
    value: JsonView,
)
    requires
        m.examples == match before {
            Some(b) => b.examples,
            None => None,
        },
        ascending(named(before)),
    ensures
        exemplifies(before, Some(with_example(m, name, value)), name, value),
        with_example(m, name, value).schema == m.schema,
{
    let own = RefView::Object(
        ExampleView { summary: None, description: None, value: Some(value) },
    );
    lemma_set(named(before), name, own);
    lemma_set(seq![], name, own);
}

/// The media type of a text in a language.
pub open spec fn type_in(language: Option<Seq<char>>) -> Seq<char> {
    if language == Some("json"@) {
        "application/json"@
    } else if language == Some("xml"@) {
        "application/xml"@
    } else if language == Some("html"@) {
        "text/html"@
    } else {
        "text/plain"@
    }
}

/// The language that the options name.
pub open spec fn language_in(options: Option<BodyOptions>) -> Option<Seq<char>> {
    match options {
        Some(options) => match options.raw {
            Some(raw) => raw.language.deep_view(),
            None => None,
        },
        None => None,
    }
}

/// The media type of a text: that of JSON where it reads as an object or an
/// array, that of any bytes where it reads as another value, and otherwise that
/// of the language that the options name.
pub open spec fn type_for(text: Seq<char>, options: Option<BodyOptions>) -> Seq<char> {
    match parsed(text) {
        Some(JsonView::Object(_)) | Some(JsonView::Array(_)) => "application/json"@,
        Some(_) => "application/octet-stream"@,
        None => type_in(language_in(options)),
    }
}

/// The languages with a media type of their own are told apart.
pub proof fn lemma_languages()
    ensures
        "json"@ != "xml"@,
        "json"@ != "html"@,
        "xml"@ != "html"@,
{
    reveal_strlit("json");
    reveal_strlit("xml");
    reveal_strlit("html");
    assert("json"@.len() == 4 && "xml"@.len() == 3 && "html"@.len() == 4);
    assert("json"@[0] != "html"@[0]);
}

/// A raw text, once its variables are replaced, is an example of its media
/// type: as the value that it reads as, where that is an object or an array,
/// and otherwise as text. An object or array also gives the schema. Nothing
/// else changes, and without a text nothing at all.
pub proof fn law_raw_text(
    ctx: Context,
    content: Content,
    name: Seq<char>,
    raw: Option<Seq<char>>,
    options: Option<BodyOptions>,
)
    requires
        ascending(content),
        forall|t: Seq<char>| ascending(named(#[trigger] lookup(content, t))),
    ensures
        raw is None ==> raw_content(ctx, content, name, raw, options) == Ok::<Content, Fault>(
            content,
        ),
        raw matches Some(raw_text) ==> (raw_content(ctx, content, name, raw, options) matches Ok(
            after,
        ) ==> {
            &&& resolution(ctx, raw_text) matches Ok(text) && {
                let t = type_for(text, options);
                &&& differs_in(content, after, t)
                &&& match parsed(text) {
                    Some(v) if v is Object || v is Array => {
                        &&& exemplifies(lookup(content, t), lookup(after, t), name, v)
                        &&& generated(ctx, v, seq![]) matches Ok(s) && schema_in(
                            lookup(after, t),
                        ) == Some(RefView::Object(s))
                    },
                    _ => {
                        &&& exemplifies(
                            lookup(content, t),
                            lookup(after, t),
                            name,
                            JsonView::String(text),
                        )
                        &&& schema_in(lookup(after, t)) == schema_in(lookup(content, t))
                    },
                }
            }
        }),
{
    lemma_languages();
    if let Some(raw_text) = raw {
        if let (Ok(text), Ok(after)) = (
            resolution(ctx, raw_text),
            raw_content(ctx, content, name, raw, options),
        ) {
            let t = type_for(text, options);
            let before = lookup(content, t);
            lemma_set(content, t, lookup(after, t)->0);
            let base = match before {
                Some(m) => m,
                None => MediaTypeView::empty(),
            };
            match parsed(text) {
                Some(v) if v is Object || v is Array => {
                    let s = generated(ctx, v, seq![])->Ok_0;
                    let m = MediaTypeView { schema: Some(RefView::Object(s)), ..base };
                    law_example_named(before, m, name, v);
                    lemma_set(content, t, with_example(m, name, v));
                },
                _ => {
                    law_example_named(before, base, name, JsonView::String(text));
                    lemma_set(content, t, with_example(base, name, JsonView::String(text)));
                },
            }
        }
    }
}

/// The body of a request is all that it changes of an operation.
pub open spec fn gives_body(op: OperationView, after: OperationView) -> bool {
    &&& after.request_body matches Some(RefView::Object(_))
    &&& after == OperationView { request_body: after.request_body, ..op }
}

/// A body of raw text.
pub proof fn law_raw_body(
    ctx: Context,
    op: OperationView,
    body: Body,
    name: Seq<char>,
    content_type: Option<Seq<char>>,
)
    requires
        body.mode == Some(Mode::Raw),
        ascending(content_in(op)),
        forall|t: Seq<char>| ascending(named(#[trigger] lookup(content_in(op), t))),
    ensures
        with_body(ctx, op, body, name, content_type) matches Ok(after) ==> {
            let before = content_in(op);
            &&& gives_body(op, after)
            &&& body.raw is None ==> content_in(after) == before
            &&& body.raw matches Some(raw) ==> (resolution(ctx, raw@) matches Ok(text) && {
                let t = type_for(text, body.options);
                &&& differs_in(before, content_in(after), t)
                &&& match parsed(text) {
                    Some(v) if v is Object || v is Array => {
                        &&& exemplifies(lookup(before, t), lookup(content_in(after), t), name, v)
                        &&& generated(ctx, v, seq![]) matches Ok(s) && schema_in(
                            lookup(content_in(after), t),
                        ) == Some(RefView::Object(s))
                    },
                    _ => {
                        &&& exemplifies(
                            lookup(before, t),
                            lookup(content_in(after), t),
                            name,
                            JsonView::String(text),
                        )
                        &&& schema_in(lookup(content_in(after), t)) == schema_in(
                            lookup(before, t),
                        )
                    },
                }
            })
        },
{
    law_raw_text(ctx, content_in(op), name, body.raw.deep_view(), body.options);
}

/// The parameter at `i` gives the field its value: it is the last with that
/// key that has one.
pub open spec fn gives_field(params: Seq<UrlEncodedParameter>, i: int, key: Seq<char>) -> bool {
    &&& 0 <= i < params.len()
    &&& params[i].key@ == key
    &&& params[i].value is Some
    &&& forall|j: int|
        i < j < params.len() && (#[trigger] params[j]).key@ == key ==> params[j].value is None
}

proof fn lemma_fields(
    params: Seq<UrlEncodedParameter>,
    i: int,
    fields: Seq<(Seq<char>, JsonView)>,
    key: Seq<char>,
)
    requires
        0 <= i,
        ascending(fields),
    ensures
        ascending(fields_from(params, i, fields)),
        forall|k: int|
            i <= k && #[trigger] gives_field(params, k, key) ==> lookup(
                fields_from(params, i, fields),
                key,
            ) == Some(JsonView::String(params[k].value->0@)),
        (forall|k: int|
            i <= k < params.len() && (#[trigger] params[k]).key@ == key ==> params[k].value is None)
            ==> lookup(fields_from(params, i, fields), key) == lookup(fields, key),
    decreases params.len() - i,
{
    if i < params.len() {
        let next = match params[i].value {
            Some(v) => put(fields, params[i].key@, JsonView::String(v@)),
            None => fields,
        };
        if let Some(v) = params[i].value {
            law_put_ascending(fields, params[i].key@, JsonView::String(v@));
            law_put_lookup(fields, params[i].key@, JsonView::String(v@), key);
        }
        lemma_fields(params, i + 1, next, key);
    }
}

/// The fields of a form in an address-like encoding have a key exactly where
/// some parameter with that key has a value, and the field has the value of the
/// last such parameter, as text.
pub proof fn law_fields(params: Seq<UrlEncodedParameter>, key: Seq<char>)
    ensures
        ascending(fields_from(params, 0, seq![])),
        forall|i: int| #[trigger]
            gives_field(params, i, key) ==> lookup(fields_from(params, 0, seq![]), key) == Some(
                JsonView::String(params[i].value->0@),
            ),
        has_key(fields_from(params, 0, seq![]), key) <==> exists|i: int|
            0 <= i < params.len() && (#[trigger] params[i]).key@ == key && params[i].value is Some,
{
    lemma_fields(params, 0, seq![], key);
    lemma_key_at(Seq::<(Seq<char>, JsonView)>::empty(), key);
    if exists|i: int|
        0 <= i < params.len() && (#[trigger] params[i]).key@ == key && params[i].value is Some {
        let i = choose|i: int|
            0 <= i < params.len() && (#[trigger] params[i]).key@ == key && params[i].value is Some;
        lemma_last_field(params, i, key);
        let k = choose|k: int| #[trigger] gives_field(params, k, key);
        assert(gives_field(params, k, key));
    }
}

proof fn lemma_last_field(params: Seq<UrlEncodedParameter>, i: int, key: Seq<char>)
    requires
        0 <= i < params.len(),
        params[i].key@ == key,
        params[i].value is Some,
    ensures
        exists|k: int| #[trigger] gives_field(params, k, key),
    decreases params.len() - i,
{
    if exists|j: int|
        i < j < params.len() && (#[trigger] params[j]).key@ == key && params[j].value is Some {
        let j = choose|j: int|
            i < j < params.len() && (#[trigger] params[j]).key@ == key && params[j].value is Some;
        lemma_last_field(params, j, key);
    } else {
        assert(gives_field(params, i, key));
    }
}

/// A form in an address-like encoding: the schema has a property exactly for
/// each key that has a value, and the example holds each of those keys with its
/// last value.
pub proof fn law_urlencoded_body(
    ctx: Context,
    op: OperationView,
    body: Body,
    name: Seq<char>,
    content_type: Option<Seq<char>>,
    params: Seq<UrlEncodedParameter>,
    key: Seq<char>,
)
    requires
        body.mode == Some(Mode::Urlencoded),
        body.urlencoded matches Some(list) && list@ == params,
        ascending(content_in(op)),
        forall|t: Seq<char>| ascending(named(#[trigger] lookup(content_in(op), t))),
    ensures
        with_body(ctx, op, body, name, content_type) matches Ok(after) ==> {
            let t = "application/x-www-form-urlencoded"@;
            let m = lookup(content_in(after), t);
            let valued = exists|i: int|
                0 <= i < params.len() && (#[trigger] params[i]).key@ == key && params[i].value
                    is Some;
            &&& gives_body(op, after)
            &&& differs_in(content_in(op), content_in(after), t)
            &&& schema_in(m) is Some
            &&& schema_in(m)->0 is Object
            &&& schema_in(m)->0->Object_0.schema_type == Some("object"@)
            &&& schema_in(m)->0->Object_0.properties is Some
            &&& has_key(schema_in(m)->0->Object_0.properties->0, key) <==> valued
            &&& exists|fields: Seq<(Seq<char>, JsonView)>| #[trigger]
                exemplifies(lookup(content_in(op), t), m, name, JsonView::Object(fields)) && (
                has_key(fields, key) <==> valued) && (forall|i: int| #[trigger]
                    gives_field(params, i, key) ==> lookup(fields, key) == Some(
                        JsonView::String(params[i].value->0@),
                    ))
        },
{
    if let Ok(after) = with_body(ctx, op, body, name, content_type) {
        let t = "application/x-www-form-urlencoded"@;
        let before = lookup(content_in(op), t);
        let fields = fields_from(params, 0, seq![]);
        let form = JsonView::Object(fields);
        law_fields(params, key);
        law_generated_object(ctx, fields, seq![], key);
        let s = generated(ctx, form, seq![])->Ok_0;
        let base = match before {
            Some(m) => m,
            None => MediaTypeView::empty(),
        };
        let m = MediaTypeView { schema: Some(RefView::Object(s)), ..base };
        law_example_named(before, m, name, form);
        lemma_set(content_in(op), t, with_example(m, name, form));
        assert(lookup(content_in(after), t) == Some(with_example(m, name, form)));
        lemma_key_at(s.properties->0, key);
        assert(exemplifies(before, lookup(content_in(after), t), name, JsonView::Object(fields)));
    }
}

/// The parameter at `i` gives the field of a form in parts its schema: it is
/// the last with that key that has a type.
pub open spec fn gives_part(params: Seq<FormParameter>, i: int, key: Seq<char>) -> bool {
    &&& 0 <= i < params.len()
    &&& params[i].key@ == key
    &&& params[i].form_parameter_type is Some
    &&& forall|j: int|
        i < j < params.len() && (#[trigger] params[j]).key@ == key
            ==> params[j].form_parameter_type is None
}

/// The schema is that of the field: it has the type that its value seems to
/// have, the description of the field, and the format of a file where it is one.
pub open spec fn describes_part(s: SchemaView, param: FormParameter) -> bool {
    s == SchemaView {
        schema_type: Some(
            inferred_type(
                match param.value {
                    Some(v) => v@,
                    None => seq![],
                },
            ),
        ),
        format: if param.form_parameter_type.deep_view() == Some("file"@) {
            Some("binary"@)
        } else {
            None
        },
        description: description_text(param.description),
        ..SchemaView::empty()
    }
}

/// A field of a form in parts has the schema that describes it.
pub proof fn lemma_part(ctx: Context, param: FormParameter, t: Seq<char>)
    requires
        param.form_parameter_type.deep_view() == Some(t),
    ensures
        form_property(ctx, param, t) matches Ok(s) && describes_part(s, param),
{
    if let Some(v) = param.value {
        law_generated_bare(ctx, JsonView::String(v@), seq![]);
        law_generated_type(ctx, JsonView::String(v@), seq![]);
        reveal_strlit("status");
        assert("status"@.len() == 6);
        let s = generated(ctx, JsonView::String(v@), seq![])->Ok_0;
        assert(s.enum_values is None);
    }
}

proof fn lemma_parts(
    ctx: Context,
    params: Seq<FormParameter>,
    i: int,
    properties: Seq<(Seq<char>, SchemaView)>,
    key: Seq<char>,
)
    requires
        0 <= i,
        ascending(properties),
    ensures
        form_from(ctx, params, i, properties) matches Ok(r) ==> {
            &&& forall|k: int|
                i <= k && #[trigger] gives_part(params, k, key) ==> (lookup(r, key) matches Some(s)
                    && describes_part(s, params[k]))
            &&& (forall|k: int|
                i <= k < params.len() && (#[trigger] params[k]).key@ == key
                    ==> params[k].form_parameter_type is None) ==> lookup(r, key) == lookup(
                properties,
                key,
            )
        },
    decreases params.len() - i,
{
    if i < params.len() {
        match params[i].form_parameter_type {
            None => {
                lemma_parts(ctx, params, i + 1, properties, key);
            },
            Some(t) => {
                lemma_part(ctx, params[i], t@);
                let s = form_property(ctx, params[i], t@)->Ok_0;
                law_put_ascending(properties, params[i].key@, s);
                law_put_lookup(properties, params[i].key@, s, key);
                lemma_parts(ctx, params, i + 1, put(properties, params[i].key@, s), key);
            },
        }
    }
}

proof fn lemma_last_part(params: Seq<FormParameter>, i: int, key: Seq<char>)
    requires
        0 <= i < params.len(),
        params[i].key@ == key,
        params[i].form_parameter_type is Some,
    ensures
        exists|k: int| #[trigger] gives_part(params, k, key),
    decreases params.len() - i,
{
    if exists|j: int|
        i < j < params.len() && (#[trigger] params[j]).key@ == key && params[j].form_parameter_type
            is Some {
        let j = choose|j: int|
            i < j < params.len() && (#[trigger] params[j]).key@ == key
                && params[j].form_parameter_type is Some;
        lemma_last_part(params, j, key);
    } else {
        assert(gives_part(params, i, key));
    }
}

/// A form in parts: the schema is that of an object, with a property exactly
/// for each key of a field that has a type, as the last such field has it.
/// The examples stay as they are.
pub proof fn law_form_body(
    ctx: Context,
    op: OperationView,
    body: Body,
    name: Seq<char>,
    content_type: Option<Seq<char>>,
    params: Seq<FormParameter>,
    key: Seq<char>,
)
    requires
        body.mode == Some(Mode::Formdata),
        body.formdata matches Some(list) && list@ == params,
        ascending(content_in(op)),
    ensures
        with_body(ctx, op, body, name, content_type) matches Ok(after) ==> {
            let t = "multipart/form-data"@;
            let m = lookup(content_in(after), t);
            &&& gives_body(op, after)
            &&& differs_in(content_in(op), content_in(after), t)
            &&& named(m) == named(lookup(content_in(op), t))
            &&& schema_in(m) is Some
            &&& schema_in(m)->0 is Object
            &&& schema_in(m)->0->Object_0.schema_type == Some("object"@)
            &&& schema_in(m)->0->Object_0.properties is Some
            &&& has_key(schema_in(m)->0->Object_0.properties->0, key) <==> exists|i: int|
                0 <= i < params.len() && (#[trigger] params[i]).key@ == key
                    && params[i].form_parameter_type is Some
            &&& forall|i: int| #[trigger]
                gives_part(params, i, key) ==> (lookup(
                    schema_in(m)->0->Object_0.properties->0,
                    key,
                ) matches Some(s) && describes_part(s, params[i]))
        },
{
    if let Ok(after) = with_body(ctx, op, body, name, content_type) {
        let t = "multipart/form-data"@;
        lemma_parts(ctx, params, 0, seq![], key);
        lemma_key_at(Seq::<(Seq<char>, SchemaView)>::empty(), key);
        let p = form_from(ctx, params, 0, seq![])->Ok_0;
        let base = match lookup(content_in(op), t) {
            Some(m) => m,
            None => MediaTypeView::empty(),
        };
        let m = MediaTypeView {
            schema: Some(
                RefView::Object(
                    SchemaView {
                        schema_type: Some("object"@),
                        properties: Some(p),
                        ..SchemaView::empty()
                    },
                ),
            ),
            ..base
        };
        lemma_set(content_in(op), t, m);
        assert(lookup(content_in(after), t) == Some(m));
        if exists|i: int|
            0 <= i < params.len() && (#[trigger] params[i]).key@ == key
                && params[i].form_parameter_type is Some {
            let i = choose|i: int|
                0 <= i < params.len() && (#[trigger] params[i]).key@ == key
                    && params[i].form_parameter_type is Some;
            lemma_last_part(params, i, key);
            let k = choose|k: int| #[trigger] gives_part(params, k, key);
            assert(gives_part(params, k, key));
        }
    }
}

/// A GraphQL request: the schema is that of an object with a text as its query
/// and an object as its variables, and the one example, where there is a query,
/// is an object of the query and of the variables, where those can be read.
pub proof fn law_graphql_body(
    ctx: Context,
    op: OperationView,
    body: Body,
    name: Seq<char>,
    content_type: Option<Seq<char>>,
)
    requires
        body.mode == Some(Mode::GraphQl),
        ascending(content_in(op)),
    ensures
        with_body(ctx, op, body, name, content_type) matches Ok(after) && {
            let t = "application/json"@;
            let m = lookup(content_in(after), t);
            let text = SchemaView { schema_type: Some("string"@), ..SchemaView::empty() };
            let object = SchemaView { schema_type: Some("object"@), ..SchemaView::empty() };
            &&& gives_body(op, after)
            &&& differs_in(content_in(op), content_in(after), t)
            &&& m is Some
            &&& m->0.schema is Some
            &&& m->0.schema->0 is Object
            &&& m->0.schema->0->Object_0.schema_type == Some("object"@)
            &&& m->0.schema->0->Object_0.properties is Some
            &&& forall|key: Seq<char>| #[trigger]
                lookup(m->0.schema->0->Object_0.properties->0, key) == if key == "query"@ {
                    Some(text)
                } else if key == "variables"@ {
                    Some(object)
                } else {
                    None
                }
            &&& match body.graphql {
                Some(
                    GraphQlBody::GraphQlBodyClass(GraphQlBodyClass { query: Some(query), variables }),
                ) => {
                    &&& m->0.examples is Some
                    &&& m->0.examples->0 is Example
                    &&& m->0.examples->0->example is Object
                    &&& forall|key: Seq<char>| #[trigger]
                        lookup(m->0.examples->0->example->Object_0, key) == if key == "query"@ {
                            Some(JsonView::String(query@))
                        } else if key == "variables"@ {
                            match variables {
                                Some(text) => parsed(text@),
                                None => None,
                            }
                        } else {
                            None
                        }
                },
                _ => m->0.examples == match lookup(content_in(op), t) {
                    Some(b) => b.examples,
                    None => None,
                },
            }
        },
{
    let t = "application/json"@;
    let after = with_body(ctx, op, body, name, content_type)->Ok_0;
    let text = SchemaView { schema_type: Some("string"@), ..SchemaView::empty() };
    let object = SchemaView { schema_type: Some("object"@), ..SchemaView::empty() };
    reveal_strlit("query");
    reveal_strlit("variables");
    assert("query"@.len() == 5 && "variables"@.len() == 9);
    let none = Seq::<(Seq<char>, SchemaView)>::empty();
    assert(forall|key: Seq<char>| #[trigger] lookup(none, key) is None);
    lemma_set(none, "query"@, text);
    law_put_ascending(none, "query"@, text);
    lemma_set(put(none, "query"@, text), "variables"@, object);
    let m = graphql_content(content_in(op), body.graphql);
    lemma_set(content_in(op), t, lookup(m, t)->0);
    let held_at = match lookup(content_in(op), t) {
        Some(b) => b,
        None => MediaTypeView::empty(),
    };
    if let Some(
        GraphQlBody::GraphQlBodyClass(GraphQlBodyClass { query: Some(query), variables }),
    ) = body.graphql {
        let empty = Seq::<(Seq<char>, JsonView)>::empty();
        let q = JsonView::String(query@);
        assert(forall|key: Seq<char>| #[trigger] lookup(empty, key) is None);
        lemma_set(empty, "query"@, q);
        law_put_ascending(empty, "query"@, q);
        let v = match variables {
            Some(text) => parsed(text@),
            None => None,
        };
        if let Some(v) = v {
            lemma_set(put(empty, "query"@, q), "variables"@, v);
        }
        let own = MediaTypeView {
            schema: Some(RefView::Object(graphql_schema())),
            examples: Some(MediaTypeExampleView::Example { example: graphql_example(query@, v) }),
        };
        lemma_set(content_in(op), t, own);
        assert(lookup(content_in(after), t) == Some(own));
    } else {
        let own = MediaTypeView {
            schema: Some(RefView::Object(graphql_schema())),
            examples: held_at.examples,
        };
        lemma_set(content_in(op), t, own);
        assert(lookup(content_in(after), t) == Some(own));
    }
}

/// A body that is a file changes no media type. One of no known kind is any
/// bytes, unless the headers name another type.
pub proof fn law_other_body(
    ctx: Context,
    op: OperationView,
    body: Body,
    name: Seq<char>,
    content_type: Option<Seq<char>>,
)
    requires
        body.mode is None || body.mode == Some(Mode::File) || (body.mode == Some(Mode::Urlencoded)
            && body.urlencoded is None) || (body.mode == Some(Mode::Formdata) && body.formdata
            is None),
        ascending(content_in(op)),
    ensures
        with_body(ctx, op, body, name, content_type) matches Ok(after) && {
            let before = content_in(op);
            let content = content_in(after);
            let of = |t: Seq<char>|
                match lookup(before, t) {
                    Some(m) => Some(m),
                    None => Some(MediaTypeView::empty()),
                };
            &&& gives_body(op, after)
            &&& match body.mode {
                Some(Mode::Urlencoded) => {
                    let t = "application/x-www-form-urlencoded"@;
                    differs_in(before, content, t) && lookup(content, t) == of(t)
                },
                Some(Mode::Formdata) => {
                    let t = "multipart/form-data"@;
                    differs_in(before, content, t) && lookup(content, t) == of(t)
                },
                None => if content_type is None {
                    let t = "application/octet-stream"@;
                    differs_in(before, content, t) && lookup(content, t) == Some(
                        MediaTypeView::empty(),
                    )
                } else {
                    content == before
                },
                _ => content == before,
            }
        },
{
    let before = content_in(op);
    let u = "application/x-www-form-urlencoded"@;
    let f = "multipart/form-data"@;
    lemma_set(
        before,
        u,
        match lookup(before, u) {
            Some(m) => m,
            None => MediaTypeView::empty(),
        },
    );
    lemma_set(
        before,
        f,
        match lookup(before, f) {
            Some(m) => m,
            None => MediaTypeView::empty(),
        },
    );
    lemma_set(before, "application/octet-stream"@, MediaTypeView::empty());
}

} // verus!
