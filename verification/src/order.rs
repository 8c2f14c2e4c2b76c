//! The maps of a description: their keys stand in ascending order, none twice.

use vstd::prelude::*;

use crate::body::{
    body_content, fields_from, form_from, form_property, graphql_content, graphql_schema, held,
    raw_content, text_content, text_type, urlencoded_content, value_example, with_body,
    with_example, Content,
};
use crate::context::{resolution, Context};
use crate::json::{parsed, JsonView};
use crate::map::{
    ascending, key_at, law_put_ascending, law_put_at, lemma_key_at, lemma_place_from,
    lemma_same_keys, place_from, put, put_at,
};
use crate::notes::{listed_headers, or_empty, says_required};
use crate::number::signed_decimal;
use crate::openapi::v3_0::{
    ExampleView, HeaderView, MediaTypeExampleView, MediaTypeView, OperationView, ParameterView,
    RefView, ResponseView, SchemaView, SecuritySchemeView,
};
use crate::operations::{account, url_query, with_request};
use crate::parameters::{
    all_widened, combined_from, header_parameter, header_schema, headers_from, lemma_parameter_from,
    parameter_at, query_from, query_parameter, request_headers, takes, widened, with_header,
    with_query, Parameters,
};
use crate::postman;
use crate::postman::{
    Auth, Body, BodyOptions, FormParameter, HeaderElement, HeaderUnion, Headers, Items, Mode,
    QueryParam, RequestClass, ResponseClass, UrlClass, UrlEncodedParameter,
};
use crate::responses::{
    content_of, examples_from, merged_content, merged_media, merged_response, new_response,
    original_body, response_headers_from, saved_from, with_original, with_response, with_responses,
    with_saved, HeaderMap, Responses,
};
use crate::schema::{generated, items_from, merged, merged_known, properties_from, with_missing};
use crate::security::{scheme, scheme_name, schemes, scopes_from, scopes_of, with_scheme, Schemes};
use crate::state::StateView;
use crate::text::pieces;

verus! {

/// `w` is one of the values of the map.
pub open spec fn is_value<W>(m: Seq<(Seq<char>, W)>, w: W) -> bool {
    exists|j: int| 0 <= j < m.len() && (#[trigger] m[j]).1 == w
}

/// The values of a map after a value was put into it are that one and some of
/// those before.
proof fn lemma_put_values<W>(m: Seq<(Seq<char>, W)>, key: Seq<char>, value: W)
    ensures
        forall|i: int|
            0 <= i < put(m, key, value).len() ==> (#[trigger] put(m, key, value)[i]).1 == value
                || is_value(m, put(m, key, value)[i].1),
        forall|i: int|
            0 <= i < put_at(m, key, value).len() ==> (#[trigger] put_at(m, key, value)[i]).1
                == value || is_value(m, put_at(m, key, value)[i].1),
{
    lemma_place_from(m, key, 0);
    lemma_key_at(m, key);
    let k = place_from(m, key, 0);
    let r = put(m, key, value);
    assert forall|i: int| 0 <= i < r.len() implies (#[trigger] r[i]).1 == value || is_value(
        m,
        r[i].1,
    ) by {
        if i != k {
            let j = if k < m.len() && m[k].0 == key || i < k {
                i
            } else {
                i - 1
            };
            assert(m[j].1 == r[i].1);
        }
    }
    let s = put_at(m, key, value);
    assert forall|i: int| 0 <= i < s.len() implies (#[trigger] s[i]).1 == value || is_value(
        m,
        s[i].1,
    ) by {
        if let Some(j) = key_at(m, key) {
            if i != j {
                assert(m[i].1 == s[i].1);
            }
        } else {
            assert(s == r);
        }
    }
}

/// The properties stand in order, in the schema and in all schemas inside.
pub open spec fn ordered_schema(s: SchemaView) -> bool
    decreases s,
{
    &&& match s.properties {
        Some(p) => ascending(p) && forall|i: int|
            0 <= i < p.len() ==> ordered_schema((#[trigger] p[i]).1),
        None => true,
    }
    &&& match s.items {
        Some(items) => ordered_schema(*items),
        None => true,
    }
    &&& match s.any_of {
        Some(list) => forall|i: int|
            0 <= i < list.len() ==> match #[trigger] list[i] {
                RefView::Object(t) => ordered_schema(t),
                RefView::Ref { .. } => true,
            },
        None => true,
    }
}

/// The properties stand in order, and so do those inside.
pub open spec fn ordered_properties(p: Seq<(Seq<char>, SchemaView)>) -> bool {
    ascending(p) && forall|i: int| 0 <= i < p.len() ==> ordered_schema((#[trigger] p[i]).1)
}

proof fn lemma_put_property(p: Seq<(Seq<char>, SchemaView)>, key: Seq<char>, s: SchemaView)
    requires
        ordered_properties(p),
        ordered_schema(s),
    ensures
        ordered_properties(put(p, key, s)),
{
    law_put_ascending(p, key, s);
    lemma_put_values(p, key, s);
    let r = put(p, key, s);
    assert forall|i: int| 0 <= i < r.len() implies ordered_schema((#[trigger] r[i]).1) by {
        if r[i].1 != s {
            let j = choose|j: int| 0 <= j < p.len() && (#[trigger] p[j]).1 == r[i].1;
            assert(ordered_schema(p[j].1));
        }
    }
}

proof fn lemma_with_missing(
    acc: Seq<(Seq<char>, SchemaView)>,
    b: Seq<(Seq<char>, SchemaView)>,
    i: int,
)
    requires
        0 <= i,
        ordered_properties(acc),
        ordered_properties(b),
    ensures
        ordered_properties(with_missing(acc, b, i)),
    decreases b.len() - i,
{
    if i < b.len() {
        assert(ordered_schema(b[i].1));
        lemma_put_property(acc, b[i].0, b[i].1);
        lemma_with_missing(acc, b, i + 1);
        lemma_with_missing(put(acc, b[i].0, b[i].1), b, i + 1);
    }
}

/// Merging keeps the properties in order.
pub proof fn law_merged_ordered(a: SchemaView, b: SchemaView)
    requires
        ordered_schema(a),
        ordered_schema(b),
    ensures
        ordered_schema(merged(a, b)),
    decreases a,
{
    if let (Some(p), Some(q)) = (a.properties, b.properties) {
        let known = merged_known(p, q);
        lemma_same_keys(p);
        assert(forall|i: int| 0 <= i < p.len() ==> (#[trigger] known[i]).0 == p[i].0);
        assert(ascending(known)) by {
            lemma_ascending_keys(p, known);
        }
        assert forall|i: int| 0 <= i < known.len() implies ordered_schema(
            (#[trigger] known[i]).1,
        ) by {
            assert(ordered_schema(p[i].1));
            lemma_key_at(q, p[i].0);
            if let Some(k) = key_at(q, p[i].0) {
                assert(ordered_schema(q[k].1));
                law_merged_ordered(p[i].1, q[k].1);
            }
        }
        lemma_with_missing(known, q, 0);
    }
    let r = merged(a, b);
    if let Some(list) = a.any_of {
        let all = r.any_of->0;
        assert forall|i: int| 0 <= i < all.len() implies match #[trigger] all[i] {
            RefView::Object(t) => ordered_schema(t),
            RefView::Ref { .. } => true,
        } by {
            if i < list.len() {
                assert(all[i] == list[i]);
            }
        }
    } else if let Some(all) = r.any_of {
        let own = all[0]->Object_0;
        assert(ordered_schema(own));
        assert(all =~= seq![RefView::Object(own), RefView::Object(b)]);
    }
}

proof fn lemma_ascending_keys<W>(m: Seq<(Seq<char>, W)>, r: Seq<(Seq<char>, W)>)
    requires
        ascending(m),
        r.len() == m.len(),
        forall|i: int| 0 <= i < m.len() ==> (#[trigger] r[i]).0 == m[i].0,
    ensures
        ascending(r),
{
    lemma_same_keys(m);
}

proof fn lemma_properties_ordered(
    ctx: Context,
    entries: Seq<(Seq<char>, JsonView)>,
    i: int,
    properties: Seq<(Seq<char>, SchemaView)>,
    required: Seq<Seq<char>>,
)
    requires
        0 <= i,
        ordered_properties(properties),
    ensures
        properties_from(ctx, entries, i, properties, required) matches Ok((p, _))
            ==> ordered_properties(p),
    decreases entries, entries.len() - i,
{
    if i < entries.len() {
        let name = entries[i].0;
        law_generated_ordered(ctx, entries[i].1, name);
        if let Ok(own) = generated(ctx, entries[i].1, name) {
            if let Ok(desc) = ctx.describes(name) {
                lemma_put_property(properties, name, own);
                lemma_properties_ordered(
                    ctx,
                    entries,
                    i + 1,
                    put(properties, name, own),
                    if says_required(or_empty(desc)) {
                        required.push(name)
                    } else {
                        required
                    },
                );
            }
        }
    }
}

proof fn lemma_items_ordered(ctx: Context, values: Seq<JsonView>, i: int, items: SchemaView)
    requires
        0 <= i,
        ordered_schema(items),
    ensures
        items_from(ctx, values, i, items) matches Ok(r) ==> ordered_schema(r),
    decreases values, values.len() - i,
{
    if i < values.len() {
        law_generated_ordered(ctx, values[i], seq![]);
        if let Ok(own) = generated(ctx, values[i], seq![]) {
            law_merged_ordered(items, own);
            lemma_items_ordered(
                ctx,
                values,
                i + 1,
                if i == 0 {
                    own
                } else {
                    merged(items, own)
                },
            );
        }
    }
}

/// The schema of a value has its properties in order.
pub proof fn law_generated_ordered(ctx: Context, value: JsonView, key: Seq<char>)
    ensures
        generated(ctx, value, key) matches Ok(s) ==> ordered_schema(s),
    decreases value, 0int,
{
    match value {
        JsonView::Object(entries) => {
            lemma_properties_ordered(ctx, entries, 0, seq![], seq![]);
        },
        JsonView::Array(values) => {
            lemma_items_ordered(ctx, values, 0, SchemaView::empty());
        },
        _ => {},
    }
}

/// The schema is in order, and the examples stand in order.
pub open spec fn ordered_media(m: MediaTypeView) -> bool {
    &&& m.schema matches Some(RefView::Object(s)) ==> ordered_schema(s)
    &&& m.examples matches Some(MediaTypeExampleView::Examples { examples }) ==> ascending(examples)
}

/// The media types stand in order, and so do the maps in them.
pub open spec fn ordered_content(content: Content) -> bool {
    ascending(content) && forall|i: int|
        0 <= i < content.len() ==> ordered_media((#[trigger] content[i]).1)
}

proof fn lemma_put_media(content: Content, key: Seq<char>, m: MediaTypeView)
    requires
        ordered_content(content),
        ordered_media(m),
    ensures
        ordered_content(put(content, key, m)),
        ordered_content(put_at(content, key, m)),
{
    law_put_at(content, key, m);
    law_put_ascending(content, key, m);
    lemma_put_values(content, key, m);
    let r = put(content, key, m);
    assert forall|i: int| 0 <= i < r.len() implies ordered_media((#[trigger] r[i]).1) by {
        if r[i].1 != m {
            let j = choose|j: int| 0 <= j < content.len() && (#[trigger] content[j]).1 == r[i].1;
            assert(ordered_media(content[j].1));
        }
    }
}

proof fn lemma_held(content: Content, key: Seq<char>)
    requires
        ordered_content(content),
    ensures
        ordered_media(held(content, key)),
{
    lemma_key_at(content, key);
    if let Some(k) = key_at(content, key) {
        assert(ordered_media(content[k].1));
    }
}

proof fn lemma_with_example(m: MediaTypeView, name: Seq<char>, value: JsonView)
    requires
        ordered_media(m),
    ensures
        ordered_media(with_example(m, name, value)),
{
    match m.examples {
        None => {
            law_put_ascending(seq![], name, value_example(value));
        },
        Some(MediaTypeExampleView::Examples { examples }) => {
            law_put_ascending(examples, name, value_example(value));
        },
        _ => {},
    }
}

proof fn lemma_text_content(
    ctx: Context,
    content: Content,
    name: Seq<char>,
    text: Seq<char>,
    value: Option<JsonView>,
    options: Option<BodyOptions>,
)
    requires
        ordered_content(content),
    ensures
        text_content(ctx, content, name, text, value, options) matches Ok(r) ==> ordered_content(r),
{
    match value {
        Some(v) => {
            if v is Object || v is Array {
                law_generated_ordered(ctx, v, seq![]);
                if let Ok(schema) = generated(ctx, v, seq![]) {
                    let key = "application/json"@;
                    lemma_held(content, key);
                    let m = MediaTypeView {
                        schema: Some(RefView::Object(schema)),
                        ..held(content, key)
                    };
                    lemma_with_example(m, name, v);
                    lemma_put_media(content, key, with_example(m, name, v));
                }
            } else {
                let key = "application/octet-stream"@;
                lemma_held(content, key);
                lemma_with_example(held(content, key), name, JsonView::String(text));
                lemma_put_media(
                    content,
                    key,
                    with_example(held(content, key), name, JsonView::String(text)),
                );
            }
        },
        None => {
            let key = text_type(options);
            lemma_held(content, key);
            lemma_with_example(held(content, key), name, JsonView::String(text));
            lemma_put_media(
                content,
                key,
                with_example(held(content, key), name, JsonView::String(text)),
            );
        },
    }
}

proof fn lemma_raw_content(
    ctx: Context,
    content: Content,
    name: Seq<char>,
    raw: Option<Seq<char>>,
    options: Option<BodyOptions>,
)
    requires
        ordered_content(content),
    ensures
        raw_content(ctx, content, name, raw, options) matches Ok(r) ==> ordered_content(r),
{
    if let Some(raw) = raw {
        if let Ok(text) = resolution(ctx, raw) {
            lemma_text_content(ctx, content, name, text, parsed(text), options);
        }
    }
}

proof fn lemma_urlencoded_content(
    ctx: Context,
    content: Content,
    name: Seq<char>,
    urlencoded: Option<Vec<UrlEncodedParameter>>,
)
    requires
        ordered_content(content),
    ensures
        urlencoded_content(ctx, content, name, urlencoded) matches Ok(r) ==> ordered_content(r),
{
    let key = "application/x-www-form-urlencoded"@;
    lemma_held(content, key);
    match urlencoded {
        None => {
            lemma_put_media(content, key, held(content, key));
        },
        Some(params) => {
            let form = JsonView::Object(fields_from(params@, 0, seq![]));
            law_generated_ordered(ctx, form, seq![]);
            if let Ok(schema) = generated(ctx, form, seq![]) {
                let m = MediaTypeView {
                    schema: Some(RefView::Object(schema)),
                    ..held(content, key)
                };
                lemma_with_example(m, name, form);
                lemma_put_media(content, key, with_example(m, name, form));
            }
        },
    }
}

proof fn lemma_form_from(
    ctx: Context,
    params: Seq<FormParameter>,
    i: int,
    properties: Seq<(Seq<char>, SchemaView)>,
)
    requires
        0 <= i,
        ordered_properties(properties),
    ensures
        form_from(ctx, params, i, properties) matches Ok(r) ==> ordered_properties(r),
    decreases params.len() - i,
{
    if i < params.len() {
        match params[i].form_parameter_type {
            None => {
                lemma_form_from(ctx, params, i + 1, properties);
            },
            Some(t) => {
                if let Some(v) = params[i].value {
                    law_generated_ordered(ctx, JsonView::String(v@), seq![]);
                }
                if let Ok(property) = form_property(ctx, params[i], t@) {
                    assert(ordered_schema(property));
                    lemma_put_property(properties, params[i].key@, property);
                    lemma_form_from(
                        ctx,
                        params,
                        i + 1,
                        put(properties, params[i].key@, property),
                    );
                }
            },
        }
    }
}

/// The body of a request leaves what an operation takes in order.
pub proof fn law_body_ordered(
    ctx: Context,
    content: Content,
    body: Body,
    name: Seq<char>,
    content_type: Option<Seq<char>>,
)
    requires
        ordered_content(content),
    ensures
        body_content(ctx, content, body, name, content_type) matches Ok(r) ==> ordered_content(r),
{
    match body.mode {
        Some(Mode::Raw) => {
            lemma_raw_content(ctx, content, name, body.raw.deep_view(), body.options);
        },
        Some(Mode::Urlencoded) => {
            lemma_urlencoded_content(ctx, content, name, body.urlencoded);
        },
        Some(Mode::Formdata) => {
            let key = "multipart/form-data"@;
            lemma_held(content, key);
            lemma_put_media(content, key, held(content, key));
            if let Some(params) = body.formdata {
                lemma_form_from(ctx, params@, 0, seq![]);
                if let Ok(properties) = form_from(ctx, params@, 0, seq![]) {
                    let schema = SchemaView {
                        schema_type: Some("object"@),
                        properties: Some(properties),
                        ..SchemaView::empty()
                    };
                    assert(ordered_schema(schema));
                    lemma_put_media(
                        content,
                        key,
                        MediaTypeView {
                            schema: Some(RefView::Object(schema)),
                            ..held(content, key)
                        },
                    );
                }
            }
        },
        Some(Mode::GraphQl) => {
            let key = "application/json"@;
            lemma_held(content, key);
            let text = SchemaView { schema_type: Some("string"@), ..SchemaView::empty() };
            let object = SchemaView { schema_type: Some("object"@), ..SchemaView::empty() };
            assert(ordered_schema(text) && ordered_schema(object));
            lemma_put_property(seq![], "query"@, text);
            lemma_put_property(put(seq![], "query"@, text), "variables"@, object);
            assert(ordered_schema(graphql_schema()));
            let r = graphql_content(content, body.graphql);
            assert forall|m: MediaTypeView|
                ordered_media(m) implies ordered_content(#[trigger] put_at(content, key, m)) by {
                lemma_put_media(content, key, m);
            }
        },
        Some(Mode::File) => {},
        None => {
            lemma_put_media(content, "application/octet-stream"@, MediaTypeView::empty());
        },
    }
}

/// The headers stand in order, and so do the properties in their schemas.
pub open spec fn ordered_headers(headers: HeaderMap) -> bool {
    ascending(headers) && forall|i: int|
        0 <= i < headers.len() ==> ordered_header((#[trigger] headers[i]).1)
}

/// The schema of the header is in order.
pub open spec fn ordered_header(h: RefView<HeaderView>) -> bool {
    match h {
        RefView::Object(HeaderView { schema: Some(s) }) => ordered_schema(s),
        _ => true,
    }
}

/// The maps of a response stand in order.
pub open spec fn ordered_response(r: ResponseView) -> bool {
    &&& r.headers matches Some(headers) ==> ordered_headers(headers)
    &&& r.content matches Some(content) ==> ordered_content(content)
}

/// The responses stand in order, and so do the maps in them.
pub open spec fn ordered_responses(responses: Responses) -> bool {
    ascending(responses) && forall|i: int|
        0 <= i < responses.len() ==> ordered_response((#[trigger] responses[i]).1)
}

proof fn lemma_put_response(responses: Responses, key: Seq<char>, own: ResponseView)
    requires
        ordered_responses(responses),
        ordered_response(own),
    ensures
        ordered_responses(put(responses, key, own)),
        ordered_responses(put_at(responses, key, own)),
{
    law_put_at(responses, key, own);
    law_put_ascending(responses, key, own);
    lemma_put_values(responses, key, own);
    let r = put(responses, key, own);
    assert forall|i: int| 0 <= i < r.len() implies ordered_response((#[trigger] r[i]).1) by {
        if r[i].1 != own {
            let j = choose|j: int|
                0 <= j < responses.len() && (#[trigger] responses[j]).1 == r[i].1;
            assert(ordered_response(responses[j].1));
        }
    }
}

proof fn lemma_response_headers(
    ctx: Context,
    headers: Seq<HeaderElement>,
    i: int,
    acc: HeaderMap,
)
    requires
        0 <= i,
        ordered_headers(acc),
    ensures
        response_headers_from(ctx, headers, i, acc) matches Ok(r) ==> ordered_headers(r),
    decreases headers.len() - i,
{
    if i < headers.len() {
        lemma_response_headers(ctx, headers, i + 1, acc);
        if let HeaderElement::Header(h) = headers[i] {
            if let Ok(schema) = header_schema(ctx, h.key@, h.value@) {
                let own = RefView::Object(HeaderView { schema: Some(schema) });
                assert(ordered_header(own));
                law_put_ascending(acc, h.key@, own);
                lemma_put_values(acc, h.key@, own);
                let next = put(acc, h.key@, own);
                assert forall|k: int| 0 <= k < next.len() implies ordered_header(
                    (#[trigger] next[k]).1,
                ) by {
                    if next[k].1 != own {
                        let j = choose|j: int|
                            0 <= j < acc.len() && (#[trigger] acc[j]).1 == next[k].1;
                        assert(ordered_header(acc[j].1));
                    }
                }
                lemma_response_headers(ctx, headers, i + 1, next);
            }
        }
    }
}

/// The maps of a saved response stand in order.
pub proof fn lemma_new_response(ctx: Context, r: ResponseClass)
    ensures
        new_response(ctx, r) matches Ok(own) ==> ordered_response(own),
{
    if let Some(Headers::UnionArray(headers)) = r.header {
        lemma_response_headers(ctx, headers@, 0, seq![]);
    }
    let name = match r.name {
        Some(name) => name@,
        None => seq![],
    };
    lemma_raw_content(ctx, seq![], name, r.body.deep_view(), None);
}

proof fn lemma_examples_from(
    examples: Seq<(Seq<char>, RefView<ExampleView>)>,
    new: Seq<(Seq<char>, RefView<ExampleView>)>,
    i: int,
)
    requires
        ascending(examples),
    ensures
        ascending(examples_from(examples, new, i)),
    decreases new.len() - i,
{
    if i < new.len() {
        law_put_ascending(examples, new[i].0, new[i].1);
        lemma_examples_from(put(examples, new[i].0, new[i].1), new, i + 1);
    }
}

proof fn lemma_merged_media(a: MediaTypeView, b: MediaTypeView)
    requires
        ordered_media(a),
        ordered_media(b),
    ensures
        ordered_media(merged_media(a, b)),
{
    if let (Some(RefView::Object(s)), Some(RefView::Object(t))) = (a.schema, b.schema) {
        law_merged_ordered(s, t);
    }
    if let (
        Some(MediaTypeExampleView::Examples { examples }),
        Some(MediaTypeExampleView::Examples { examples: new }),
    ) = (a.examples, b.examples) {
        lemma_examples_from(examples, new, 0);
    }
}

proof fn lemma_merged_content(content: Content, new: Content, i: int)
    requires
        0 <= i,
        ordered_content(content),
        ordered_content(new),
    ensures
        ordered_content(merged_content(content, new, i)),
    decreases new.len() - i,
{
    if i < new.len() {
        let key = new[i].0;
        lemma_key_at(content, key);
        match key_at(content, key) {
            Some(k) => {
                assert(ordered_media(content[k].1) && ordered_media(new[i].1));
                let m = merged_media(content[k].1, new[i].1);
                lemma_merged_media(content[k].1, new[i].1);
                lemma_put_media(content, key, m);
                assert(put_at(content, key, m) == content.update(k, (key, m)));
                lemma_merged_content(put_at(content, key, m), new, i + 1);
            },
            None => {
                lemma_merged_content(content, new, i + 1);
            },
        }
    }
}

proof fn lemma_with_response(
    responses: Responses,
    code: Option<i64>,
    status: Option<Seq<char>>,
    own: ResponseView,
)
    requires
        ordered_responses(responses),
        ordered_response(own),
    ensures
        ordered_responses(with_response(responses, code, status, own)),
{
    if let Some(code) = code {
        let key = signed_decimal(code as int);
        lemma_key_at(responses, key);
        match key_at(responses, key) {
            Some(k) => {
                let a = responses[k].1;
                assert(ordered_response(a));
                lemma_merged_content(content_of(a), content_of(own), 0);
                lemma_put_response(responses, key, merged_response(a, own, status));
            },
            None => {
                lemma_put_response(responses, key, own);
            },
        }
    }
}

/// The maps of an operation stand in order: its responses, the media types of
/// its bodies, their examples, and the properties of all schemas.
pub open spec fn ordered_operation(op: OperationView) -> bool {
    &&& op.request_body matches Some(RefView::Object(body)) ==> ordered_content(body.content)
    &&& ordered_responses(op.responses)
    &&& op.parameters matches Some(params) ==> ordered_parameters(params)
}

/// The schemas of the parameters are in order.
pub open spec fn ordered_parameters(params: Parameters) -> bool {
    forall|i: int| 0 <= i < params.len() ==> ordered_parameter(#[trigger] params[i])
}

/// The schema of the parameter is in order.
pub open spec fn ordered_parameter(p: RefView<ParameterView>) -> bool {
    match p {
        RefView::Object(p) => p.schema matches Some(s) ==> ordered_schema(s),
        RefView::Ref { .. } => true,
    }
}

proof fn lemma_with_body(
    ctx: Context,
    op: OperationView,
    body: Body,
    name: Seq<char>,
    content_type: Option<Seq<char>>,
)
    requires
        ordered_operation(op),
    ensures
        with_body(ctx, op, body, name, content_type) matches Ok(r) ==> ordered_operation(r),
{
    let content = match op.request_body {
        Some(RefView::Object(own)) => own.content,
        _ => seq![],
    };
    law_body_ordered(ctx, content, body, name, content_type);
}

proof fn lemma_saved_from(
    ctx: Context,
    op: OperationView,
    name: Seq<char>,
    saved: Seq<Option<ResponseClass>>,
    i: int,
)
    requires
        0 <= i,
        ordered_operation(op),
    ensures
        saved_from(ctx, op, name, saved, i) matches Ok(r) ==> ordered_operation(r),
    decreases saved.len() - i,
{
    if i < saved.len() {
        match saved[i] {
            None => {
                lemma_saved_from(ctx, op, name, saved, i + 1);
            },
            Some(r) => {
                if let Some(body) = original_body(r) {
                    lemma_with_body(ctx, op, body, name, Some(text_type(body.options)));
                }
                lemma_new_response(ctx, r);
                if let Ok(next) = with_saved(ctx, op, name, r) {
                    let between = with_original(ctx, op, name, r)->Ok_0;
                    let own = new_response(ctx, r)->Ok_0;
                    lemma_with_response(between.responses, r.code, r.status.deep_view(), own);
                    lemma_saved_from(ctx, next, name, saved, i + 1);
                }
            },
        }
    }
}

proof fn lemma_with_responses(
    ctx: Context,
    op: OperationView,
    name: Seq<char>,
    saved: Option<Vec<Option<ResponseClass>>>,
)
    requires
        ordered_operation(op),
    ensures
        with_responses(ctx, op, name, saved) matches Ok(r) ==> ordered_operation(r),
{
    let list = match saved {
        Some(saved) => saved@,
        None => seq![],
    };
    lemma_saved_from(ctx, op, name, list, 0);
    if let Ok(own) = saved_from(ctx, op, name, list, 0) {
        lemma_put_response(
            own.responses,
            "200"@,
            ResponseView { description: Some(seq![]), ..ResponseView::empty() },
        );
    }
}

proof fn lemma_query_from(ctx: Context, query: Seq<QueryParam>, i: int, params: Parameters)
    requires
        0 <= i,
        ordered_parameters(params),
    ensures
        query_from(ctx, query, i, params) matches Ok(r) ==> ordered_parameters(r),
    decreases query.len() - i,
{
    if i < query.len() {
        lemma_query_from(ctx, query, i + 1, params);
        if let Some(key) = query[i].key.deep_view() {
            if let Ok(q) = query_parameter(ctx, key, query[i].value.deep_view()) {
                assert(ordered_schema(q.schema->0));
                lemma_query_from(ctx, query, i + 1, params.push(RefView::Object(q)));
            }
        }
    }
}

proof fn lemma_widened(p: ParameterView, q: ParameterView)
    requires
        ordered_parameter(RefView::Object(p)),
        ordered_parameter(RefView::Object(q)),
    ensures
        ordered_parameter(RefView::Object(widened(p, q))),
{
    if let (Some(a), Some(b)) = (p.schema, q.schema) {
        law_merged_ordered(a, b);
    }
}

proof fn lemma_combined_from(params: Parameters, new: Parameters, i: int)
    requires
        0 <= i,
        ordered_parameters(params),
        ordered_parameters(new),
    ensures
        ordered_parameters(combined_from(params, new, i)),
    decreases new.len() - i,
{
    if i < new.len() {
        assert(ordered_parameter(new[i]));
        match new[i] {
            RefView::Ref { .. } => {
                lemma_combined_from(params, new, i + 1);
            },
            RefView::Object(q) => {
                lemma_parameter_from(params, q.location, q.name, 0);
                match parameter_at(params, q.location, q.name) {
                    Some(k) => {
                        assert(ordered_parameter(params[k]));
                        lemma_widened(params[k]->Object_0, q);
                        lemma_combined_from(
                            params.update(
                                k,
                                RefView::Object(widened(params[k]->Object_0, q)),
                            ),
                            new,
                            i + 1,
                        );
                    },
                    None => {
                        lemma_combined_from(params.push(RefView::Object(q)), new, i + 1);
                    },
                }
            },
        }
    }
}

proof fn lemma_with_header(params: Option<Parameters>, h: ParameterView)
    requires
        params matches Some(p) ==> ordered_parameters(p),
        ordered_parameter(RefView::Object(h)),
    ensures
        ordered_parameters(with_header(params, h)),
{
    if let Some(p) = params {
        let r = all_widened(p, h);
        assert forall|i: int| 0 <= i < r.len() implies ordered_parameter(#[trigger] r[i]) by {
            assert(ordered_parameter(p[i]));
            if takes(p[i], h) {
                lemma_widened(p[i]->Object_0, h);
            }
        }
        assert forall|i: int|
            0 <= i < p.push(RefView::Object(h)).len() implies ordered_parameter(
            #[trigger] p.push(RefView::Object(h))[i],
        ) by {
            if i < p.len() {
                assert(ordered_parameter(p[i]));
            }
        }
    }
}

proof fn lemma_headers_from(
    ctx: Context,
    listed: Seq<Seq<char>>,
    headers: Seq<postman::Header>,
    i: int,
    params: Option<Parameters>,
    content_type: Option<Seq<char>>,
)
    requires
        0 <= i,
        params matches Some(p) ==> ordered_parameters(p),
    ensures
        headers_from(ctx, listed, headers, i, params, content_type) matches Ok((Some(r), _))
            ==> ordered_parameters(r),
    decreases headers.len() - i,
{
    if i < headers.len() {
        let h = headers[i];
        lemma_headers_from(ctx, listed, headers, i + 1, params, content_type);
        let own = Some(pieces(h.value@, ';')[0]);
        lemma_headers_from(ctx, listed, headers, i + 1, params, own);
        if let Ok(schema) = header_schema(ctx, h.key@, h.value@) {
            assert(ordered_schema(schema));
            let p = header_parameter(h, schema);
            lemma_with_header(params, p);
            lemma_headers_from(
                ctx,
                listed,
                headers,
                i + 1,
                Some(with_header(params, p)),
                content_type,
            );
        }
    }
}

/// What a request says leaves the maps of an operation in order.
pub proof fn law_request_ordered(
    ctx: Context,
    op: OperationView,
    item: Items,
    request: RequestClass,
    name: Seq<char>,
    url: UrlClass,
    first: bool,
    tags: Seq<Seq<char>>,
)
    requires
        ordered_operation(op),
    ensures
        with_request(ctx, op, item, request, name, url, first, tags) matches Ok(r)
            ==> ordered_operation(r),
{
    if let Ok(query) = url_query(ctx, url) {
        if let Some(q) = url.query {
            lemma_query_from(ctx, q@, 0, seq![]);
        }
        if let (Some(a), Some(b)) = (op.parameters, query) {
            lemma_combined_from(a, b, 0);
        }
        let params = with_query(op.parameters, query);
        if let Some(HeaderUnion::HeaderArray(headers)) = request.header {
            lemma_headers_from(
                ctx,
                listed_headers(ctx.description),
                headers@,
                0,
                params,
                None,
            );
        }
        if let Ok((parameters, content_type)) = request_headers(ctx, request.header, params) {
            let op1 = OperationView { parameters, ..op };
            if let Some(body) = request.body {
                lemma_with_body(ctx, op1, body, name, content_type);
            }
            let op2 = match request.body {
                Some(body) => with_body(ctx, op1, body, name, content_type),
                None => Ok(op1),
            };
            if let Ok(op2) = op2 {
                let op3 = OperationView {
                    summary: if first {
                        Some(name)
                    } else {
                        op2.summary
                    },
                    description: if first {
                        Some(account(request, name))
                    } else {
                        op2.description
                    },
                    tags: if tags.len() > 0 {
                        Some(tags)
                    } else {
                        op2.tags
                    },
                    ..op2
                };
                lemma_with_responses(ctx, op3, name, item.response);
            }
        }
    }
}

/// The scopes of the scheme stand in order.
pub open spec fn ordered_scheme(s: RefView<SecuritySchemeView>) -> bool {
    match s {
        RefView::Object(SecuritySchemeView::OAuth2 { flows: own }) => {
            &&& own.authorization_code matches Some(f) ==> ascending(f.scopes)
            &&& own.client_credentials matches Some(f) ==> ascending(f.scopes)
            &&& own.password matches Some(f) ==> ascending(f.scopes)
            &&& own.implicit matches Some(f) ==> ascending(f.scopes)
        },
        _ => true,
    }
}

/// The schemes stand in order, and so do their scopes.
pub open spec fn ordered_schemes(known: Schemes) -> bool {
    ascending(known) && forall|i: int|
        0 <= i < known.len() ==> ordered_scheme((#[trigger] known[i]).1)
}

proof fn lemma_scopes_from(
    ctx: Context,
    scopes: Seq<Seq<char>>,
    i: int,
    acc: Seq<(Seq<char>, Seq<char>)>,
)
    requires
        ascending(acc),
    ensures
        scopes_from(ctx, scopes, i, acc) matches Ok(r) ==> ascending(r),
    decreases scopes.len() - i,
{
    if i < scopes.len() {
        if let Ok(scope) = resolution(ctx, scopes[i]) {
            law_put_ascending(acc, scope, scope);
            lemma_scopes_from(ctx, scopes, i + 1, put(acc, scope, scope));
        }
    }
}

/// Declaring the scheme of an authorization leaves the schemes in order.
pub proof fn law_schemes_ordered(ctx: Context, state: StateView, auth: Auth)
    requires
        ordered_schemes(schemes(state.oas.components)),
    ensures
        with_scheme(ctx, state, auth) matches Ok(after) ==> ordered_schemes(
            schemes(after.oas.components),
        ),
{
    if let Ok(Some(own)) = scheme(ctx, auth) {
        let known = schemes(state.oas.components);
        let name = scheme_name(auth);
        if let Some(oauth2) = auth.oauth2 {
            lemma_scopes_from(ctx, scopes_of(oauth2), 0, seq![]);
        }
        assert(ordered_scheme(RefView::Object(own)));
        law_put_ascending(known, name, RefView::Object(own));
        lemma_put_values(known, name, RefView::Object(own));
        let r = put(known, name, RefView::Object(own));
        assert forall|i: int| 0 <= i < r.len() implies ordered_scheme((#[trigger] r[i]).1) by {
            if r[i].1 != RefView::Object(own) {
                let j = choose|j: int| 0 <= j < known.len() && (#[trigger] known[j]).1 == r[i].1;
                assert(ordered_scheme(known[j].1));
            }
        }
    }
}

} // verus!
