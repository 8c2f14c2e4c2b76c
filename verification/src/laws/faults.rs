//! When there is a fault, and when there is none.

use vstd::prelude::*;

use crate::body::{fields_from, form_from, form_property, text_type, with_body};
use crate::casing::lowercase;
use crate::collection::{
    collection_context, entered, left, path_of, request_name, start, transpiled, with_auth,
    with_folder, with_item, with_items, with_root, with_server,
};
use crate::context::{resolution, Context};
use crate::fault::Fault;
use crate::json::{parsed, JsonView};
use crate::laws::authorizations::address_text;
use crate::laws::bodies::lemma_part;
use crate::laws::parameters::{
    all_places, all_query, is_first_key, is_named, lemma_names, lemma_variable, names_of,
};
use crate::laws::requests::method_in;
use crate::laws::responses::is_shown;
use crate::laws::variables::host_text;
use crate::laws::{law_slot, operations, place};
use crate::map::{lookup, put};
use crate::notes::{listed_headers, or_empty, says_required};
use crate::number::is_not_finite;
use crate::openapi::v3_0::{
    HeaderView, OperationView, PathItemView, RefView, SchemaView, SecurityRequirementView, SpecView,
};
use crate::operations::{
    account, method_of, new_id, path_key, segments_from, slot, with_operation, with_request,
};
use crate::parameters::{
    header_parameter, header_schema, headers_from, is_skipped, parameter_at, path_parameters,
    path_parameters_from, place_example, place_parameter, places_from, query_from, query_parameter,
    query_parameters, request_headers, variable_named, with_header, with_query, Parameters,
};
use crate::pattern::{places, value_from};
use crate::postman;
use crate::postman::{
    Auth, AuthType, Body, HeaderElement, Headers, Host, Items, Mode, PathElement, QueryParam,
    RequestClass, RequestUnion, ResponseClass, Url, UrlClass, Variable,
};
use crate::responses::{new_response, response_headers_from, saved_from, with_saved, HeaderMap};
use crate::schema::{generated, items_from, merged, properties_from};
use crate::security::{scopes_from, with_requirements, with_scheme};
use crate::state::StateView;
use crate::text::{joined, pieces};

verus! {

/// The note behind the mark, where there is one, is no number or a finite one.
pub open spec fn is_readable(text: Seq<char>, mark: Seq<char>) -> bool {
    value_from(text, mark, 0) matches Some(value) ==> !is_not_finite(value)
}

/// The key can be described, and the notes in its description can be read.
pub open spec fn is_clear(ctx: Context, key: Seq<char>, bounds: bool) -> bool {
    ctx.describes(key) matches Ok(desc) && is_readable(or_empty(desc), "[default: "@) && (bounds
        ==> is_readable(or_empty(desc), "[min: "@) && is_readable(or_empty(desc), "[max: "@))
}

/// The value has a schema: its key is clear, and so are those of all values in
/// it. The items of an array have no key.
pub open spec fn has_schema_for(ctx: Context, v: JsonView, key: Seq<char>) -> bool
    decreases v,
{
    match v {
        JsonView::Null => true,
        JsonView::String(_) | JsonView::Bool(_) => is_clear(ctx, key, false),
        JsonView::Number(_) => is_clear(ctx, key, true),
        JsonView::Array(values) => ctx.describes(key) is Ok && forall|i: int|
            0 <= i < values.len() ==> has_schema_for(ctx, #[trigger] values[i], seq![]),
        JsonView::Object(entries) => forall|i: int|
            0 <= i < entries.len() ==> has_schema_for(
                ctx,
                (#[trigger] entries[i]).1,
                entries[i].0,
            ) && ctx.describes(entries[i].0) is Ok,
    }
}

proof fn lemma_properties_ok(
    ctx: Context,
    entries: Seq<(Seq<char>, JsonView)>,
    i: int,
    properties: Seq<(Seq<char>, SchemaView)>,
    required: Seq<Seq<char>>,
)
    requires
        0 <= i,
    ensures
        properties_from(ctx, entries, i, properties, required) is Ok <==> forall|k: int|
            i <= k < entries.len() ==> has_schema_for(
                ctx,
                (#[trigger] entries[k]).1,
                entries[k].0,
            ) && ctx.describes(entries[k].0) is Ok,
    decreases entries, entries.len() - i,
{
    if i < entries.len() {
        law_generated_ok(ctx, entries[i].1, entries[i].0);
        if let Ok(own) = generated(ctx, entries[i].1, entries[i].0) {
            if let Ok(desc) = ctx.describes(entries[i].0) {
                lemma_properties_ok(
                    ctx,
                    entries,
                    i + 1,
                    put(properties, entries[i].0, own),
                    if says_required(or_empty(desc)) {
                        required.push(entries[i].0)
                    } else {
                        required
                    },
                );
            }
        }
    }
}

proof fn lemma_items_ok(ctx: Context, values: Seq<JsonView>, i: int, items: SchemaView)
    requires
        0 <= i,
    ensures
        items_from(ctx, values, i, items) is Ok <==> forall|k: int|
            i <= k < values.len() ==> has_schema_for(ctx, #[trigger] values[k], seq![]),
    decreases values, values.len() - i,
{
    if i < values.len() {
        law_generated_ok(ctx, values[i], seq![]);
        if let Ok(own) = generated(ctx, values[i], seq![]) {
            lemma_items_ok(
                ctx,
                values,
                i + 1,
                if i == 0 {
                    own
                } else {
                    merged(items, own)
                },
            );
        }
    }
}

/// A value has a schema unless a key in it cannot be described or the notes on
/// it cannot be read.
pub proof fn law_generated_ok(ctx: Context, v: JsonView, key: Seq<char>)
    ensures
        generated(ctx, v, key) is Ok <==> has_schema_for(ctx, v, key),
    decreases v, 0int,
{
    match v {
        JsonView::Object(entries) => {
            lemma_properties_ok(ctx, entries, 0, seq![], seq![]);
        },
        JsonView::Array(values) => {
            lemma_items_ok(ctx, values, 0, SchemaView::empty());
        },
        _ => {},
    }
}

/// A raw text can be read where its variables can be replaced and, if it reads
/// as an object or an array, that has a schema.
pub open spec fn can_be_read(ctx: Context, raw: Seq<char>) -> bool {
    resolution(ctx, raw) matches Ok(text) && (parsed(text) matches Some(v) ==> (v is Object || v
        is Array ==> has_schema_for(ctx, v, seq![])))
}

/// A body can be described unless its raw text cannot be read, or a field of a
/// form in an address-like encoding has no schema.
pub proof fn law_body_ok(
    ctx: Context,
    op: OperationView,
    body: Body,
    name: Seq<char>,
    content_type: Option<Seq<char>>,
)
    ensures
        with_body(ctx, op, body, name, content_type) is Ok <==> {
            &&& body.mode == Some(Mode::Raw) ==> (body.raw matches Some(raw) ==> can_be_read(
                ctx,
                raw@,
            ))
            &&& body.mode == Some(Mode::Urlencoded) ==> (body.urlencoded matches Some(params)
                ==> has_schema_for(
                ctx,
                JsonView::Object(fields_from(params@, 0, seq![])),
                seq![],
            ))
        },
{
    if let Some(raw) = body.raw {
        if let Ok(text) = resolution(ctx, raw@) {
            if let Some(v) = parsed(text) {
                law_generated_ok(ctx, v, seq![]);
            }
        }
    }
    if let Some(params) = body.urlencoded {
        law_generated_ok(ctx, JsonView::Object(fields_from(params@, 0, seq![])), seq![]);
    }
    if let Some(params) = body.formdata {
        lemma_form_ok(ctx, params@, 0, seq![]);
    }
}

proof fn lemma_form_ok(
    ctx: Context,
    params: Seq<postman::FormParameter>,
    i: int,
    properties: Seq<(Seq<char>, SchemaView)>,
)
    ensures
        form_from(ctx, params, i, properties) is Ok,
    decreases params.len() - i,
{
    if i < params.len() {
        match params[i].form_parameter_type {
            None => {
                lemma_form_ok(ctx, params, i + 1, properties);
            },
            Some(t) => {
                lemma_part(ctx, params[i], t@);
                let s = form_property(ctx, params[i], t@)->Ok_0;
                lemma_form_ok(ctx, params, i + 1, put(properties, params[i].key@, s));
            },
        }
    }
}

/// A header has a schema where its name can be described and its value can be
/// read; the secret one need not be read.
pub open spec fn header_is_clear(ctx: Context, name: Seq<char>, value: Seq<char>) -> bool {
    ctx.describes(name) is Ok && (name != "X-RapidAPI-Key"@ ==> !is_not_finite(value))
}

/// A header has a schema exactly where it is clear.
pub proof fn law_header_ok(ctx: Context, name: Seq<char>, value: Seq<char>)
    ensures
        header_schema(ctx, name, value) is Ok <==> header_is_clear(ctx, name, value),
{
}

proof fn lemma_headers_ok(ctx: Context, headers: Seq<HeaderElement>, i: int, acc: HeaderMap)
    requires
        0 <= i,
    ensures
        response_headers_from(ctx, headers, i, acc) is Ok <==> forall|k: int|
            i <= k < headers.len() && is_shown(ctx, #[trigger] headers[k]) ==> header_is_clear(
                ctx,
                headers[k]->Header_0.key@,
                headers[k]->Header_0.value@,
            ),
    decreases headers.len() - i,
{
    if i < headers.len() {
        if is_shown(ctx, headers[i]) {
            let h = headers[i]->Header_0;
            law_header_ok(ctx, h.key@, h.value@);
            if let Ok(schema) = header_schema(ctx, h.key@, h.value@) {
                lemma_headers_ok(
                    ctx,
                    headers,
                    i + 1,
                    put(acc, h.key@, RefView::Object(HeaderView { schema: Some(schema) })),
                );
            }
        } else {
            lemma_headers_ok(ctx, headers, i + 1, acc);
        }
    }
}

/// A saved response can be described where each header that is shown is clear
/// and its body can be read.
pub proof fn law_response_ok(ctx: Context, r: ResponseClass)
    ensures
        new_response(ctx, r) is Ok <==> {
            &&& r.header matches Some(Headers::UnionArray(headers)) ==> forall|k: int|
                0 <= k < headers@.len() && is_shown(ctx, #[trigger] headers@[k])
                    ==> header_is_clear(
                    ctx,
                    headers@[k]->Header_0.key@,
                    headers@[k]->Header_0.value@,
                )
            &&& r.body matches Some(body) ==> can_be_read(ctx, body@)
        },
{
    if let Some(Headers::UnionArray(headers)) = r.header {
        lemma_headers_ok(ctx, headers@, 0, seq![]);
    }
    if let Some(body) = r.body {
        if let Ok(text) = resolution(ctx, body@) {
            if let Some(v) = parsed(text) {
                law_generated_ok(ctx, v, seq![]);
            }
        }
    }
}

/// A saved response can be taken where it can be described, and so can the
/// body of the request that it came to.
pub proof fn law_saved_ok(ctx: Context, op: OperationView, name: Seq<char>, r: ResponseClass)
    ensures
        with_saved(ctx, op, name, r) is Ok <==> new_response(ctx, r) is Ok && (
        r.original_request matches Some(request) ==> (request.body matches Some(body) ==> with_body(
            ctx,
            op,
            body,
            name,
            Some(text_type(body.options)),
        ) is Ok)),
{
}

proof fn lemma_scopes_ok(
    ctx: Context,
    scopes: Seq<Seq<char>>,
    i: int,
    acc: Seq<(Seq<char>, Seq<char>)>,
)
    requires
        0 <= i,
    ensures
        scopes_from(ctx, scopes, i, acc) is Ok <==> forall|k: int|
            i <= k < scopes.len() ==> resolution(ctx, #[trigger] scopes[k]) is Ok,
    decreases scopes.len() - i,
{
    if i < scopes.len() {
        if let Ok(scope) = resolution(ctx, scopes[i]) {
            lemma_scopes_ok(ctx, scopes, i + 1, put(acc, scope, scope));
        }
    }
}

/// The text can be resolved, where there is one.
pub open spec fn can_resolve(ctx: Context, text: Option<String>) -> bool {
    text matches Some(text) ==> resolution(ctx, text@) is Ok
}

/// The scheme of an authorization can be declared where the variables in the
/// name of its key, or in the addresses and scopes of OAuth 2, can be replaced.
pub proof fn law_scheme_ok(ctx: Context, state: StateView, auth: Auth)
    ensures
        with_scheme(ctx, state, auth) is Ok <==> {
            &&& auth.auth_type == AuthType::Apikey ==> (auth.apikey matches Some(apikey) ==> (
            match apikey.key {
                Some(key) => resolution(ctx, key@) is Ok,
                None => resolution(ctx, "Authorization"@) is Ok,
            }))
            &&& auth.auth_type == AuthType::Oauth2 ==> (auth.oauth2 matches Some(oauth2) ==> {
                &&& resolution(ctx, address_text(oauth2.auth_url))
                    is Ok
                &&& resolution(
                    ctx,
                    address_text(oauth2.access_token_url),
                ) is Ok
                &&& can_resolve(ctx, oauth2.refresh_token_url)
                &&& oauth2.scope matches Some(list) ==> forall|k: int|
                    0 <= k < list@.len() ==> resolution(ctx, (#[trigger] list@[k])@) is Ok
            })
        },
{
    if let Some(oauth2) = auth.oauth2 {
        if let Some(list) = oauth2.scope {
            let all = list.deep_view();
            lemma_scopes_ok(ctx, all, 0, seq![]);
            assert((forall|k: int| 0 <= k < all.len() ==> resolution(ctx, #[trigger] all[k]) is Ok)
                <==> (forall|k: int|
                0 <= k < list@.len() ==> resolution(ctx, (#[trigger] list@[k])@) is Ok)) by {
                if forall|k: int| 0 <= k < all.len() ==> resolution(ctx, #[trigger] all[k]) is Ok {
                    assert forall|k: int| 0 <= k < list@.len() implies resolution(
                        ctx,
                        (#[trigger] list@[k])@,
                    ) is Ok by {
                        assert(resolution(ctx, all[k]) is Ok);
                    }
                }
                if forall|k: int|
                    0 <= k < list@.len() ==> resolution(ctx, (#[trigger] list@[k])@) is Ok {
                    assert forall|k: int| 0 <= k < all.len() implies resolution(
                        ctx,
                        #[trigger] all[k],
                    ) is Ok by {
                        assert(resolution(ctx, list@[k]@) is Ok);
                    }
                }
            }
        } else {
            lemma_scopes_ok(ctx, seq![], 0, seq![]);
        }
    }
}

/// A key of a query has a parameter where it is clear and its value can be read.
pub open spec fn query_is_clear(ctx: Context, q: QueryParam) -> bool {
    q.key matches Some(key) ==> is_clear(ctx, key@, true) && (q.value matches Some(value) ==> (
    resolution(ctx, value@) matches Ok(text) && !is_not_finite(text)))
}

/// The key at `n` stands neither among the names nor at or after `i` before `n`.
spec fn is_new_key(
    query: Seq<QueryParam>,
    i: int,
    names: Seq<Seq<char>>,
    n: int,
) -> bool {
    &&& i <= n < query.len()
    &&& query[n].key is Some
    &&& !names.contains(query[n].key->0@)
    &&& forall|j: int|
        i <= j < n ==> (#[trigger] query[j]).key.deep_view() != Some(query[n].key->0@)
}

/// Each new key is clear.
spec fn all_clear(ctx: Context, query: Seq<QueryParam>, i: int, names: Seq<Seq<char>>) -> bool {
    forall|n: int| #[trigger] is_new_key(query, i, names, n) ==> query_is_clear(ctx, query[n])
}

proof fn lemma_known_key(ctx: Context, query: Seq<QueryParam>, i: int, names: Seq<Seq<char>>)
    requires
        0 <= i < query.len(),
        query[i].key matches Some(key) ==> names.contains(key@),
    ensures
        all_clear(ctx, query, i, names) == all_clear(ctx, query, i + 1, names),
{
    if all_clear(ctx, query, i, names) {
        assert forall|n: int| #[trigger] is_new_key(query, i + 1, names, n) implies query_is_clear(
            ctx,
            query[n],
        ) by {
            assert(is_new_key(query, i, names, n));
        }
    }
    if all_clear(ctx, query, i + 1, names) {
        assert forall|n: int| #[trigger] is_new_key(query, i, names, n) implies query_is_clear(
            ctx,
            query[n],
        ) by {
            assert(is_new_key(query, i + 1, names, n));
        }
    }
}

proof fn lemma_new_key(ctx: Context, query: Seq<QueryParam>, i: int, names: Seq<Seq<char>>)
    requires
        0 <= i < query.len(),
        query[i].key matches Some(key) && !names.contains(key@),
    ensures
        all_clear(ctx, query, i, names) <==> query_is_clear(ctx, query[i]) && all_clear(
            ctx,
            query,
            i + 1,
            names.push(query[i].key->0@),
        ),
{
    let own = query[i].key->0@;
    let next = names.push(own);
    assert(is_new_key(query, i, names, i));
    assert(next[names.len() as int] == own);
    if all_clear(ctx, query, i, names) {
        assert forall|n: int| #[trigger] is_new_key(query, i + 1, next, n) implies query_is_clear(
            ctx,
            query[n],
        ) by {
            let key = query[n].key->0@;
            if names.contains(key) {
                let k = choose|k: int| 0 <= k < names.len() && names[k] == key;
                assert(next[k] == key);
            }
            assert(is_new_key(query, i, names, n));
        }
    }
    if query_is_clear(ctx, query[i]) && all_clear(ctx, query, i + 1, next) {
        assert forall|n: int| #[trigger] is_new_key(query, i, names, n) implies query_is_clear(
            ctx,
            query[n],
        ) by {
            if n != i {
                let key = query[n].key->0@;
                assert(query[i].key.deep_view() != Some(key));
                if next.contains(key) {
                    let k = choose|k: int| 0 <= k < next.len() && next[k] == key;
                    if k < names.len() {
                        assert(names[k] == key);
                    }
                }
                assert(is_new_key(query, i + 1, next, n));
            }
        }
    }
}

proof fn lemma_query_ok(ctx: Context, query: Seq<QueryParam>, i: int, params: Parameters)
    requires
        0 <= i,
        all_query(params),
    ensures
        query_from(ctx, query, i, params) is Ok <==> all_clear(ctx, query, i, names_of(params)),
    decreases query.len() - i,
{
    let names = names_of(params);
    if i < query.len() {
        match query[i].key {
            None => {
                lemma_known_key(ctx, query, i, names);
                lemma_query_ok(ctx, query, i + 1, params);
            },
            Some(own_key) => {
                let own = own_key@;
                lemma_names(params, own);
                if parameter_at(params, "query"@, own) is Some {
                    lemma_known_key(ctx, query, i, names);
                    lemma_query_ok(ctx, query, i + 1, params);
                } else {
                    lemma_new_key(ctx, query, i, names);
                    assert(query_parameter(ctx, own, query[i].value.deep_view()) is Ok
                        <==> query_is_clear(ctx, query[i]));
                    if let Ok(q) = query_parameter(ctx, own, query[i].value.deep_view()) {
                        let next = params.push(RefView::Object(q));
                        assert(names_of(next) =~= names.push(own));
                        lemma_query_ok(ctx, query, i + 1, next);
                    }
                }
            },
        }
    }
}

/// The parameters of a query can be described where each of its keys is clear
/// where it stands first.
pub proof fn law_query_ok(ctx: Context, query: Seq<QueryParam>)
    ensures
        query_parameters(ctx, query) is Ok <==> forall|n: int, key: Seq<char>| #[trigger]
            is_first_key(query, n, key) ==> query_is_clear(ctx, query[n]),
{
    lemma_query_ok(ctx, query, 0, seq![]);
    let none = names_of(seq![]);
    assert(none =~= seq![]);
    if forall|n: int, key: Seq<char>| #[trigger]
        is_first_key(query, n, key) ==> query_is_clear(ctx, query[n]) {
        assert forall|n: int| #[trigger] is_new_key(query, 0, none, n) implies query_is_clear(
            ctx,
            query[n],
        ) by {
            assert(is_first_key(query, n, query[n].key->0@));
        }
    }
    if forall|n: int| #[trigger]
        is_new_key(query, 0, none, n) ==> query_is_clear(ctx, query[n]) {
        assert forall|n: int, key: Seq<char>| #[trigger]
            is_first_key(query, n, key) implies query_is_clear(ctx, query[n]) by {
            assert(is_new_key(query, 0, none, n));
        }
    }
}

/// The example of a place of that name can be had: the text of the first
/// variable of the name, if it has one, can be resolved.
pub open spec fn place_is_clear(
    ctx: Context,
    variables: Option<Vec<Variable>>,
    name: Seq<char>,
) -> bool {
    forall|i: int| #[trigger]
        is_named(variables, i, name) ==> (variables->0@[i].value.deep_view() matches Some(
            JsonView::String(text),
        ) ==> resolution(ctx, text) is Ok)
}

proof fn lemma_place_ok(ctx: Context, variables: Option<Vec<Variable>>, name: Seq<char>)
    ensures
        place_example(ctx, variable_named(variables, name)) is Ok <==> place_is_clear(
            ctx,
            variables,
            name,
        ),
{
    if let Some(list) = variables {
        lemma_variable(list@, name, 0);
        if let Some(v) = variable_named(variables, name) {
            let k = choose|k: int|
                0 <= k < list@.len() && #[trigger] list@[k] == v && v.key.deep_view() == Some(name)
                    && forall|j: int|
                    0 <= j < k ==> (#[trigger] list@[j]).key.deep_view() != Some(name);
            assert(is_named(variables, k, name));
            assert forall|i: int| #[trigger] is_named(variables, i, name) implies i == k by {
                if i < k {
                    assert(list@[i].key.deep_view() != Some(name));
                } else if k < i {
                    assert(list@[k].key.deep_view() != Some(name));
                }
            }
        }
    }
}

proof fn lemma_places_ok(
    ctx: Context,
    variables: Option<Vec<Variable>>,
    names: Seq<Seq<char>>,
    i: int,
    params: Parameters,
)
    requires
        0 <= i,
    ensures
        places_from(ctx, variables, names, i, params) is Ok <==> forall|k: int|
            i <= k < names.len() ==> place_is_clear(ctx, variables, #[trigger] names[k]),
    decreases names.len() - i,
{
    if i < names.len() {
        lemma_place_ok(ctx, variables, names[i]);
        let variable = variable_named(variables, names[i]);
        if let Ok(example) = place_example(ctx, variable) {
            let own = RefView::Object(place_parameter(names[i], variable, example));
            lemma_places_ok(ctx, variables, names, i + 1, params.push(own));
        }
    }
}

proof fn lemma_path_ok(
    ctx: Context,
    variables: Option<Vec<Variable>>,
    segments: Seq<Seq<char>>,
    i: int,
    params: Parameters,
)
    requires
        0 <= i,
    ensures
        path_parameters_from(ctx, variables, segments, i, params) is Ok <==> forall|k: int|
            0 <= k < all_places(segments, i).len() ==> place_is_clear(
                ctx,
                variables,
                #[trigger] all_places(segments, i)[k],
            ),
    decreases segments.len() - i,
{
    if i < segments.len() {
        let own = places(segments[i]);
        let rest = all_places(segments, i + 1);
        let all = own + rest;
        assert(all == all_places(segments, i));
        lemma_places_ok(ctx, variables, own, 0, params);
        if forall|k: int| 0 <= k < all.len() ==> place_is_clear(ctx, variables, #[trigger] all[k]) {
            assert forall|k: int| 0 <= k < own.len() implies place_is_clear(
                ctx,
                variables,
                #[trigger] own[k],
            ) by {
                assert(all[k] == own[k]);
            }
            assert forall|k: int| 0 <= k < rest.len() implies place_is_clear(
                ctx,
                variables,
                #[trigger] rest[k],
            ) by {
                assert(all[own.len() + k] == rest[k]);
            }
        }
        if let Ok(next) = places_from(ctx, variables, own, 0, params) {
            lemma_path_ok(ctx, variables, segments, i + 1, next);
            if forall|k: int|
                0 <= k < rest.len() ==> place_is_clear(ctx, variables, #[trigger] rest[k]) {
                assert forall|k: int| 0 <= k < all.len() implies place_is_clear(
                    ctx,
                    variables,
                    #[trigger] all[k],
                ) by {
                    if k < own.len() {
                        assert(all[k] == own[k]);
                    } else {
                        assert(all[k] == rest[k - own.len()]);
                    }
                }
            }
        }
    }
}

/// The parameters of a path can be described where the example of each of its
/// places can be had.
pub proof fn law_path_ok(
    ctx: Context,
    segments: Seq<Seq<char>>,
    variables: Option<Vec<Variable>>,
)
    ensures
        path_parameters(ctx, segments, variables) is Ok <==> forall|k: int|
            0 <= k < all_places(segments, 0).len() ==> place_is_clear(
                ctx,
                variables,
                #[trigger] all_places(segments, 0)[k],
            ),
{
    lemma_path_ok(ctx, variables, segments, 0, seq![]);
}

/// The header becomes a parameter.
pub open spec fn becomes_parameter(ctx: Context, h: postman::Header) -> bool {
    let listed = listed_headers(ctx.description);
    let key = lowercase(h.key@);
    key != "accept"@ && key != "authorization"@ && key != "content-type"@ && (listed.len() > 0
        ==> listed.contains(h.key@))
}

proof fn lemma_request_headers_ok(
    ctx: Context,
    headers: Seq<postman::Header>,
    i: int,
    params: Option<Parameters>,
    content_type: Option<Seq<char>>,
)
    requires
        0 <= i,
    ensures
        headers_from(ctx, listed_headers(ctx.description), headers, i, params, content_type) is Ok
            <==> forall|k: int|
            i <= k < headers.len() && becomes_parameter(ctx, #[trigger] headers[k])
                ==> header_is_clear(ctx, headers[k].key@, headers[k].value@),
    decreases headers.len() - i,
{
    if i < headers.len() {
        let listed = listed_headers(ctx.description);
        let h = headers[i];
        let key = lowercase(h.key@);
        reveal_strlit("accept");
        reveal_strlit("authorization");
        reveal_strlit("content-type");
        assert("accept"@.len() == 6 && "authorization"@.len() == 13 && "content-type"@.len() == 12);
        if is_skipped(listed, h.key@, key) {
            lemma_request_headers_ok(ctx, headers, i + 1, params, content_type);
        } else if key == "content-type"@ {
            let own = Some(pieces(h.value@, ';')[0]);
            lemma_request_headers_ok(ctx, headers, i + 1, params, own);
        } else {
            assert(becomes_parameter(ctx, h));
            law_header_ok(ctx, h.key@, h.value@);
            if let Ok(schema) = header_schema(ctx, h.key@, h.value@) {
                lemma_request_headers_ok(
                    ctx,
                    headers,
                    i + 1,
                    Some(with_header(params, header_parameter(h, schema))),
                    content_type,
                );
            }
        }
    }
}

/// The headers of a request can be described where each that becomes a
/// parameter is clear.
pub proof fn law_request_headers_ok(
    ctx: Context,
    headers: Seq<postman::Header>,
    params: Option<Parameters>,
)
    ensures
        headers_from(ctx, listed_headers(ctx.description), headers, 0, params, None) is Ok
            <==> forall|k: int|
            0 <= k < headers.len() && becomes_parameter(ctx, #[trigger] headers[k])
                ==> header_is_clear(ctx, headers[k].key@, headers[k].value@),
{
    lemma_request_headers_ok(ctx, headers, 0, params, None);
}

/// A request can be described where its query, its headers, its body and its
/// saved responses can.
pub proof fn law_request_ok(
    ctx: Context,
    op: OperationView,
    item: Items,
    request: RequestClass,
    name: Seq<char>,
    url: UrlClass,
    first: bool,
    tags: Seq<Seq<char>>,
)
    ensures
        ({
            let query = match url.query {
                Some(query) => query_parameters(ctx, query@),
                None => Ok(None),
            };
            let headers = request_headers(ctx, request.header, with_query(op.parameters, query->Ok_0));
            let described = OperationView { parameters: headers->Ok_0.0, ..op };
            let body = match request.body {
                Some(body) => with_body(ctx, described, body, name, headers->Ok_0.1),
                None => Ok(described),
            };
            let told = OperationView {
                summary: if first {
                    Some(name)
                } else {
                    op.summary
                },
                description: if first {
                    Some(account(request, name))
                } else {
                    op.description
                },
                tags: if tags.len() > 0 {
                    Some(tags)
                } else {
                    op.tags
                },
                ..body->Ok_0
            };
            with_request(ctx, op, item, request, name, url, first, tags) is Ok <==> query is Ok
                && headers is Ok && body is Ok && saved_from(
                ctx,
                told,
                name,
                match item.response {
                    Some(saved) => saved@,
                    None => seq![],
                },
                0,
            ) is Ok
        }),
{
}

/// A request becomes an operation where its segments and the parameters of its
/// places can be had, a new operation gets an identifier, and the request can
/// be described.
pub proof fn law_operation_ok(
    ctx: Context,
    state: StateView,
    item: Items,
    request: RequestClass,
    name: Seq<char>,
    url: UrlClass,
    path: Seq<PathElement>,
    security: Option<Seq<SecurityRequirementView>>,
)
    ensures
        ({
            let segments = segments_from(ctx, path, 0, seq![])->Ok_0;
            let before = match lookup(state.oas.paths, "/"@ + joined(segments, "/"@)) {
                Some(own) => own,
                None => PathItemView::empty(),
            };
            let given = operations(before)[place(method_in(request))];
            let id = new_id(state.operation_ids, name);
            with_operation(ctx, state, item, request, name, url, path, security) is Ok <==> {
                &&& segments_from(ctx, path, 0, seq![]) is Ok
                &&& path_parameters(ctx, segments, url.variable) is Ok
                &&& match given {
                    Some(g) => with_request(
                        Context { operation: None, ..ctx },
                        OperationView { security: with_requirements(g.security, security), ..g },
                        item,
                        request,
                        name,
                        url,
                        false,
                        state.hierarchy,
                    ) is Ok,
                    None => id is Ok && with_request(
                        Context { operation: Some(id->Ok_0.1), ..ctx },
                        OperationView {
                            security,
                            operation_id: Some(id->Ok_0.1),
                            ..OperationView::empty()
                        },
                        item,
                        request,
                        name,
                        url,
                        true,
                        state.hierarchy,
                    ) is Ok,
                }
            }
        }),
{
    if let Ok(segments) = segments_from(ctx, path, 0, seq![]) {
        if let Ok(parameters) = path_parameters(ctx, segments, url.variable) {
            let before = match lookup(state.oas.paths, path_key(segments)) {
                Some(own) => own,
                None => PathItemView::empty(),
            };
            let base = PathItemView { parameters, ..before };
            assert(operations(base) =~= operations(before));
            law_slot(base, method_of(request), None);
            if let Some(g) = slot(base, method_of(request)) {
                assert(OperationView { operation_id: g.operation_id, ..g } == g);
            }
        }
    }
}

/// Items are taken one after the other: with one more at the end of the list,
/// the state is as that item leaves what the others made of it. A folder leaves
/// it as its items do that are taken inside, under the authorization of the
/// folder. The first fault ends it.
pub proof fn law_items_in_turn(ctx: Context, state: StateView, items: Seq<Items>, item: Items)
    ensures
        with_items(ctx, state, seq![], 0) == Ok::<StateView, Fault>(state),
        match with_items(ctx, state, items, 0) {
            Err(f) => with_items(ctx, state, items.push(item), 0) == Err::<StateView, Fault>(f),
            Ok(before) => with_items(ctx, state, items.push(item), 0) == match item.item {
                None => with_item(
                    ctx,
                    before,
                    item,
                    match item.name {
                        Some(name) => name@,
                        None => "<request>"@,
                    },
                ),
                Some(children) => match entered(ctx, before, item.auth) {
                    Err(f) => Err(f),
                    Ok(inside) => match with_items(ctx, inside, children@, 0) {
                        Err(f) => Err(f),
                        Ok(inner) => Ok(left(inner, item.auth)),
                    },
                },
            },
        },
{
    lemma_items_push(ctx, state, items, item, 0);
}

proof fn lemma_items_push(
    ctx: Context,
    state: StateView,
    items: Seq<Items>,
    item: Items,
    i: int,
)
    requires
        0 <= i <= items.len(),
    ensures
        with_items(ctx, state, items.push(item), i) == match with_items(ctx, state, items, i) {
            Err(f) => Err(f),
            Ok(before) => match item.item {
                None => with_item(ctx, before, item, request_name(item)),
                Some(children) => with_folder(ctx, before, children@, item.auth),
            },
        },
    decreases items.len() - i,
{
    let all = items.push(item);
    if i < items.len() {
        assert(all[i] == items[i]);
        match items[i].item {
            None => {
                if let Ok(next) = with_item(ctx, state, items[i], request_name(items[i])) {
                    lemma_items_push(ctx, next, items, item, i + 1);
                }
            },
            Some(children) => {
                if let Ok(next) = with_folder(ctx, state, children@, items[i].auth) {
                    lemma_items_push(ctx, next, items, item, i + 1);
                }
            },
        }
    } else {
        assert(all[i] == item);
        let next = match item.item {
            None => with_item(ctx, state, item, request_name(item)),
            Some(children) => with_folder(ctx, state, children@, item.auth),
        };
        if let Ok(after) = next {
            assert(with_items(ctx, after, all, i + 1) == Ok::<StateView, Fault>(after));
        }
    }
}

/// A request with an address in parts is taken where its server, what it
/// requires and its operation can be had.
pub proof fn law_item_ok(
    ctx: Context,
    state: StateView,
    item: Items,
    name: Seq<char>,
    request: RequestClass,
    url: UrlClass,
)
    requires
        item.request == Some(RequestUnion::RequestClass(request)),
        request.url == Some(Url::UrlClass(url)),
    ensures
        ({
            let hosted = match url.host {
                Some(Host::StringArray(parts)) => with_server(ctx, state, url, parts.deep_view()),
                _ => Ok(state),
            };
            let secured = with_auth(ctx, hosted->Ok_0, request.auth);
            with_item(ctx, state, item, name) is Ok <==> hosted is Ok && secured is Ok
                && with_operation(
                ctx,
                secured->Ok_0.0,
                item,
                request,
                name,
                url,
                path_of(url),
                secured->Ok_0.1,
            ) is Ok
        }),
{
}

/// A server can be had where its address can be resolved, and what is required
/// where the scheme of the authorization can be declared.
pub proof fn law_surroundings_ok(
    ctx: Context,
    state: StateView,
    url: UrlClass,
    parts: Seq<Seq<char>>,
    auth: Option<Auth>,
)
    ensures
        state.oas.servers is Some ==> (with_server(ctx, state, url, parts) is Ok <==> resolution(
            ctx,
            host_text(url, parts),
        ) is Ok),
        with_auth(ctx, state, auth) is Ok <==> (auth matches Some(own) ==> with_scheme(
            ctx,
            state,
            own,
        ) is Ok),
        entered(ctx, state, auth) is Ok <==> (auth matches Some(own) ==> with_scheme(
            ctx,
            state,
            own,
        ) is Ok),
        with_root(ctx, state, auth) is Ok <==> (auth matches Some(own) ==> with_scheme(
            ctx,
            state,
            own,
        ) is Ok),
{
}

/// A collection is described by its items, which are taken from a description
/// without paths, servers and schemes, under what the collection requires.
pub proof fn law_transpiled(spec: postman::Spec)
    ensures
        ({
            let ctx = collection_context(spec);
            let first = start(spec.info);
            &&& first.oas.paths.len() == 0
            &&& first.oas.servers is Some && first.oas.servers->0.len() == 0
            &&& first.oas.security is Some && first.oas.security->0.len() == 0
            &&& first.oas.components is None
            &&& first.operation_ids.len() == 0
            &&& first.auth_stack.len() == 0
            &&& first.hierarchy.len() == 0
            &&& match with_root(ctx, first, spec.auth) {
                Err(f) => transpiled(spec) == Err::<SpecView, Fault>(f),
                Ok(root) => match with_items(ctx, root, spec.item@, 0) {
                    Err(f) => transpiled(spec) == Err::<SpecView, Fault>(f),
                    Ok(state) => transpiled(spec) == Ok::<SpecView, Fault>(state.oas),
                },
            }
        }),
{
}

} // verus!
