//! What saved responses become.

use vstd::prelude::*;

use crate::body::{with_body, Content};
use crate::casing::lowercase;
use crate::context::{resolution, Context};
use crate::fault::Fault;
use crate::json::{inferred_type, parsed, typed, JsonView};
use crate::laws::bodies::{
    exemplifies, language_in, law_raw_text, lemma_languages, named, schema_in, type_for, type_in,
};
use crate::map::{
    ascending, has_key, key_at, law_put_ascending, law_put_at, law_put_lookup, lemma_key_at,
    lemma_one_place, lemma_same_keys, lookup, put, put_at,
};
use crate::notes::listed_headers;
use crate::number::{is_not_finite, signed_decimal};
use crate::openapi::v3_0::{
    ExampleView, HeaderView, MediaTypeExampleView, MediaTypeView, OperationView, RefView,
    ResponseView, SchemaView,
};
use crate::order::{lemma_new_response, ordered_content, ordered_media};
use crate::parameters::header_schema;
use crate::postman::{HeaderElement, Headers, ResponseClass};
use crate::responses::{
    content_of, examples_from, has_success, merged_content, merged_media, merged_response,
    new_response, response_headers, response_headers_from, saved_from, with_response,
    with_responses, with_saved, HeaderMap, Responses,
};
use crate::schema::{generated, merged};

verus! {

/// Examples by name.
pub type Named = Seq<(Seq<char>, RefView<ExampleView>)>;

proof fn lemma_examples(examples: Named, new: Named, i: int, key: Seq<char>)
    requires
        0 <= i,
        ascending(examples),
        ascending(new),
    ensures
        ascending(examples_from(examples, new, i)),
        forall|k: int|
            i <= k < new.len() && (#[trigger] new[k]).0 == key ==> lookup(
                examples_from(examples, new, i),
                key,
            ) == Some(new[k].1),
        (forall|k: int| i <= k < new.len() ==> (#[trigger] new[k]).0 != key) ==> lookup(
            examples_from(examples, new, i),
            key,
        ) == lookup(examples, key),
    decreases new.len() - i,
{
    if i < new.len() {
        law_put_lookup(examples, new[i].0, new[i].1, key);
        law_put_ascending(examples, new[i].0, new[i].1);
        lemma_examples(put(examples, new[i].0, new[i].1), new, i + 1, key);
        if new[i].0 == key {
            assert forall|k: int| i < k < new.len() implies (#[trigger] new[k]).0 != key by {
                if new[k].0 == key {
                    lemma_one_place(new, i, k);
                }
            }
        }
    }
}

/// Named examples that come to others: each name has the new example where
/// there is one, and otherwise the one that it had.
pub proof fn law_examples_joined(examples: Named, new: Named, key: Seq<char>)
    requires
        ascending(examples),
        ascending(new),
    ensures
        lookup(examples_from(examples, new, 0), key) == match lookup(new, key) {
            Some(own) => Some(own),
            None => lookup(examples, key),
        },
{
    lemma_examples(examples, new, 0, key);
    lemma_key_at(new, key);
    if let Some(k) = key_at(new, key) {
        assert(new[k].0 == key);
    }
}

/// `m` is the media type `x` with what `y` adds to it: the schema of both, and
/// the examples of both by name, those of `y` first.
pub open spec fn joins(x: MediaTypeView, y: MediaTypeView, m: MediaTypeView) -> bool {
    &&& match (x.schema, y.schema) {
        (Some(RefView::Object(s)), Some(RefView::Object(t))) => m.schema == Some(
            RefView::Object(merged(s, t)),
        ),
        _ => m.schema == x.schema,
    }
    &&& match (x.examples, y.examples) {
        (
            Some(MediaTypeExampleView::Examples { examples }),
            Some(MediaTypeExampleView::Examples { examples: new }),
        ) => {
            &&& m.examples is Some
            &&& m.examples->0 is Examples
            &&& forall|key: Seq<char>| #[trigger]
                lookup(m.examples->0->examples, key) == match lookup(new, key) {
                    Some(own) => Some(own),
                    None => lookup(examples, key),
                }
        },
        _ => m.examples == x.examples,
    }
}

proof fn lemma_joins(x: MediaTypeView, y: MediaTypeView)
    requires
        ordered_media(x),
        ordered_media(y),
    ensures
        joins(x, y, merged_media(x, y)),
{
    if let (
        Some(MediaTypeExampleView::Examples { examples }),
        Some(MediaTypeExampleView::Examples { examples: new }),
    ) = (x.examples, y.examples) {
        assert forall|key: Seq<char>| #[trigger]
            lookup(examples_from(examples, new, 0), key) == match lookup(new, key) {
                Some(own) => Some(own),
                None => lookup(examples, key),
            } by {
            law_examples_joined(examples, new, key);
        }
    }
}

proof fn lemma_contents(content: Content, new: Content, i: int, t: Seq<char>)
    requires
        0 <= i,
        ascending(content),
        ascending(new),
        ordered_content(new),
        forall|k: int|
            i <= k < new.len() ==> (lookup(content, (#[trigger] new[k]).0) matches Some(x)
                ==> ordered_media(x)),
    ensures
        match lookup(content, t) {
            None => lookup(merged_content(content, new, i), t) is None,
            Some(x) => lookup(merged_content(content, new, i), t) matches Some(m) && {
                &&& forall|k: int|
                    i <= k < new.len() && (#[trigger] new[k]).0 == t ==> joins(x, new[k].1, m)
                &&& (forall|k: int| i <= k < new.len() ==> (#[trigger] new[k]).0 != t) ==> m == x
            },
        },
    decreases new.len() - i,
{
    if i < new.len() {
        let key = new[i].0;
        lemma_key_at(content, key);
        match key_at(content, key) {
            Some(k) => {
                let x = content[k].1;
                let m = merged_media(x, new[i].1);
                let next = content.update(k, (key, m));
                assert(lookup(content, key) == Some(x));
                assert(ordered_media(new[i].1));
                lemma_joins(x, new[i].1);
                lemma_same_keys(content);
                assert(ascending(next));
                assert(next == put_at(content, key, m));
                law_put_at(content, key, m);
                assert forall|l: int|
                    i + 1 <= l < new.len() implies (lookup(next, (#[trigger] new[l]).0) matches Some(
                    y,
                ) ==> ordered_media(y)) by {
                    if new[l].0 == key {
                        lemma_one_place(new, i, l);
                    }
                    law_put_lookup(content, key, m, new[l].0);
                }
                law_put_lookup(content, key, m, t);
                lemma_contents(next, new, i + 1, t);
                if key == t {
                    assert forall|l: int| i < l < new.len() implies (#[trigger] new[l]).0 != t by {
                        if new[l].0 == t {
                            lemma_one_place(new, i, l);
                        }
                    }
                }
            },
            None => {
                lemma_contents(content, new, i + 1, t);
            },
        }
    }
}

/// Content that comes to other content: what both have of a media type is
/// joined, what only the first has stays, and what only the second has does
/// not come in.
pub proof fn law_contents_joined(content: Content, new: Content, t: Seq<char>)
    requires
        ordered_content(content),
        ordered_content(new),
    ensures
        match (lookup(content, t), lookup(new, t)) {
            (Some(x), Some(y)) => lookup(merged_content(content, new, 0), t) matches Some(m)
                && joins(x, y, m),
            (x, _) => lookup(merged_content(content, new, 0), t) == x,
        },
{
    assert forall|k: int| 0 <= k < new.len() implies (lookup(
        content,
        (#[trigger] new[k]).0,
    ) matches Some(x) ==> ordered_media(x)) by {
        lemma_key_at(content, new[k].0);
        if let Some(l) = key_at(content, new[k].0) {
            assert(ordered_media(content[l].1));
        }
    }
    lemma_contents(content, new, 0, t);
    lemma_key_at(new, t);
    if let Some(k) = key_at(new, t) {
        assert(new[k].0 == t);
    }
}

/// A response comes to those for its code: alone it is as it is. Where there
/// is one, the new status describes it, the new headers are its headers if
/// there are any, and the contents are joined. The responses for other codes
/// stay, and without a code nothing changes.
pub proof fn law_response_added(
    responses: Responses,
    code: Option<i64>,
    status: Option<Seq<char>>,
    own: ResponseView,
    key: Seq<char>,
    t: Seq<char>,
)
    requires
        ascending(responses),
        ordered_content(content_of(own)),
        lookup(responses, key) matches Some(a) ==> ordered_content(content_of(a)),
    ensures
        !(code matches Some(c) && signed_decimal(c as int) == key) ==> lookup(
            with_response(responses, code, status, own),
            key,
        ) == lookup(responses, key),
        (code matches Some(c) && signed_decimal(c as int) == key) ==> match lookup(responses, key) {
            None => lookup(with_response(responses, code, status, own), key) == Some(own),
            Some(a) => lookup(with_response(responses, code, status, own), key) matches Some(r) && {
                &&& r.description == status
                &&& own.headers is Some ==> r.headers == own.headers
                &&& own.headers is None ==> r.headers == a.headers
                &&& r.content is Some
                &&& match (lookup(content_of(a), t), lookup(content_of(own), t)) {
                    (Some(x), Some(y)) => lookup(r.content->0, t) is Some && joins(
                        x,
                        y,
                        lookup(r.content->0, t)->0,
                    ),
                    (x, _) => lookup(r.content->0, t) == x,
                }
            },
        },
{
    if let Some(c) = code {
        let k = signed_decimal(c as int);
        let value = match lookup(responses, k) {
            Some(a) => merged_response(a, own, status),
            None => own,
        };
        law_put_at(responses, k, value);
        law_put_lookup(responses, k, value, key);
        if k == key {
            if let Some(a) = lookup(responses, key) {
                law_contents_joined(content_of(a), content_of(own), t);
            }
        }
    }
}

/// The header of a response is described: it has a value, it does not give the
/// type of the content, and it is listed where there is a list.
pub open spec fn is_shown(ctx: Context, h: HeaderElement) -> bool {
    h matches HeaderElement::Header(h) && h.value@.len() > 0 && lowercase(h.key@)
        != "content-type"@ && (listed_headers(ctx.description).len() > 0 ==> listed_headers(
        ctx.description,
    ).contains(h.key@))
}

/// The header at `i` gives the one of that name: it is the last of that name
/// that is described.
pub open spec fn gives_header(
    ctx: Context,
    headers: Seq<HeaderElement>,
    i: int,
    key: Seq<char>,
) -> bool {
    &&& 0 <= i < headers.len()
    &&& is_shown(ctx, headers[i])
    &&& headers[i]->Header_0.key@ == key
    &&& forall|j: int|
        i < j < headers.len() && is_shown(ctx, #[trigger] headers[j])
            ==> headers[j]->Header_0.key@ != key
}

/// The schema is that of a header with that name and value: it has the type
/// that the value seems to have, the value as its example, but for the one
/// secret, and the description of the name.
pub open spec fn describes_header(
    ctx: Context,
    s: SchemaView,
    name: Seq<char>,
    value: Seq<char>,
) -> bool {
    &&& s.schema_type == Some(inferred_type(value))
    &&& ctx.describes(name) == Ok::<_, Fault>(s.description)
    &&& s.example == Some(
        if name == "X-RapidAPI-Key"@ {
            JsonView::String("123456"@)
        } else {
            typed(value)
        },
    )
    &&& name != "X-RapidAPI-Key"@ ==> !is_not_finite(value)
    &&& s == SchemaView {
        schema_type: s.schema_type,
        description: s.description,
        example: s.example,
        ..SchemaView::empty()
    }
}

/// The schema of a header says what its name and its value say.
pub proof fn law_header_schema(ctx: Context, name: Seq<char>, value: Seq<char>)
    ensures
        header_schema(ctx, name, value) matches Ok(s) ==> describes_header(ctx, s, name, value),
{
}

proof fn lemma_headers(
    ctx: Context,
    headers: Seq<HeaderElement>,
    i: int,
    acc: HeaderMap,
    key: Seq<char>,
)
    requires
        0 <= i,
        ascending(acc),
    ensures
        response_headers_from(ctx, headers, i, acc) matches Ok(r) ==> {
            &&& forall|k: int|
                i <= k && #[trigger] gives_header(ctx, headers, k, key) ==> (lookup(
                    r,
                    key,
                ) matches Some(RefView::Object(HeaderView { schema: Some(s) })) && describes_header(
                    ctx,
                    s,
                    key,
                    headers[k]->Header_0.value@,
                ))
            &&& (forall|k: int|
                i <= k < headers.len() && is_shown(ctx, #[trigger] headers[k])
                    ==> headers[k]->Header_0.key@ != key) ==> lookup(r, key) == lookup(acc, key)
            &&& acc.len() > 0 ==> r.len() > 0
            &&& (exists|k: int| i <= k < headers.len() && is_shown(ctx, #[trigger] headers[k]))
                ==> r.len() > 0
            &&& (forall|k: int| i <= k < headers.len() ==> !is_shown(ctx, #[trigger] headers[k]))
                ==> r == acc
        },
    decreases headers.len() - i,
{
    if i < headers.len() {
        if is_shown(ctx, headers[i]) {
            let h = headers[i]->Header_0;
            law_header_schema(ctx, h.key@, h.value@);
            if let Ok(schema) = header_schema(ctx, h.key@, h.value@) {
                let own = RefView::Object(HeaderView { schema: Some(schema) });
                law_put_ascending(acc, h.key@, own);
                law_put_lookup(acc, h.key@, own, key);
                let next = put(acc, h.key@, own);
                law_put_lookup(acc, h.key@, own, h.key@);
                lemma_key_at(next, h.key@);
                assert(next.len() > 0);
                lemma_headers(ctx, headers, i + 1, next, key);
                if gives_header(ctx, headers, i, key) {
                    assert(lookup(next, key) == Some(own));
                }
            }
        } else {
            lemma_headers(ctx, headers, i + 1, acc, key);
        }
    }
}

/// The headers of a response are those that are described, each as the last of
/// its name; where none is described there are no headers.
pub proof fn law_response_headers(
    ctx: Context,
    header: Option<Headers>,
    headers: Seq<HeaderElement>,
    key: Seq<char>,
)
    requires
        header matches Some(Headers::UnionArray(list)) && list@ == headers,
    ensures
        response_headers(ctx, header) matches Ok(r) ==> {
            &&& r is Some <==> exists|k: int|
                0 <= k < headers.len() && is_shown(ctx, #[trigger] headers[k])
            &&& r is Some ==> {
                &&& forall|k: int| #[trigger]
                    gives_header(ctx, headers, k, key) ==> (lookup(r->0, key) matches Some(
                        RefView::Object(HeaderView { schema: Some(s) }),
                    ) && describes_header(ctx, s, key, headers[k]->Header_0.value@))
                &&& (forall|k: int|
                    0 <= k < headers.len() && is_shown(ctx, #[trigger] headers[k])
                        ==> headers[k]->Header_0.key@ != key) ==> lookup(r->0, key) is None
            }
        },
{
    lemma_headers(ctx, headers, 0, seq![], key);
    lemma_key_at(Seq::<(Seq<char>, RefView<HeaderView>)>::empty(), key);
}

/// The description of a saved response: it is described by its name, it has
/// the headers of the response, and its body is an example of that name of its
/// media type, with its schema where it is an object or an array.
pub proof fn law_response_made(ctx: Context, r: ResponseClass)
    ensures
        new_response(ctx, r) matches Ok(own) ==> {
            let name = match r.name {
                Some(name) => name@,
                None => seq![],
            };
            &&& own.description == r.name.deep_view()
            &&& response_headers(ctx, r.header) == Ok::<_, Fault>(own.headers)
            &&& own.content is Some
            &&& r.body is None ==> own.content->0.len() == 0
            &&& r.body matches Some(body) ==> (resolution(ctx, body@) matches Ok(text) && {
                let t = match parsed(text) {
                    Some(JsonView::Object(_)) | Some(JsonView::Array(_)) => "application/json"@,
                    Some(_) => "application/octet-stream"@,
                    None => "text/plain"@,
                };
                &&& forall|other: Seq<char>|
                    other != t ==> #[trigger] lookup(own.content->0, other) is None
                &&& exemplifies(
                    None,
                    lookup(own.content->0, t),
                    name,
                    match parsed(text) {
                        Some(v) if v is Object || v is Array => v,
                        _ => JsonView::String(text),
                    },
                )
                &&& match parsed(text) {
                    Some(v) if v is Object || v is Array => generated(ctx, v, seq![]) matches Ok(s)
                        && schema_in(lookup(own.content->0, t)) == Some(
                        RefView::Object(s),
                    ),
                    _ => schema_in(lookup(own.content->0, t)) is None,
                }
            })
        },
{
    let name = match r.name {
        Some(name) => name@,
        None => seq![],
    };
    let none = Seq::<(Seq<char>, MediaTypeView)>::empty();
    assert(forall|t: Seq<char>| #[trigger] lookup(none, t) is None);
    law_raw_text(ctx, none, name, r.body.deep_view(), None);
    if let Ok(own) = new_response(ctx, r) {
        if let Some(body) = r.body {
            let text = resolution(ctx, body@)->Ok_0;
            assert(type_for(text, None) == match parsed(text) {
                Some(JsonView::Object(_)) | Some(JsonView::Array(_)) => "application/json"@,
                Some(_) => "application/octet-stream"@,
                None => "text/plain"@,
            });
        }
    }
}

/// A saved response changes of an operation its responses, and with the body of
/// the request that it came to, if there is one, the body.
pub proof fn law_saved(ctx: Context, op: OperationView, name: Seq<char>, r: ResponseClass)
    ensures
        with_saved(ctx, op, name, r) matches Ok(after) ==> {
            &&& after == OperationView {
                request_body: after.request_body,
                responses: after.responses,
                ..op
            }
            &&& new_response(ctx, r) matches Ok(own) && after.responses == with_response(
                op.responses,
                r.code,
                r.status.deep_view(),
                own,
            )
            &&& match r.original_request {
                Some(request) => match request.body {
                    Some(body) => with_body(
                        ctx,
                        op,
                        body,
                        name,
                        Some(type_in(language_in(body.options))),
                    ) matches Ok(between) && after.request_body == between.request_body,
                    None => after.request_body == op.request_body,
                },
                None => after.request_body == op.request_body,
            }
        },
{
    lemma_languages();
}

/// A saved response with a code, whose body reads as an object or an array, for
/// a code that has named examples of JSON already: the body is the example
/// named after the response, the other examples stay, and the schema is that of
/// both.
pub proof fn law_saved_example(
    ctx: Context,
    op: OperationView,
    name: Seq<char>,
    r: ResponseClass,
    v: JsonView,
)
    requires
        ascending(op.responses),
        r.code is Some,
        r.name is Some,
        r.body matches Some(body) && (resolution(ctx, body@) matches Ok(text) && parsed(text)
            == Some(v)),
        v is Object || v is Array,
        lookup(op.responses, signed_decimal(r.code->0 as int)) matches Some(a) && ordered_content(
            content_of(a),
        ) && (lookup(content_of(a), "application/json"@) matches Some(m) && m.examples is Some
            && m.examples->0 is Examples),
    ensures
        with_saved(ctx, op, name, r) matches Ok(after) ==> {
            let key = signed_decimal(r.code->0 as int);
            let t = "application/json"@;
            let before = lookup(content_of(lookup(op.responses, key)->0), t);
            let m = lookup(content_of(lookup(after.responses, key)->0), t);
            &&& has_key(after.responses, key)
            &&& exemplifies(before, m, r.name->0@, v)
            &&& generated(ctx, v, seq![]) is Ok
            &&& schema_in(before) matches Some(RefView::Object(s)) ==> schema_in(m) == Some(
                RefView::Object(merged(s, generated(ctx, v, seq![])->Ok_0)),
            )
        },
{
    if let Ok(after) = with_saved(ctx, op, name, r) {
        let key = signed_decimal(r.code->0 as int);
        let t = "application/json"@;
        let own = new_response(ctx, r)->Ok_0;
        law_saved(ctx, op, name, r);
        law_response_made(ctx, r);
        lemma_new_response(ctx, r);
        law_response_added(op.responses, r.code, r.status.deep_view(), own, key, t);
        let a = lookup(op.responses, key)->0;
        let x = lookup(content_of(a), t)->0;
        let y = lookup(content_of(own), t)->0;
        let m = lookup(content_of(lookup(after.responses, key)->0), t)->0;
        assert(joins(x, y, m));
        lemma_key_at(after.responses, key);
        assert forall|other: Seq<char>| other != r.name->0@ implies #[trigger] lookup(
            named(Some(m)),
            other,
        ) == lookup(named(Some(x)), other) by {
            assert(lookup(named(Some(y)), other) == lookup(named(None), other));
        }
    }
}

proof fn lemma_saved_push(
    ctx: Context,
    op: OperationView,
    name: Seq<char>,
    saved: Seq<Option<ResponseClass>>,
    r: Option<ResponseClass>,
    i: int,
)
    requires
        0 <= i <= saved.len(),
    ensures
        saved_from(ctx, op, name, saved.push(r), i) == match saved_from(ctx, op, name, saved, i) {
            Err(f) => Err(f),
            Ok(after) => match r {
                Some(r) => with_saved(ctx, after, name, r),
                None => Ok(after),
            },
        },
    decreases saved.len() - i,
{
    let all = saved.push(r);
    if i < saved.len() {
        assert(all[i] == saved[i]);
        match saved[i] {
            None => {
                lemma_saved_push(ctx, op, name, saved, r, i + 1);
            },
            Some(own) => {
                if let Ok(next) = with_saved(ctx, op, name, own) {
                    lemma_saved_push(ctx, next, name, saved, r, i + 1);
                }
            },
        }
    } else {
        assert(all[i] == r);
        if let Some(own) = r {
            if let Ok(next) = with_saved(ctx, op, name, own) {
                assert(saved_from(ctx, next, name, all, i + 1) == Ok::<OperationView, Fault>(
                    next,
                ));
            }
        } else {
            assert(saved_from(ctx, op, name, all, i + 1) == Ok::<OperationView, Fault>(op));
        }
    }
}

/// Saved responses are taken one after the other: with one more at the end of
/// the list, an operation is as that response leaves what the others made of
/// it. Without any it stays as it is.
pub proof fn law_saved_in_turn(
    ctx: Context,
    op: OperationView,
    name: Seq<char>,
    saved: Seq<Option<ResponseClass>>,
    r: Option<ResponseClass>,
)
    ensures
        saved_from(ctx, op, name, seq![], 0) == Ok::<OperationView, Fault>(op),
        match saved_from(ctx, op, name, saved, 0) {
            Ok(before) => saved_from(ctx, op, name, saved.push(r), 0) == match r {
                Some(r) => with_saved(ctx, before, name, r),
                None => Ok(before),
            },
            Err(f) => saved_from(ctx, op, name, saved.push(r), 0) == Err::<OperationView, Fault>(f),
        },
{
    lemma_saved_push(ctx, op, name, saved, r, 0);
}

/// A code that means success.
pub open spec fn means_success(key: Seq<char>) -> bool {
    ||| key == "200"@ || key == "201"@ || key == "202"@ || key == "203"@ || key == "204"@
    ||| key == "205"@ || key == "206"@ || key == "207"@ || key == "208"@ || key == "226"@
}

/// None of the responses is for success.
pub open spec fn lacks_success(responses: Responses) -> bool {
    forall|k: Seq<char>| means_success(k) ==> !#[trigger] has_key(responses, k)
}

/// The responses of an operation are the saved ones. Only where none of them is
/// for success, there is one more, for the code 200, which has an empty
/// description and nothing else.
pub proof fn law_responses_saved(
    ctx: Context,
    op: OperationView,
    name: Seq<char>,
    saved: Option<Vec<Option<ResponseClass>>>,
    list: Seq<Option<ResponseClass>>,
    key: Seq<char>,
)
    requires
        list == match saved {
            Some(saved) => saved@,
            None => seq![],
        },
    ensures
        with_responses(ctx, op, name, saved) matches Ok(after) ==> (saved_from(
            ctx,
            op,
            name,
            list,
            0,
        ) matches Ok(own) && {
            &&& after == OperationView { responses: after.responses, ..own }
            &&& ascending(own.responses) ==> lookup(after.responses, key) == if key == "200"@
                && lacks_success(own.responses) {
                Some(ResponseView { description: Some(seq![]), headers: None, content: None })
            } else {
                lookup(own.responses, key)
            }
        }),
{
    if let Ok(after) = with_responses(ctx, op, name, saved) {
        let own = saved_from(ctx, op, name, list, 0)->Ok_0;
        let none = ResponseView { description: Some(seq![]), headers: None, content: None };
        if ascending(own.responses) {
            law_put_lookup(own.responses, "200"@, none, key);
        }
        assert(lacks_success(own.responses) == !has_success(own.responses));
    }
}

} // verus!
