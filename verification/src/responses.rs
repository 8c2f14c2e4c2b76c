//! The responses of operations.

use vstd::prelude::*;

use crate::body::{find_text_type, raw_content, text_type, with_body, Content};
use crate::casing::{lowercase, to_lowercase};
use crate::context::{Context, Transpiler};
use crate::fault::{outcome, reached, Fault};
use crate::map::{
    has_key, key_at, keys, law_put_at_has_key, lemma_key_at, lookup, put, put_at, StrMap,
};
use crate::notes::{find_headers, listed_headers};
use crate::number::{signed_decimal, to_signed_decimal};
use crate::openapi::v3_0::{
    lemma_schema_view, Example, ExampleView, Header, HeaderView, MediaType, MediaTypeExample,
    MediaTypeExampleView, MediaTypeView, ObjectOrReference, Operation, OperationView, RefView,
    Response, ResponseView, Schema,
};
use crate::parameters::{header_schema, is_listed};
use crate::postman::{Body, HeaderElement, Headers, ResponseClass};
use crate::schema::merged;
use crate::text::same;

verus! {

/// The view of the headers of a response, by name.
pub type HeaderMap = Seq<(Seq<char>, RefView<HeaderView>)>;

/// The view of the responses of an operation, by status code.
pub type Responses = Seq<(Seq<char>, ResponseView)>;

/// The header of a response, whose name in small letters is `key`, is not
/// described: it has no value, it gives the type of the content, or there is a
/// list and it is not on it.
pub open spec fn is_passed_over(
    listed: Seq<Seq<char>>,
    name: Seq<char>,
    key: Seq<char>,
    value: Seq<char>,
) -> bool {
    value.len() == 0 || key == "content-type"@ || (listed.len() > 0 && !listed.contains(name))
}

/// Whether the header of a response, whose name in small letters is `key`, is
/// not described.
pub fn passes_over(listed: &Vec<String>, name: &str, key: &str, value: &str) -> (r: bool)
    ensures
        r == is_passed_over(listed.deep_view(), name@, key@, value@),
{
    value.unicode_len() == 0 || same(key, "content-type") || (listed.len() > 0 && !is_listed(
        listed,
        name,
    ))
}

/// The headers from `i` on, added to `acc`.
pub open spec fn response_headers_from(
    ctx: Context,
    headers: Seq<HeaderElement>,
    i: int,
    acc: HeaderMap,
) -> Result<HeaderMap, Fault>
    decreases headers.len() - i,
{
    if i >= headers.len() {
        Ok(acc)
    } else {
        match headers[i] {
            HeaderElement::Header(h) if !is_passed_over(
                listed_headers(ctx.description),
                h.key@,
                lowercase(h.key@),
                h.value@,
            ) => match header_schema(ctx, h.key@, h.value@) {
                Err(f) => Err(f),
                Ok(schema) => response_headers_from(
                    ctx,
                    headers,
                    i + 1,
                    put(
                        acc,
                        h.key@,
                        RefView::Object(HeaderView { schema: Some(schema) }),
                    ),
                ),
            },
            _ => response_headers_from(ctx, headers, i + 1, acc),
        }
    }
}

/// The headers of a response.
pub open spec fn response_headers(ctx: Context, header: Option<Headers>) -> Result<
    Option<HeaderMap>,
    Fault,
> {
    match header {
        Some(Headers::UnionArray(headers)) => match response_headers_from(
            ctx,
            headers@,
            0,
            seq![],
        ) {
            Err(f) => Err(f),
            Ok(acc) => Ok(
                if acc.len() > 0 {
                    Some(acc)
                } else {
                    None
                },
            ),
        },
        _ => Ok(None),
    }
}

/// The description of one saved response. Its body is read as that of a
/// request without options.
pub open spec fn new_response(ctx: Context, r: ResponseClass) -> Result<ResponseView, Fault> {
    match response_headers(ctx, r.header) {
        Err(f) => Err(f),
        Ok(headers) => match raw_content(
            ctx,
            seq![],
            match r.name {
                Some(name) => name@,
                None => seq![],
            },
            r.body.deep_view(),
            None,
        ) {
            Err(f) => Err(f),
            Ok(content) => Ok(
                ResponseView { description: r.name.deep_view(), headers, content: Some(content) },
            ),
        },
    }
}

/// The examples, with those of `new` from `i` on.
pub open spec fn examples_from(
    examples: Seq<(Seq<char>, RefView<ExampleView>)>,
    new: Seq<(Seq<char>, RefView<ExampleView>)>,
    i: int,
) -> Seq<(Seq<char>, RefView<ExampleView>)>
    decreases new.len() - i,
{
    if i >= new.len() {
        examples
    } else {
        examples_from(put(examples, new[i].0, new[i].1), new, i + 1)
    }
}

/// The examples of `a`, with those of `b` where both are by name.
pub open spec fn merged_examples(
    a: Option<MediaTypeExampleView>,
    b: Option<MediaTypeExampleView>,
) -> Option<MediaTypeExampleView> {
    match (a, b) {
        (
            Some(MediaTypeExampleView::Examples { examples }),
            Some(MediaTypeExampleView::Examples { examples: new }),
        ) => Some(MediaTypeExampleView::Examples { examples: examples_from(examples, new, 0) }),
        _ => a,
    }
}

/// The media type `a`, with the schema and the examples of `b`.
pub open spec fn merged_media(a: MediaTypeView, b: MediaTypeView) -> MediaTypeView {
    MediaTypeView {
        schema: match (a.schema, b.schema) {
            (Some(RefView::Object(s)), Some(RefView::Object(t))) => Some(
                RefView::Object(merged(s, t)),
            ),
            _ => a.schema,
        },
        examples: merged_examples(a.examples, b.examples),
    }
}

/// The content, each media type with that of `new` from `i` on. One that is
/// not there yet does not come in.
pub open spec fn merged_content(content: Content, new: Content, i: int) -> Content
    decreases new.len() - i,
{
    if i >= new.len() {
        content
    } else {
        match key_at(content, new[i].0) {
            Some(k) => merged_content(
                content.update(k, (new[i].0, merged_media(content[k].1, new[i].1))),
                new,
                i + 1,
            ),
            None => merged_content(content, new, i + 1),
        }
    }
}

/// The content that there is.
pub open spec fn content_of(r: ResponseView) -> Content {
    match r.content {
        Some(content) => content,
        None => seq![],
    }
}

/// The response `a`, with another one for the same code.
pub open spec fn merged_response(
    a: ResponseView,
    b: ResponseView,
    status: Option<Seq<char>>,
) -> ResponseView {
    ResponseView {
        description: status,
        headers: if b.headers is Some {
            b.headers
        } else {
            a.headers
        },
        content: Some(merged_content(content_of(a), content_of(b), 0)),
    }
}

/// The responses with one more, for the code.
pub open spec fn with_response(
    responses: Responses,
    code: Option<i64>,
    status: Option<Seq<char>>,
    own: ResponseView,
) -> Responses {
    match code {
        None => responses,
        Some(code) => {
            let key = signed_decimal(code as int);
            put_at(
                responses,
                key,
                match lookup(responses, key) {
                    Some(a) => merged_response(a, own, status),
                    None => own,
                },
            )
        },
    }
}

/// The operation with one saved response, and with the body of the request
/// that it came to.
pub open spec fn with_saved(
    ctx: Context,
    op: OperationView,
    name: Seq<char>,
    r: ResponseClass,
) -> Result<OperationView, Fault> {
    match with_original(ctx, op, name, r) {
        Err(f) => Err(f),
        Ok(op) => match new_response(ctx, r) {
            Err(f) => Err(f),
            Ok(own) => Ok(
                OperationView {
                    responses: with_response(op.responses, r.code, r.status.deep_view(), own),
                    ..op
                },
            ),
        },
    }
}

/// The body of the request that a response came to.
pub open spec fn original_body(r: ResponseClass) -> Option<Body> {
    match r.original_request {
        Some(request) => request.body,
        None => None,
    }
}

/// The operation with the body of the request that the response came to.
pub open spec fn with_original(
    ctx: Context,
    op: OperationView,
    name: Seq<char>,
    r: ResponseClass,
) -> Result<OperationView, Fault> {
    match original_body(r) {
        Some(body) => with_body(ctx, op, body, name, Some(text_type(body.options))),
        None => Ok(op),
    }
}

/// The operation with the saved responses from `i` on.
pub open spec fn saved_from(
    ctx: Context,
    op: OperationView,
    name: Seq<char>,
    saved: Seq<Option<ResponseClass>>,
    i: int,
) -> Result<OperationView, Fault>
    decreases saved.len() - i,
{
    if i >= saved.len() {
        Ok(op)
    } else {
        match saved[i] {
            None => saved_from(ctx, op, name, saved, i + 1),
            Some(r) => match with_saved(ctx, op, name, r) {
                Err(f) => Err(f),
                Ok(op) => saved_from(ctx, op, name, saved, i + 1),
            },
        }
    }
}

/// There is a response for a code that means success.
pub open spec fn has_success(responses: Responses) -> bool {
    ||| has_key(responses, "200"@)
    ||| has_key(responses, "201"@)
    ||| has_key(responses, "202"@)
    ||| has_key(responses, "203"@)
    ||| has_key(responses, "204"@)
    ||| has_key(responses, "205"@)
    ||| has_key(responses, "206"@)
    ||| has_key(responses, "207"@)
    ||| has_key(responses, "208"@)
    ||| has_key(responses, "226"@)
}

/// The responses, with an empty one for success where there is none.
pub open spec fn with_success(responses: Responses) -> Responses {
    if has_success(responses) {
        responses
    } else {
        put(responses, "200"@, ResponseView { description: Some(seq![]), ..ResponseView::empty() })
    }
}

/// The operation with its saved responses, and with one for success.
pub open spec fn with_responses(
    ctx: Context,
    op: OperationView,
    name: Seq<char>,
    saved: Option<Vec<Option<ResponseClass>>>,
) -> Result<OperationView, Fault> {
    match saved_from(
        ctx,
        op,
        name,
        match saved {
            Some(saved) => saved@,
            None => seq![],
        },
        0,
    ) {
        Err(f) => Err(f),
        Ok(op) => Ok(OperationView { responses: with_success(op.responses), ..op }),
    }
}

fn add_examples(
    examples: &mut StrMap<ObjectOrReference<Example>>,
    new: StrMap<ObjectOrReference<Example>>,
)
    ensures
        final(examples).deep_view() == examples_from(
            old(examples).deep_view(),
            new.deep_view(),
            0,
        ),
{
    let ghost given = new.deep_view();
    let ghost items = new.entries@;
    let ghost all = examples_from(examples.deep_view(), given, 0);
    let entries: Vec<(String, ObjectOrReference<Example>)> = new.entries;
    for e in it: entries
        invariant
            it.seq() == items,
            items.len() == given.len(),
            forall|k: int| 0 <= k < items.len() ==> (#[trigger] items[k]).deep_view() == given[k],
            all == examples_from(examples.deep_view(), given, it.index()),
    {
        assert(e.deep_view() == given[it.index()]);
        let (key, value): (String, ObjectOrReference<Example>) = e;
        examples.insert(key, value);
    }
}

fn merge_media(a: &mut MediaType, b: MediaType)
    ensures
        final(a).deep_view() == merged_media(old(a).deep_view(), b.deep_view()),
{
    let mut schema: Option<ObjectOrReference<Schema>> = None;
    std::mem::swap(&mut schema, &mut a.schema);
    a.schema = match schema {
        Some(ObjectOrReference::Object(s)) => match b.schema {
            Some(ObjectOrReference::Object(t)) => Some(
                ObjectOrReference::Object(Transpiler::merge_schemas(s, &t)),
            ),
            _ => Some(ObjectOrReference::Object(s)),
        },
        other => other,
    };
    if let Some(MediaTypeExample::Examples { examples }) = &mut a.examples {
        if let Some(MediaTypeExample::Examples { examples: new }) = b.examples {
            add_examples(examples, new);
        }
    }
}

fn merge_content(content: &mut StrMap<MediaType>, new: StrMap<MediaType>)
    ensures
        final(content).deep_view() == merged_content(old(content).deep_view(), new.deep_view(), 0),
{
    let ghost given = new.deep_view();
    let ghost items = new.entries@;
    let ghost all = merged_content(content.deep_view(), given, 0);
    let entries: Vec<(String, MediaType)> = new.entries;
    for e in it: entries
        invariant
            it.seq() == items,
            items.len() == given.len(),
            forall|k: int| 0 <= k < items.len() ==> (#[trigger] items[k]).deep_view() == given[k],
            all == merged_content(content.deep_view(), given, it.index()),
    {
        assert(e.deep_view() == given[it.index()]);
        let (key, value): (String, MediaType) = e;
        if let Some(m) = content.get_mut(key.as_str()) {
            merge_media(m, value);
        }
    }
}

fn merge_response(a: &mut Response, b: Response, status: &Option<String>)
    ensures
        final(a).deep_view() == merged_response(
            old(a).deep_view(),
            b.deep_view(),
            status.deep_view(),
        ),
{
    a.description = match status {
        Some(status) => Some(status.clone()),
        None => None,
    };
    if b.headers.is_some() {
        a.headers = b.headers;
    }
    let mut own: Option<StrMap<MediaType>> = None;
    std::mem::swap(&mut own, &mut a.content);
    let mut content: StrMap<MediaType> = match own {
        Some(content) => content,
        None => StrMap::new(),
    };
    let new: StrMap<MediaType> = match b.content {
        Some(content) => content,
        None => StrMap::new(),
    };
    merge_content(&mut content, new);
    a.content = Some(content);
}

/// Adds a response for the code.
pub fn add_response(
    responses: &mut StrMap<Response>,
    code: Option<i64>,
    status: &Option<String>,
    own: Response,
)
    ensures
        final(responses).deep_view() == with_response(
            old(responses).deep_view(),
            code,
            status.deep_view(),
            own.deep_view(),
        ),
{
    if let Some(code) = code {
        let key: String = to_signed_decimal(code);
        if responses.contains_key(key.as_str()) {
            if let Some(a) = responses.get_mut(key.as_str()) {
                merge_response(a, own, status);
            }
        } else {
            responses.insert(key, own);
        }
    }
}

/// Adds a response for success where there is none.
pub fn add_success(responses: &mut StrMap<Response>)
    ensures
        final(responses).deep_view() == with_success(old(responses).deep_view()),
{
    if !responses.contains_key("200") && !responses.contains_key("201")
        && !responses.contains_key("202") && !responses.contains_key("203")
        && !responses.contains_key("204") && !responses.contains_key("205")
        && !responses.contains_key("206") && !responses.contains_key("207")
        && !responses.contains_key("208") && !responses.contains_key("226") {
        proof {
            reveal_strlit("");
            assert(""@ =~= seq![]);
        }
        responses.insert(
            "200".to_owned(),
            Response { description: Some("".to_owned()), ..Response::default() },
        );
    }
}

impl<'a> Transpiler<'a> {
    fn make_response_headers(&self, headers: &Vec<HeaderElement>) -> (r: Result<
        StrMap<ObjectOrReference<Header>>,
        Fault,
    >)
        ensures
            outcome(r) == response_headers_from(self.context(), headers@, 0, seq![]),
    {
        broadcast use lemma_schema_view;

        let ghost ctx = self.context();
        let listed: Vec<String> = find_headers(self.info_description);
        let mut acc: StrMap<ObjectOrReference<Header>> = StrMap::new();
        let ghost all = response_headers_from(ctx, headers@, 0, seq![]);
        let mut i: usize = 0;
        while i < headers.len()
            invariant
                ctx == self.context(),
                listed.deep_view() == listed_headers(ctx.description),
                i <= headers.len(),
                all == response_headers_from(ctx, headers@, 0, seq![]),
                all == response_headers_from(ctx, headers@, i as int, acc.deep_view()),
            decreases headers.len() - i,
        {
            if let HeaderElement::Header(h) = &headers[i] {
                let key: String = to_lowercase(h.key.as_str());
                if !passes_over(&listed, h.key.as_str(), key.as_str(), h.value.as_str()) {
                    let header: Header = match self.make_header_schema(
                        h.key.as_str(),
                        h.value.as_str(),
                    ) {
                        Ok(schema) => Header { schema: Some(schema) },
                        Err(f) => {
                            return Err(f);
                        },
                    };
                    acc.insert(h.key.clone(), ObjectOrReference::Object(header));
                }
            }
            i = i + 1;
        }
        Ok(acc)
    }

    fn make_response(&self, r: &ResponseClass) -> (out: Result<Response, Fault>)
        ensures
            outcome(out) == new_response(self.context(), *r),
    {
        proof {
            reveal_strlit("");
            assert(""@ =~= seq![]);
        }
        let mut headers: Option<StrMap<ObjectOrReference<Header>>> = None;
        if let Some(Headers::UnionArray(own)) = &r.header {
            match self.make_response_headers(own) {
                Ok(acc) => {
                    if acc.entries.len() > 0 {
                        headers = Some(acc);
                    }
                },
                Err(f) => {
                    return Err(f);
                },
            }
        }
        let name: &str = match &r.name {
            Some(name) => name.as_str(),
            None => "",
        };
        let mut content: StrMap<MediaType> = StrMap::new();
        if let Err(f) = self.add_raw(&mut content, name, &r.body, &None) {
            return Err(f);
        }
        Ok(
            Response {
                description: match &r.name {
                    Some(name) => Some(name.clone()),
                    None => None,
                },
                headers,
                content: Some(content),
            },
        )
    }

    fn add_saved(&self, op: &mut Operation, name: &str, r: &ResponseClass) -> (out: Result<
        (),
        Fault,
    >)
        ensures
            reached(out, final(op).deep_view()) == with_saved(
                self.context(),
                old(op).deep_view(),
                name@,
                *r,
            ),
    {
        if let Some(request) = &r.original_request {
            if let Some(body) = &request.body {
                let content_type: String = find_text_type(&body.options).to_owned();
                if let Err(f) = self.extract_request_body(body, op, name, Some(content_type)) {
                    return Err(f);
                }
            }
        }
        match self.make_response(r) {
            Ok(own) => {
                add_response(&mut op.responses, r.code, &r.status, own);
                Ok(())
            },
            Err(f) => Err(f),
        }
    }

    /// Gives the operation its saved responses, and one for success.
    pub fn add_responses(
        &self,
        op: &mut Operation,
        name: &str,
        saved: &Option<Vec<Option<ResponseClass>>>,
    ) -> (r: Result<(), Fault>)
        ensures
            reached(r, final(op).deep_view()) == with_responses(
                self.context(),
                old(op).deep_view(),
                name@,
                *saved,
            ),
    {
        let ghost ctx = self.context();
        let ghost before = op.deep_view();
        if let Some(saved_list) = saved {
            let ghost all = saved_from(ctx, before, name@, saved_list@, 0);
            let mut i: usize = 0;
            while i < saved_list.len()
                invariant
                    ctx == self.context(),
                    *saved == Some(*saved_list),
                    before == old(op).deep_view(),
                    i <= saved_list.len(),
                    all == saved_from(ctx, before, name@, saved_list@, 0),
                    all == saved_from(ctx, op.deep_view(), name@, saved_list@, i as int),
                decreases saved_list.len() - i,
            {
                if let Some(r) = &saved_list[i] {
                    if let Err(f) = self.add_saved(op, name, r) {
                        return Err(f);
                    }
                }
                i = i + 1;
            }
        }
        add_success(&mut op.responses);
        Ok(())
    }
}

proof fn lemma_merged_content(content: Content, new: Content, i: int)
    ensures
        keys(merged_content(content, new, i)) == keys(content),
    decreases new.len() - i,
{
    if i < new.len() {
        lemma_key_at(content, new[i].0);
        match key_at(content, new[i].0) {
            Some(k) => {
                let next = content.update(
                    k,
                    (new[i].0, merged_media(content[k].1, new[i].1)),
                );
                lemma_merged_content(next, new, i + 1);
                assert(keys(next) =~= keys(content));
            },
            None => {
                lemma_merged_content(content, new, i + 1);
            },
        }
    }
}

/// Another response for the same code adds to the media types that there are,
/// and neither takes one away nor brings in a new one.
pub proof fn law_merged_response(a: ResponseView, b: ResponseView, status: Option<Seq<char>>)
    ensures
        keys(content_of(merged_response(a, b, status))) == keys(content_of(a)),
{
    lemma_merged_content(content_of(a), content_of(b), 0);
}

/// There is a response for the code of each saved response, and for each code
/// for which there was one before.
pub proof fn law_saved_codes(
    ctx: Context,
    op: OperationView,
    name: Seq<char>,
    saved: Seq<Option<ResponseClass>>,
    i: int,
    key: Seq<char>,
)
    requires
        0 <= i,
        has_key(op.responses, key) || exists|j: int|
            i <= j < saved.len() && is_saved(#[trigger] saved[j], key),
    ensures
        saved_from(ctx, op, name, saved, i) matches Ok(r) ==> has_key(r.responses, key),
    decreases saved.len() - i,
{
    if i < saved.len() {
        match saved[i] {
            None => {
                law_saved_codes(ctx, op, name, saved, i + 1, key);
            },
            Some(r) => {
                if let Ok(next) = with_saved(ctx, op, name, r) {
                    let before = with_original(ctx, op, name, r)->Ok_0;
                    assert(before.responses == op.responses);
                    let own = new_response(ctx, r)->Ok_0;
                    if let Some(code) = r.code {
                        let k = signed_decimal(code as int);
                        law_put_at_has_key(
                            op.responses,
                            k,
                            match lookup(op.responses, k) {
                                Some(a) => merged_response(a, own, r.status.deep_view()),
                                None => own,
                            },
                            key,
                        );
                    }
                    law_saved_codes(ctx, next, name, saved, i + 1, key);
                }
            },
        }
    }
}

/// The saved response is one for the code that is written so.
pub open spec fn is_saved(saved: Option<ResponseClass>, key: Seq<char>) -> bool {
    saved matches Some(r) && (r.code matches Some(code) && signed_decimal(code as int) == key)
}

} // verus!
