//! What requests become: operations on the paths of a description.

use vstd::prelude::*;

use crate::body::with_body;
use crate::casing::{identifier, lowercase};
use crate::collection::{
    collection_context, entered, path_of, request_name, request_path, start, transpiled, with_auth,
    with_folder, with_host, with_item, with_items, with_root, with_server,
};
use crate::context::{resolved_segment, Context, VAR_REPLACE_CREDITS};
use crate::fault::Fault;
use crate::laws::{law_slot, operations, place};
use crate::map::{ascending, has_key, key_at, law_put_at, law_put_lookup, lemma_key_at, lookup};
use crate::notes::without_block;
use crate::number::decimal;
use crate::openapi::v3_0::{OperationView, PathItemView, SecurityRequirementView, SpecView};
use crate::operations::{
    account, method_of, new_id, path_key, segment_text, segments_from, slot, templated,
    with_operation, with_request, with_slot,
};
use crate::parameters::{path_parameters, query_parameters, request_headers, with_query};
use crate::postman;
use crate::postman::{
    Description, DescriptionUnion, Host, Items, PathElement, RequestClass, RequestUnion, Url,
    UrlClass,
};
use crate::responses::{saved_from, with_responses, with_saved};
use crate::security::with_requirements;
use crate::state::StateView;
use crate::text::joined;

verus! {

/// The segment of the path template: the segment with its variables replaced,
/// or made into places where there is nothing to replace. One that then begins
/// with a colon is a place.
pub open spec fn is_segment(ctx: Context, element: PathElement, r: Seq<char>) -> bool {
    let text = match element {
        PathElement::String(text) => text@,
        PathElement::PathClass(class) => match class.value {
            Some(value) => value@,
            None => seq![],
        },
    };
    resolved_segment(ctx.variables, text, VAR_REPLACE_CREDITS as nat) matches Ok(own) && {
        &&& own.len() == 0 || own[0] <= '\u{7f}'
        &&& if own.len() > 0 && own[0] == ':' {
            r == seq!['{'] + own.skip(1) + seq!['}']
        } else {
            r == own
        }
    }
}

proof fn lemma_segments(ctx: Context, path: Seq<PathElement>, i: int, acc: Seq<Seq<char>>)
    requires
        0 <= i <= path.len(),
    ensures
        segments_from(ctx, path, i, acc) matches Ok(r) ==> {
            &&& r.len() == acc.len() + path.len() - i
            &&& forall|k: int| 0 <= k < acc.len() ==> #[trigger] r[k] == acc[k]
            &&& forall|k: int|
                i <= k < path.len() ==> is_segment(
                    ctx,
                    #[trigger] path[k],
                    r[acc.len() + k - i],
                )
        },
    decreases path.len() - i,
{
    if i < path.len() {
        let text = segment_text(path[i]);
        if let Ok(own) = resolved_segment(ctx.variables, text, VAR_REPLACE_CREDITS as nat) {
            if let Ok(segment) = templated(own) {
                let next = acc.push(segment);
                lemma_segments(ctx, path, i + 1, next);
                if let Ok(r) = segments_from(ctx, path, i + 1, next) {
                    assert(r[acc.len() as int] == next[acc.len() as int]);
                    assert forall|k: int| 0 <= k < acc.len() implies #[trigger] r[k] == acc[k] by {
                        assert(r[k] == next[k]);
                    }
                    assert forall|k: int| i <= k < path.len() implies is_segment(
                        ctx,
                        #[trigger] path[k],
                        r[acc.len() + k - i],
                    ) by {
                        if k > i {
                            assert(is_segment(ctx, path[k], r[next.len() + k - (i + 1)]));
                        }
                    }
                }
            }
        }
    }
}

/// A path template has a segment for each segment of the path, in its order.
pub proof fn law_segments(ctx: Context, path: Seq<PathElement>)
    ensures
        segments_from(ctx, path, 0, seq![]) matches Ok(r) ==> r.len() == path.len() && forall|k: int|
            0 <= k < path.len() ==> is_segment(ctx, #[trigger] path[k], r[k]),
{
    lemma_segments(ctx, path, 0, seq![]);
    if let Ok(r) = segments_from(ctx, path, 0, seq![]) {
        assert forall|k: int| 0 <= k < path.len() implies is_segment(
            ctx,
            #[trigger] path[k],
            r[k],
        ) by {
            assert(is_segment(ctx, path[k], r[0 + k - 0]));
        }
    }
}

/// What a request says of its operation: the parameters of its query join those
/// that there are, then those of its headers, then come its body and its saved
/// responses. The first request gives the account, which is its description
/// or else its name.
pub proof fn law_request(
    ctx: Context,
    op: OperationView,
    item: Items,
    request: RequestClass,
    name: Seq<char>,
    url: UrlClass,
    first: bool,
    tags: Seq<Seq<char>>,
)
    ensures
        with_request(ctx, op, item, request, name, url, first, tags) matches Ok(r) ==> {
            let query = match url.query {
                Some(query) => query_parameters(ctx, query@),
                None => Ok(None),
            };
            let headers = request_headers(ctx, request.header, with_query(op.parameters, query->Ok_0));
            let parameters = headers->Ok_0.0;
            let content_type = headers->Ok_0.1;
            &&& query is Ok
            &&& headers is Ok
            &&& r.parameters == parameters
            &&& r.security == op.security
            &&& r.operation_id == op.operation_id
            &&& r.tags == if tags.len() > 0 {
                Some(tags)
            } else {
                op.tags
            }
            &&& first ==> r.summary == Some(name) && r.description == Some(
                match request.description {
                    Some(DescriptionUnion::String(text)) => text@,
                    Some(DescriptionUnion::Description(Description { content: Some(text), .. }))
                        => text@,
                    _ => name,
                },
            )
            &&& !first ==> r.summary == op.summary && r.description == op.description
            &&& exists|between: OperationView|
                match request.body {
                    Some(body) => with_body(
                        ctx,
                        OperationView { parameters, ..op },
                        body,
                        name,
                        content_type,
                    ) matches Ok(own) && own.request_body == between.request_body
                        && own.responses == between.responses,
                    None => between.request_body == op.request_body && between.responses
                        == op.responses,
                } && #[trigger] with_responses(ctx, between, name, item.response) == Ok::<
                    OperationView,
                    Fault,
                >(r)
        },
{
    if let Ok(r) = with_request(ctx, op, item, request, name, url, first, tags) {
        let query = match url.query {
            Some(query) => query_parameters(ctx, query@),
            None => Ok(None),
        };
        let (parameters, content_type) = request_headers(
            ctx,
            request.header,
            with_query(op.parameters, query->Ok_0),
        )->Ok_0;
        let op1 = OperationView { parameters, ..op };
        let op2 = match request.body {
            Some(body) => with_body(ctx, op1, body, name, content_type)->Ok_0,
            None => op1,
        };
        let between = OperationView {
            summary: if first {
                Some(name)
            } else {
                op2.summary
            },
            description: if first {
                Some(account(request, name))
            } else {
                op2.description
            },
            tags: if tags.len() > 0 {
                Some(tags)
            } else {
                op2.tags
            },
            ..op2
        };
        assert(with_responses(ctx, between, name, item.response) == Ok::<OperationView, Fault>(r));
        let list = match item.response {
            Some(saved) => saved@,
            None => seq![],
        };
        lemma_saved_rest(ctx, between, name, list, 0);
    }
}

proof fn lemma_saved_rest(
    ctx: Context,
    op: OperationView,
    name: Seq<char>,
    saved: Seq<Option<postman::ResponseClass>>,
    i: int,
)
    ensures
        saved_from(ctx, op, name, saved, i) matches Ok(r) ==> r
            == (OperationView { request_body: r.request_body, responses: r.responses, ..op }),
    decreases saved.len() - i,
{
    if i < saved.len() {
        match saved[i] {
            None => {
                lemma_saved_rest(ctx, op, name, saved, i + 1);
            },
            Some(own) => {
                if let Ok(next) = with_saved(ctx, op, name, own) {
                    lemma_saved_rest(ctx, next, name, saved, i + 1);
                }
            },
        }
    }
}

/// The method of a request: in small letters, and `get` where it has none.
pub open spec fn method_in(request: RequestClass) -> Seq<char> {
    if request.method is Some {
        lowercase(request.method->0@)
    } else {
        "get"@
    }
}

/// A request becomes the operation of its method on its path. It joins the one
/// that is there, which keeps its identifier, or else comes new, under an
/// identifier of its own. What it requires joins what the operation requires.
/// The path gets the parameters of its places. Other operations, on this path
/// and on others, stay as they are, and so does the rest of the description.
pub proof fn law_operation(
    ctx: Context,
    state: StateView,
    item: Items,
    request: RequestClass,
    name: Seq<char>,
    url: UrlClass,
    path: Seq<PathElement>,
    security: Option<Seq<SecurityRequirementView>>,
    other: Seq<char>,
)
    ensures
        with_operation(ctx, state, item, request, name, url, path, security) matches Ok(after) ==> {
            let segments = segments_from(ctx, path, 0, seq![])->Ok_0;
            let key = "/"@ + joined(segments, "/"@);
            let k = place(method_in(request));
            let before = match lookup(state.oas.paths, key) {
                Some(own) => own,
                None => PathItemView::empty(),
            };
            let given = operations(before)[k];
            let own = lookup(after.oas.paths, key)->0;
            let op = operations(own)[k];
            &&& segments_from(ctx, path, 0, seq![]) is Ok
            &&& after == StateView {
                oas: SpecView { paths: after.oas.paths, ..state.oas },
                operation_ids: after.operation_ids,
                ..state
            }
            &&& has_key(after.oas.paths, key)
            &&& path_parameters(ctx, segments, url.variable) == Ok::<_, Fault>(own.parameters)
            &&& operations(own) == operations(before).update(k, op)
            &&& other != key ==> lookup(after.oas.paths, other) == lookup(state.oas.paths, other)
            &&& op is Some
            &&& match given {
                Some(g) => {
                    &&& after.operation_ids == state.operation_ids
                    &&& with_request(
                        Context { operation: None, ..ctx },
                        OperationView { security: with_requirements(g.security, security), ..g },
                        item,
                        request,
                        name,
                        url,
                        false,
                        state.hierarchy,
                    ) == Ok::<_, Fault>(op->0)
                },
                None => {
                    let id = new_id(state.operation_ids, name)->Ok_0.1;
                    &&& new_id(state.operation_ids, name) is Ok
                    &&& new_id(state.operation_ids, name)->Ok_0.0 == after.operation_ids
                    &&& with_request(
                        Context { operation: Some(id), ..ctx },
                        OperationView { security, operation_id: Some(id), ..OperationView::empty() },
                        item,
                        request,
                        name,
                        url,
                        true,
                        state.hierarchy,
                    ) == Ok::<_, Fault>(op->0)
                },
            }
        },
{
    if let Ok(after) = with_operation(ctx, state, item, request, name, url, path, security) {
        let segments = segments_from(ctx, path, 0, seq![])->Ok_0;
        let key = path_key(segments);
        let paths = state.oas.paths;
        let before = match lookup(paths, key) {
            Some(own) => own,
            None => PathItemView::empty(),
        };
        let parameters = path_parameters(ctx, segments, url.variable)->Ok_0;
        let base = PathItemView { parameters, ..before };
        assert(operations(base) =~= operations(before));
        law_slot(base, method_of(request), None);
        lemma_key_at(paths, key);
        lemma_key_at(paths, other);
        let next = after.oas.paths;
        lemma_key_at(next, key);
        lemma_key_at(next, other);
        let i = match key_at(paths, key) {
            Some(i) => i,
            None => paths.len() as int,
        };
        let own = next[i].1;
        assert(next[i].0 == key);
        assert(key_at(next, key) == Some(i)) by {
            let j = key_at(next, key)->0;
            if j < i {
                assert(next[j] == paths[j]);
            }
        }
        let op = slot(own, method_of(request));
        law_slot(base, method_of(request), op);
        assert(own == with_slot(base, method_of(request), op)) by {
            law_slot(base, method_of(request), op);
        }
        if other != key {
            if let Some(j) = key_at(paths, other) {
                assert(next[j] == paths[j]);
                let l = key_at(next, other)->0;
                if l < j {
                    assert(next[l] == paths[l]);
                }
            }
            if let Some(j) = key_at(next, other) {
                assert(j != i);
                assert(paths[j] == next[j]);
            }
        }
        if let Some(g) = operations(before)[place(method_of(request))] {
            assert(OperationView { operation_id: g.operation_id, ..g } == g);
        }
    }
}

/// The first operation of a name has the identifier of the name, and each that
/// comes again has the next number behind it. The counts of other identifiers
/// stay.
pub proof fn law_new_id(ids: Seq<(Seq<char>, usize)>, name: Seq<char>, other: Seq<char>)
    requires
        ascending(ids),
    ensures
        new_id(ids, name) is Err <==> lookup(ids, identifier(name)) == Some(usize::MAX),
        new_id(ids, name) matches Ok((after, id)) ==> {
            &&& lookup(ids, identifier(name)) is None ==> id == identifier(name) && lookup(
                after,
                identifier(name),
            ) == Some(0usize)
            &&& lookup(ids, identifier(name)) matches Some(n) ==> id == identifier(name) + decimal(
                (n + 1) as nat,
            ) && lookup(after, identifier(name)) == Some((n + 1) as usize)
            &&& other != identifier(name) ==> lookup(after, other) == lookup(ids, other)
        },
{
    let id = identifier(name);
    match lookup(ids, id) {
        None => {
            law_put_lookup(ids, id, 0usize, other);
            law_put_lookup(ids, id, 0usize, id);
        },
        Some(n) => {
            law_put_at(ids, id, (n + 1) as usize);
            law_put_lookup(ids, id, (n + 1) as usize, other);
            law_put_lookup(ids, id, (n + 1) as usize, id);
        },
    }
}

/// A request whose address stands in parts: the host, where that stands in
/// parts too, is one of the servers, what is required is that of the request
/// or the folder, and the request becomes an operation. Any other changes
/// nothing.
pub proof fn law_item(ctx: Context, state: StateView, item: Items, name: Seq<char>)
    ensures
        match item.request {
            Some(RequestUnion::RequestClass(request)) => match request.url {
                Some(Url::UrlClass(url)) => with_item(ctx, state, item, name) matches Ok(after)
                    ==> {
                    let hosted = match url.host {
                        Some(Host::StringArray(parts)) => with_server(
                            ctx,
                            state,
                            url,
                            parts.deep_view(),
                        ),
                        _ => Ok(state),
                    };
                    let secured = with_auth(ctx, hosted->Ok_0, request.auth);
                    &&& hosted is Ok
                    &&& secured is Ok
                    &&& with_operation(
                        ctx,
                        secured->Ok_0.0,
                        item,
                        request,
                        name,
                        url,
                        match url.path {
                            Some(postman::UrlPath::UnionArray(path)) => path@,
                            _ => seq![],
                        },
                        secured->Ok_0.1,
                    ) == Ok::<StateView, Fault>(after)
                },
                _ => with_item(ctx, state, item, name) == Ok::<StateView, Fault>(state),
            },
            _ => with_item(ctx, state, item, name) == Ok::<StateView, Fault>(state),
        },
{
}

/// There is an operation of the method on the path.
pub open spec fn has_operation(
    paths: Seq<(Seq<char>, PathItemView)>,
    key: Seq<char>,
    k: int,
) -> bool {
    lookup(paths, key) matches Some(item) && operations(item)[k] is Some
}

/// An item is a request with an address in parts, for this path and the place
/// of this method.
pub open spec fn calls(ctx: Context, item: Items, key: Seq<char>, k: int) -> bool {
    &&& item.item is None
    &&& request_path(ctx, item) == Some(key)
    &&& item.request matches Some(RequestUnion::RequestClass(request)) && place(method_in(request))
        == k
}

/// One of the items from `i` on, or in the folders among them, is such a
/// request.
pub open spec fn called(ctx: Context, items: Seq<Items>, i: int, key: Seq<char>, k: int) -> bool
    decreases items, items.len() - i,
{
    if i < 0 || i >= items.len() {
        false
    } else {
        ||| calls(ctx, items[i], key, k)
        ||| match items[i].item {
            Some(children) => called(ctx, children@, 0, key, k),
            None => false,
        }
        ||| called(ctx, items, i + 1, key, k)
    }
}

proof fn lemma_item_called(
    ctx: Context,
    state: StateView,
    item: Items,
    name: Seq<char>,
    key: Seq<char>,
    k: int,
)
    requires
        item.item is None,
        0 <= k < 7,
    ensures
        with_item(ctx, state, item, name) matches Ok(after) ==> (has_operation(
            after.oas.paths,
            key,
            k,
        ) <==> has_operation(state.oas.paths, key, k) || calls(ctx, item, key, k)),
{
    law_item(ctx, state, item, name);
    if let Some(RequestUnion::RequestClass(request)) = item.request {
        if let Some(Url::UrlClass(url)) = request.url {
            if let Ok(after) = with_item(ctx, state, item, name) {
                let hosted = with_host(ctx, state, url)->Ok_0;
                let (secured, security) = with_auth(ctx, hosted, request.auth)->Ok_0;
                assert(secured.oas.paths == state.oas.paths);
                law_operation(
                    ctx,
                    secured,
                    item,
                    request,
                    name,
                    url,
                    path_of(url),
                    security,
                    key,
                );
                let segments = segments_from(ctx, path_of(url), 0, seq![])->Ok_0;
                let own = path_key(segments);
                assert(request_path(ctx, item) == Some(own));
                if key == own {
                    let before = match lookup(state.oas.paths, key) {
                        Some(p) => p,
                        None => PathItemView::empty(),
                    };
                    let p = lookup(after.oas.paths, key)->0;
                    let at = place(method_in(request));
                    assert(operations(p) == operations(before).update(at, operations(p)[at]));
                    if k != at {
                        assert(operations(p)[k] == operations(before)[k]);
                    }
                }
            }
        }
    }
}

proof fn lemma_items_called(
    ctx: Context,
    state: StateView,
    items: Seq<Items>,
    i: int,
    key: Seq<char>,
    k: int,
)
    requires
        0 <= k < 7,
    ensures
        with_items(ctx, state, items, i) matches Ok(after) ==> (has_operation(
            after.oas.paths,
            key,
            k,
        ) <==> has_operation(state.oas.paths, key, k) || called(ctx, items, i, key, k)),
    decreases items, items.len() - i,
{
    if 0 <= i < items.len() {
        match items[i].item {
            None => {
                let name = request_name(items[i]);
                lemma_item_called(ctx, state, items[i], name, key, k);
                if let Ok(next) = with_item(ctx, state, items[i], name) {
                    lemma_items_called(ctx, next, items, i + 1, key, k);
                }
            },
            Some(children) => {
                if let Ok(inside) = entered(ctx, state, items[i].auth) {
                    assert(inside.oas.paths == state.oas.paths);
                    lemma_items_called(ctx, inside, children@, 0, key, k);
                    if let Ok(next) = with_folder(ctx, state, children@, items[i].auth) {
                        let inner = with_items(ctx, inside, children@, 0)->Ok_0;
                        assert(next.oas == inner.oas);
                        lemma_items_called(ctx, next, items, i + 1, key, k);
                    }
                }
            },
        }
    }
}

/// A description has an operation of a method on a path exactly where some
/// request of the collection, in a folder or not, is for that method and path.
pub proof fn law_operations_of_requests(spec: postman::Spec, key: Seq<char>, k: int)
    requires
        0 <= k < 7,
    ensures
        transpiled(spec) matches Ok(s) ==> (has_operation(s.paths, key, k) <==> called(
            collection_context(spec),
            spec.item@,
            0,
            key,
            k,
        )),
{
    let ctx = collection_context(spec);
    if let Ok(root) = with_root(ctx, start(spec.info), spec.auth) {
        assert(root.oas.paths =~= seq![]);
        lemma_key_at(root.oas.paths, key);
        lemma_items_called(ctx, root, spec.item@, 0, key, k);
    }
}

proof fn lemma_items_frame(ctx: Context, state: StateView, items: Seq<Items>, i: int)
    ensures
        with_items(ctx, state, items, i) matches Ok(after) ==> after.oas.info == state.oas.info
            && after.oas.openapi == state.oas.openapi && after.oas.security == state.oas.security,
    decreases items, items.len() - i,
{
    if 0 <= i < items.len() {
        match items[i].item {
            None => {
                if let Ok(next) = with_item(ctx, state, items[i], request_name(items[i])) {
                    lemma_items_frame(ctx, next, items, i + 1);
                }
            },
            Some(children) => {
                if let Ok(inside) = entered(ctx, state, items[i].auth) {
                    lemma_items_frame(ctx, inside, children@, 0);
                    if let Ok(next) = with_folder(ctx, state, children@, items[i].auth) {
                        lemma_items_frame(ctx, next, items, i + 1);
                    }
                }
            },
        }
    }
}

/// A description is called like the collection, and its account is that of the
/// collection without the blocks that speak of its parts.
pub proof fn law_frame(spec: postman::Spec)
    ensures
        transpiled(spec) matches Ok(s) ==> {
            let account = match spec.info.description {
                Some(DescriptionUnion::String(text)) => text@,
                Some(DescriptionUnion::Description(Description { content: Some(text), .. }))
                    => text@,
                _ => seq![],
            };
            &&& s.info.title == spec.info.name@
            &&& s.info.description == Some(
                without_block(
                    without_block(account, "\\[descriptions\\]"@, "\\[/descriptions\\]"@),
                    "\\[headers\\]"@,
                    "\\[/headers\\]"@,
                ),
            )
            &&& s.openapi == "3.0.3"@
            &&& s.info.version == "1.0.0"@
            &&& s.info.terms_of_service == Some("https://www.openwebninja.com/terms"@)
            &&& with_root(collection_context(spec), start(spec.info), spec.auth) matches Ok(root)
                && s.security == root.oas.security
        },
{
    let ctx = collection_context(spec);
    if let Ok(root) = with_root(ctx, start(spec.info), spec.auth) {
        lemma_items_frame(ctx, root, spec.item@, 0);
    }
}

/// What the parts of a collection are read against: its description, and its
/// variables. Outside of an operation there is no section of one.
pub proof fn law_context(spec: postman::Spec)
    ensures
        collection_context(spec).description == match spec.info.description {
            Some(DescriptionUnion::String(text)) => text@,
            Some(DescriptionUnion::Description(Description { content: Some(text), .. })) => text@,
            _ => seq![],
        },
        collection_context(spec).operation is None,
{
}

/// A segment can be had: its variables can be replaced, and what that gives
/// does not begin outside of the ASCII range.
pub open spec fn has_segment(ctx: Context, element: PathElement) -> bool {
    let text = match element {
        PathElement::String(text) => text@,
        PathElement::PathClass(class) => match class.value {
            Some(value) => value@,
            None => seq![],
        },
    };
    resolved_segment(ctx.variables, text, VAR_REPLACE_CREDITS as nat) matches Ok(own) && (own.len()
        == 0 || own[0] <= '\u{7f}')
}

proof fn lemma_segments_ok(ctx: Context, path: Seq<PathElement>, i: int, acc: Seq<Seq<char>>)
    requires
        0 <= i,
    ensures
        segments_from(ctx, path, i, acc) is Ok <==> forall|k: int|
            i <= k < path.len() ==> has_segment(ctx, #[trigger] path[k]),
    decreases path.len() - i,
{
    if i < path.len() {
        let text = segment_text(path[i]);
        if let Ok(own) = resolved_segment(ctx.variables, text, VAR_REPLACE_CREDITS as nat) {
            if let Ok(segment) = templated(own) {
                lemma_segments_ok(ctx, path, i + 1, acc.push(segment));
            }
        }
    }
}

/// The segments of a path can be had where each of them can.
pub proof fn law_segments_ok(ctx: Context, path: Seq<PathElement>)
    ensures
        segments_from(ctx, path, 0, seq![]) is Ok <==> forall|k: int|
            0 <= k < path.len() ==> has_segment(ctx, #[trigger] path[k]),
{
    lemma_segments_ok(ctx, path, 0, seq![]);
}

} // verus!
