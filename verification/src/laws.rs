//! What holds of every description.

use vstd::prelude::*;

use crate::body::with_body;
use crate::casing::{identifier, is_letter, law_identifier};
use crate::collection::{
    collection_context, entered, finish, has_server, left, path_of, request_name, request_path,
    request_paths, start, transpiled, with_auth, with_folder, with_host, with_item, with_items,
    with_root,
};
use crate::context::Context;
use crate::fault::Fault;
use crate::map::{
    ascending, has_key, key_at, keys, law_put_ascending, law_put_at, law_put_has_key,
    law_put_lookup, lemma_key_at, lookup, put,
};
use crate::notes::{is_sought, law_described};
use crate::number::{decimal, is_digit, law_decimal};
use crate::openapi::v3_0::{
    OperationView, PathItemView, RefView, ResponseView, SecurityRequirementView, ServerView,
    SpecView,
};
use crate::operations::{
    account, method_of, new_id, path_at, path_key, request_id, segments_from, slot, url_query,
    with_operation, with_path, with_request, with_slot,
};
use crate::order::{
    law_request_ordered, law_schemes_ordered, ordered_operation, ordered_schemes,
};
use crate::parameters::{
    collapsed, law_query_collapsed, law_request_headers_collapsed, law_with_query_collapsed,
    path_parameters, request_headers, with_query,
};
use crate::postman;
use crate::postman::{Auth, Items, PathElement, RequestClass, ResponseClass, UrlClass};
use crate::responses::{has_success, saved_from, with_responses, with_saved};
use crate::security::{
    need, required_from, requirement, scheme, scheme_name, schemes, with_requirements, with_scheme,
    Schemes,
};
use crate::state::StateView;

pub mod authorizations;
pub mod bodies;
pub mod faults;
pub mod notes;
pub mod parameters;
pub mod requests;
pub mod responses;
pub mod schemas;
pub mod texts;
pub mod variables;

verus! {

/// The operations of a path, each in its place.
pub open spec fn operations(item: PathItemView) -> Seq<Option<OperationView>> {
    seq![item.get, item.put, item.post, item.delete, item.options, item.patch, item.trace]
}

/// The place of the operation of the method.
pub open spec fn place(method: Seq<char>) -> int {
    if method == "put"@ {
        1
    } else if method == "post"@ {
        2
    } else if method == "delete"@ {
        3
    } else if method == "options"@ {
        4
    } else if method == "patch"@ {
        5
    } else if method == "trace"@ {
        6
    } else {
        0
    }
}

/// Each method has one place on a path. Setting its operation changes that
/// place, and neither another one nor the parameters of the path.
pub proof fn law_slot(item: PathItemView, method: Seq<char>, op: Option<OperationView>)
    ensures
        slot(item, method) == operations(item)[place(method)],
        operations(with_slot(item, method, op)) == operations(item).update(place(method), op),
        with_slot(item, method, op).parameters == item.parameters,
{
    lemma_methods();
    assert(operations(with_slot(item, method, op)) =~= operations(item).update(place(method), op));
}

proof fn lemma_methods()
    ensures
        "put"@ != "post"@,
        "put"@ != "delete"@,
        "put"@ != "options"@,
        "put"@ != "patch"@,
        "put"@ != "trace"@,
        "post"@ != "delete"@,
        "post"@ != "options"@,
        "post"@ != "patch"@,
        "post"@ != "trace"@,
        "delete"@ != "options"@,
        "delete"@ != "patch"@,
        "delete"@ != "trace"@,
        "options"@ != "patch"@,
        "options"@ != "trace"@,
        "patch"@ != "trace"@,
{
    reveal_strlit("put");
    reveal_strlit("post");
    reveal_strlit("delete");
    reveal_strlit("options");
    reveal_strlit("patch");
    reveal_strlit("trace");
    assert("put"@.len() == 3 && "post"@.len() == 4 && "delete"@.len() == 6);
    assert("options"@.len() == 7 && "patch"@.len() == 5 && "trace"@.len() == 5);
    assert("patch"@[0] != "trace"@[0]);
}

/// `r` is `op`, but for the body and the responses.
spec fn kept(op: OperationView, r: OperationView) -> bool {
    r == OperationView { request_body: r.request_body, responses: r.responses, ..op }
}

proof fn lemma_saved_kept(
    ctx: Context,
    op: OperationView,
    name: Seq<char>,
    saved: Seq<Option<ResponseClass>>,
    i: int,
)
    ensures
        saved_from(ctx, op, name, saved, i) matches Ok(r) ==> kept(op, r),
    decreases saved.len() - i,
{
    if i < saved.len() {
        match saved[i] {
            None => {
                lemma_saved_kept(ctx, op, name, saved, i + 1);
            },
            Some(r) => {
                if let Ok(next) = with_saved(ctx, op, name, r) {
                    assert(kept(op, next));
                    lemma_saved_kept(ctx, next, name, saved, i + 1);
                }
            },
        }
    }
}

/// An operation has a response for success, whatever responses were saved.
pub proof fn law_success(
    ctx: Context,
    op: OperationView,
    name: Seq<char>,
    saved: Option<Vec<Option<ResponseClass>>>,
)
    ensures
        with_responses(ctx, op, name, saved) matches Ok(r) ==> has_success(r.responses),
{
    let list = match saved {
        Some(saved) => saved@,
        None => seq![],
    };
    if let Ok(own) = saved_from(ctx, op, name, list, 0) {
        if !has_success(own.responses) {
            law_put_has_key(
                own.responses,
                "200"@,
                ResponseView { description: Some(seq![]), ..ResponseView::empty() },
                "200"@,
            );
        }
    }
}

/// What is said of every operation: it has an identifier and an account, it
/// has a response for success, none of its parameters occurs twice, and its
/// maps stand in order.
pub open spec fn settled(op: OperationView) -> bool {
    &&& op.operation_id is Some
    &&& op.summary is Some
    &&& op.description is Some
    &&& op.tags is None
    &&& has_success(op.responses)
    &&& op.parameters matches Some(params) ==> collapsed(params)
    &&& ordered_operation(op)
}

proof fn lemma_with_request(
    ctx: Context,
    op: OperationView,
    item: Items,
    request: RequestClass,
    name: Seq<char>,
    url: UrlClass,
    first: bool,
)
    requires
        op.operation_id is Some,
        first || (op.summary is Some && op.description is Some),
        op.tags is None,
        op.parameters matches Some(params) ==> collapsed(params),
        ordered_operation(op),
    ensures
        with_request(ctx, op, item, request, name, url, first, seq![]) matches Ok(r) ==> {
            &&& settled(r)
            &&& r.security == op.security
            &&& r.operation_id == op.operation_id
            &&& r.summary == if first {
                Some(name)
            } else {
                op.summary
            }
        },
{
    law_request_ordered(ctx, op, item, request, name, url, first, seq![]);
    if let Ok(query) = url_query(ctx, url) {
        if let Some(q) = url.query {
            law_query_collapsed(ctx, q@);
        }
        law_with_query_collapsed(op.parameters, query);
        let params = with_query(op.parameters, query);
        law_request_headers_collapsed(ctx, request.header, params);
        if let Ok((parameters, content_type)) = request_headers(ctx, request.header, params) {
            let op1 = OperationView { parameters, ..op };
            let op2 = match request.body {
                Some(body) => with_body(ctx, op1, body, name, content_type),
                None => Ok(op1),
            };
            if let Ok(op2) = op2 {
                let op3 = OperationView {
                    summary: if first {
                        Some(name)
                    } else {
                        op2.summary
                    },
                    description: if first {
                        Some(account(request, name))
                    } else {
                        op2.description
                    },
                    ..op2
                };
                let list = match item.response {
                    Some(saved) => saved@,
                    None => seq![],
                };
                law_success(ctx, op3, name, item.response);
                lemma_saved_kept(ctx, op3, name, list, 0);
            }
        }
    }
}

/// The paths of a description.
pub type Paths = Seq<(Seq<char>, PathItemView)>;

/// The operation in the place `k` of the path at `i`.
pub open spec fn op_at(paths: Paths, i: int, k: int) -> Option<OperationView> {
    operations(paths[i].1)[k]
}

/// There is such a place.
pub open spec fn is_place(paths: Paths, i: int, k: int) -> bool {
    0 <= i < paths.len() && 0 <= k < 7
}

/// All operations are settled.
pub open spec fn all_settled(paths: Paths) -> bool {
    forall|i: int, k: int|
        is_place(paths, i, k) ==> (#[trigger] op_at(paths, i, k) matches Some(op) ==> settled(op))
}

/// No path occurs twice.
pub open spec fn once(paths: Paths) -> bool {
    forall|i: int, j: int|
        0 <= i < j < paths.len() ==> (#[trigger] paths[i]).0 != (#[trigger] paths[j]).0
}

/// The path begins with a slash.
pub open spec fn is_rooted(path: Seq<char>) -> bool {
    path.len() > 0 && path[0] == '/'
}

/// All paths begin with a slash.
pub open spec fn all_rooted(paths: Paths) -> bool {
    forall|i: int| 0 <= i < paths.len() ==> is_rooted((#[trigger] paths[i]).0)
}

/// The operation that was in the place before.
spec fn op_before(paths: Paths, i: int, k: int) -> Option<OperationView> {
    if i < paths.len() {
        op_at(paths, i, k)
    } else {
        None
    }
}

/// `after` is `before` with another operation in the place `k` of the path at
/// `i`, which may be a new one.
spec fn differs_at(before: Paths, after: Paths, i: int, k: int) -> bool {
    &&& is_place(after, i, k)
    &&& before.len() <= after.len() <= before.len() + 1
    &&& after.len() > before.len() ==> i == before.len()
    &&& i == before.len() ==> !has_key(before, after[i].0) && is_rooted(after[i].0)
    &&& forall|j: int| 0 <= j < before.len() ==> (#[trigger] after[j]).0 == before[j].0
    &&& forall|j: int, l: int|
        is_place(after, j, l) && (j != i || l != k) ==> #[trigger] op_at(after, j, l) == op_before(
            before,
            j,
            l,
        )
}

proof fn lemma_effect(
    ctx: Context,
    state: StateView,
    item: Items,
    request: RequestClass,
    name: Seq<char>,
    url: UrlClass,
    path: Seq<PathElement>,
    security: Option<Seq<SecurityRequirementView>>,
) -> (r: (int, int))
    requires
        state.hierarchy == Seq::<Seq<char>>::empty(),
        all_settled(state.oas.paths),
    ensures
        with_operation(ctx, state, item, request, name, url, path, security) matches Ok(after) ==> {
            let (i, k) = r;
            let given = op_before(state.oas.paths, i, k);
            &&& after == StateView {
                oas: SpecView { paths: after.oas.paths, ..state.oas },
                operation_ids: after.operation_ids,
                ..state
            }
            &&& differs_at(state.oas.paths, after.oas.paths, i, k)
            &&& op_at(after.oas.paths, i, k) matches Some(op) && {
                &&& settled(op)
                &&& match given {
                    Some(g) => {
                        &&& op.operation_id == g.operation_id
                        &&& op.summary == g.summary
                        &&& op.security == with_requirements(g.security, security)
                        &&& after.operation_ids == state.operation_ids
                    },
                    None => {
                        &&& op.summary == Some(name)
                        &&& op.security == security
                        &&& new_id(state.operation_ids, name) == Ok::<_, Fault>(
                            (after.operation_ids, op.operation_id->0),
                        )
                    },
                }
            }
        },
{
    let segments = segments_from(ctx, path, 0, seq![])->Ok_0;
    let key = path_key(segments);
    let paths = state.oas.paths;
    let method = method_of(request);
    let k = place(method);
    lemma_key_at(paths, key);
    let i = match key_at(paths, key) {
        Some(i) => i,
        None => paths.len() as int,
    };
    if let Ok(after) = with_operation(ctx, state, item, request, name, url, path, security) {
        let parameters = path_parameters(ctx, segments, url.variable)->Ok_0;
        let own = PathItemView { parameters, ..path_at(paths, key) };
        reveal_strlit("/");
        assert(key[0] == "/"@[0]);
        assert(operations(own) =~= operations(path_at(paths, key)));
        law_slot(own, method, None);
        let given = slot(own, method);
        assert(given == op_before(paths, i, k)) by {
            if i < paths.len() {
                assert(path_at(paths, key) == paths[i].1);
            }
        }
        let base = match given {
            Some(op) => op,
            None => OperationView::empty(),
        };
        let (ids, id) = request_id(state.operation_ids, name, given is None)->Ok_0;
        let op = OperationView {
            security: with_requirements(base.security, security),
            operation_id: if given is None {
                id
            } else {
                base.operation_id
            },
            ..base
        };
        if given is Some {
            assert(is_place(paths, i, k));
            assert(settled(base));
        }
        let inner = Context { operation: id, ..ctx };
        lemma_with_request(inner, op, item, request, name, url, given is None);
        let r = with_request(
            inner,
            op,
            item,
            request,
            name,
            url,
            given is None,
            state.hierarchy,
        )->Ok_0;
        law_slot(own, method, Some(r));
        let next = with_slot(own, method, Some(r));
        assert(after.oas.paths == with_path(paths, key, next));
        assert(operations(next) == operations(own).update(k, Some(r)));
        assert(op_at(after.oas.paths, i, k) == Some(r));
        assert forall|j: int, l: int|
            is_place(after.oas.paths, j, l) && (j != i || l != k) implies #[trigger] op_at(
            after.oas.paths,
            j,
            l,
        ) == op_before(paths, j, l) by {
            if j == i {
                assert(operations(next)[l] == operations(own)[l]);
            }
        }
    }
    (i, k)
}

/// What stands behind an identifier that has come again `n` times.
pub open spec fn suffix(n: nat) -> Seq<char> {
    if n == 0 {
        seq![]
    } else {
        decimal(n)
    }
}

/// The identifier of the operation is that of its name, with a number that
/// has been counted.
pub open spec fn numbered(ids: Seq<(Seq<char>, usize)>, op: OperationView) -> bool {
    let id = identifier(op.summary->0);
    exists|n: nat|
        op.operation_id == Some(id + #[trigger] suffix(n)) && (lookup(ids, id) matches Some(c)
            && n <= c)
}

/// All identifiers have been counted.
pub open spec fn all_numbered(ids: Seq<(Seq<char>, usize)>, paths: Paths) -> bool {
    forall|i: int, k: int|
        is_place(paths, i, k) ==> (#[trigger] op_at(paths, i, k) matches Some(op) ==> numbered(
            ids,
            op,
        ))
}

/// Operations whose names give the same identifier have different ones.
pub open spec fn told_apart(paths: Paths) -> bool {
    forall|i: int, k: int, j: int, l: int|
        is_place(paths, i, k) && is_place(paths, j, l) && (i != j || k != l) ==> differ(
            #[trigger] op_at(paths, i, k),
            #[trigger] op_at(paths, j, l),
        )
}

/// `a` and `b` do not have the same identifier from names that give the same.
pub open spec fn differ(a: Option<OperationView>, b: Option<OperationView>) -> bool {
    match (a, b) {
        (Some(a), Some(b)) => identifier(a.summary->0) == identifier(b.summary->0)
            ==> a.operation_id != b.operation_id,
        _ => true,
    }
}

/// A number behind an identifier tells it apart from the same identifier with
/// another number, or without one.
pub proof fn law_suffix(id: Seq<char>, m: nat, n: nat)
    requires
        id + suffix(m) == id + suffix(n),
    ensures
        m == n,
{
    assert((id + suffix(m)).skip(id.len() as int) =~= suffix(m));
    assert((id + suffix(n)).skip(id.len() as int) =~= suffix(n));
    law_decimal(m);
    law_decimal(n);
}

proof fn lemma_new_id(ids: Seq<(Seq<char>, usize)>, name: Seq<char>, other: Seq<char>)
    requires
        ascending(ids),
    ensures
        new_id(ids, name) matches Ok((next, id)) ==> {
            let own = identifier(name);
            let n: nat = match lookup(ids, own) {
                Some(c) => (c + 1) as nat,
                None => 0,
            };
            &&& ascending(next)
            &&& id == own + suffix(n)
            &&& lookup(next, own) matches Some(c) && c == n
            &&& other != own ==> lookup(next, other) == lookup(ids, other)
        },
{
    let own = identifier(name);
    if let Ok((next, id)) = new_id(ids, name) {
        match lookup(ids, own) {
            None => {
                law_put_ascending(ids, own, 0);
                law_put_lookup(ids, own, 0, other);
                assert(id =~= own + suffix(0));
            },
            Some(c) => {
                law_put_at(ids, own, (c + 1) as usize);
                law_put_lookup(ids, own, (c + 1) as usize, other);
            },
        }
    }
}

/// What has been counted stays counted.
proof fn lemma_numbered_grows(
    ids: Seq<(Seq<char>, usize)>,
    name: Seq<char>,
    op: OperationView,
)
    requires
        ascending(ids),
        numbered(ids, op),
    ensures
        new_id(ids, name) matches Ok((next, _)) ==> numbered(next, op),
{
    let own = identifier(op.summary->0);
    lemma_new_id(ids, name, own);
    let n = choose|n: nat|
        op.operation_id == Some(own + #[trigger] suffix(n)) && (lookup(ids, own) matches Some(c)
            && n <= c);
    if let Ok((next, _)) = new_id(ids, name) {
        assert(op.operation_id == Some(own + suffix(n)));
    }
}

proof fn lemma_ids(
    before: Paths,
    after: Paths,
    i: int,
    k: int,
    ids: Seq<(Seq<char>, usize)>,
    next: Seq<(Seq<char>, usize)>,
    name: Seq<char>,
    op: OperationView,
)
    requires
        ascending(ids),
        all_numbered(ids, before),
        told_apart(before),
        differs_at(before, after, i, k),
        op_at(after, i, k) == Some(op),
        match op_before(before, i, k) {
            Some(g) => op.operation_id == g.operation_id && op.summary == g.summary && next == ids,
            None => op.summary == Some(name) && op.operation_id is Some && new_id(ids, name)
                == Ok::<_, Fault>((next, op.operation_id->0)),
        },
    ensures
        ascending(next),
        all_numbered(next, after),
        told_apart(after),
{
    let fresh = op_before(before, i, k) is None;
    lemma_new_id(ids, name, seq![]);
    assert forall|j: int, l: int| is_place(after, j, l) implies (#[trigger] op_at(
        after,
        j,
        l,
    ) matches Some(o) ==> numbered(next, o)) by {
        if j == i && l == k {
            if fresh {
                let n: nat = match lookup(ids, identifier(name)) {
                    Some(c) => (c + 1) as nat,
                    None => 0,
                };
                assert(op.operation_id == Some(identifier(name) + suffix(n)));
            } else {
                assert(is_place(before, i, k));
                let g = op_at(before, i, k)->0;
                assert(numbered(ids, g));
            }
        } else if j < before.len() {
            assert(is_place(before, j, l));
            if let Some(o) = op_at(before, j, l) {
                if fresh {
                    lemma_numbered_grows(ids, name, o);
                }
            }
        }
    }
    assert forall|a: int, b: int, c: int, d: int|
        is_place(after, a, b) && is_place(after, c, d) && (a != c || b != d) implies differ(
        #[trigger] op_at(after, a, b),
        #[trigger] op_at(after, c, d),
    ) by {
        if a == i && b == k {
            lemma_differs(before, after, i, k, ids, name, op, c, d);
        } else if c == i && d == k {
            lemma_differs(before, after, i, k, ids, name, op, a, b);
        } else if a < before.len() && c < before.len() {
            assert(is_place(before, a, b) && is_place(before, c, d));
            assert(differ(op_at(before, a, b), op_at(before, c, d)));
        }
    }
}

/// The operation in the place `k` of the path at `i` differs from that in
/// every other place.
proof fn lemma_differs(
    before: Paths,
    after: Paths,
    i: int,
    k: int,
    ids: Seq<(Seq<char>, usize)>,
    name: Seq<char>,
    op: OperationView,
    j: int,
    l: int,
)
    requires
        ascending(ids),
        all_numbered(ids, before),
        told_apart(before),
        differs_at(before, after, i, k),
        op_at(after, i, k) == Some(op),
        match op_before(before, i, k) {
            Some(g) => op.operation_id == g.operation_id && op.summary == g.summary,
            None => op.summary == Some(name) && op.operation_id is Some && (new_id(ids, name)
                matches Ok((_, id)) && id == op.operation_id->0),
        },
        is_place(after, j, l),
        j != i || l != k,
    ensures
        differ(Some(op), op_at(after, j, l)),
        differ(op_at(after, j, l), Some(op)),
{
    assert(op_at(after, j, l) == op_before(before, j, l));
    if j < before.len() {
        assert(is_place(before, j, l));
        if let Some(o) = op_at(before, j, l) {
            match op_before(before, i, k) {
                Some(g) => {
                    assert(is_place(before, i, k));
                    assert(differ(op_at(before, i, k), op_at(before, j, l)));
                    assert(differ(op_at(before, j, l), op_at(before, i, k)));
                },
                None => {
                    let own = identifier(o.summary->0);
                    lemma_new_id(ids, name, seq![]);
                    assert(numbered(ids, o));
                    if own == identifier(name) && o.operation_id == op.operation_id {
                        let n = choose|n: nat|
                            o.operation_id == Some(own + #[trigger] suffix(n)) && (lookup(ids, own)
                                matches Some(c) && n <= c);
                        law_suffix(own, n, (lookup(ids, own)->0 + 1) as nat);
                    }
                },
            }
        }
    }
}

/// The requirement speaks of schemes that are declared, of each once.
pub open spec fn declared(own: SecurityRequirementView, known: Schemes) -> bool {
    own.requirement matches Some(m) ==> ascending(m) && forall|i: int|
        0 <= i < m.len() ==> has_key(known, (#[trigger] m[i]).0)
}

/// Each of the requirements speaks of schemes that are declared.
pub open spec fn each_declared(list: Seq<SecurityRequirementView>, known: Schemes) -> bool {
    forall|i: int| 0 <= i < list.len() ==> declared(#[trigger] list[i], known)
}

/// The requirements, where there are any, speak of schemes that are declared.
pub open spec fn all_declared(
    security: Option<Seq<SecurityRequirementView>>,
    known: Schemes,
) -> bool {
    security matches Some(list) ==> each_declared(list, known)
}

/// The requirements of all operations speak of schemes that are declared.
pub open spec fn all_secured(paths: Paths, known: Schemes) -> bool {
    forall|i: int, k: int|
        is_place(paths, i, k) ==> (#[trigger] op_at(paths, i, k) matches Some(op) ==> all_declared(
            op.security,
            known,
        ))
}

/// No server occurs twice.
pub open spec fn servers_once(servers: Option<Seq<ServerView>>) -> bool {
    servers matches Some(list) ==> forall|i: int, j: int|
        0 <= i < j < list.len() ==> (#[trigger] list[i]).url != (#[trigger] list[j]).url
}

/// Every scheme of `a` is also in `b`.
spec fn known_in(a: Schemes, b: Schemes) -> bool {
    forall|name: Seq<char>| has_key(a, name) ==> #[trigger] has_key(b, name)
}

/// What holds while a collection is read.
pub open spec fn sound(state: StateView) -> bool {
    let known = schemes(state.oas.components);
    &&& state.hierarchy == Seq::<Seq<char>>::empty()
    &&& ascending(state.operation_ids)
    &&& once(state.oas.paths)
    &&& all_rooted(state.oas.paths)
    &&& all_settled(state.oas.paths)
    &&& all_numbered(state.operation_ids, state.oas.paths)
    &&& told_apart(state.oas.paths)
    &&& all_secured(state.oas.paths, known)
    &&& all_declared(state.oas.security, known)
    &&& each_declared(state.auth_stack, known)
    &&& servers_once(state.oas.servers)
    &&& ordered_schemes(known)
}

/// What is needed is declared once its scheme is.
proof fn lemma_with_scheme(ctx: Context, state: StateView, auth: Auth)
    requires
        sound(state),
    ensures
        with_scheme(ctx, state, auth) matches Ok(after) ==> {
            &&& sound(after)
            &&& after == StateView {
                oas: SpecView { components: after.oas.components, ..state.oas },
                ..state
            }
            &&& need(auth) matches Some(own) ==> declared(
                requirement(own),
                schemes(after.oas.components),
            )
        },
{
    if let Ok(after) = with_scheme(ctx, state, auth) {
        let a = schemes(state.oas.components);
        let b = schemes(after.oas.components);
        if let Some(own) = scheme(ctx, auth)->Ok_0 {
            let name = scheme_name(auth);
            assert forall|other: Seq<char>| #[trigger] has_key(b, other) == (other == name
                || has_key(a, other)) by {
                law_put_has_key(a, name, RefView::Object(own), other);
            }
            if let Some(Some((n, scopes))) = need(auth) {
                let m = put(seq![], n, scopes);
                assert(m =~= seq![(n, scopes)]);
            }
        }
        assert(known_in(a, b));
        law_schemes_ordered(ctx, state, auth);
        lemma_known_in(state, after);
    }
}

/// More schemes do no harm.
proof fn lemma_known_in(state: StateView, after: StateView)
    requires
        sound(state),
        known_in(schemes(state.oas.components), schemes(after.oas.components)),
        ordered_schemes(schemes(after.oas.components)),
        after == (StateView {
            oas: SpecView { components: after.oas.components, ..state.oas },
            ..state
        }),
    ensures
        sound(after),
{
    let known = schemes(after.oas.components);
    assert forall|i: int, k: int| is_place(after.oas.paths, i, k) implies (#[trigger] op_at(
        after.oas.paths,
        i,
        k,
    ) matches Some(op) ==> all_declared(op.security, known)) by {
        assert(op_at(state.oas.paths, i, k) == op_at(after.oas.paths, i, k));
    }
}

proof fn lemma_required(
    security: Seq<SecurityRequirementView>,
    new: Seq<SecurityRequirementView>,
    i: int,
    known: Schemes,
)
    requires
        0 <= i,
        each_declared(security, known),
        each_declared(new, known),
    ensures
        each_declared(required_from(security, new, i), known),
    decreases new.len() - i,
{
    if i < new.len() {
        assert(declared(new[i], known));
        if security.contains(new[i]) {
            lemma_required(security, new, i + 1, known);
        } else {
            lemma_required(security.push(new[i]), new, i + 1, known);
        }
    }
}

proof fn lemma_with_operation(
    ctx: Context,
    state: StateView,
    item: Items,
    request: RequestClass,
    name: Seq<char>,
    url: UrlClass,
    path: Seq<PathElement>,
    security: Option<Seq<SecurityRequirementView>>,
)
    requires
        sound(state),
        all_declared(security, schemes(state.oas.components)),
    ensures
        with_operation(ctx, state, item, request, name, url, path, security) matches Ok(after) ==> {
            &&& sound(after)
            &&& after.auth_stack == state.auth_stack
            &&& keys(state.oas.paths).is_prefix_of(keys(after.oas.paths))
        },
{
    let (i, k) = lemma_effect(ctx, state, item, request, name, url, path, security);
    if let Ok(after) = with_operation(ctx, state, item, request, name, url, path, security) {
        let before = state.oas.paths;
        let paths = after.oas.paths;
        let known = schemes(state.oas.components);
        let op = op_at(paths, i, k)->0;
        lemma_ids(
            before,
            paths,
            i,
            k,
            state.operation_ids,
            after.operation_ids,
            name,
            op,
        );
        assert(all_declared(op.security, known)) by {
            if let Some(g) = op_before(before, i, k) {
                assert(is_place(before, i, k));
                assert(all_declared(g.security, known));
                if let (Some(a), Some(b)) = (g.security, security) {
                    lemma_required(a, b, 0, known);
                }
            }
        }
        assert forall|j: int, l: int| is_place(paths, j, l) implies (#[trigger] op_at(
            paths,
            j,
            l,
        ) matches Some(o) ==> settled(o) && all_declared(o.security, known)) by {
            if j != i || l != k {
                assert(op_at(paths, j, l) == op_before(before, j, l));
                if j < before.len() {
                    assert(is_place(before, j, l));
                }
            }
        }
        lemma_key_at(before, paths[i].0);
        assert forall|a: int, b: int| 0 <= a < b < paths.len() implies (#[trigger] paths[a]).0 != (
        #[trigger] paths[b]).0 by {
            assert(paths[a].0 == before[a].0);
            if b < before.len() {
                assert(paths[b].0 == before[b].0);
            }
        }
        assert forall|a: int| 0 <= a < paths.len() implies is_rooted((#[trigger] paths[a]).0) by {
            if a < before.len() {
                assert(is_rooted(before[a].0));
            }
        }
        assert(keys(before) =~= keys(paths).take(before.len() as int));
    }
}

/// `after` is sound, stands in the same folder as `state`, and has the paths of
/// `state` where `state` has them.
pub open spec fn follows(state: StateView, after: StateView) -> bool {
    &&& sound(after)
    &&& after.auth_stack == state.auth_stack
    &&& keys(state.oas.paths).is_prefix_of(keys(after.oas.paths))
}

proof fn lemma_with_host(ctx: Context, state: StateView, url: UrlClass)
    requires
        sound(state),
    ensures
        with_host(ctx, state, url) matches Ok(after) ==> sound(after) && after == (StateView {
            oas: SpecView { servers: after.oas.servers, ..state.oas },
            ..state
        }),
{
    if let Ok(after) = with_host(ctx, state, url) {
        if let (Some(a), Some(b)) = (state.oas.servers, after.oas.servers) {
            if b.len() > a.len() {
                assert forall|i: int, j: int| 0 <= i < j < b.len() implies (#[trigger] b[i]).url
                    != (#[trigger] b[j]).url by {
                    assert(b[i] == a[i]);
                    if j < a.len() {
                        assert(b[j] == a[j]);
                    } else {
                        assert(!has_server(a, b[j].url));
                    }
                }
            }
        }
        assert forall|i: int, k: int| is_place(after.oas.paths, i, k) implies #[trigger] op_at(
            after.oas.paths,
            i,
            k,
        ) == op_at(state.oas.paths, i, k) by {}
    }
}

proof fn lemma_with_auth(ctx: Context, state: StateView, auth: Option<Auth>)
    requires
        sound(state),
    ensures
        with_auth(ctx, state, auth) matches Ok((after, security)) ==> {
            &&& sound(after)
            &&& after.oas.paths == state.oas.paths
            &&& after.auth_stack == state.auth_stack
            &&& all_declared(security, schemes(after.oas.components))
        },
{
    if let Some(auth) = auth {
        lemma_with_scheme(ctx, state, auth);
    }
}

proof fn lemma_with_item(ctx: Context, state: StateView, item: Items, name: Seq<char>)
    requires
        sound(state),
    ensures
        with_item(ctx, state, item, name) matches Ok(after) ==> follows(state, after),
{
    assert(keys(state.oas.paths) =~= keys(state.oas.paths).take(state.oas.paths.len() as int));
    if let Some(postman::RequestUnion::RequestClass(request)) = item.request {
        if let Some(postman::Url::UrlClass(url)) = request.url {
            lemma_with_host(ctx, state, url);
            if let Ok(state1) = with_host(ctx, state, url) {
                lemma_with_auth(ctx, state1, request.auth);
                if let Ok((state2, security)) = with_auth(ctx, state1, request.auth) {
                    lemma_with_operation(
                        ctx,
                        state2,
                        item,
                        request,
                        name,
                        url,
                        path_of(url),
                        security,
                    );
                }
            }
        }
    }
}

proof fn lemma_entered(ctx: Context, state: StateView, auth: Option<Auth>)
    requires
        sound(state),
    ensures
        entered(ctx, state, auth) matches Ok(after) ==> {
            &&& sound(after)
            &&& after.oas.paths == state.oas.paths
            &&& forall|inner: StateView|
                sound(inner) && inner.auth_stack == after.auth_stack ==> {
                    &&& sound(#[trigger] left(inner, auth))
                    &&& left(inner, auth).auth_stack == state.auth_stack
                    &&& left(inner, auth).oas == inner.oas
                }
        },
{
    if let Ok(after) = entered(ctx, state, auth) {
        if let Some(own) = auth {
            lemma_with_scheme(ctx, state, own);
            let between = with_scheme(ctx, state, own)->Ok_0;
            if let Some(n) = need(own) {
                let known = schemes(after.oas.components);
                assert(after.auth_stack == between.auth_stack.push(requirement(n)));
                assert(after.auth_stack.drop_last() =~= state.auth_stack);
                assert forall|i: int| 0 <= i < after.auth_stack.len() implies declared(
                    #[trigger] after.auth_stack[i],
                    known,
                ) by {
                    if i < between.auth_stack.len() {
                        assert(declared(between.auth_stack[i], known));
                    }
                }
                assert forall|i: int, k: int|
                    is_place(after.oas.paths, i, k) implies #[trigger] op_at(
                    after.oas.paths,
                    i,
                    k,
                ) == op_at(between.oas.paths, i, k) by {}
            }
        }
        assert forall|inner: StateView|
            sound(inner) && inner.auth_stack == after.auth_stack implies {
            &&& sound(#[trigger] left(inner, auth))
            &&& left(inner, auth).auth_stack == state.auth_stack
            &&& left(inner, auth).oas == inner.oas
        } by {
            let out = left(inner, auth);
            let known = schemes(inner.oas.components);
            assert forall|i: int| 0 <= i < out.auth_stack.len() implies declared(
                #[trigger] out.auth_stack[i],
                known,
            ) by {
                assert(declared(inner.auth_stack[i], known));
            }
        }
    }
}

/// Reading items keeps what holds of the description. It leaves the folder as
/// it was entered, whatever the items and their folders require, and every
/// path that is there keeps its place before those that come.
pub proof fn law_items(ctx: Context, state: StateView, items: Seq<Items>, i: int)
    requires
        sound(state),
    ensures
        with_items(ctx, state, items, i) matches Ok(after) ==> follows(state, after),
    decreases items, items.len() - i,
{
    assert(keys(state.oas.paths) =~= keys(state.oas.paths).take(state.oas.paths.len() as int));
    if 0 <= i < items.len() {
        match items[i].item {
            None => {
                let name = request_name(items[i]);
                lemma_with_item(ctx, state, items[i], name);
                if let Ok(next) = with_item(ctx, state, items[i], name) {
                    law_items(ctx, next, items, i + 1);
                }
            },
            Some(children) => {
                law_folder(ctx, state, children@, items[i].auth);
                if let Ok(next) = with_folder(ctx, state, children@, items[i].auth) {
                    law_items(ctx, next, items, i + 1);
                }
            },
        }
    }
}

/// Reading a folder keeps what holds of the description, and what the folder
/// requires ends with it.
pub proof fn law_folder(ctx: Context, state: StateView, items: Seq<Items>, auth: Option<Auth>)
    requires
        sound(state),
    ensures
        with_folder(ctx, state, items, auth) matches Ok(after) ==> follows(state, after),
    decreases items, items.len() + 1,
{
    lemma_entered(ctx, state, auth);
    if let Ok(inside) = entered(ctx, state, auth) {
        law_items(ctx, inside, items, 0);
        if let Ok(inner) = with_items(ctx, inside, items, 0) {
            assert(sound(left(inner, auth)));
        }
    }
}

proof fn lemma_finish(spec: postman::Spec)
    ensures
        finish(spec) matches Ok(state) ==> sound(state) && state.auth_stack.len() == 0,
{
    let ctx = collection_context(spec);
    let first = start(spec.info);
    assert(sound(first));
    if let Some(auth) = spec.auth {
        lemma_with_scheme(ctx, first, auth);
    }
    if let Ok(state) = with_root(ctx, first, spec.auth) {
        assert(state.oas.paths =~= seq![]);
        assert(sound(state));
        law_items(ctx, state, spec.item@, 0);
    }
}

/// Every path of a description begins with a slash, and none occurs twice.
pub proof fn law_paths_once(spec: postman::Spec)
    ensures
        transpiled(spec) matches Ok(s) ==> once(s.paths) && all_rooted(s.paths),
{
    lemma_finish(spec);
}

/// The paths of the first items come before those of the later ones, in the
/// order in which they came.
pub proof fn law_paths_in_order(spec: postman::Spec, state: StateView, i: int)
    requires
        0 <= i <= spec.item@.len(),
        with_root(collection_context(spec), start(spec.info), spec.auth) matches Ok(root)
            && with_items(collection_context(spec), root, spec.item@.take(i), 0) == Ok::<
            StateView,
            Fault,
        >(state),
    ensures
        transpiled(spec) matches Ok(s) ==> keys(state.oas.paths).is_prefix_of(keys(s.paths)),
{
    let ctx = collection_context(spec);
    let root = with_root(ctx, start(spec.info), spec.auth)->Ok_0;
    assert(sound(start(spec.info)));
    if let Some(auth) = spec.auth {
        lemma_with_scheme(ctx, start(spec.info), auth);
    }
    assert(root.oas.paths =~= seq![]);
    assert(sound(root));
    lemma_split(ctx, root, spec.item@, i, 0);
    law_items(ctx, root, spec.item@.take(i), 0);
    law_items(ctx, state, spec.item@, i);
}

/// `list` at the end of `once`, without what is there already.
pub open spec fn gathered(once: Seq<Seq<char>>, list: Seq<Seq<char>>) -> Seq<Seq<char>>
    decreases list.len(),
{
    if list.len() == 0 {
        once
    } else {
        let before = gathered(once, list.drop_last());
        if before.contains(list.last()) {
            before
        } else {
            before.push(list.last())
        }
    }
}

/// The texts of the list, each where it stands first.
pub open spec fn first_occurrences(list: Seq<Seq<char>>) -> Seq<Seq<char>> {
    gathered(seq![], list)
}

proof fn lemma_gathered(once: Seq<Seq<char>>, a: Seq<Seq<char>>, b: Seq<Seq<char>>)
    ensures
        gathered(once, a + b) == gathered(gathered(once, a), b),
    decreases b.len(),
{
    if b.len() == 0 {
        assert(a + b =~= a);
    } else {
        assert((a + b).drop_last() =~= a + b.drop_last());
        lemma_gathered(once, a, b.drop_last());
    }
}

proof fn lemma_item_path(ctx: Context, state: StateView, item: Items, name: Seq<char>)
    ensures
        with_item(ctx, state, item, name) matches Ok(after) ==> keys(after.oas.paths) == gathered(
            keys(state.oas.paths),
            match request_path(ctx, item) {
                Some(path) => seq![path],
                None => seq![],
            },
        ),
{
    if let (Ok(after), Some(path)) = (
        with_item(ctx, state, item, name),
        request_path(ctx, item),
    ) {
        let a = state.oas.paths;
        let b = after.oas.paths;
        let new = seq![path];
        assert(new.drop_last() =~= seq![]);
        assert(gathered(keys(a), new.drop_last()) == keys(a));
        lemma_key_at(a, path);
        match key_at(a, path) {
            Some(i) => {
                assert(keys(a)[i] == path);
                assert(keys(b) =~= keys(a));
            },
            None => {
                assert(!keys(a).contains(path)) by {
                    if keys(a).contains(path) {
                        let i = choose|i: int| 0 <= i < keys(a).len() && keys(a)[i] == path;
                        assert(a[i].0 == path);
                    }
                }
                assert(keys(b) =~= keys(a).push(path));
            },
        }
    }
}

proof fn lemma_items_paths(ctx: Context, state: StateView, items: Seq<Items>, i: int)
    ensures
        with_items(ctx, state, items, i) matches Ok(after) ==> keys(after.oas.paths) == gathered(
            keys(state.oas.paths),
            request_paths(ctx, items, i),
        ),
    decreases items, items.len() - i,
{
    if 0 <= i < items.len() {
        let rest = request_paths(ctx, items, i + 1);
        match items[i].item {
            None => {
                let name = request_name(items[i]);
                lemma_item_path(ctx, state, items[i], name);
                if let Ok(next) = with_item(ctx, state, items[i], name) {
                    lemma_items_paths(ctx, next, items, i + 1);
                    let own = match request_path(ctx, items[i]) {
                        Some(path) => seq![path],
                        None => seq![],
                    };
                    lemma_gathered(keys(state.oas.paths), own, rest);
                }
            },
            Some(children) => {
                if let Ok(inside) = entered(ctx, state, items[i].auth) {
                    lemma_items_paths(ctx, inside, children@, 0);
                    if let Ok(next) = with_folder(ctx, state, children@, items[i].auth) {
                        lemma_items_paths(ctx, next, items, i + 1);
                        lemma_gathered(
                            keys(state.oas.paths),
                            request_paths(ctx, children@, 0),
                            rest,
                        );
                    }
                }
            },
        }
    }
}

/// The paths of a description are those of the requests of the collection, in
/// folders or not, each where it comes first. None is left out, and there are
/// no others.
pub proof fn law_paths_of_requests(spec: postman::Spec)
    ensures
        transpiled(spec) matches Ok(s) ==> keys(s.paths) == first_occurrences(
            request_paths(collection_context(spec), spec.item@, 0),
        ),
{
    let ctx = collection_context(spec);
    if let Ok(root) = with_root(ctx, start(spec.info), spec.auth) {
        assert(keys(root.oas.paths) =~= seq![]);
        lemma_items_paths(ctx, root, spec.item@, 0);
    }
}

/// The first occurrences in a list are what is in the list, none of it twice.
/// Each stands behind those that occur before it.
pub proof fn law_first_occurrences(list: Seq<Seq<char>>)
    ensures
        first_occurrences(list).no_duplicates(),
        forall|p: Seq<char>| first_occurrences(list).contains(p) <==> #[trigger] list.contains(p),
        list.len() > 0 ==> first_occurrences(list.drop_last()).is_prefix_of(
            first_occurrences(list),
        ),
    decreases list.len(),
{
    let r = first_occurrences(list);
    if list.len() > 0 {
        let init = list.drop_last();
        law_first_occurrences(init);
        let before = first_occurrences(init);
        assert(before =~= r.take(before.len() as int));
        assert forall|p: Seq<char>| r.contains(p) <==> #[trigger] list.contains(p) by {
            assert(list =~= init.push(list.last()));
            if list.contains(p) {
                let k = choose|k: int| 0 <= k < list.len() && list[k] == p;
                if k < init.len() {
                    assert(init[k] == p);
                    assert(init.contains(p));
                    assert(before.contains(p));
                    let j = choose|j: int| 0 <= j < before.len() && before[j] == p;
                    assert(r[j] == p);
                } else if !before.contains(p) {
                    assert(r[before.len() as int] == p);
                }
            }
            if r.contains(p) {
                let k = choose|k: int| 0 <= k < r.len() && r[k] == p;
                if k < before.len() {
                    assert(before[k] == p);
                    assert(before.contains(p) && init.contains(p));
                    let j = choose|j: int| 0 <= j < init.len() && init[j] == p;
                    assert(list[j] == p);
                } else {
                    assert(list[list.len() - 1] == p);
                }
            }
        }
    }
}

proof fn lemma_split(ctx: Context, state: StateView, items: Seq<Items>, n: int, i: int)
    requires
        0 <= i <= n <= items.len(),
    ensures
        with_items(ctx, state, items.take(n), i) matches Ok(between) ==> with_items(
            ctx,
            state,
            items,
            i,
        ) == with_items(ctx, between, items, n),
    decreases n - i,
{
    if i < n {
        assert(items.take(n)[i] == items[i]);
        match items[i].item {
            None => {
                if let Ok(next) = with_item(ctx, state, items[i], request_name(items[i])) {
                    lemma_split(ctx, next, items, n, i + 1);
                }
            },
            Some(children) => {
                if let Ok(next) = with_folder(ctx, state, children@, items[i].auth) {
                    lemma_split(ctx, next, items, n, i + 1);
                }
            },
        }
    }
}

/// Every operation of a description has an identifier and an account, belongs
/// to no group, has a response for success, has each of its parameters, by
/// name and location, once, and keeps its maps in order: the responses, the
/// headers of a response, the media types of a body, their examples, and the
/// properties of a schema.
pub proof fn law_operations_settled(spec: postman::Spec)
    ensures
        transpiled(spec) matches Ok(s) ==> all_settled(s.paths),
{
    lemma_finish(spec);
}

/// Two operations of a description whose names give the same identifier have
/// different ones.
pub proof fn law_identifiers_told_apart(spec: postman::Spec)
    ensures
        transpiled(spec) matches Ok(s) ==> told_apart(s.paths),
{
    lemma_finish(spec);
}

/// All that a description and its operations require is declared in it.
pub proof fn law_requirements_declared(spec: postman::Spec)
    ensures
        transpiled(spec) matches Ok(s) ==> all_declared(s.security, schemes(s.components))
            && all_secured(s.paths, schemes(s.components)),
{
    lemma_finish(spec);
}

/// The schemes that a description declares stand in the order of their names,
/// none twice, and so do the scopes of each.
pub proof fn law_schemes_in_order(spec: postman::Spec)
    ensures
        transpiled(spec) matches Ok(s) ==> ordered_schemes(schemes(s.components)),
{
    lemma_finish(spec);
}

/// No server occurs twice in a description.
pub proof fn law_servers_once(spec: postman::Spec)
    ensures
        transpiled(spec) matches Ok(s) ==> servers_once(s.servers),
{
    lemma_finish(spec);
}

/// While an operation is described, a key is described unless it makes no
/// pattern: the section of an operation can always be read.
pub proof fn law_operation_described(ctx: Context, name: Seq<char>, n: nat, key: Seq<char>)
    requires
        ctx.operation == Some(identifier(name) + suffix(n)),
    ensures
        ctx.describes(key) is Err <==> key.len() > 0 && !is_sought(key),
{
    let id = identifier(name) + suffix(n);
    law_identifier(name);
    law_decimal(n);
    assert forall|i: int| 0 <= i < id.len() implies is_letter(#[trigger] id[i]) || is_digit(
        id[i],
    ) by {
        if i < identifier(name).len() {
            assert(id[i] == identifier(name)[i]);
        } else {
            assert(id[i] == suffix(n)[i - identifier(name).len()]);
        }
    }
    law_described(ctx.description, Some(id), key);
}

} // verus!
