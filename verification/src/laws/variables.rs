//! What becomes of the variables of a collection.

use vstd::prelude::*;

use crate::collection::{collection_context, has_server, variables_from, with_server};
use crate::context::{
    is_searchable, law_first_variable_kept, law_first_variable_replaced, resolution, resolved,
    resolved_segment, Context, VAR_REPLACE_CREDITS,
};
use crate::fault::Fault;
use crate::json::JsonView;
use crate::laws::authorizations::{is_resolved, lemma_resolved};
use crate::laws::texts::law_replaced;
use crate::map::{ascending, has_key, law_put_ascending, law_put_lookup, lemma_key_at, lookup, put};
use crate::openapi::v3_0::{ServerView, SpecView};
use crate::pattern::{
    brace_from, compiles, escaped, first_variable, law_first_variable, lemma_name_at, name_at,
    placeholder, stands_at, substituted, templated, LITERAL_CHARS,
};
use crate::postman;
use crate::postman::{UrlClass, Variable};
use crate::state::StateView;
use crate::text::{joined, matches_at};

verus! {

/// The variable has the key, and a value other than the empty text.
pub open spec fn has_value(v: Variable, key: Seq<char>) -> bool {
    &&& v.key.deep_view() == Some(key)
    &&& v.value is Some
    &&& v.value->0.deep_view() != JsonView::String(seq![])
}

/// The variable at `i` gives the key its value: it is the last with that key
/// that has one.
pub open spec fn gives_value(variables: Seq<Variable>, i: int, key: Seq<char>) -> bool {
    &&& 0 <= i < variables.len()
    &&& has_value(variables[i], key)
    &&& forall|j: int| i < j < variables.len() ==> !has_value(#[trigger] variables[j], key)
}

proof fn lemma_variables(
    variables: Seq<Variable>,
    i: int,
    acc: Seq<(Seq<char>, JsonView)>,
    key: Seq<char>,
)
    requires
        0 <= i,
        ascending(acc),
    ensures
        ascending(variables_from(variables, i, acc)),
        forall|k: int|
            i <= k && #[trigger] gives_value(variables, k, key) ==> lookup(
                variables_from(variables, i, acc),
                key,
            ) == Some(variables[k].value->0.deep_view()),
        (forall|k: int| i <= k < variables.len() ==> !has_value(#[trigger] variables[k], key))
            ==> lookup(variables_from(variables, i, acc), key) == lookup(acc, key),
    decreases variables.len() - i,
{
    if i < variables.len() {
        let v = variables[i];
        let next = match (v.key, v.value) {
            (Some(own), Some(value)) if value.deep_view() != JsonView::String(seq![]) => put(
                acc,
                own@,
                value.deep_view(),
            ),
            _ => acc,
        };
        if v.key is Some && has_value(v, v.key->0@) {
            law_put_ascending(acc, v.key->0@, v.value->0.deep_view());
            law_put_lookup(acc, v.key->0@, v.value->0.deep_view(), key);
        }
        lemma_variables(variables, i + 1, next, key);
    }
}

proof fn lemma_last_value(variables: Seq<Variable>, i: int, key: Seq<char>)
    requires
        0 <= i < variables.len(),
        has_value(variables[i], key),
    ensures
        exists|k: int| #[trigger] gives_value(variables, k, key),
    decreases variables.len() - i,
{
    if exists|j: int| i < j < variables.len() && has_value(#[trigger] variables[j], key) {
        let j = choose|j: int| i < j < variables.len() && has_value(#[trigger] variables[j], key);
        lemma_last_value(variables, j, key);
    } else {
        assert(gives_value(variables, i, key));
    }
}

/// A key has the value of the last variable of the collection with that key
/// whose value is not the empty text, and none where there is no such variable.
pub proof fn law_variables(spec: postman::Spec, variables: Seq<Variable>, key: Seq<char>)
    requires
        variables == match spec.variable {
            Some(list) => list@,
            None => seq![],
        },
    ensures
        ascending(collection_context(spec).variables),
        forall|i: int| #[trigger]
            gives_value(variables, i, key) ==> lookup(collection_context(spec).variables, key)
                == Some(variables[i].value->0.deep_view()),
        has_key(collection_context(spec).variables, key) <==> exists|i: int|
            0 <= i < variables.len() && has_value(#[trigger] variables[i], key),
{
    lemma_variables(variables, 0, seq![], key);
    lemma_key_at(Seq::<(Seq<char>, JsonView)>::empty(), key);
    if exists|i: int| 0 <= i < variables.len() && has_value(#[trigger] variables[i], key) {
        let i = choose|i: int| 0 <= i < variables.len() && has_value(#[trigger] variables[i], key);
        lemma_last_value(variables, i, key);
        let k = choose|k: int| #[trigger] gives_value(variables, k, key);
        assert(gives_value(variables, k, key));
    }
}

/// A variable between `a` and `b`, which is the first in the text and occurs
/// once, is replaced by its value, if that is a text without a dollar sign, and
/// what that gives is resolved with one credit less.
pub proof fn law_variable_replaced(
    variables: Seq<(Seq<char>, JsonView)>,
    a: Seq<char>,
    name: Seq<char>,
    b: Seq<char>,
    value: Seq<char>,
    credits: nat,
)
    requires
        credits > 0,
        !name.contains('{') && !name.contains('}'),
        lookup(variables, name) == Some(JsonView::String(value)),
        !value.contains('$'),
        is_searchable(name),
        forall|other: Seq<char>, i: int|
            0 <= i < a.len() ==> !#[trigger] stands_at(a + placeholder(name) + b, other, i),
        forall|i: int| !#[trigger] matches_at(b, placeholder(name), i),
    ensures
        resolved(variables, a + placeholder(name) + b, credits) == resolved(
            variables,
            a + value + b,
            (credits - 1) as nat,
        ),
        resolved_segment(variables, a + placeholder(name) + b, credits) == resolved(
            variables,
            a + value + b,
            (credits - 1) as nat,
        ),
{
    let text = a + placeholder(name) + b;
    let at = a.len() as int;
    reveal_strlit("{{");
    reveal_strlit("}}");
    assert(text.subrange(at, at + placeholder(name).len()) =~= placeholder(name));
    assert(stands_at(text, name, at));
    law_first_variable(text, name, at);
    law_first_variable_replaced(variables, text, credits, name, value);
    assert forall|i: int| 0 <= i < a.len() implies !#[trigger] matches_at(
        text,
        placeholder(name),
        i,
    ) by {
        assert(!stands_at(text, name, i));
    }
    law_replaced(a, placeholder(name), b, value);
    law_replaced(b, placeholder(name), seq![], value);
}

/// A text in which no variable stands is its own resolution.
pub proof fn law_no_variable(ctx: Context, text: Seq<char>)
    requires
        forall|name: Seq<char>, i: int| !#[trigger] stands_at(text, name, i),
    ensures
        resolution(ctx, text) == Ok::<Seq<char>, Fault>(text),
{
    law_first_variable(text, seq![], 0);
    law_first_variable_kept(ctx.variables, text, VAR_REPLACE_CREDITS as nat);
}

/// The protocol, if there is one, and the parts of the host, with dots between
/// them.
pub open spec fn host_text(url: UrlClass, parts: Seq<Seq<char>>) -> Seq<char> {
    if url.protocol is Some {
        url.protocol->0@ + "://"@ + joined(parts, "."@)
    } else {
        joined(parts, "."@)
    }
}

/// The servers after a request are those before it and, if it is not among
/// them, one at the address of the request: the protocol, if there is one, and
/// the parts of the host with dots between them, with the variables replaced.
/// Nothing else changes.
pub proof fn law_server(
    ctx: Context,
    state: StateView,
    url: UrlClass,
    parts: Seq<Seq<char>>,
    servers: Seq<ServerView>,
)
    requires
        state.oas.servers == Some(servers),
    ensures
        with_server(ctx, state, url, parts) matches Ok(after) ==> {
            &&& after == StateView {
                oas: SpecView { servers: after.oas.servers, ..state.oas },
                ..state
            }
            &&& after.oas.servers is Some
            &&& servers.is_prefix_of(after.oas.servers->0)
            &&& exists|address: Seq<char>| #[trigger]
                is_resolved(ctx, host_text(url, parts), address) && if exists|i: int|
                    0 <= i < servers.len() && (#[trigger] servers[i]).url == address {
                    after.oas.servers->0 == servers
                } else {
                    after.oas.servers->0 == servers.push(
                        ServerView { url: address, description: None },
                    )
                }
        },
{
    let text = host_text(url, parts);
    lemma_resolved(ctx, text);
    if let Ok(after) = with_server(ctx, state, url, parts) {
        let address = resolution(ctx, text)->Ok_0;
        assert(is_resolved(ctx, text, address));
        let r = after.oas.servers->0;
        assert(servers =~= r.take(servers.len() as int));
        assert(has_server(servers, address) == exists|i: int|
            0 <= i < servers.len() && (#[trigger] servers[i]).url == address);
    }
}

/// The first variable of a text, with a text as its value, that cannot be
/// searched for is a fault. One whose value holds a dollar sign is replaced as
/// the pattern crate does with the value as a template.
pub proof fn law_variable_otherwise(
    variables: Seq<(Seq<char>, JsonView)>,
    text: Seq<char>,
    name: Seq<char>,
    value: Seq<char>,
    credits: nat,
)
    requires
        credits > 0,
        first_variable(text) == Some(name),
        lookup(variables, name) == Some(JsonView::String(value)),
    ensures
        !is_searchable(name) ==> resolved(variables, text, credits) == Err::<Seq<char>, Fault>(
            Fault::Pattern,
        ) && resolved_segment(variables, text, credits) == Err::<Seq<char>, Fault>(Fault::Pattern),
        is_searchable(name) && value.contains('$') ==> {
            let next = substituted(escaped(placeholder(name)), text, value);
            &&& resolved(variables, text, credits) == resolved(
                variables,
                next,
                (credits - 1) as nat,
            )
            &&& resolved_segment(variables, text, credits) == resolved(
                variables,
                next,
                (credits - 1) as nat,
            )
        },
        is_searchable(name) <==> placeholder(name).len() <= LITERAL_CHARS || compiles(
            escaped(placeholder(name)),
        ),
{
}

proof fn lemma_brace_shift(s: Seq<char>, n: int, i: int)
    requires
        0 <= n,
        0 <= i,
        n + i <= s.len(),
    ensures
        brace_from(s, n + i) == n + brace_from(s.skip(n), i),
        n + i <= brace_from(s, n + i) <= s.len(),
    decreases s.len() - n - i,
{
    if n + i < s.len() && s[n + i] != '{' && s[n + i] != '}' {
        lemma_brace_shift(s, n, i + 1);
    }
}

/// The name at a position depends on what stands from there on.
pub proof fn lemma_name_shift(s: Seq<char>, open: Seq<char>, close: Seq<char>, n: int, i: int)
    requires
        0 <= n,
        0 <= i,
        n + i <= s.len(),
    ensures
        name_at(s, open, close, n + i) == name_at(s.skip(n), open, close, i),
        name_at(s, open, close, n + i) matches Some(name) ==> n + i + open.len() + name.len()
            + close.len() <= s.len(),
{
    let t = s.skip(n);
    let from = i + open.len();
    if n + from <= s.len() {
        lemma_brace_shift(s, n, from);
        let to = brace_from(t, from);
        assert(s.subrange(n + i, n + from) =~= t.subrange(i, from));
        if to + close.len() <= t.len() {
            assert(s.subrange(n + to, n + to + close.len()) =~= t.subrange(to, to + close.len()));
        }
        assert(s.subrange(n + from, n + to) =~= t.subrange(from, to));
    }
}

proof fn lemma_templated_shift(s: Seq<char>, n: int, i: int)
    requires
        0 <= n,
        0 <= i,
        n + i <= s.len(),
    ensures
        templated(s, n + i) == templated(s.skip(n), i),
    decreases s.len() - n - i,
{
    reveal_strlit("{{");
    reveal_strlit("}}");
    lemma_name_shift(s, "{{"@, "}}"@, n, i);
    if n + i < s.len() {
        match name_at(s, "{{"@, "}}"@, n + i) {
            Some(name) => {
                lemma_templated_shift(s, n, i + 4 + name.len());
            },
            None => {
                lemma_templated_shift(s, n, i + 1);
            },
        }
    }
}

proof fn lemma_templated_before(s: Seq<char>, i: int, at: int)
    requires
        0 <= i <= at <= s.len(),
        forall|other: Seq<char>, k: int| i <= k < at ==> !#[trigger] stands_at(s, other, k),
    ensures
        templated(s, i) == s.subrange(i, at) + templated(s, at),
    decreases at - i,
{
    if i < at {
        lemma_name_at(s, i);
        if let Some(name) = name_at(s, "{{"@, "}}"@, i) {
            assert(stands_at(s, name, i));
        }
        lemma_templated_before(s, i + 1, at);
        assert(s.subrange(i, at) =~= seq![s[i]] + s.subrange(i + 1, at));
        assert(templated(s, i) =~= s.subrange(i, at) + templated(s, at));
    } else {
        assert(templated(s, i) =~= s.subrange(i, at) + templated(s, at));
    }
}

/// In a segment in which there is nothing to replace, the first variable, which
/// stands behind `a`, becomes a place, and what follows is treated likewise. A
/// segment without a variable stays as it is.
pub proof fn law_places_made(a: Seq<char>, name: Seq<char>, b: Seq<char>)
    requires
        !name.contains('{') && !name.contains('}'),
        forall|other: Seq<char>, i: int|
            0 <= i < a.len() ==> !#[trigger] stands_at(a + placeholder(name) + b, other, i),
    ensures
        templated(a + placeholder(name) + b, 0) == a + "{"@ + name + "}"@ + templated(b, 0),
        (forall|other: Seq<char>, i: int| !#[trigger] stands_at(b, other, i)) ==> templated(b, 0)
            == b,
{
    reveal_strlit("{{");
    reveal_strlit("}}");
    let s = a + placeholder(name) + b;
    let at = a.len() as int;
    let end = at + 4 + name.len();
    lemma_templated_before(s, 0, at);
    assert(s.subrange(0, at) =~= a);
    assert(s.subrange(at, at + placeholder(name).len()) =~= placeholder(name));
    assert(stands_at(s, name, at));
    lemma_name_at(s, at);
    assert(s.skip(end) =~= b);
    lemma_templated_shift(s, end, 0);
    assert(templated(s, 0) =~= a + "{"@ + name + "}"@ + templated(b, 0));
    if forall|other: Seq<char>, i: int| !#[trigger] stands_at(b, other, i) {
        lemma_templated_before(b, 0, b.len() as int);
        assert(templated(b, 0) =~= b);
    }
}

/// Variables are replaced twenty times in one text, at most.
pub proof fn law_credits(ctx: Context, text: Seq<char>)
    ensures
        resolution(ctx, text) == resolved(ctx.variables, text, 20),
        resolved(ctx.variables, text, 0) == Ok::<Seq<char>, Fault>(text),
        resolved_segment(ctx.variables, text, 0) == Ok::<Seq<char>, Fault>(text),
        VAR_REPLACE_CREDITS == 20,
{
}

} // verus!
