//! What the places of paths, the keys of queries and the headers of requests
//! become.

use vstd::prelude::*;

use crate::casing::lowercase;
use crate::context::{resolution, Context};
use crate::fault::Fault;
use crate::json::{inferred_type, typed, JsonView};
use crate::laws::gathered;
use crate::laws::responses::describes_header;
use crate::laws::variables::lemma_name_shift;
use crate::notes::{listed_headers, or_empty, plain};
use crate::number::is_not_finite;
use crate::openapi::v3_0::{ParameterView, RefView, SchemaView};
use crate::parameters::{
    collapsed, combined_from, has_schema, header_parameter, header_schema, headers_from,
    is_parameter, is_skipped, lemma_parameter_from, parameter_at, path_parameters,
    path_parameters_from, place_example, place_parameter, places_from, query_from, query_parameter,
    query_parameters, request_headers, same_place, takes, variable_from, variable_named, widened,
    with_header, with_query, Parameters,
};
use crate::pattern::{brace_from, name_at, names_between, places, value_from};
use crate::postman;
use crate::postman::{Description, DescriptionUnion, QueryParam, Variable};
use crate::schema::merged;
use crate::text::{found, matches_at, pieces};

verus! {

/// The text of a description.
pub open spec fn text_in(description: Option<DescriptionUnion>) -> Option<Seq<char>> {
    match description {
        Some(DescriptionUnion::String(text)) => Some(text@),
        Some(DescriptionUnion::Description(Description { content: Some(text), .. })) => Some(text@),
        _ => None,
    }
}

/// The variable at `i` is the first of that name.
pub open spec fn is_named(variables: Option<Vec<Variable>>, i: int, name: Seq<char>) -> bool {
    &&& variables is Some
    &&& 0 <= i < variables->0@.len()
    &&& variables->0@[i].key.deep_view() == Some(name)
    &&& forall|j: int| 0 <= j < i ==> (#[trigger] variables->0@[j]).key.deep_view() != Some(name)
}

/// `p` is the parameter of a place of that name in a path: it must be there,
/// it is a text, and where a variable of the address has the name, it has its
/// description and its text, with the variables replaced, as an example.
pub open spec fn describes_place(
    ctx: Context,
    variables: Option<Vec<Variable>>,
    p: RefView<ParameterView>,
    name: Seq<char>,
) -> bool {
    let own = p->Object_0;
    &&& p is Object
    &&& own.name == name
    &&& own.location == "path"@
    &&& own.required == Some(true)
    &&& own.schema is Some
    &&& own.schema->0 == SchemaView {
        schema_type: Some("string"@),
        example: own.schema->0.example,
        ..SchemaView::empty()
    }
    &&& forall|i: int| #[trigger]
        is_named(variables, i, name) ==> {
            let v = variables->0@[i];
            &&& own.description == text_in(v.description)
            &&& match v.value.deep_view() {
                Some(JsonView::String(text)) => {
                    &&& resolution(ctx, text) is Ok
                    &&& own.schema->0.example == Some(
                        JsonView::String(resolution(ctx, text)->Ok_0),
                    )
                },
                _ => own.schema->0.example is None,
            }
        }
    &&& (forall|i: int| !#[trigger] is_named(variables, i, name)) ==> own.description is None
        && own.schema->0.example is None
}

/// What `variable_from` gives is the first variable of the name.
pub proof fn lemma_variable(variables: Seq<Variable>, name: Seq<char>, i: int)
    requires
        0 <= i,
        forall|j: int| 0 <= j < i && j < variables.len() ==> (#[trigger] variables[j]).key.deep_view()
            != Some(name),
    ensures
        match variable_from(variables, name, i) {
            Some(v) => exists|k: int|
                i <= k < variables.len() && #[trigger] variables[k] == v && v.key.deep_view()
                    == Some(name) && forall|j: int|
                    0 <= j < k ==> (#[trigger] variables[j]).key.deep_view() != Some(name),
            None => forall|j: int|
                0 <= j < variables.len() ==> (#[trigger] variables[j]).key.deep_view() != Some(
                    name,
                ),
        },
    decreases variables.len() - i,
{
    if i < variables.len() && variables[i].key.deep_view() != Some(name) {
        lemma_variable(variables, name, i + 1);
    }
}

proof fn lemma_place(ctx: Context, variables: Option<Vec<Variable>>, name: Seq<char>)
    ensures
        place_example(ctx, variable_named(variables, name)) matches Ok(example) ==> describes_place(
            ctx,
            variables,
            RefView::Object(place_parameter(name, variable_named(variables, name), example)),
            name,
        ),
{
    if let Some(list) = variables {
        lemma_variable(list@, name, 0);
        if let Some(v) = variable_named(variables, name) {
            let k = choose|k: int|
                0 <= k < list@.len() && #[trigger] list@[k] == v && v.key.deep_view() == Some(name)
                    && forall|j: int|
                    0 <= j < k ==> (#[trigger] list@[j]).key.deep_view() != Some(name);
            assert(is_named(variables, k, name));
            assert forall|i: int| #[trigger] is_named(variables, i, name) implies i == k by {
                if i < k {
                    assert(list@[i].key.deep_view() != Some(name));
                } else if k < i {
                    assert(list@[k].key.deep_view() != Some(name));
                }
            }
        }
    }
}

proof fn lemma_places(
    ctx: Context,
    variables: Option<Vec<Variable>>,
    names: Seq<Seq<char>>,
    i: int,
    params: Parameters,
)
    requires
        0 <= i <= names.len(),
    ensures
        places_from(ctx, variables, names, i, params) matches Ok(r) ==> {
            &&& r.len() == params.len() + names.len() - i
            &&& forall|k: int| 0 <= k < params.len() ==> #[trigger] r[k] == params[k]
            &&& forall|k: int|
                params.len() <= k < r.len() ==> describes_place(
                    ctx,
                    variables,
                    #[trigger] r[k],
                    names[i + k - params.len()],
                )
        },
    decreases names.len() - i,
{
    if i < names.len() {
        lemma_place(ctx, variables, names[i]);
        let variable = variable_named(variables, names[i]);
        if let Ok(example) = place_example(ctx, variable) {
            let own = RefView::Object(place_parameter(names[i], variable, example));
            let next = params.push(own);
            lemma_places(ctx, variables, names, i + 1, next);
            if let Ok(r) = places_from(ctx, variables, names, i + 1, next) {
                assert(r[params.len() as int] == next[params.len() as int]);
                assert forall|k: int| 0 <= k < params.len() implies #[trigger] r[k] == params[k] by {
                    assert(r[k] == next[k]);
                }
            }
        }
    }
}

/// The names of the places in the segments from `i` on, one after the other.
pub open spec fn all_places(segments: Seq<Seq<char>>, i: int) -> Seq<Seq<char>>
    decreases segments.len() - i,
{
    if i >= segments.len() {
        seq![]
    } else {
        places(segments[i]) + all_places(segments, i + 1)
    }
}

proof fn lemma_path_parameters(
    ctx: Context,
    variables: Option<Vec<Variable>>,
    segments: Seq<Seq<char>>,
    i: int,
    params: Parameters,
)
    requires
        0 <= i,
    ensures
        path_parameters_from(ctx, variables, segments, i, params) matches Ok(r) ==> {
            let names = all_places(segments, i);
            &&& r.len() == params.len() + names.len()
            &&& forall|k: int| 0 <= k < params.len() ==> #[trigger] r[k] == params[k]
            &&& forall|k: int|
                params.len() <= k < r.len() ==> describes_place(
                    ctx,
                    variables,
                    #[trigger] r[k],
                    names[k - params.len()],
                )
        },
    decreases segments.len() - i,
{
    if i < segments.len() {
        let own = places(segments[i]);
        let rest = all_places(segments, i + 1);
        lemma_places(ctx, variables, own, 0, params);
        if let Ok(next) = places_from(ctx, variables, own, 0, params) {
            lemma_path_parameters(ctx, variables, segments, i + 1, next);
            if let Ok(r) = path_parameters_from(ctx, variables, segments, i + 1, next) {
                let names = own + rest;
                assert forall|k: int| 0 <= k < params.len() implies #[trigger] r[k] == params[k] by {
                    assert(r[k] == next[k]);
                }
                assert forall|k: int| params.len() <= k < r.len() implies describes_place(
                    ctx,
                    variables,
                    #[trigger] r[k],
                    names[k - params.len()],
                ) by {
                    if k < next.len() {
                        assert(r[k] == next[k]);
                        assert(describes_place(ctx, variables, next[k], own[0 + k - params.len()]));
                    } else {
                        assert(names[k - params.len()] == rest[k - next.len()]);
                    }
                }
            }
        }
    }
}

/// The parameters of a path are those of its places, one for each, in the order
/// in which the places stand in the path.
pub proof fn law_path_parameters(
    ctx: Context,
    segments: Seq<Seq<char>>,
    variables: Option<Vec<Variable>>,
)
    ensures
        path_parameters(ctx, segments, variables) matches Ok(r) ==> {
            let names = all_places(segments, 0);
            &&& r is Some <==> names.len() > 0
            &&& r is Some ==> r->0.len() == names.len() && forall|k: int|
                0 <= k < names.len() ==> describes_place(
                    ctx,
                    variables,
                    #[trigger] r->0[k],
                    names[k],
                )
        },
{
    lemma_path_parameters(ctx, variables, segments, 0, seq![]);
    if let Ok(r) = path_parameters_from(ctx, variables, segments, 0, seq![]) {
        let names = all_places(segments, 0);
        assert forall|k: int| 0 <= k < names.len() implies describes_place(
            ctx,
            variables,
            #[trigger] r[k],
            names[k],
        ) by {
            assert(describes_place(ctx, variables, r[k], names[k - 0]));
        }
    }
}

/// The keys of a query from `i` on, one after the other.
pub open spec fn query_keys(query: Seq<QueryParam>, i: int) -> Seq<Seq<char>>
    decreases query.len() - i,
{
    if i >= query.len() {
        seq![]
    } else {
        match query[i].key {
            Some(key) => seq![key@] + query_keys(query, i + 1),
            None => query_keys(query, i + 1),
        }
    }
}

/// The names of parameters.
pub open spec fn names_of(params: Parameters) -> Seq<Seq<char>> {
    params.map_values(|p: RefView<ParameterView>| p->Object_0.name)
}

/// The value of a note in a text: as it is read, where the note is there.
pub open spec fn is_noted(text: Seq<char>, mark: Seq<char>, r: Option<JsonView>) -> bool {
    match value_from(text, mark, 0) {
        Some(value) => r == Some(typed(value)) && !is_not_finite(value),
        None => r is None,
    }
}

/// `p` is the parameter of a key of a query with that value: it carries what
/// the description of the key says, has the type that the value seems to have,
/// and the value, with its variables replaced, as an example.
pub open spec fn describes_query(
    ctx: Context,
    p: ParameterView,
    key: Seq<char>,
    value: Option<Seq<char>>,
) -> bool {
    let desc = ctx.describes(key)->Ok_0;
    let s = p.schema->0;
    &&& ctx.describes(key) is Ok
    &&& p.name == key
    &&& p.location == "query"@
    &&& p.description == plain(desc)
    &&& p.required == if found(or_empty(desc), "\\[required\\]"@) is Some {
        Some(true)
    } else {
        None
    }
    &&& p.schema is Some
    &&& s.schema_type == Some(inferred_type(or_empty(value)))
    &&& is_noted(or_empty(desc), "[default: "@, s.default)
    &&& is_noted(or_empty(desc), "[min: "@, s.minimum)
    &&& is_noted(or_empty(desc), "[max: "@, s.maximum)
    &&& match value {
        Some(text) => {
            &&& resolution(ctx, text) is Ok
            &&& s.example == Some(typed(resolution(ctx, text)->Ok_0))
            &&& !is_not_finite(resolution(ctx, text)->Ok_0)
        },
        None => s.example is None,
    }
    &&& s == SchemaView {
        schema_type: s.schema_type,
        default: s.default,
        minimum: s.minimum,
        maximum: s.maximum,
        example: s.example,
        ..SchemaView::empty()
    }
}

proof fn lemma_query_parameter(ctx: Context, key: Seq<char>, value: Option<Seq<char>>)
    ensures
        query_parameter(ctx, key, value) matches Ok(p) ==> describes_query(ctx, p, key, value),
{
}

/// The key stands at `i` in the query, and not before.
pub open spec fn is_first_key(query: Seq<QueryParam>, i: int, key: Seq<char>) -> bool {
    &&& 0 <= i < query.len()
    &&& query[i].key.deep_view() == Some(key)
    &&& forall|j: int| 0 <= j < i ==> (#[trigger] query[j]).key.deep_view() != Some(key)
}

/// The parameters are those of a query.
pub open spec fn all_query(params: Parameters) -> bool {
    forall|k: int|
        0 <= k < params.len() ==> (#[trigger] params[k]) is Object
            && params[k]->Object_0.location == "query"@
}

proof fn lemma_gathered_first(once: Seq<Seq<char>>, key: Seq<char>, list: Seq<Seq<char>>)
    ensures
        gathered(once, seq![key] + list) == gathered(
            if once.contains(key) {
                once
            } else {
                once.push(key)
            },
            list,
        ),
    decreases list.len(),
{
    let all = seq![key] + list;
    if list.len() == 0 {
        assert(all =~= seq![key]);
        assert(all.drop_last() =~= seq![]);
        assert(gathered(once, all.drop_last()) == once);
    } else {
        lemma_gathered_first(once, key, list.drop_last());
        assert(all.drop_last() =~= seq![key] + list.drop_last());
    }
}

/// Among the parameters of a query, one has the name where it is found by it.
pub proof fn lemma_names(params: Parameters, name: Seq<char>)
    requires
        all_query(params),
    ensures
        parameter_at(params, "query"@, name) is Some <==> names_of(params).contains(name),
{
    let names = names_of(params);
    lemma_parameter_from(params, "query"@, name, 0);
    if let Some(k) = parameter_at(params, "query"@, name) {
        assert(names[k] == name);
    }
    if names.contains(name) {
        let k = choose|k: int| 0 <= k < names.len() && names[k] == name;
        assert(params[k] is Object && params[k]->Object_0.location == "query"@);
        assert(is_parameter(params[k], "query"@, name));
    }
}

proof fn lemma_query(
    ctx: Context,
    query: Seq<QueryParam>,
    i: int,
    params: Parameters,
    key: Seq<char>,
)
    requires
        0 <= i,
        all_query(params),
    ensures
        query_from(ctx, query, i, params) matches Ok(r) ==> {
            &&& all_query(r)
            &&& names_of(r) == gathered(names_of(params), query_keys(query, i))
            &&& params.len() <= r.len()
            &&& forall|k: int| 0 <= k < params.len() ==> #[trigger] r[k] == params[k]
            &&& !names_of(params).contains(key) ==> forall|n: int|
                i <= n < query.len() && (#[trigger] query[n]).key.deep_view() == Some(key) && (
                forall|j: int| i <= j < n ==> (#[trigger] query[j]).key.deep_view() != Some(key))
                    ==> exists|k: int|
                    0 <= k < r.len() && describes_query(
                        ctx,
                        (#[trigger] r[k])->Object_0,
                        key,
                        query[n].value.deep_view(),
                    )
        },
    decreases query.len() - i,
{
    if i < query.len() {
        match query[i].key {
            None => {
                lemma_query(ctx, query, i + 1, params, key);
            },
            Some(own_key) => {
                let own = own_key@;
                let names = names_of(params);
                lemma_gathered_first(names, own, query_keys(query, i + 1));
                lemma_names(params, own);
                if parameter_at(params, "query"@, own) is Some {
                    lemma_query(ctx, query, i + 1, params, key);
                } else if let Ok(q) = query_parameter(ctx, own, query[i].value.deep_view()) {
                    lemma_query_parameter(ctx, own, query[i].value.deep_view());
                    let next = params.push(RefView::Object(q));
                    assert(names_of(next) =~= names.push(own));
                    lemma_query(ctx, query, i + 1, next, key);
                    if let Ok(r) = query_from(ctx, query, i + 1, next) {
                        assert(r[params.len() as int] == next[params.len() as int]);
                        assert forall|k: int| 0 <= k < params.len() implies #[trigger] r[k]
                            == params[k] by {
                            assert(r[k] == next[k]);
                        }
                        if own != key && !names.contains(key) {
                            assert(!names_of(next).contains(key)) by {
                                if names_of(next).contains(key) {
                                    let k = choose|k: int|
                                        0 <= k < names_of(next).len() && names_of(next)[k] == key;
                                    if k < names.len() {
                                        assert(names[k] == key);
                                    }
                                }
                            }
                        }
                        if own == key {
                            assert(describes_query(
                                ctx,
                                r[params.len() as int]->Object_0,
                                key,
                                query[i].value.deep_view(),
                            ));
                        }
                    }
                }
            },
        }
    }
}

/// The parameters of a query are those of its keys, each where it stands first
/// and as it stands there. There are none where there is no key.
pub proof fn law_query_parameters(ctx: Context, query: Seq<QueryParam>, i: int, key: Seq<char>)
    ensures
        query_parameters(ctx, query) matches Ok(r) ==> {
            &&& r is None <==> query_keys(query, 0).len() == 0
            &&& r is Some ==> names_of(r->0) == gathered(seq![], query_keys(query, 0))
            &&& is_first_key(query, i, key) ==> r is Some && exists|k: int|
                0 <= k < r->0.len() && describes_query(
                    ctx,
                    (#[trigger] r->0[k])->Object_0,
                    key,
                    query[i].value.deep_view(),
                )
        },
{
    lemma_query(ctx, query, 0, seq![], key);
    assert(names_of(seq![]) =~= seq![]);
    if let Ok(r) = query_from(ctx, query, 0, seq![]) {
        assert(names_of(r).len() == r.len());
        lemma_gathered_some(query_keys(query, 0));
        if is_first_key(query, i, key) {
            assert(exists|k: int|
                0 <= k < r.len() && describes_query(
                    ctx,
                    (#[trigger] r[k])->Object_0,
                    key,
                    query[i].value.deep_view(),
                ));
        }
    }
}

proof fn lemma_gathered_some(list: Seq<Seq<char>>)
    ensures
        gathered(seq![], list).len() == 0 <==> list.len() == 0,
    decreases list.len(),
{
    if list.len() > 0 {
        lemma_gathered_some(list.drop_last());
    }
}

/// The parameter of that name in that location.
pub open spec fn parameter_in(
    params: Option<Parameters>,
    location: Seq<char>,
    name: Seq<char>,
) -> Option<ParameterView> {
    match params {
        Some(params) => match parameter_at(params, location, name) {
            Some(k) => Some(params[k]->Object_0),
            None => None,
        },
        None => None,
    }
}

/// `r` is the parameter of an operation after another of its name and location
/// has come to it: the two schemas are merged, and the rest stays.
pub open spec fn joins_parameter(
    p: Option<ParameterView>,
    q: Option<ParameterView>,
    r: Option<ParameterView>,
) -> bool {
    match (p, q) {
        (Some(p), Some(q)) => r == Some(
            ParameterView {
                schema: match (p.schema, q.schema) {
                    (Some(a), Some(b)) => Some(merged(a, b)),
                    (Some(a), None) => Some(a),
                    (None, b) => b,
                },
                ..p
            },
        ),
        (Some(p), None) => r == Some(p),
        (None, q) => r == q,
    }
}

proof fn lemma_find(params: Parameters, location: Seq<char>, name: Seq<char>, k: int)
    requires
        0 <= k < params.len(),
        is_parameter(params[k], location, name),
        forall|j: int| 0 <= j < k ==> !is_parameter(#[trigger] params[j], location, name),
    ensures
        parameter_at(params, location, name) == Some(k),
{
    lemma_parameter_from(params, location, name, 0);
}

proof fn lemma_combined(
    params: Parameters,
    new: Parameters,
    i: int,
    location: Seq<char>,
    name: Seq<char>,
)
    requires
        0 <= i,
        forall|j: int, k: int|
            i <= j < k < new.len() && is_parameter(#[trigger] new[j], location, name)
                ==> !is_parameter(#[trigger] new[k], location, name),
    ensures
        ({
            let r = combined_from(params, new, i);
            &&& params.len() <= r.len()
            &&& forall|k: int|
                0 <= k < params.len() ==> ((#[trigger] r[k]) is Object <==> params[k] is Object)
                    && (params[k] is Object ==> r[k]->Object_0.name == params[k]->Object_0.name
                    && r[k]->Object_0.location == params[k]->Object_0.location)
            &&& forall|k: int|
                i <= k < new.len() && is_parameter(#[trigger] new[k], location, name)
                    ==> joins_parameter(
                    parameter_in(Some(params), location, name),
                    Some(new[k]->Object_0),
                    parameter_in(Some(r), location, name),
                )
            &&& (forall|k: int|
                i <= k < new.len() ==> !is_parameter(#[trigger] new[k], location, name))
                ==> parameter_in(Some(r), location, name) == parameter_in(
                Some(params),
                location,
                name,
            )
        }),
    decreases new.len() - i,
{
    lemma_parameter_from(params, location, name, 0);
    if i < new.len() {
        match new[i] {
            RefView::Ref { .. } => {
                lemma_combined(params, new, i + 1, location, name);
            },
            RefView::Object(q) => {
                lemma_parameter_from(params, q.location, q.name, 0);
                let mine = q.location == location && q.name == name;
                let next = match parameter_at(params, q.location, q.name) {
                    Some(k) => params.update(
                        k,
                        RefView::Object(widened(params[k]->Object_0, q)),
                    ),
                    None => params.push(RefView::Object(q)),
                };
                lemma_combined(next, new, i + 1, location, name);
                let r = combined_from(next, new, i + 1);
                assert forall|k: int| 0 <= k < params.len() implies ((#[trigger] r[k]) is Object
                    <==> params[k] is Object) && (params[k] is Object ==> r[k]->Object_0.name
                    == params[k]->Object_0.name && r[k]->Object_0.location
                    == params[k]->Object_0.location) by {
                    assert(next[k] is Object <==> params[k] is Object);
                }
                assert(forall|k: int|
                    0 <= k < params.len() ==> (is_parameter(#[trigger] next[k], location, name)
                        <==> is_parameter(params[k], location, name)));
                if mine {
                    assert forall|k: int| i < k < new.len() implies !is_parameter(
                        #[trigger] new[k],
                        location,
                        name,
                    ) by {
                        assert(is_parameter(new[i], location, name));
                    }
                    match parameter_at(params, location, name) {
                        Some(k) => {
                            assert forall|j: int| 0 <= j < k implies !is_parameter(
                                #[trigger] next[j],
                                location,
                                name,
                            ) by {
                                assert(!is_parameter(params[j], location, name));
                            }
                            lemma_find(next, location, name, k);
                        },
                        None => {
                            assert forall|j: int| 0 <= j < params.len() implies !is_parameter(
                                #[trigger] next[j],
                                location,
                                name,
                            ) by {
                                assert(!is_parameter(params[j], location, name));
                            }
                            lemma_find(next, location, name, params.len() as int);
                        },
                    }
                } else {
                    lemma_parameter_from(next, location, name, 0);
                    match parameter_at(params, location, name) {
                        Some(k) => {
                            assert forall|j: int| 0 <= j < k implies !is_parameter(
                                #[trigger] next[j],
                                location,
                                name,
                            ) by {
                                assert(!is_parameter(params[j], location, name));
                            }
                            assert(next[k] == params[k]);
                            lemma_find(next, location, name, k);
                        },
                        None => {
                            assert forall|j: int| 0 <= j < next.len() implies !is_parameter(
                                #[trigger] next[j],
                                location,
                                name,
                            ) by {
                                if j < params.len() {
                                    assert(!is_parameter(params[j], location, name));
                                }
                            }
                        },
                    }
                }
            },
        }
    }
}

/// The parameters of a query that come to those of an operation: one that is
/// there already, by name and location, takes in the schema of the other, and
/// one that is not there comes in. Those that were there keep their places.
pub proof fn law_query_joined(
    params: Option<Parameters>,
    new: Option<Parameters>,
    location: Seq<char>,
    name: Seq<char>,
)
    requires
        new matches Some(q) ==> collapsed(q),
    ensures
        joins_parameter(
            parameter_in(params, location, name),
            parameter_in(new, location, name),
            parameter_in(with_query(params, new), location, name),
        ),
        params matches Some(p) ==> (with_query(params, new) matches Some(r) && p.len() <= r.len()
            && forall|k: int|
            0 <= k < p.len() && p[k] is Object ==> (#[trigger] r[k]) is Object
                && r[k]->Object_0.name == p[k]->Object_0.name && r[k]->Object_0.location
                == p[k]->Object_0.location),
{
    if let (Some(p), Some(q)) = (params, new) {
        assert forall|j: int, k: int|
            0 <= j < k < q.len() && is_parameter(
                #[trigger] q[j],
                location,
                name,
            ) implies !is_parameter(#[trigger] q[k], location, name) by {
            assert(!same_place(q[j], q[k]));
        }
        lemma_combined(p, q, 0, location, name);
        lemma_parameter_from(q, location, name, 0);
        if let Some(k) = parameter_at(q, location, name) {
            assert(is_parameter(q[k], location, name));
        }
    }
}

/// A header that comes to the parameters of an operation, each of which has a
/// schema: the one of its name takes in its schema, and otherwise it comes
/// last. The others stay as they are.
pub proof fn law_header_joined(
    params: Option<Parameters>,
    h: ParameterView,
    location: Seq<char>,
    name: Seq<char>,
)
    requires
        params matches Some(p) ==> collapsed(p),
        h.schema is Some,
    ensures
        joins_parameter(
            parameter_in(params, location, name),
            if h.location == location && h.name == name {
                Some(h)
            } else {
                None
            },
            parameter_in(Some(with_header(params, h)), location, name),
        ),
        with_header(params, h).len() == match params {
            Some(p) => p.len() + if parameter_at(p, h.location, h.name) is Some {
                0nat
            } else {
                1nat
            },
            None => 1,
        },
{
    let r = with_header(params, h);
    lemma_parameter_from(r, location, name, 0);
    if let Some(p) = params {
        lemma_parameter_from(p, location, name, 0);
        lemma_parameter_from(p, h.location, h.name, 0);
        assert(forall|k: int|
            0 <= k < p.len() ==> has_schema(#[trigger] p[k]));
        if exists|i: int| 0 <= i < p.len() && takes(#[trigger] p[i], h) {
            assert(forall|k: int|
                0 <= k < p.len() ==> (is_parameter(#[trigger] r[k], location, name)
                    <==> is_parameter(p[k], location, name)));
            if let Some(k) = parameter_at(p, location, name) {
                assert forall|j: int| 0 <= j < k implies !is_parameter(
                    #[trigger] r[j],
                    location,
                    name,
                ) by {
                    assert(!is_parameter(p[j], location, name));
                }
                assert(is_parameter(r[k], location, name));
                lemma_find(r, location, name, k);
                if h.location == location && h.name == name {
                    assert(takes(p[k], h));
                }
            } else {
                assert forall|j: int| 0 <= j < r.len() implies !is_parameter(
                    #[trigger] r[j],
                    location,
                    name,
                ) by {
                    assert(!is_parameter(p[j], location, name));
                }
                let i = choose|i: int| 0 <= i < p.len() && takes(#[trigger] p[i], h);
                assert(is_parameter(p[i], h.location, h.name));
            }
        } else {
            if let Some(k) = parameter_at(p, h.location, h.name) {
                assert(takes(p[k], h));
            }
            match parameter_at(p, location, name) {
                Some(k) => {
                    assert forall|j: int| 0 <= j < k implies !is_parameter(
                        #[trigger] r[j],
                        location,
                        name,
                    ) by {
                        assert(!is_parameter(p[j], location, name));
                    }
                    lemma_find(r, location, name, k);
                },
                None => {
                    assert forall|j: int| 0 <= j < p.len() implies !is_parameter(
                        #[trigger] r[j],
                        location,
                        name,
                    ) by {
                        assert(!is_parameter(p[j], location, name));
                    }
                    if h.location == location && h.name == name {
                        lemma_find(r, location, name, p.len() as int);
                    }
                },
            }
        }
    } else {
        if h.location == location && h.name == name {
            lemma_find(r, location, name, 0);
        }
    }
}

/// The parameters and the content type after one more header.
spec fn after_header(
    ctx: Context,
    listed: Seq<Seq<char>>,
    h: postman::Header,
    params: Option<Parameters>,
    content_type: Option<Seq<char>>,
) -> Result<(Option<Parameters>, Option<Seq<char>>), Fault> {
    let key = lowercase(h.key@);
    if is_skipped(listed, h.key@, key) {
        Ok((params, content_type))
    } else if key == "content-type"@ {
        Ok((params, Some(pieces(h.value@, ';')[0])))
    } else {
        match header_schema(ctx, h.key@, h.value@) {
            Err(f) => Err(f),
            Ok(schema) => Ok(
                (Some(with_header(params, header_parameter(h, schema))), content_type),
            ),
        }
    }
}

proof fn lemma_after_header(
    ctx: Context,
    listed: Seq<Seq<char>>,
    headers: Seq<postman::Header>,
    i: int,
    params: Option<Parameters>,
    content_type: Option<Seq<char>>,
)
    requires
        0 <= i < headers.len(),
    ensures
        headers_from(ctx, listed, headers, i, params, content_type) == match after_header(
            ctx,
            listed,
            headers[i],
            params,
            content_type,
        ) {
            Err(f) => Err(f),
            Ok((p, t)) => headers_from(ctx, listed, headers, i + 1, p, t),
        },
{
}

proof fn lemma_headers_push(
    ctx: Context,
    listed: Seq<Seq<char>>,
    headers: Seq<postman::Header>,
    h: postman::Header,
    i: int,
    params: Option<Parameters>,
    content_type: Option<Seq<char>>,
)
    requires
        0 <= i <= headers.len(),
    ensures
        headers_from(ctx, listed, headers.push(h), i, params, content_type) == match headers_from(
            ctx,
            listed,
            headers,
            i,
            params,
            content_type,
        ) {
            Err(f) => Err(f),
            Ok((p, t)) => after_header(ctx, listed, h, p, t),
        },
    decreases headers.len() - i,
{
    let all = headers.push(h);
    lemma_after_header(ctx, listed, all, i, params, content_type);
    if i < headers.len() {
        assert(all[i] == headers[i]);
        lemma_after_header(ctx, listed, headers, i, params, content_type);
        if let Ok((p, t)) = after_header(ctx, listed, headers[i], params, content_type) {
            lemma_headers_push(ctx, listed, headers, h, i + 1, p, t);
        }
    } else {
        assert(all[i] == h);
        if let Ok((p, t)) = after_header(ctx, listed, h, params, content_type) {
            assert(headers_from(ctx, listed, all, i + 1, p, t) == Ok::<_, Fault>((p, t)));
        }
    }
}

/// The headers of a request are taken one after the other. With one more at the
/// end of the list, `accept` and `authorization` change nothing, `content-type`
/// gives the type of the body, up to the first semicolon, and any other header
/// joins the parameters, unless there is a list of headers and it is not on it.
pub proof fn law_headers_in_turn(
    ctx: Context,
    headers: Seq<postman::Header>,
    h: postman::Header,
    params: Option<Parameters>,
)
    ensures
        headers_from(ctx, listed_headers(ctx.description), seq![], 0, params, None) == Ok::<_, Fault>(
            (params, None::<Seq<char>>),
        ),
        headers_from(
            ctx,
            listed_headers(ctx.description),
            headers.push(h),
            0,
            params,
            None,
        ) matches Ok((p, t)) ==> {
            let listed = listed_headers(ctx.description);
            let before = headers_from(ctx, listed, headers, 0, params, None);
            let key = lowercase(h.key@);
            &&& before is Ok
            &&& if key == "accept"@ || key == "authorization"@ {
                p == before->Ok_0.0 && t == before->Ok_0.1
            } else if key == "content-type"@ {
                p == before->Ok_0.0 && t == Some(pieces(h.value@, ';')[0])
            } else if listed.len() > 0 && !listed.contains(h.key@) {
                p == before->Ok_0.0 && t == before->Ok_0.1
            } else {
                t == before->Ok_0.1 && exists|own: ParameterView|
                    p == Some(#[trigger] with_header(before->Ok_0.0, own)) && own.location
                        == "header"@ && own.name == h.key@ && own.description == text_in(
                        h.description,
                    ) && own.required is None && own.schema is Some && describes_header(
                        ctx,
                        own.schema->0,
                        h.key@,
                        h.value@,
                    )
            }
        },
{
    let listed = listed_headers(ctx.description);
    lemma_headers_push(ctx, listed, headers, h, 0, params, None);
    reveal_strlit("accept");
    reveal_strlit("authorization");
    reveal_strlit("content-type");
    assert("accept"@.len() == 6 && "authorization"@.len() == 13 && "content-type"@.len() == 12);
    if let Ok((before, _)) = headers_from(ctx, listed, headers, 0, params, None) {
        if let Ok(schema) = header_schema(ctx, h.key@, h.value@) {
            let own = header_parameter(h, schema);
            assert(describes_header(ctx, own.schema->0, h.key@, h.value@));
            assert(Some(with_header(before, own)) == Some(
                with_header(before, header_parameter(h, schema)),
            ));
        }
    }
}

/// The headers of a request that stand in a list are taken in turn, and others
/// change nothing.
pub proof fn law_request_headers(
    ctx: Context,
    header: Option<postman::HeaderUnion>,
    params: Option<Parameters>,
)
    ensures
        match header {
            Some(postman::HeaderUnion::HeaderArray(headers)) => request_headers(ctx, header, params)
                == headers_from(ctx, listed_headers(ctx.description), headers@, 0, params, None),
            _ => request_headers(ctx, header, params) == Ok::<_, Fault>((params, None::<Seq<char>>)),
        },
{
}

proof fn lemma_names_shift(s: Seq<char>, n: int, i: int)
    requires
        0 <= n,
        0 <= i,
        n + i <= s.len(),
    ensures
        names_between(s, "{"@, "}"@, n + i) == names_between(s.skip(n), "{"@, "}"@, i),
    decreases s.len() - n - i,
{
    reveal_strlit("{");
    lemma_name_shift(s, "{"@, "}"@, n, i);
    if n + i < s.len() {
        match name_at(s, "{"@, "}"@, n + i) {
            Some(name) => {
                lemma_names_shift(s, n, i + "{"@.len() + name.len() + "}"@.len());
            },
            None => {
                lemma_names_shift(s, n, i + 1);
            },
        }
    }
}

proof fn lemma_no_brace(s: Seq<char>, i: int, at: int)
    requires
        0 <= i <= at <= s.len(),
        forall|k: int| i <= k < at ==> #[trigger] s[k] != '{',
    ensures
        names_between(s, "{"@, "}"@, i) == names_between(s, "{"@, "}"@, at),
    decreases at - i,
{
    reveal_strlit("{");
    if i < at {
        assert(s[i] != '{');
        if matches_at(s, "{"@, i) {
            assert(s.subrange(i, i + 1)[0] == '{');
        }
        lemma_no_brace(s, i + 1, at);
    }
}

proof fn lemma_brace_end(s: Seq<char>, i: int, to: int)
    requires
        0 <= i <= to < s.len(),
        s[to] == '}',
        forall|k: int| i <= k < to ==> #[trigger] s[k] != '{' && s[k] != '}',
    ensures
        brace_from(s, i) == to,
    decreases to - i,
{
    if i < to {
        assert(s[i] != '{' && s[i] != '}');
        lemma_brace_end(s, i + 1, to);
    }
}

/// A name between braces, behind a text without an opening brace, is the first
/// place, and the places of what follows are the others. A text without an
/// opening brace has no places.
pub proof fn law_places(a: Seq<char>, name: Seq<char>, b: Seq<char>)
    requires
        !a.contains('{'),
        !name.contains('{') && !name.contains('}'),
    ensures
        places(a) == Seq::<Seq<char>>::empty(),
        places(a + "{"@ + name + "}"@ + b) == seq![name] + places(b),
{
    reveal_strlit("{");
    reveal_strlit("}");
    assert forall|k: int| 0 <= k < a.len() implies #[trigger] a[k] != '{' by {
        assert(a.contains(a[k]));
    }
    lemma_no_brace(a, 0, a.len() as int);
    let s = a + "{"@ + name + "}"@ + b;
    let at = a.len() as int;
    let to = at + 1 + name.len();
    assert forall|k: int| 0 <= k < at implies #[trigger] s[k] != '{' by {
        assert(s[k] == a[k]);
    }
    lemma_no_brace(s, 0, at);
    assert(s.subrange(at, at + 1) =~= "{"@);
    assert(s.subrange(to, to + 1) =~= "}"@);
    assert forall|k: int| at + 1 <= k < to implies #[trigger] s[k] != '{' && s[k] != '}' by {
        assert(s[k] == name[k - at - 1]);
        assert(name.contains(s[k]));
    }
    assert(s[to] == '}');
    lemma_brace_end(s, at + 1, to);
    assert(s.subrange(at + 1, to) =~= name);
    assert(name_at(s, "{"@, "}"@, at) == Some(name));
    assert(s.skip(to + 1) =~= b);
    lemma_names_shift(s, to + 1, 0);
}

} // verus!
