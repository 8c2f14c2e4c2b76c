//! The parameters of operations and paths.

use vstd::prelude::*;

use regex::Regex;

use crate::casing::{lowercase, to_lowercase};
use crate::context::{resolution, Context, Transpiler, VAR_REPLACE_CREDITS};
use crate::fault::{outcome, reached, Fault};
use crate::json::{infer_type, inferred_type, read, read_value, Json, JsonView};
use crate::notes::{
    find_headers, find_limits, is_required, limits, listed_headers, or_empty, plain,
    replace_description, says_required, text_or_empty, Limits,
};
use crate::openapi::v3_0::{
    lemma_schema_view, ObjectOrReference, Parameter, ParameterView, RefView, Schema, SchemaView,
};
use crate::pattern::{captures_all, compile_fixed, pattern_of, places, PLACE};
use crate::postman;
use crate::postman::{description_text, extract_description, QueryParam, Variable};
use crate::schema::merged;
use crate::text::{before, pieces, same};

verus! {

/// A list of parameters.
pub type Parameters = Seq<RefView<ParameterView>>;

/// `p` is the parameter of that name in that location.
pub open spec fn is_parameter(
    p: RefView<ParameterView>,
    location: Seq<char>,
    name: Seq<char>,
) -> bool {
    match p {
        RefView::Object(p) => p.location == location && p.name == name,
        RefView::Ref { .. } => false,
    }
}

/// The first position at or after `i` of the parameter of that name in that location.
pub open spec fn parameter_from(
    params: Parameters,
    location: Seq<char>,
    name: Seq<char>,
    i: int,
) -> Option<int>
    decreases params.len() - i,
{
    if i >= params.len() {
        None
    } else if is_parameter(params[i], location, name) {
        Some(i)
    } else {
        parameter_from(params, location, name, i + 1)
    }
}

/// The position of the parameter of that name in that location.
pub open spec fn parameter_at(
    params: Parameters,
    location: Seq<char>,
    name: Seq<char>,
) -> Option<int> {
    parameter_from(params, location, name, 0)
}

fn find_parameter(
    params: &Vec<ObjectOrReference<Parameter>>,
    location: &str,
    name: &str,
) -> (r: Option<usize>)
    ensures
        match r {
            Some(i) => i < params@.len() && parameter_at(params.deep_view(), location@, name@)
                == Some(i as int),
            None => parameter_at(params.deep_view(), location@, name@) is None,
        },
{
    let mut i: usize = 0;
    while i < params.len()
        invariant
            i <= params.len(),
            parameter_at(params.deep_view(), location@, name@) == parameter_from(
                params.deep_view(),
                location@,
                name@,
                i as int,
            ),
        decreases params.len() - i,
    {
        assert(params.deep_view()[i as int] == params@[i as int].deep_view());
        if let ObjectOrReference::Object(p) = &params[i] {
            if same(p.location.as_str(), location) && same(p.name.as_str(), name) {
                return Some(i);
            }
        }
        i = i + 1;
    }
    None
}

/// The first of the variables from `i` on that has the name as its key.
pub open spec fn variable_from(variables: Seq<Variable>, name: Seq<char>, i: int) -> Option<Variable>
    decreases variables.len() - i,
{
    if i >= variables.len() {
        None
    } else if variables[i].key.deep_view() == Some(name) {
        Some(variables[i])
    } else {
        variable_from(variables, name, i + 1)
    }
}

/// The variable of that name among those that an address has.
pub open spec fn variable_named(variables: Option<Vec<Variable>>, name: Seq<char>) -> Option<
    Variable,
> {
    match variables {
        Some(v) => variable_from(v@, name, 0),
        None => None,
    }
}

fn find_variable<'b>(variables: &'b Option<Vec<Variable>>, name: &str) -> (r: Option<&'b Variable>)
    ensures
        match r {
            Some(v) => variable_named(*variables, name@) == Some(*v),
            None => variable_named(*variables, name@) is None,
        },
{
    if let Some(v) = variables {
        let mut i: usize = 0;
        while i < v.len()
            invariant
                *variables == Some(*v),
                i <= v.len(),
                variable_from(v@, name@, 0) == variable_from(v@, name@, i as int),
            decreases v.len() - i,
        {
            if let Some(key) = &v[i].key {
                if same(key.as_str(), name) {
                    return Some(&v[i]);
                }
            }
            i = i + 1;
        }
    }
    None
}

/// The example of a place in a path: the text that its variable has.
pub open spec fn place_example(ctx: Context, variable: Option<Variable>) -> Result<
    Option<JsonView>,
    Fault,
> {
    match variable {
        Some(v) => match v.value.deep_view() {
            Some(JsonView::String(text)) => match resolution(ctx, text) {
                Ok(s) => Ok(Some(JsonView::String(s))),
                Err(f) => Err(f),
            },
            _ => Ok(None),
        },
        None => Ok(None),
    }
}

/// The parameter for a place in a path.
pub open spec fn place_parameter(
    name: Seq<char>,
    variable: Option<Variable>,
    example: Option<JsonView>,
) -> ParameterView {
    ParameterView {
        name,
        location: "path"@,
        required: Some(true),
        description: match variable {
            Some(v) => description_text(v.description),
            None => None,
        },
        schema: Some(
            SchemaView { schema_type: Some("string"@), example, ..SchemaView::empty() },
        ),
    }
}

/// The parameters, with those for the places with the names from `i` on.
pub open spec fn places_from(
    ctx: Context,
    variables: Option<Vec<Variable>>,
    names: Seq<Seq<char>>,
    i: int,
    params: Parameters,
) -> Result<Parameters, Fault>
    decreases names.len() - i,
{
    if i >= names.len() {
        Ok(params)
    } else {
        let variable = variable_named(variables, names[i]);
        match place_example(ctx, variable) {
            Err(f) => Err(f),
            Ok(example) => places_from(
                ctx,
                variables,
                names,
                i + 1,
                params.push(RefView::Object(place_parameter(names[i], variable, example))),
            ),
        }
    }
}

/// The parameters, with those for the places in the segments from `i` on.
pub open spec fn path_parameters_from(
    ctx: Context,
    variables: Option<Vec<Variable>>,
    segments: Seq<Seq<char>>,
    i: int,
    params: Parameters,
) -> Result<Parameters, Fault>
    decreases segments.len() - i,
{
    if i >= segments.len() {
        Ok(params)
    } else {
        match places_from(ctx, variables, places(segments[i]), 0, params) {
            Err(f) => Err(f),
            Ok(params) => path_parameters_from(ctx, variables, segments, i + 1, params),
        }
    }
}

/// The names of the places in a segment of a path.
fn find_places(re: &Regex, segment: &str) -> (r: Vec<String>)
    requires
        pattern_of(*re) == PLACE@,
    ensures
        r.deep_view() == places(segment@),
{
    let found: Vec<Vec<Option<String>>> = captures_all(re, segment);
    let ghost all = found.deep_view();
    let ghost items = found@;
    let mut out: Vec<String> = Vec::new();
    for g in it: found
        invariant
            it.seq() == items,
            items.len() == all.len(),
            all.len() == places(segment@).len(),
            forall|k: int| 0 <= k < items.len() ==> (#[trigger] items[k]).deep_view() == all[k],
            forall|k: int|
                0 <= k < all.len() ==> (#[trigger] all[k]).len() == 2 && all[k][1] == Some(
                    places(segment@)[k],
                ),
            out@.len() == it.index(),
            forall|k: int| 0 <= k < out@.len() ==> (#[trigger] out@[k])@ == places(segment@)[k],
    {
        let ghost n = it.index();
        assert(g.deep_view() == all[n]);
        assert(g.deep_view()[1] == g@[1].deep_view());
        let mut g: Vec<Option<String>> = g;
        match g.remove(1) {
            Some(name) => {
                out.push(name);
            },
            None => {
                vstd::pervasive::unreached()
            },
        }
    }
    assert(out.deep_view() =~= places(segment@));
    out
}

/// The list, where it is not empty.
pub open spec fn some_parameters(params: Result<Parameters, Fault>) -> Result<
    Option<Parameters>,
    Fault,
> {
    match params {
        Ok(params) => Ok(
            if params.len() > 0 {
                Some(params)
            } else {
                None
            },
        ),
        Err(f) => Err(f),
    }
}

/// The parameters for the places in the segments of a path.
pub open spec fn path_parameters(
    ctx: Context,
    segments: Seq<Seq<char>>,
    variables: Option<Vec<Variable>>,
) -> Result<Option<Parameters>, Fault> {
    some_parameters(path_parameters_from(ctx, variables, segments, 0, seq![]))
}

/// The example of a query parameter: the value that its text stands for.
pub open spec fn query_example(ctx: Context, value: Option<Seq<char>>) -> Result<
    Option<JsonView>,
    Fault,
> {
    match value {
        Some(text) => match resolution(ctx, text) {
            Ok(s) => match read(s) {
                Ok(example) => Ok(Some(example)),
                Err(f) => Err(f),
            },
            Err(f) => Err(f),
        },
        None => Ok(None),
    }
}

/// The parameter for a key in a query, with what its description says.
pub open spec fn described_parameter(
    key: Seq<char>,
    value: Option<Seq<char>>,
    desc: Option<Seq<char>>,
    limits: Limits,
    example: Option<JsonView>,
) -> ParameterView {
    ParameterView {
        name: key,
        description: plain(desc),
        location: "query"@,
        schema: Some(
            SchemaView {
                schema_type: Some(inferred_type(or_empty(value))),
                default: limits.0,
                minimum: limits.1,
                maximum: limits.2,
                example,
                ..SchemaView::empty()
            },
        ),
        required: if says_required(or_empty(desc)) {
            Some(true)
        } else {
            None
        },
    }
}

/// The parameter for a key in a query.
pub open spec fn query_parameter(ctx: Context, key: Seq<char>, value: Option<Seq<char>>) -> Result<
    ParameterView,
    Fault,
> {
    match ctx.describes(key) {
        Err(f) => Err(f),
        Ok(desc) => match limits(or_empty(desc)) {
            Err(f) => Err(f),
            Ok(limits) => match query_example(ctx, value) {
                Err(f) => Err(f),
                Ok(example) => Ok(described_parameter(key, value, desc, limits, example)),
            },
        },
    }
}

/// The parameters, with those for the keys from `i` on, each key once.
pub open spec fn query_from(
    ctx: Context,
    query: Seq<QueryParam>,
    i: int,
    params: Parameters,
) -> Result<Parameters, Fault>
    decreases query.len() - i,
{
    if i >= query.len() {
        Ok(params)
    } else {
        match query[i].key.deep_view() {
            None => query_from(ctx, query, i + 1, params),
            Some(key) => if parameter_at(params, "query"@, key) is Some {
                query_from(ctx, query, i + 1, params)
            } else {
                match query_parameter(ctx, key, query[i].value.deep_view()) {
                    Err(f) => Err(f),
                    Ok(q) => query_from(ctx, query, i + 1, params.push(RefView::Object(q))),
                }
            },
        }
    }
}

/// The parameters for the keys of a query.
pub open spec fn query_parameters(ctx: Context, query: Seq<QueryParam>) -> Result<
    Option<Parameters>,
    Fault,
> {
    some_parameters(query_from(ctx, query, 0, seq![]))
}

impl<'a> Transpiler<'a> {
    /// Adds the parameters for the places with these names.
    pub fn add_places(
        &self,
        variables: &Option<Vec<Variable>>,
        names: &Vec<String>,
        params: &mut Vec<ObjectOrReference<Parameter>>,
    ) -> (r: Result<(), Fault>)
        ensures
            reached(r, final(params).deep_view()) == places_from(
                self.context(),
                *variables,
                names.deep_view(),
                0,
                old(params).deep_view(),
            ),
    {
        broadcast use lemma_schema_view;

        let ghost ctx = self.context();
        let ghost all = places_from(ctx, *variables, names.deep_view(), 0, params.deep_view());
        let mut i: usize = 0;
        while i < names.len()
            invariant
                ctx == self.context(),
                i <= names.len(),
                all == places_from(
                    ctx,
                    *variables,
                    names.deep_view(),
                    0,
                    old(params).deep_view(),
                ),
                all == places_from(
                    ctx,
                    *variables,
                    names.deep_view(),
                    i as int,
                    params.deep_view(),
                ),
            decreases names.len() - i,
        {
            let name: &String = &names[i];
            let mut description: Option<String> = None;
            let mut example: Option<Json> = None;
            if let Some(v) = find_variable(variables, name.as_str()) {
                description = extract_description(&v.description);
                if let Some(Json::String(text)) = &v.value {
                    match self.resolve_variables(text.as_str(), VAR_REPLACE_CREDITS) {
                        Ok(s) => {
                            example = Some(Json::String(s));
                        },
                        Err(f) => {
                            return Err(f);
                        },
                    }
                }
            }
            let param: Parameter = Parameter {
                name: name.clone(),
                location: "path".to_owned(),
                required: Some(true),
                description,
                schema: Some(
                    Schema { schema_type: Some("string".to_owned()), example, ..Schema::default() },
                ),
            };
            let ghost before = params.deep_view();
            params.push(ObjectOrReference::Object(param));
            assert(params.deep_view() =~= before.push(RefView::Object(param.deep_view())));
            i = i + 1;
        }
        Ok(())
    }

    /// The parameters for the places in the segments of a path.
    pub fn generate_path_parameters(
        &self,
        resolved_segments: &Vec<String>,
        postman_variables: &Option<Vec<Variable>>,
    ) -> (r: Result<Option<Vec<ObjectOrReference<Parameter>>>, Fault>)
        ensures
            outcome(r) == path_parameters(
                self.context(),
                resolved_segments.deep_view(),
                *postman_variables,
            ),
    {
        let re: Regex = compile_fixed(PLACE);
        let ghost ctx = self.context();
        let ghost segments = resolved_segments.deep_view();
        let mut params: Vec<ObjectOrReference<Parameter>> = Vec::new();
        assert(params.deep_view() =~= seq![]);
        let mut i: usize = 0;
        while i < resolved_segments.len()
            invariant
                ctx == self.context(),
                pattern_of(re) == PLACE@,
                segments == resolved_segments.deep_view(),
                i <= resolved_segments.len(),
                path_parameters_from(ctx, *postman_variables, segments, 0, seq![])
                    == path_parameters_from(
                    ctx,
                    *postman_variables,
                    segments,
                    i as int,
                    params.deep_view(),
                ),
            decreases resolved_segments.len() - i,
        {
            let names: Vec<String> = find_places(&re, resolved_segments[i].as_str());
            match self.add_places(postman_variables, &names, &mut params) {
                Ok(_) => {},
                Err(f) => {
                    return Err(f);
                },
            }
            i = i + 1;
        }
        if params.len() > 0 {
            Ok(Some(params))
        } else {
            Ok(None)
        }
    }

    fn make_query_parameter(&self, key: &str, value: &Option<String>) -> (r: Result<
        Parameter,
        Fault,
    >)
        ensures
            outcome(r) == query_parameter(self.context(), key@, value.deep_view()),
    {
        broadcast use lemma_schema_view;

        let desc: Option<String> = match self.describe(key) {
            Ok(desc) => desc,
            Err(f) => {
                return Err(f);
            },
        };
        let (default, minimum, maximum): (Option<Json>, Option<Json>, Option<Json>) =
            match find_limits(text_or_empty(&desc)) {
            Ok(limits) => limits,
            Err(f) => {
                return Err(f);
            },
        };
        let example: Option<Json> = match value {
            Some(value) => match self.resolve_variables(value.as_str(), VAR_REPLACE_CREDITS) {
                Ok(text) => match read_value(text.as_str()) {
                    Ok(example) => Some(example),
                    Err(f) => {
                        return Err(f);
                    },
                },
                Err(f) => {
                    return Err(f);
                },
            },
            None => None,
        };
        Ok(
            Parameter {
                name: key.to_owned(),
                description: replace_description(&desc),
                location: "query".to_owned(),
                schema: Some(
                    Schema {
                        schema_type: Some(infer_type(text_or_empty(value)).to_owned()),
                        default,
                        minimum,
                        maximum,
                        example,
                        ..Schema::default()
                    },
                ),
                required: if is_required(text_or_empty(&desc)) {
                    Some(true)
                } else {
                    None
                },
            },
        )
    }

    /// The parameters for the keys of a query.
    pub fn generate_query_parameters(&self, query_params: &Vec<QueryParam>) -> (r: Result<
        Option<Vec<ObjectOrReference<Parameter>>>,
        Fault,
    >)
        ensures
            outcome(r) == query_parameters(self.context(), query_params@),
    {
        broadcast use lemma_schema_view;

        let ghost ctx = self.context();
        let mut params: Vec<ObjectOrReference<Parameter>> = Vec::new();
        assert(params.deep_view() =~= seq![]);
        let mut i: usize = 0;
        while i < query_params.len()
            invariant
                ctx == self.context(),
                i <= query_params.len(),
                query_from(ctx, query_params@, 0, seq![]) == query_from(
                    ctx,
                    query_params@,
                    i as int,
                    params.deep_view(),
                ),
            decreases query_params.len() - i,
        {
            let qp: &QueryParam = &query_params[i];
            if let Some(key) = &qp.key {
                if find_parameter(&params, "query", key.as_str()).is_none() {
                    let param: Parameter = match self.make_query_parameter(
                        key.as_str(),
                        &qp.value,
                    ) {
                        Ok(param) => param,
                        Err(f) => {
                            return Err(f);
                        },
                    };
                    let ghost before = params.deep_view();
                    params.push(ObjectOrReference::Object(param));
                    assert(params.deep_view() =~= before.push(RefView::Object(param.deep_view())));
                }
            }
            i = i + 1;
        }
        if params.len() > 0 {
            Ok(Some(params))
        } else {
            Ok(None)
        }
    }
}

/// The parameter `p`, with a schema that also takes the values of `q`.
pub open spec fn widened(p: ParameterView, q: ParameterView) -> ParameterView {
    ParameterView {
        schema: match (p.schema, q.schema) {
            (Some(a), Some(b)) => Some(merged(a, b)),
            (None, b) => b,
            (a, None) => a,
        },
        ..p
    }
}

/// The parameters, with those of `new` from `i` on. One that is there already,
/// by location and name, is widened.
pub open spec fn combined_from(params: Parameters, new: Parameters, i: int) -> Parameters
    decreases new.len() - i,
{
    if i >= new.len() {
        params
    } else {
        match new[i] {
            RefView::Ref { .. } => combined_from(params, new, i + 1),
            RefView::Object(q) => match parameter_at(params, q.location, q.name) {
                Some(k) => combined_from(
                    params.update(k, RefView::Object(widened(params[k]->Object_0, q))),
                    new,
                    i + 1,
                ),
                None => combined_from(params.push(RefView::Object(q)), new, i + 1),
            },
        }
    }
}

/// The parameters of an operation, with those of a query.
pub open spec fn with_query(params: Option<Parameters>, new: Option<Parameters>) -> Option<
    Parameters,
> {
    match (params, new) {
        (Some(params), Some(new)) => Some(combined_from(params, new, 0)),
        (None, new) => new,
        (params, None) => params,
    }
}

fn widen(p: Parameter, schema: Option<Schema>) -> (r: Parameter)
    ensures
        forall|q: ParameterView|
            q.schema == schema.deep_view() ==> r.deep_view() == #[trigger] widened(
                p.deep_view(),
                q,
            ),
{
    let mut p: Parameter = p;
    let mut own: Option<Schema> = None;
    std::mem::swap(&mut own, &mut p.schema);
    p.schema = match own {
        Some(a) => match schema {
            Some(b) => Some(Transpiler::merge_schemas(a, &b)),
            None => Some(a),
        },
        None => schema,
    };
    p
}

/// The parameters, with those of `new`.
fn combine(
    params: Vec<ObjectOrReference<Parameter>>,
    new: Vec<ObjectOrReference<Parameter>>,
) -> (r: Vec<ObjectOrReference<Parameter>>)
    ensures
        r.deep_view() == combined_from(params.deep_view(), new.deep_view(), 0),
{
    let mut params: Vec<ObjectOrReference<Parameter>> = params;
    let ghost given = new.deep_view();
    let ghost items = new@;
    let ghost all = combined_from(params.deep_view(), given, 0);
    for e in it: new
        invariant
            it.seq() == items,
            items.len() == given.len(),
            forall|k: int| 0 <= k < items.len() ==> (#[trigger] items[k]).deep_view() == given[k],
            all == combined_from(params.deep_view(), given, it.index()),
    {
        let ghost before = params.deep_view();
        assert(e.deep_view() == given[it.index()]);
        if let ObjectOrReference::Object(q) = e {
            match find_parameter(&params, q.location.as_str(), q.name.as_str()) {
                Some(k) => {
                    let ghost old_params = params@;
                    proof {
                        lemma_parameter_from(before, q.location@, q.name@, 0);
                    }
                    assert(before[k as int] == params@[k as int].deep_view());
                    let p: ObjectOrReference<Parameter> = params.remove(k);
                    let p: ObjectOrReference<Parameter> = match p {
                        ObjectOrReference::Object(p) => ObjectOrReference::Object(
                            widen(p, q.schema),
                        ),
                        other => other,
                    };
                    params.insert(k, p);
                    proof {
                        let w = RefView::Object(
                            widened(before[k as int]->Object_0, given[it.index()]->Object_0),
                        );
                        assert(p.deep_view() == w);
                        assert(params.deep_view() =~= before.update(k as int, w));
                    }
                },
                None => {
                    params.push(ObjectOrReference::Object(q));
                    assert(params.deep_view() =~= before.push(RefView::Object(q.deep_view())));
                },
            }
        }
    }
    params
}

/// What `parameter_from` gives is such a parameter, and the first at or after `i`.
pub proof fn lemma_parameter_from(
    params: Parameters,
    location: Seq<char>,
    name: Seq<char>,
    i: int,
)
    requires
        0 <= i,
    ensures
        match parameter_from(params, location, name, i) {
            Some(k) => i <= k < params.len() && is_parameter(params[k], location, name)
                && forall|j: int|
                i <= j < k ==> !is_parameter(#[trigger] params[j], location, name),
            None => forall|j: int|
                i <= j < params.len() ==> !is_parameter(#[trigger] params[j], location, name),
        },
    decreases params.len() - i,
{
    if i < params.len() && !is_parameter(params[i], location, name) {
        lemma_parameter_from(params, location, name, i + 1);
    }
}

/// The parameters of an operation, with those of a query.
pub fn add_query(
    params: Option<Vec<ObjectOrReference<Parameter>>>,
    new: Option<Vec<ObjectOrReference<Parameter>>>,
) -> (r: Option<Vec<ObjectOrReference<Parameter>>>)
    ensures
        r.deep_view() == with_query(params.deep_view(), new.deep_view()),
{
    match new {
        Some(new) => match params {
            Some(params) => Some(combine(params, new)),
            None => Some(new),
        },
        None => params,
    }
}

/// The example of a header: the value that its text stands for, but for the
/// one header whose value is a secret.
pub open spec fn header_example(name: Seq<char>, value: Seq<char>) -> Result<JsonView, Fault> {
    if name == "X-RapidAPI-Key"@ {
        Ok(JsonView::String("123456"@))
    } else {
        read(value)
    }
}

/// The schema of a header.
pub open spec fn header_schema(ctx: Context, name: Seq<char>, value: Seq<char>) -> Result<
    SchemaView,
    Fault,
> {
    match header_example(name, value) {
        Err(f) => Err(f),
        Ok(example) => match ctx.describes(name) {
            Err(f) => Err(f),
            Ok(desc) => Ok(
                SchemaView {
                    schema_type: Some(inferred_type(value)),
                    example: Some(example),
                    description: desc,
                    ..SchemaView::empty()
                },
            ),
        },
    }
}

/// The parameter for a header of a request, with that schema.
pub open spec fn header_parameter(h: postman::Header, schema: SchemaView) -> ParameterView {
    ParameterView {
        location: "header"@,
        name: h.key@,
        description: description_text(h.description),
        schema: Some(schema),
        required: None,
    }
}

/// `p` is the parameter of the name and in the location of `h`, and has a schema.
pub open spec fn takes(p: RefView<ParameterView>, h: ParameterView) -> bool {
    is_parameter(p, h.location, h.name) && p->Object_0.schema is Some
}

/// The parameters, each that takes `h` widened by it.
pub open spec fn all_widened(params: Parameters, h: ParameterView) -> Parameters {
    params.map_values(
        |p: RefView<ParameterView>|
            if takes(p, h) {
                RefView::Object(widened(p->Object_0, h))
            } else {
                p
            },
    )
}

/// The parameters of an operation, with `h`: those that take it are widened,
/// and where there are none it comes last.
pub open spec fn with_header(params: Option<Parameters>, h: ParameterView) -> Parameters {
    match params {
        None => seq![RefView::Object(h)],
        Some(params) => if exists|i: int|
            0 <= i < params.len() && takes(#[trigger] params[i], h) {
            all_widened(params, h)
        } else {
            params.push(RefView::Object(h))
        },
    }
}

fn clone_schema(o: &Option<Schema>) -> (r: Option<Schema>)
    ensures
        r.deep_view() == o.deep_view(),
{
    match o {
        Some(s) => Some(s.clone()),
        None => None,
    }
}

fn widen_all(params: Vec<ObjectOrReference<Parameter>>, h: &Parameter) -> (r: (
    Vec<ObjectOrReference<Parameter>>,
    bool,
))
    ensures
        r.0.deep_view() == all_widened(params.deep_view(), h.deep_view()),
        r.1 == exists|i: int|
            0 <= i < params@.len() && takes(#[trigger] params.deep_view()[i], h.deep_view()),
{
    let ghost given = params.deep_view();
    let ghost items = params@;
    let mut out: Vec<ObjectOrReference<Parameter>> = Vec::new();
    let mut any: bool = false;
    for e in it: params
        invariant
            it.seq() == items,
            items.len() == given.len(),
            forall|k: int| 0 <= k < items.len() ==> (#[trigger] items[k]).deep_view() == given[k],
            out@.len() == it.index(),
            forall|k: int|
                0 <= k < out@.len() ==> (#[trigger] out@[k]).deep_view() == all_widened(
                    given,
                    h.deep_view(),
                )[k],
            any == exists|k: int|
                0 <= k < it.index() && takes(#[trigger] given[k], h.deep_view()),
    {
        let ghost n = it.index();
        assert(e.deep_view() == given[n]);
        let w: ObjectOrReference<Parameter> = match e {
            ObjectOrReference::Object(p) => {
                if same(p.location.as_str(), h.location.as_str()) && same(
                    p.name.as_str(),
                    h.name.as_str(),
                ) && p.schema.is_some() {
                    assert(takes(given[n], h.deep_view()));
                    any = true;
                    ObjectOrReference::Object(widen(p, clone_schema(&h.schema)))
                } else {
                    assert(!takes(given[n], h.deep_view()));
                    ObjectOrReference::Object(p)
                }
            },
            other => {
                assert(!takes(given[n], h.deep_view()));
                other
            },
        };
        assert(w.deep_view() == all_widened(given, h.deep_view())[n]);
        out.push(w);
    }
    assert(out.deep_view() =~= all_widened(given, h.deep_view()));
    (out, any)
}

proof fn lemma_none_widened(params: Parameters, h: ParameterView)
    requires
        !exists|i: int| 0 <= i < params.len() && takes(#[trigger] params[i], h),
    ensures
        all_widened(params, h) == params,
{
    assert(all_widened(params, h) =~= params);
}

/// The parameters of an operation, with `h`.
pub fn add_header(params: Option<Vec<ObjectOrReference<Parameter>>>, h: Parameter) -> (r: Vec<
    ObjectOrReference<Parameter>,
>)
    ensures
        r.deep_view() == with_header(params.deep_view(), h.deep_view()),
{
    match params {
        None => {
            let r: Vec<ObjectOrReference<Parameter>> = vec![ObjectOrReference::Object(h)];
            assert(r.deep_view() =~= seq![RefView::Object(h.deep_view())]);
            r
        },
        Some(params) => {
            let ghost given = params.deep_view();
            let (out, any): (Vec<ObjectOrReference<Parameter>>, bool) = widen_all(params, &h);
            let mut out: Vec<ObjectOrReference<Parameter>> = out;
            if !any {
                proof {
                    lemma_none_widened(given, h.deep_view());
                }
                out.push(ObjectOrReference::Object(h));
                assert(out.deep_view() =~= given.push(RefView::Object(h.deep_view())));
            }
            out
        },
    }
}

/// The header, whose name in small letters is `key`, is not described: it is
/// one that every request has, or there is a list and it is not on it.
pub open spec fn is_skipped(listed: Seq<Seq<char>>, name: Seq<char>, key: Seq<char>) -> bool {
    key == "accept"@ || key == "authorization"@ || (key != "content-type"@ && listed.len() > 0
        && !listed.contains(name))
}

/// The parameters and the content type, with those that the headers from `i`
/// on give. `listed` are the names of the headers to describe; an empty list
/// stands for all of them.
pub open spec fn headers_from(
    ctx: Context,
    listed: Seq<Seq<char>>,
    headers: Seq<postman::Header>,
    i: int,
    params: Option<Parameters>,
    content_type: Option<Seq<char>>,
) -> Result<(Option<Parameters>, Option<Seq<char>>), Fault>
    decreases headers.len() - i,
{
    if i >= headers.len() {
        Ok((params, content_type))
    } else {
        let h = headers[i];
        let key = lowercase(h.key@);
        if is_skipped(listed, h.key@, key) {
            headers_from(ctx, listed, headers, i + 1, params, content_type)
        } else if key == "content-type"@ {
            headers_from(ctx, listed, headers, i + 1, params, Some(pieces(h.value@, ';')[0]))
        } else {
            match header_schema(ctx, h.key@, h.value@) {
                Err(f) => Err(f),
                Ok(schema) => headers_from(
                    ctx,
                    listed,
                    headers,
                    i + 1,
                    Some(with_header(params, header_parameter(h, schema))),
                    content_type,
                ),
            }
        }
    }
}

/// The parameters and the content type that the headers of a request give.
pub open spec fn request_headers(
    ctx: Context,
    header: Option<postman::HeaderUnion>,
    params: Option<Parameters>,
) -> Result<(Option<Parameters>, Option<Seq<char>>), Fault> {
    match header {
        Some(postman::HeaderUnion::HeaderArray(headers)) => headers_from(
            ctx,
            listed_headers(ctx.description),
            headers@,
            0,
            params,
            None,
        ),
        _ => Ok((params, None)),
    }
}

/// Whether `names` holds `name`.
pub(crate) fn is_listed(names: &Vec<String>, name: &str) -> (r: bool)
    ensures
        r == names.deep_view().contains(name@),
{
    let mut i: usize = 0;
    while i < names.len()
        invariant
            i <= names.len(),
            forall|k: int| 0 <= k < i ==> names.deep_view()[k] != name@,
        decreases names.len() - i,
    {
        if same(names[i].as_str(), name) {
            assert(names.deep_view()[i as int] == name@);
            return true;
        }
        i = i + 1;
    }
    false
}

/// Whether the header, whose name in small letters is `key`, is not described.
pub fn skips_header(listed: &Vec<String>, name: &str, key: &str) -> (r: bool)
    ensures
        r == is_skipped(listed.deep_view(), name@, key@),
{
    same(key, "accept") || same(key, "authorization") || (!same(key, "content-type")
        && listed.len() > 0 && !is_listed(listed, name))
}

impl<'a> Transpiler<'a> {
    /// The example of a header.
    pub fn filter_req_header_example(name: &str, value: &str) -> (r: Result<Json, Fault>)
        ensures
            outcome(r) == header_example(name@, value@),
    {
        if same(name, "X-RapidAPI-Key") {
            Ok(Json::String("123456".to_owned()))
        } else {
            read_value(value)
        }
    }

    /// The schema of a header.
    pub(crate) fn make_header_schema(&self, name: &str, value: &str) -> (r: Result<Schema, Fault>)
        ensures
            outcome(r) == header_schema(self.context(), name@, value@),
    {
        broadcast use lemma_schema_view;

        let example: Json = match Self::filter_req_header_example(name, value) {
            Ok(example) => example,
            Err(f) => {
                return Err(f);
            },
        };
        match self.describe(name) {
            Ok(desc) => Ok(
                Schema {
                    schema_type: Some(infer_type(value).to_owned()),
                    example: Some(example),
                    description: desc,
                    ..Schema::default()
                },
            ),
            Err(f) => Err(f),
        }
    }

    /// The parameters and the content type that the headers of a request give.
    pub fn add_headers(
        &self,
        header: &Option<postman::HeaderUnion>,
        given: Option<Vec<ObjectOrReference<Parameter>>>,
    ) -> (r: Result<(Option<Vec<ObjectOrReference<Parameter>>>, Option<String>), Fault>)
        ensures
            outcome(r) == request_headers(self.context(), *header, given.deep_view()),
    {
        broadcast use lemma_schema_view;

        let ghost ctx = self.context();
        let mut params: Option<Vec<ObjectOrReference<Parameter>>> = given;
        let mut content_type: Option<String> = None;
        if let Some(postman::HeaderUnion::HeaderArray(headers)) = header {
            let listed: Vec<String> = find_headers(self.info_description);
            let ghost names = listed.deep_view();
            let ghost all = headers_from(
                ctx,
                names,
                headers@,
                0,
                params.deep_view(),
                content_type.deep_view(),
            );
            let mut i: usize = 0;
            while i < headers.len()
                invariant
                    ctx == self.context(),
                    names == listed.deep_view(),
                    *header == Some(postman::HeaderUnion::HeaderArray(*headers)),
                    request_headers(ctx, *header, given.deep_view()) == all,
                    i <= headers.len(),
                    all == headers_from(
                        ctx,
                        names,
                        headers@,
                        i as int,
                        params.deep_view(),
                        content_type.deep_view(),
                    ),
                decreases headers.len() - i,
            {
                let h: &postman::Header = &headers[i];
                let key: String = to_lowercase(h.key.as_str());
                if skips_header(&listed, h.key.as_str(), key.as_str()) {
                } else if same(key.as_str(), "content-type") {
                    content_type = Some(before(h.value.as_str(), ';'));
                } else {
                    let schema: Schema = match self.make_header_schema(
                        h.key.as_str(),
                        h.value.as_str(),
                    ) {
                        Ok(schema) => schema,
                        Err(f) => {
                            return Err(f);
                        },
                    };
                    let param: Parameter = Parameter {
                        location: "header".to_owned(),
                        name: h.key.clone(),
                        description: extract_description(&h.description),
                        schema: Some(schema),
                        required: None,
                    };
                    params = Some(add_header(params, param));
                }
                i = i + 1;
            }
        }
        Ok((params, content_type))
    }
}

/// `p` stands in the list itself and has a schema.
pub open spec fn has_schema(p: RefView<ParameterView>) -> bool {
    p is Object && p->Object_0.schema is Some
}

/// `p` and `q` have the same name and the same location.
pub open spec fn same_place(p: RefView<ParameterView>, q: RefView<ParameterView>) -> bool {
    p->Object_0.location == q->Object_0.location && p->Object_0.name == q->Object_0.name
}

/// Each parameter has a schema, and no two have the same name and location.
pub open spec fn collapsed(params: Parameters) -> bool {
    &&& forall|i: int| 0 <= i < params.len() ==> has_schema(#[trigger] params[i])
    &&& forall|i: int, j: int|
        0 <= i < j < params.len() ==> !same_place(#[trigger] params[i], #[trigger] params[j])
}

proof fn lemma_collapsed_push(params: Parameters, q: ParameterView)
    requires
        collapsed(params),
        q.schema is Some,
        parameter_at(params, q.location, q.name) is None,
    ensures
        collapsed(params.push(RefView::Object(q))),
{
    lemma_parameter_from(params, q.location, q.name, 0);
    let r = params.push(RefView::Object(q));
    assert forall|i: int, j: int| 0 <= i < j < r.len() implies !same_place(
        #[trigger] r[i],
        #[trigger] r[j],
    ) by {
        assert(has_schema(params[i]));
        if j == params.len() {
            assert(!is_parameter(params[i], q.location, q.name));
        } else {
            assert(!same_place(params[i], params[j]));
        }
    }
    assert forall|i: int| 0 <= i < r.len() implies has_schema(#[trigger] r[i]) by {
        if i < params.len() {
            assert(has_schema(params[i]));
        }
    }
}

proof fn lemma_query_collapsed(ctx: Context, query: Seq<QueryParam>, i: int, params: Parameters)
    requires
        collapsed(params),
    ensures
        query_from(ctx, query, i, params) matches Ok(r) ==> collapsed(r),
    decreases query.len() - i,
{
    if i < query.len() {
        match query[i].key.deep_view() {
            None => {
                lemma_query_collapsed(ctx, query, i + 1, params);
            },
            Some(key) => {
                if parameter_at(params, "query"@, key) is Some {
                    lemma_query_collapsed(ctx, query, i + 1, params);
                } else if let Ok(q) = query_parameter(ctx, key, query[i].value.deep_view()) {
                    lemma_collapsed_push(params, q);
                    lemma_query_collapsed(ctx, query, i + 1, params.push(RefView::Object(q)));
                }
            },
        }
    }
}

/// However often a key occurs in a query, there is one parameter for it.
pub proof fn law_query_collapsed(ctx: Context, query: Seq<QueryParam>)
    ensures
        query_parameters(ctx, query) matches Ok(Some(params)) ==> collapsed(params),
{
    lemma_query_collapsed(ctx, query, 0, seq![]);
}

proof fn lemma_combined_collapsed(params: Parameters, new: Parameters, i: int)
    requires
        collapsed(params),
        collapsed(new),
        0 <= i,
    ensures
        collapsed(combined_from(params, new, i)),
    decreases new.len() - i,
{
    if i < new.len() {
        assert(has_schema(new[i]));
        let q = new[i]->Object_0;
        lemma_parameter_from(params, q.location, q.name, 0);
        match parameter_at(params, q.location, q.name) {
            Some(k) => {
                let p = params[k]->Object_0;
                let r = params.update(k, RefView::Object(widened(p, q)));
                assert(has_schema(params[k]));
                assert forall|a: int, b: int| 0 <= a < b < r.len() implies !same_place(
                    #[trigger] r[a],
                    #[trigger] r[b],
                ) by {
                    assert(!same_place(params[a], params[b]));
                }
                assert forall|a: int| 0 <= a < r.len() implies has_schema(#[trigger] r[a]) by {
                    assert(has_schema(params[a]));
                }
                lemma_combined_collapsed(r, new, i + 1);
            },
            None => {
                lemma_collapsed_push(params, q);
                lemma_combined_collapsed(params.push(RefView::Object(q)), new, i + 1);
            },
        }
    }
}

/// The parameters of a query that join those of an operation fall together
/// with them.
pub proof fn law_with_query_collapsed(params: Option<Parameters>, new: Option<Parameters>)
    requires
        params matches Some(p) ==> collapsed(p),
        new matches Some(q) ==> collapsed(q),
    ensures
        with_query(params, new) matches Some(r) ==> collapsed(r),
{
    if let (Some(p), Some(q)) = (params, new) {
        lemma_combined_collapsed(p, q, 0);
    }
}

/// A header that joins the parameters of an operation falls together with the
/// one of its name.
pub proof fn law_with_header_collapsed(params: Option<Parameters>, h: ParameterView)
    requires
        params matches Some(p) ==> collapsed(p),
        h.schema is Some,
    ensures
        collapsed(with_header(params, h)),
{
    if let Some(p) = params {
        if exists|i: int| 0 <= i < p.len() && takes(#[trigger] p[i], h) {
            let r = all_widened(p, h);
            assert forall|a: int, b: int| 0 <= a < b < r.len() implies !same_place(
                #[trigger] r[a],
                #[trigger] r[b],
            ) by {
                assert(has_schema(p[a]) && has_schema(p[b]));
                assert(!same_place(p[a], p[b]));
            }
            assert forall|a: int| 0 <= a < r.len() implies has_schema(#[trigger] r[a]) by {
                assert(has_schema(p[a]));
            }
        } else {
            lemma_parameter_from(p, h.location, h.name, 0);
            if let Some(k) = parameter_at(p, h.location, h.name) {
                assert(has_schema(p[k]));
                assert(takes(p[k], h));
            }
            lemma_collapsed_push(p, h);
        }
    }
}

proof fn lemma_headers_collapsed(
    ctx: Context,
    listed: Seq<Seq<char>>,
    headers: Seq<postman::Header>,
    i: int,
    params: Option<Parameters>,
    content_type: Option<Seq<char>>,
)
    requires
        params matches Some(p) ==> collapsed(p),
    ensures
        headers_from(ctx, listed, headers, i, params, content_type) matches Ok((Some(r), _))
            ==> collapsed(r),
    decreases headers.len() - i,
{
    if i < headers.len() {
        let h = headers[i];
        let key = lowercase(h.key@);
        if is_skipped(listed, h.key@, key) {
            lemma_headers_collapsed(ctx, listed, headers, i + 1, params, content_type);
        } else if key == "content-type"@ {
            lemma_headers_collapsed(
                ctx,
                listed,
                headers,
                i + 1,
                params,
                Some(pieces(h.value@, ';')[0]),
            );
        } else if let Ok(schema) = header_schema(ctx, h.key@, h.value@) {
            let own = header_parameter(h, schema);
            law_with_header_collapsed(params, own);
            lemma_headers_collapsed(
                ctx,
                listed,
                headers,
                i + 1,
                Some(with_header(params, own)),
                content_type,
            );
        }
    }
}

/// The headers of a request that join the parameters of an operation fall
/// together with them.
pub proof fn law_request_headers_collapsed(
    ctx: Context,
    header: Option<postman::HeaderUnion>,
    params: Option<Parameters>,
)
    requires
        params matches Some(p) ==> collapsed(p),
    ensures
        request_headers(ctx, header, params) matches Ok((Some(r), _)) ==> collapsed(r),
{
    if let Some(postman::HeaderUnion::HeaderArray(headers)) = header {
        lemma_headers_collapsed(
            ctx,
            listed_headers(ctx.description),
            headers@,
            0,
            params,
            None,
        );
    }
}

/// The parameters that are headers are among those that are listed.
pub open spec fn only_listed(params: Parameters, listed: Seq<Seq<char>>) -> bool {
    forall|i: int| 0 <= i < params.len() ==> may_stand(#[trigger] params[i], listed)
}

/// The parameter is listed, if it is a header.
pub open spec fn may_stand(p: RefView<ParameterView>, listed: Seq<Seq<char>>) -> bool {
    match p {
        RefView::Object(p) => p.location == "header"@ ==> listed.contains(p.name),
        RefView::Ref { .. } => true,
    }
}

proof fn lemma_only_listed(
    ctx: Context,
    listed: Seq<Seq<char>>,
    headers: Seq<postman::Header>,
    i: int,
    params: Option<Parameters>,
    content_type: Option<Seq<char>>,
)
    requires
        listed.len() > 0,
        params matches Some(p) ==> only_listed(p, listed),
    ensures
        headers_from(ctx, listed, headers, i, params, content_type) matches Ok((Some(r), _))
            ==> only_listed(r, listed),
    decreases headers.len() - i,
{
    if i < headers.len() {
        let h = headers[i];
        let key = lowercase(h.key@);
        if is_skipped(listed, h.key@, key) {
            lemma_only_listed(ctx, listed, headers, i + 1, params, content_type);
        } else if key == "content-type"@ {
            let own = Some(pieces(h.value@, ';')[0]);
            lemma_only_listed(ctx, listed, headers, i + 1, params, own);
        } else if let Ok(schema) = header_schema(ctx, h.key@, h.value@) {
            let next = with_header(params, header_parameter(h, schema));
            assert(listed.contains(h.key@));
            assert(only_listed(next, listed)) by {
                if let Some(p) = params {
                    assert forall|k: int| 0 <= k < next.len() implies may_stand(
                        #[trigger] next[k],
                        listed,
                    ) by {
                        if k < p.len() {
                            assert(may_stand(p[k], listed));
                        }
                    }
                }
            }
            lemma_only_listed(ctx, listed, headers, i + 1, Some(next), content_type);
        }
    }
}

/// Where the description of a collection lists headers, no other header
/// becomes a parameter.
pub proof fn law_only_listed(
    ctx: Context,
    header: Option<postman::HeaderUnion>,
    params: Option<Parameters>,
)
    requires
        listed_headers(ctx.description).len() > 0,
        params matches Some(p) ==> only_listed(p, listed_headers(ctx.description)),
    ensures
        request_headers(ctx, header, params) matches Ok((Some(r), _)) ==> only_listed(
            r,
            listed_headers(ctx.description),
        ),
{
    if let Some(postman::HeaderUnion::HeaderArray(headers)) = header {
        lemma_only_listed(
            ctx,
            listed_headers(ctx.description),
            headers@,
            0,
            params,
            None,
        );
    }
}

} // verus!
