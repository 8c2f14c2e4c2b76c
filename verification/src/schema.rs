//! Schemas: what values look like, judged by examples.

use vstd::prelude::*;

use crate::context::{Context, Transpiler};
use crate::fault::{outcome, Fault};
use crate::json::{infer_type, inferred_type, lemma_json_view, Json, JsonView, Number, NumberView};
use crate::map::{
    ascending, has_key, key_at, law_put_has_key, lemma_key_at, lemma_one_place, lookup, put, StrMap,
};
use crate::notes::{
    find_enum_by_key, find_limits, get_def_value, get_nullable_value, is_required, limits, Limits,
    known_values, noted, or_empty, plain, replace_description, said_nullable, says_required,
    text_or_empty,
};
use crate::openapi::v3_0::{lemma_schema_view, ObjectOrReference, RefView, Schema, SchemaView};
use crate::text::{copy_texts, same};

verus! {

/// What two schemas together say about null values.
pub open spec fn merged_nullable(a: Option<bool>, b: Option<bool>) -> Option<bool> {
    match (a, b) {
        (None, _) => b,
        (Some(x), Some(y)) => Some(x || y),
        (Some(_), None) => a,
    }
}

/// The entries of `acc`, and those of `b` from `i` on whose keys it lacks.
pub open spec fn with_missing(
    acc: Seq<(Seq<char>, SchemaView)>,
    b: Seq<(Seq<char>, SchemaView)>,
    i: int,
) -> Seq<(Seq<char>, SchemaView)>
    decreases b.len() - i,
{
    if i >= b.len() {
        acc
    } else if has_key(acc, b[i].0) {
        with_missing(acc, b, i + 1)
    } else {
        with_missing(put(acc, b[i].0, b[i].1), b, i + 1)
    }
}

/// The entries of `p`, each merged with that of the same key in `q`.
pub open spec fn merged_known(
    p: Seq<(Seq<char>, SchemaView)>,
    q: Seq<(Seq<char>, SchemaView)>,
) -> Seq<(Seq<char>, SchemaView)>
    decreases p,
{
    Seq::new(
        p.len(),
        |i: int|
            if 0 <= i < p.len() {
                (
                    p[i].0,
                    match lookup(q, p[i].0) {
                        Some(other) => merged(p[i].1, other),
                        None => p[i].1,
                    },
                )
            } else {
                arbitrary()
            },
    )
}

/// The schema of the values that meet `a` or `b`.
pub open spec fn merged(a: SchemaView, b: SchemaView) -> SchemaView
    decreases a,
{
    let nullable = merged_nullable(a.nullable, b.nullable);
    match a.any_of {
        Some(alternatives) => SchemaView {
            nullable,
            any_of: Some(alternatives.push(RefView::Object(b))),
            ..a
        },
        None => {
            let schema_type = if a.schema_type is None && b.any_of is None {
                b.schema_type
            } else {
                a.schema_type
            };
            let properties = if schema_type == Some("object"@) {
                match (a.properties, b.properties) {
                    (Some(p), Some(q)) => Some(with_missing(merged_known(p, q), q, 0)),
                    _ => a.properties,
                }
            } else {
                a.properties
            };
            let own = SchemaView { nullable, schema_type, properties, ..a };
            if schema_type is Some && b.schema_type is Some && schema_type != b.schema_type {
                SchemaView {
                    schema_type: None,
                    properties: None,
                    items: None,
                    any_of: Some(seq![RefView::Object(own), RefView::Object(b)]),
                    ..own
                }
            } else {
                own
            }
        },
    }
}

impl Clone for Schema {
    fn clone(&self) -> (r: Self)
        ensures
            r.deep_view() == self.deep_view(),
        decreases self.deep_view(),
    {
        broadcast use lemma_schema_view;

        let r: Schema = Schema {
            schema_type: clone_text(&self.schema_type),
            format: clone_text(&self.format),
            description: clone_text(&self.description),
            default: clone_json(&self.default),
            example: clone_json(&self.example),
            enum_values: clone_texts(&self.enum_values),
            nullable: self.nullable,
            minimum: clone_json(&self.minimum),
            maximum: clone_json(&self.maximum),
            required: clone_texts(&self.required),
            properties: match &self.properties {
                Some(m) => {
                    let mut out: Vec<(String, Schema)> = Vec::new();
                    let mut i: usize = 0;
                    while i < m.entries.len()
                        invariant
                            self.properties == Some(*m),
                            i <= m.entries.len(),
                            out@.len() == i,
                            forall|k: int|
                                0 <= k < i ==> (#[trigger] out@[k]).deep_view()
                                    == m.entries@[k].deep_view(),
                        decreases m.entries.len() - i,
                    {
                        assert(self.deep_view().properties->0[i as int].1
                            == m.entries@[i as int].1.deep_view());
                        let e: (String, Schema) = (m.entries[i].0.clone(), m.entries[i].1.clone());
                        out.push(e);
                        i = i + 1;
                    }
                    let copy: StrMap<Schema> = StrMap { entries: out };
                    assert(copy.deep_view() =~= m.deep_view());
                    Some(copy)
                },
                None => None,
            },
            items: match &self.items {
                Some(b) => {
                    assert(self.deep_view().items->0 == Box::new(b.deep_view()));
                    Some(Box::new((**b).clone()))
                },
                None => None,
            },
            any_of: match &self.any_of {
                Some(v) => {
                    let mut out: Vec<ObjectOrReference<Schema>> = Vec::new();
                    let mut i: usize = 0;
                    while i < v.len()
                        invariant
                            self.any_of == Some(*v),
                            i <= v.len(),
                            out@.len() == i,
                            forall|k: int|
                                0 <= k < i ==> (#[trigger] out@[k]).deep_view()
                                    == v@[k].deep_view(),
                        decreases v.len() - i,
                    {
                        assert(self.deep_view().any_of->0[i as int] == v@[i as int].deep_view());
                        let e: ObjectOrReference<Schema> = match &v[i] {
                            ObjectOrReference::Object(s) => {
                                assert(self.deep_view().any_of->0[i as int]->Object_0
                                    == s.deep_view());
                                ObjectOrReference::Object(s.clone())
                            },
                            ObjectOrReference::Ref { ref_path } => ObjectOrReference::Ref {
                                ref_path: ref_path.clone(),
                            },
                        };
                        out.push(e);
                        i = i + 1;
                    }
                    assert(out.deep_view() =~= v.deep_view());
                    Some(out)
                },
                None => None,
            },
        };
        r
    }
}

fn clone_text(o: &Option<String>) -> (r: Option<String>)
    ensures
        r.deep_view() == o.deep_view(),
{
    match o {
        Some(s) => Some(s.clone()),
        None => None,
    }
}

fn clone_json(o: &Option<Json>) -> (r: Option<Json>)
    ensures
        r.deep_view() == o.deep_view(),
{
    match o {
        Some(j) => Some(j.clone()),
        None => None,
    }
}

fn clone_texts(o: &Option<Vec<String>>) -> (r: Option<Vec<String>>)
    ensures
        r.deep_view() == o.deep_view(),
{
    match o {
        Some(v) => Some(copy_texts(v)),
        None => None,
    }
}

/// The properties of `original`, each merged with that of the same name in `new`.
fn merge_known(original: Vec<(String, Schema)>, new: &StrMap<Schema>) -> (r: StrMap<Schema>)
    ensures
        r.deep_view() == merged_known(original.deep_view(), new.deep_view()),
    decreases original.deep_view(),
{
    let ghost all = original@;
    let ghost p = original.deep_view();
    let ghost q = new.deep_view();
    let mut out: Vec<(String, Schema)> = Vec::new();
    for e in it: original
        invariant
            it.seq() == all,
            all == original@,
            p == original.deep_view(),
            q == new.deep_view(),
            out@.len() == it.index(),
            forall|k: int|
                0 <= k < out@.len() ==> (#[trigger] out@[k]).deep_view() == (
                    p[k].0,
                    match lookup(q, p[k].0) {
                        Some(other) => merged(p[k].1, other),
                        None => p[k].1,
                    },
                ),
    {
        let ghost n = out@.len() as int;
        assert(p[n] == e.deep_view());
        assert(p[n].1 == e.1.deep_view());
        let (key, own): (String, Schema) = e;
        let value: Schema = match new.get(key.as_str()) {
            Some(other) => Transpiler::merge_schemas(own, other),
            None => own,
        };
        out.push((key, value));
    }
    let r: StrMap<Schema> = StrMap { entries: out };
    assert(r.deep_view() =~= merged_known(p, q));
    r
}

/// Adds to `acc` the properties of `new` that it lacks.
fn add_missing(acc: StrMap<Schema>, new: &StrMap<Schema>) -> (r: StrMap<Schema>)
    ensures
        r.deep_view() == with_missing(acc.deep_view(), new.deep_view(), 0),
{
    let mut acc: StrMap<Schema> = acc;
    let ghost all = with_missing(acc.deep_view(), new.deep_view(), 0);
    let mut i: usize = 0;
    while i < new.entries.len()
        invariant
            i <= new.entries.len(),
            with_missing(acc.deep_view(), new.deep_view(), i as int) == all,
        decreases new.entries.len() - i,
    {
        assert(new.deep_view()[i as int] == new.entries@[i as int].deep_view());
        if !acc.contains_key(new.entries[i].0.as_str()) {
            acc.insert(new.entries[i].0.clone(), new.entries[i].1.clone());
        }
        i = i + 1;
    }
    acc
}

/// Whether the type is that of an object.
fn is_object(t: &Option<String>) -> (r: bool)
    ensures
        r == (t.deep_view() == Some("object"@)),
{
    match t {
        Some(t) => same(t.as_str(), "object"),
        None => false,
    }
}

impl<'a> Transpiler<'a> {
    /// The schema of the values that meet `original` or `new`.
    pub fn merge_schemas(original: Schema, new: &Schema) -> (r: Schema)
        ensures
            r.deep_view() == merged(original.deep_view(), new.deep_view()),
        decreases original.deep_view(),
    {
        broadcast use lemma_schema_view;

        let ghost a = original.deep_view();
        let ghost b = new.deep_view();
        let mut original: Schema = original;
        original.nullable = match (original.nullable, new.nullable) {
            (None, n) => n,
            (Some(x), Some(y)) => Some(x || y),
            (Some(x), None) => Some(x),
        };
        let mut any_of: Option<Vec<ObjectOrReference<Schema>>> = None;
        std::mem::swap(&mut any_of, &mut original.any_of);
        if let Some(alternatives) = any_of {
            let mut alternatives: Vec<ObjectOrReference<Schema>> = alternatives;
            let ghost before = alternatives.deep_view();
            alternatives.push(ObjectOrReference::Object(new.clone()));
            assert(alternatives.deep_view() =~= before.push(RefView::Object(b)));
            original.any_of = Some(alternatives);
            assert(original.deep_view() =~= merged(a, b));
            return original;
        }
        if original.schema_type.is_none() && new.any_of.is_none() {
            original.schema_type = clone_text(&new.schema_type);
        }
        if is_object(&original.schema_type) {
            let mut properties: Option<StrMap<Schema>> = None;
            std::mem::swap(&mut properties, &mut original.properties);
            original.properties = match properties {
                Some(p) => match &new.properties {
                    Some(q) => {
                        assert(a.properties->0 == p.deep_view());
                        Some(add_missing(merge_known(p.entries, q), q))
                    },
                    None => Some(p),
                },
                None => None,
            };
        }
        let differ: bool = match &original.schema_type {
            Some(s) => match &new.schema_type {
                Some(t) => !same(s.as_str(), t.as_str()),
                None => false,
            },
            None => false,
        };
        if differ {
            let own: Schema = original.clone();
            original.schema_type = None;
            original.properties = None;
            original.items = None;
            let alternatives: Vec<ObjectOrReference<Schema>> = vec![
                ObjectOrReference::Object(own),
                ObjectOrReference::Object(new.clone()),
            ];
            assert(alternatives.deep_view() =~= seq![
                RefView::Object(own.deep_view()),
                RefView::Object(b),
            ]);
            original.any_of = Some(alternatives);
        }
        assert(original.deep_view() =~= merged(a, b));
        original
    }
}

/// The type of a number.
pub open spec fn number_type(n: NumberView) -> Seq<char> {
    match n {
        NumberView::Literal(text) => inferred_type(text),
        NumberView::Float(_) => "number"@,
    }
}

/// The schema of a text that stands for the key.
pub open spec fn text_schema(
    desc: Option<Seq<char>>,
    key: Seq<char>,
    default: Option<JsonView>,
) -> SchemaView {
    SchemaView {
        schema_type: Some("string"@),
        default,
        enum_values: known_values(key),
        nullable: said_nullable(or_empty(desc)),
        description: plain(desc),
        ..SchemaView::empty()
    }
}

/// The schema of a number.
pub open spec fn number_schema(
    n: NumberView,
    desc: Option<Seq<char>>,
    limits: Limits,
) -> SchemaView {
    SchemaView {
        schema_type: Some(number_type(n)),
        description: plain(desc),
        default: limits.0,
        minimum: limits.1,
        maximum: limits.2,
        nullable: said_nullable(or_empty(desc)),
        ..SchemaView::empty()
    }
}

/// The schema of a truth value.
pub open spec fn bool_schema(
    desc: Option<Seq<char>>,
    default: Option<JsonView>,
) -> SchemaView {
    SchemaView {
        schema_type: Some("boolean"@),
        default,
        description: plain(desc),
        ..SchemaView::empty()
    }
}

/// The schema of an object with these properties, of which those must be there.
pub open spec fn object_schema(
    properties: Seq<(Seq<char>, SchemaView)>,
    required: Seq<Seq<char>>,
) -> SchemaView {
    SchemaView {
        schema_type: Some("object"@),
        properties: Some(properties),
        required: if required.len() > 0 {
            Some(required)
        } else {
            None
        },
        ..SchemaView::empty()
    }
}

/// The schema of an array with such items.
pub open spec fn array_schema(items: SchemaView, desc: Option<Seq<char>>) -> SchemaView {
    SchemaView {
        schema_type: Some("array"@),
        description: plain(desc),
        items: Some(Box::new(items)),
        ..SchemaView::empty()
    }
}

/// The properties and the required keys, with those of the entries from `i` on.
pub open spec fn properties_from(
    ctx: Context,
    entries: Seq<(Seq<char>, JsonView)>,
    i: int,
    properties: Seq<(Seq<char>, SchemaView)>,
    required: Seq<Seq<char>>,
) -> Result<(Seq<(Seq<char>, SchemaView)>, Seq<Seq<char>>), Fault>
    decreases entries, entries.len() - i,
{
    if i < 0 || i >= entries.len() {
        Ok((properties, required))
    } else {
        match generated(ctx, entries[i].1, entries[i].0) {
            Err(f) => Err(f),
            Ok(own) => match ctx.describes(entries[i].0) {
                Err(f) => Err(f),
                Ok(desc) => properties_from(
                    ctx,
                    entries,
                    i + 1,
                    put(properties, entries[i].0, own),
                    if says_required(or_empty(desc)) {
                        required.push(entries[i].0)
                    } else {
                        required
                    },
                ),
            },
        }
    }
}

/// The schema of the items, where `items` is that of the items before `i`.
pub open spec fn items_from(ctx: Context, values: Seq<JsonView>, i: int, items: SchemaView) -> Result<
    SchemaView,
    Fault,
>
    decreases values, values.len() - i,
{
    if i < 0 || i >= values.len() {
        Ok(items)
    } else {
        match generated(ctx, values[i], seq![]) {
            Err(f) => Err(f),
            Ok(own) => items_from(
                ctx,
                values,
                i + 1,
                if i == 0 {
                    own
                } else {
                    merged(items, own)
                },
            ),
        }
    }
}

/// The schema of a value that stands for the key.
pub open spec fn generated(ctx: Context, value: JsonView, key: Seq<char>) -> Result<
    SchemaView,
    Fault,
>
    decreases value, 0int,
{
    match value {
        JsonView::Object(entries) => match properties_from(ctx, entries, 0, seq![], seq![]) {
            Err(f) => Err(f),
            Ok((properties, required)) => Ok(object_schema(properties, required)),
        },
        JsonView::Array(values) => match ctx.describes(key) {
            Err(f) => Err(f),
            Ok(desc) => match items_from(ctx, values, 0, SchemaView::empty()) {
                Err(f) => Err(f),
                Ok(items) => Ok(array_schema(items, desc)),
            },
        },
        JsonView::String(_) => match ctx.describes(key) {
            Err(f) => Err(f),
            Ok(desc) => match noted("[default: "@, or_empty(desc)) {
                Err(f) => Err(f),
                Ok(default) => Ok(text_schema(desc, key, default)),
            },
        },
        JsonView::Number(n) => match ctx.describes(key) {
            Err(f) => Err(f),
            Ok(desc) => match limits(or_empty(desc)) {
                Err(f) => Err(f),
                Ok(limits) => Ok(number_schema(n, desc, limits)),
            },
        },
        JsonView::Bool(_) => match ctx.describes(key) {
            Err(f) => Err(f),
            Ok(desc) => match noted("[default: "@, or_empty(desc)) {
                Err(f) => Err(f),
                Ok(default) => Ok(bool_schema(desc, default)),
            },
        },
        JsonView::Null => Ok(SchemaView { nullable: Some(true), ..SchemaView::empty() }),
    }
}

fn type_of_number(n: &Number) -> (r: &'static str)
    ensures
        r@ == number_type(n.deep_view()),
{
    match n {
        Number::Literal(text) => infer_type(text.as_str()),
        Number::Float(_) => "number",
    }
}

impl<'a> Transpiler<'a> {
    /// The description of the key, and the default that it gives.
    fn find_default(&self, key: &str) -> (r: Result<(Option<String>, Option<Json>), Fault>)
        ensures
            outcome(r) == match self.context().describes(key@) {
                Err(f) => Err(f),
                Ok(desc) => match noted("[default: "@, or_empty(desc)) {
                    Err(f) => Err(f),
                    Ok(default) => Ok((desc, default)),
                },
            },
    {
        let desc: Option<String> = match self.describe(key) {
            Ok(desc) => desc,
            Err(f) => {
                return Err(f);
            },
        };
        match get_def_value(text_or_empty(&desc)) {
            Ok(default) => Ok((desc, default)),
            Err(f) => Err(f),
        }
    }

    /// The schema of a value that stands for the key.
    pub fn generate_schema(&self, value: &Json, key: &str) -> (r: Result<Schema, Fault>)
        ensures
            outcome(r) == generated(self.context(), value.deep_view(), key@),
        decreases value.deep_view(),
    {
        broadcast use {lemma_json_view, lemma_schema_view};

        let ghost ctx = self.context();
        match value {
            Json::Object(m) => {
                let ghost entries = m.deep_view();
                let mut properties: StrMap<Schema> = StrMap::new();
                let mut required: Vec<String> = Vec::new();
                assert(required.deep_view() =~= seq![]);
                let mut i: usize = 0;
                while i < m.entries.len()
                    invariant
                        ctx == self.context(),
                        value.deep_view() == JsonView::Object(entries),
                        entries == m.deep_view(),
                        i <= m.entries.len(),
                        properties_from(ctx, entries, 0, seq![], seq![]) == properties_from(
                            ctx,
                            entries,
                            i as int,
                            properties.deep_view(),
                            required.deep_view(),
                        ),
                    decreases m.entries.len() - i,
                {
                    let name: &str = m.entries[i].0.as_str();
                    assert(value.deep_view()->Object_0[i as int].1
                        == m.entries@[i as int].1.deep_view());
                    match self.generate_schema(&m.entries[i].1, name) {
                        Err(f) => {
                            return Err(f);
                        },
                        Ok(own) => {
                            properties.insert(m.entries[i].0.clone(), own);
                        },
                    }
                    match self.describe(name) {
                        Err(f) => {
                            return Err(f);
                        },
                        Ok(desc) => {
                            if is_required(text_or_empty(&desc)) {
                                let ghost before = required.deep_view();
                                let key: String = m.entries[i].0.clone();
                                required.push(key);
                                assert(required.deep_view() =~= before.push(key@));
                            }
                        },
                    }
                    i = i + 1;
                }
                let r: Schema = Schema {
                    schema_type: Some("object".to_owned()),
                    properties: Some(properties),
                    required: if required.len() > 0 {
                        Some(required)
                    } else {
                        None
                    },
                    ..Schema::default()
                };
                Ok(r)
            },
            Json::Array(a) => {
                let desc: Option<String> = match self.describe(key) {
                    Err(f) => {
                        return Err(f);
                    },
                    Ok(desc) => desc,
                };
                let ghost values = a.deep_view();
                let mut items: Schema = Schema::default();
                let mut i: usize = 0;
                while i < a.len()
                    invariant
                        ctx == self.context(),
                        value.deep_view() == JsonView::Array(values),
                        ctx.describes(key@) is Ok,
                        values == a.deep_view(),
                        i <= a.len(),
                        items_from(ctx, values, 0, SchemaView::empty()) == items_from(
                            ctx,
                            values,
                            i as int,
                            items.deep_view(),
                        ),
                    decreases a.len() - i,
                {
                    assert(value.deep_view()->Array_0[i as int] == a@[i as int].deep_view());
                    proof {
                        reveal_strlit("");
                        assert(""@ =~= seq![]);
                    }
                    match self.generate_schema(&a[i], "") {
                        Err(f) => {
                            return Err(f);
                        },
                        Ok(own) => {
                            if i == 0 {
                                items = own;
                            } else {
                                items = Self::merge_schemas(items, &own);
                            }
                        },
                    }
                    i = i + 1;
                }
                Ok(
                    Schema {
                        schema_type: Some("array".to_owned()),
                        description: replace_description(&desc),
                        items: Some(Box::new(items)),
                        ..Schema::default()
                    },
                )
            },
            Json::String(_) => {
                let (desc, default): (Option<String>, Option<Json>) = match self.find_default(key) {
                    Ok(found) => found,
                    Err(f) => {
                        return Err(f);
                    },
                };
                Ok(
                    Schema {
                        schema_type: Some("string".to_owned()),
                        default,
                        enum_values: find_enum_by_key(key),
                        nullable: get_nullable_value(text_or_empty(&desc)),
                        description: replace_description(&desc),
                        ..Schema::default()
                    },
                )
            },
            Json::Number(n) => {
                let desc: Option<String> = match self.describe(key) {
                    Ok(desc) => desc,
                    Err(f) => {
                        return Err(f);
                    },
                };
                match find_limits(text_or_empty(&desc)) {
                    Ok((default, minimum, maximum)) => Ok(
                        Schema {
                            schema_type: Some(type_of_number(n).to_owned()),
                            description: replace_description(&desc),
                            default,
                            minimum,
                            maximum,
                            nullable: get_nullable_value(text_or_empty(&desc)),
                            ..Schema::default()
                        },
                    ),
                    Err(f) => Err(f),
                }
            },
            Json::Bool(_) => {
                match self.find_default(key) {
                    Ok((desc, default)) => Ok(
                        Schema {
                            schema_type: Some("boolean".to_owned()),
                            default,
                            description: replace_description(&desc),
                            ..Schema::default()
                        },
                    ),
                    Err(f) => Err(f),
                }
            },
            Json::Null => Ok(Schema { nullable: Some(true), ..Schema::default() }),
        }
    }
}

/// The schema has no alternatives, nor has one of its properties, and the
/// properties stand in order.
pub open spec fn is_single(s: SchemaView) -> bool
    decreases s,
{
    s.any_of is None && match s.properties {
        Some(p) => ascending(p) && forall|i: int|
            0 <= i < p.len() ==> is_single((#[trigger] p[i]).1),
        None => true,
    }
}

/// A schema without alternatives, merged with itself, stays as it is.
pub proof fn law_merged_same(a: SchemaView)
    requires
        is_single(a),
    ensures
        merged(a, a) == a,
    decreases a,
{
    if let Some(p) = a.properties {
        assert forall|i: int| 0 <= i < p.len() implies #[trigger] merged_known(p, p)[i] == p[i] by {
            assert(is_single(p[i].1));
            law_merged_same(p[i].1);
            lemma_key_at(p, p[i].0);
            lemma_one_place(p, i, key_at(p, p[i].0)->0);
        }
        assert(merged_known(p, p) =~= p);
        assert forall|k: int| 0 <= k < p.len() implies has_key(p, (#[trigger] p[k]).0) by {
            lemma_key_at(p, p[k].0);
        }
        lemma_nothing_missing(p, p, 0);
    }
    assert(merged(a, a) =~= a);
}

proof fn lemma_nothing_missing(
    acc: Seq<(Seq<char>, SchemaView)>,
    b: Seq<(Seq<char>, SchemaView)>,
    i: int,
)
    requires
        0 <= i,
        forall|k: int| 0 <= k < b.len() ==> has_key(acc, (#[trigger] b[k]).0),
    ensures
        with_missing(acc, b, i) == acc,
    decreases b.len() - i,
{
    if i < b.len() {
        assert(has_key(acc, b[i].0));
        lemma_nothing_missing(acc, b, i + 1);
    }
}

/// Two schemas of objects, merged, have the properties of both.
pub proof fn law_merged_properties(a: SchemaView, b: SchemaView, key: Seq<char>)
    requires
        a.any_of is None,
        a.schema_type == Some("object"@),
        b.schema_type == Some("object"@),
        a.properties is Some,
        b.properties is Some,
    ensures
        merged(a, b).schema_type == Some("object"@),
        merged(a, b).properties matches Some(r) && has_key(r, key) == (has_key(
            a.properties->0,
            key,
        ) || has_key(b.properties->0, key)),
{
    let p = a.properties->0;
    let q = b.properties->0;
    let known = merged_known(p, q);
    lemma_missing_added(known, q, 0, key);
    lemma_key_at(p, key);
    lemma_key_at(known, key);
    lemma_key_at(q, key);
    assert(forall|i: int| 0 <= i < p.len() ==> known[i].0 == (#[trigger] p[i]).0);
    if let Some(k) = key_at(p, key) {
        assert(known[k].0 == key);
    }
    if let Some(k) = key_at(known, key) {
        assert(p[k].0 == key);
    }
    if let Some(k) = key_at(q, key) {
        assert(q[k].0 == key);
    }
}

proof fn lemma_missing_added(
    acc: Seq<(Seq<char>, SchemaView)>,
    b: Seq<(Seq<char>, SchemaView)>,
    i: int,
    key: Seq<char>,
)
    requires
        0 <= i,
    ensures
        has_key(with_missing(acc, b, i), key) == (has_key(acc, key) || exists|k: int|
            i <= k < b.len() && (#[trigger] b[k]).0 == key),
    decreases b.len() - i,
{
    if i < b.len() {
        if has_key(acc, b[i].0) {
            lemma_missing_added(acc, b, i + 1, key);
        } else {
            law_put_has_key(acc, b[i].0, b[i].1, key);
            lemma_missing_added(put(acc, b[i].0, b[i].1), b, i + 1, key);
        }
        assert(b[i].0 == key || has_key(with_missing(acc, b, i), key) == (has_key(acc, key)
            || exists|k: int| i + 1 <= k < b.len() && (#[trigger] b[k]).0 == key));
    }
}

proof fn lemma_properties(
    ctx: Context,
    entries: Seq<(Seq<char>, JsonView)>,
    i: int,
    properties: Seq<(Seq<char>, SchemaView)>,
    required: Seq<Seq<char>>,
    key: Seq<char>,
)
    requires
        0 <= i,
        forall|j: int| 0 <= j < required.len() ==> has_key(entries, #[trigger] required[j]),
    ensures
        properties_from(ctx, entries, i, properties, required) matches Ok((p, r)) ==> {
            &&& has_key(p, key) == (has_key(properties, key) || exists|k: int|
                i <= k < entries.len() && (#[trigger] entries[k]).0 == key)
            &&& forall|j: int| 0 <= j < r.len() ==> has_key(entries, #[trigger] r[j])
        },
    decreases entries.len() - i,
{
    if i < entries.len() {
        let name = entries[i].0;
        if let Ok(own) = generated(ctx, entries[i].1, name) {
            if let Ok(desc) = ctx.describes(name) {
                let next = if says_required(or_empty(desc)) {
                    required.push(name)
                } else {
                    required
                };
                lemma_key_at(entries, name);
                assert(has_key(entries, name));
                law_put_has_key(properties, name, own, key);
                lemma_properties(ctx, entries, i + 1, put(properties, name, own), next, key);
            }
        }
    }
}

/// The schema of an object has the properties that the object has, and those
/// that it requires are among them.
pub proof fn law_generated_properties(
    ctx: Context,
    entries: Seq<(Seq<char>, JsonView)>,
    name: Seq<char>,
    key: Seq<char>,
)
    ensures
        generated(ctx, JsonView::Object(entries), name) matches Ok(s) ==> {
            &&& s.schema_type == Some("object"@)
            &&& s.properties matches Some(p) && has_key(p, key) == has_key(entries, key)
            &&& s.required matches Some(r) ==> forall|j: int|
                0 <= j < r.len() ==> has_key(entries, #[trigger] r[j])
        },
{
    lemma_properties(ctx, entries, 0, seq![], seq![], key);
    lemma_key_at(entries, key);
    lemma_key_at(Seq::<(Seq<char>, SchemaView)>::empty(), key);
    if let Some(k) = key_at(entries, key) {
        assert(entries[k].0 == key);
    }
}

} // verus!
