//! What schemas say of the values that they were made from.

use vstd::prelude::*;

use crate::context::Context;
use crate::fault::Fault;
use crate::json::{typed, JsonView, NumberView};
use crate::map::{
    ascending, has_key, key_at, law_put_ascending, law_put_lookup, lemma_key_at, lemma_one_place,
    lemma_place_from, lemma_same_keys, lookup, place_from, put,
};
use crate::notes::{or_empty, plain, says_required};
use crate::number::{integer_of, is_float, is_not_finite};
use crate::laws::operations;
use crate::openapi::v3_0::{
    MediaTypeView, OperationView, PathItemView, RefView, ResponseView, SchemaView,
};
use crate::order::{law_generated_ordered, ordered_schema};
use crate::pattern::value_from;
use crate::schema::{generated, items_from, merged, merged_known, properties_from, with_missing};
use crate::text::{found, lemma_find_from, less};

verus! {

/// A step into a value: to a property of an object, or to an item of an array.
pub enum Step {
    Property(Seq<char>),
    Item,
}

/// The schema knows values of the type `t` at the end of the path, itself or
/// in one of its alternatives.
pub open spec fn tells(s: SchemaView, path: Seq<Step>, t: Seq<char>) -> bool
    decreases s,
{
    ||| path.len() == 0 && s.schema_type == Some(t)
    ||| path.len() > 0 && match path[0] {
        Step::Property(key) => match s.properties {
            Some(p) => exists|i: int|
                0 <= i < p.len() && (#[trigger] p[i]).0 == key && tells(p[i].1, path.skip(1), t),
            None => false,
        },
        Step::Item => match s.items {
            Some(items) => tells(*items, path.skip(1), t),
            None => false,
        },
    }
    ||| match s.any_of {
        Some(list) => exists|i: int|
            0 <= i < list.len() && match #[trigger] list[i] {
                RefView::Object(x) => tells(x, path, t),
                RefView::Ref { .. } => false,
            },
        None => false,
    }
}

/// Merging `b` into `a` loses nothing of `b`: `a` has alternatives already, or
/// both have a type and `b` has no alternatives. Where the types are the same,
/// only objects are looked into.
pub open spec fn blends(a: SchemaView, b: SchemaView) -> bool
    decreases a,
{
    ||| a.any_of is Some
    ||| {
        &&& b.any_of is None
        &&& a.schema_type is Some
        &&& b.schema_type is Some
        &&& a.schema_type != b.schema_type || {
            &&& b.items is Some ==> a.items == b.items
            &&& b.properties matches Some(q) ==> {
                &&& a.schema_type == Some("object"@)
                &&& match a.properties {
                    Some(p) => forall|i: int|
                        0 <= i < p.len() ==> match lookup(q, (#[trigger] p[i]).0) {
                            Some(other) => blends(p[i].1, other),
                            None => true,
                        },
                    None => false,
                }
            }
        }
    }
}

/// No entry of the map is lost, and each new one comes in, unless its key is
/// there.
proof fn lemma_missing_entries(
    acc: Seq<(Seq<char>, SchemaView)>,
    q: Seq<(Seq<char>, SchemaView)>,
    i: int,
)
    requires
        0 <= i,
    ensures
        forall|k: int|
            0 <= k < acc.len() ==> with_missing(acc, q, i).contains(#[trigger] acc[k]),
        forall|k: int|
            0 <= k < with_missing(acc, q, i).len() ==> acc.contains(
                #[trigger] with_missing(acc, q, i)[k],
            ) || q.contains(with_missing(acc, q, i)[k]),
        ascending(q) ==> forall|k: int|
            i <= k < q.len() && !has_key(acc, (#[trigger] q[k]).0) ==> with_missing(
                acc,
                q,
                i,
            ).contains(q[k]),
    decreases q.len() - i,
{
    let r = with_missing(acc, q, i);
    if i < q.len() {
        if has_key(acc, q[i].0) {
            lemma_missing_entries(acc, q, i + 1);
        } else {
            let e = q[i];
            let next = put(acc, e.0, e.1);
            lemma_missing_entries(next, q, i + 1);
            lemma_place_from(acc, e.0, 0);
            lemma_key_at(acc, e.0);
            let at = place_from(acc, e.0, 0);
            assert(next == acc.insert(at, e));
            assert(next[at] == e);
            assert forall|k: int| 0 <= k < acc.len() implies r.contains(#[trigger] acc[k]) by {
                let l = if k < at {
                    k
                } else {
                    k + 1
                };
                assert(next[l] == acc[k]);
            }
            assert forall|k: int| 0 <= k < r.len() implies acc.contains(#[trigger] r[k])
                || q.contains(r[k]) by {
                if next.contains(r[k]) {
                    let l = choose|l: int| 0 <= l < next.len() && next[l] == r[k];
                    if l < at {
                        assert(acc[l] == r[k]);
                    } else if l > at {
                        assert(acc[l - 1] == r[k]);
                    } else {
                        assert(q[i] == r[k]);
                    }
                }
            }
            assert(r.contains(next[at]));
            if ascending(q) {
                assert forall|k: int|
                    i <= k < q.len() && !has_key(acc, (#[trigger] q[k]).0) implies r.contains(
                    q[k],
                ) by {
                    if k > i {
                        lemma_key_at(next, q[k].0);
                        lemma_key_at(acc, q[k].0);
                        if has_key(next, q[k].0) {
                            let l = key_at(next, q[k].0)->0;
                            if l < at {
                                assert(acc[l].0 == q[k].0);
                            } else if l > at {
                                assert(acc[l - 1].0 == q[k].0);
                            } else {
                                lemma_one_place(q, i, k);
                            }
                        }
                    }
                }
            }
        }
    }
}

/// What `a` tells, the two merged tell.
proof fn lemma_tells_first(a: SchemaView, b: SchemaView, path: Seq<Step>, t: Seq<char>)
    requires
        tells(a, path, t),
    ensures
        tells(merged(a, b), path, t),
    decreases a,
{
    let r = merged(a, b);
    if let Some(list) = a.any_of {
        let all = r.any_of->0;
        if !(path.len() == 0 && a.schema_type == Some(t)) {
            assert(forall|i: int| 0 <= i < list.len() ==> #[trigger] all[i] == list[i]);
            assert forall|i: int| 0 <= i < list.len() && match #[trigger] list[i] {
                RefView::Object(x) => tells(x, path, t),
                RefView::Ref { .. } => false,
            } implies tells(r, path, t) by {
                assert(all[i] == list[i]);
            }
        }
    } else {
        let own = if r.any_of is Some {
            r.any_of->0[0]->Object_0
        } else {
            r
        };
        assert(tells(own, path, t)) by {
            if path.len() > 0 {
                if let (Step::Property(key), Some(p)) = (path[0], a.properties) {
                    let i = choose|i: int|
                        0 <= i < p.len() && (#[trigger] p[i]).0 == key && tells(
                            p[i].1,
                            path.skip(1),
                            t,
                        );
                    if own.properties != a.properties {
                        let q = b.properties->0;
                        let known = merged_known(p, q);
                        if let Some(other) = lookup(q, p[i].0) {
                            lemma_tells_first(p[i].1, other, path.skip(1), t);
                        }
                        assert(known[i].0 == key && tells(known[i].1, path.skip(1), t));
                        lemma_missing_entries(known, q, 0);
                        let all = own.properties->0;
                        assert(all.contains(known[i]));
                        let k = choose|k: int| 0 <= k < all.len() && all[k] == known[i];
                        assert(all[k].0 == key && tells(all[k].1, path.skip(1), t));
                    }
                }
            }
        }
        if let Some(all) = r.any_of {
            assert(all[0] == RefView::Object(own));
        }
    }
}

/// What `b` tells, the two merged tell, where they blend.
proof fn lemma_tells_second(a: SchemaView, b: SchemaView, path: Seq<Step>, t: Seq<char>)
    requires
        tells(b, path, t),
        blends(a, b),
        ordered_schema(b),
    ensures
        tells(merged(a, b), path, t),
    decreases a,
{
    let r = merged(a, b);
    if let Some(list) = a.any_of {
        let all = r.any_of->0;
        assert(all[list.len() as int] == RefView::Object(b));
    } else if a.schema_type != b.schema_type {
        let all = r.any_of->0;
        assert(all[1] == RefView::Object(b));
    } else if path.len() > 0 {
        if let (Step::Property(key), Some(q)) = (path[0], b.properties) {
            let p = a.properties->0;
            let i = choose|i: int|
                0 <= i < q.len() && (#[trigger] q[i]).0 == key && tells(q[i].1, path.skip(1), t);
            let known = merged_known(p, q);
            let all = r.properties->0;
            assert(all == with_missing(known, q, 0));
            lemma_missing_entries(known, q, 0);
            lemma_key_at(known, key);
            match key_at(known, key) {
                Some(k) => {
                    assert(p[k].0 == key);
                    lemma_key_at(q, key);
                    lemma_one_place(q, i, key_at(q, key)->0);
                    assert(lookup(q, p[k].0) == Some(q[i].1));
                    assert(blends(p[k].1, q[i].1));
                    assert(ordered_schema(q[i].1));
                    lemma_tells_second(p[k].1, q[i].1, path.skip(1), t);
                    assert(all.contains(known[k]));
                    let l = choose|l: int| 0 <= l < all.len() && all[l] == known[k];
                    assert(all[l].0 == key && tells(all[l].1, path.skip(1), t));
                },
                None => {
                    assert(all.contains(q[i]));
                    let l = choose|l: int| 0 <= l < all.len() && all[l] == q[i];
                    assert(all[l].0 == key && tells(all[l].1, path.skip(1), t));
                },
            }
        }
    }
}

/// What the two merged tell, one of them tells.
proof fn lemma_told(a: SchemaView, b: SchemaView, path: Seq<Step>, t: Seq<char>)
    requires
        tells(merged(a, b), path, t),
    ensures
        tells(a, path, t) || tells(b, path, t),
    decreases a,
{
    let r = merged(a, b);
    if let Some(list) = a.any_of {
        let all = r.any_of->0;
        if !tells(a, path, t) {
            let i = choose|i: int|
                0 <= i < all.len() && match #[trigger] all[i] {
                    RefView::Object(x) => tells(x, path, t),
                    RefView::Ref { .. } => false,
                };
            if i < list.len() {
                assert(all[i] == list[i]);
            }
        }
    } else {
        let own = if r.any_of is Some {
            r.any_of->0[0]->Object_0
        } else {
            r
        };
        if let Some(all) = r.any_of {
            assert(all =~= seq![RefView::Object(own), RefView::Object(b)]);
            let i = choose|i: int|
                0 <= i < all.len() && match #[trigger] all[i] {
                    RefView::Object(x) => tells(x, path, t),
                    RefView::Ref { .. } => false,
                };
            assert(i == 0 || i == 1);
        }
        if !tells(b, path, t) {
            assert(tells(own, path, t));
            if path.len() > 0 {
                if let Step::Property(key) = path[0] {
                    if own.properties != a.properties {
                        let p = a.properties->0;
                        let q = b.properties->0;
                        let known = merged_known(p, q);
                        let all = own.properties->0;
                        lemma_missing_entries(known, q, 0);
                        let i = choose|i: int|
                            0 <= i < all.len() && (#[trigger] all[i]).0 == key && tells(
                                all[i].1,
                                path.skip(1),
                                t,
                            );
                        if q.contains(all[i]) {
                            let k = choose|k: int| 0 <= k < q.len() && q[k] == all[i];
                            assert(q[k].0 == key && tells(q[k].1, path.skip(1), t));
                        } else {
                            let k = choose|k: int| 0 <= k < known.len() && known[k] == all[i];
                            assert(p[k].0 == key);
                            if let Some(other) = lookup(q, key) {
                                lemma_told(p[k].1, other, path.skip(1), t);
                                lemma_key_at(q, key);
                                let l = key_at(q, key)->0;
                                assert(q[l].0 == key && q[l].1 == other);
                            }
                        }
                    }
                }
            }
        }
    }
}

/// Two schemas, merged, know what each of them knows of values, at every depth:
/// each path that leads to values of some type in one of them leads to values
/// of that type in the merged one. What the first knows is never lost, and
/// nothing comes in that neither knows.
pub proof fn law_merged_tells(a: SchemaView, b: SchemaView, path: Seq<Step>, t: Seq<char>)
    requires
        ordered_schema(b),
    ensures
        tells(a, path, t) ==> tells(merged(a, b), path, t),
        blends(a, b) && tells(b, path, t) ==> tells(merged(a, b), path, t),
        tells(merged(a, b), path, t) ==> tells(a, path, t) || tells(b, path, t),
{
    if tells(a, path, t) {
        lemma_tells_first(a, b, path, t);
    }
    if blends(a, b) && tells(b, path, t) {
        lemma_tells_second(a, b, path, t);
    }
    if tells(merged(a, b), path, t) {
        lemma_told(a, b, path, t);
    }
}

proof fn lemma_missing_lookup(
    acc: Seq<(Seq<char>, SchemaView)>,
    q: Seq<(Seq<char>, SchemaView)>,
    i: int,
    key: Seq<char>,
)
    requires
        0 <= i,
        ascending(acc),
        ascending(q),
    ensures
        has_key(acc, key) ==> lookup(with_missing(acc, q, i), key) == lookup(acc, key),
        !has_key(acc, key) && (forall|k: int| 0 <= k < i && k < q.len() ==> (#[trigger] q[k]).0
            != key) ==> lookup(with_missing(acc, q, i), key) == lookup(q, key),
    decreases q.len() - i,
{
    lemma_key_at(q, key);
    if i < q.len() {
        let e = q[i];
        if has_key(acc, e.0) {
            lemma_missing_lookup(acc, q, i + 1, key);
        } else {
            law_put_lookup(acc, e.0, e.1, key);
            law_put_ascending(acc, e.0, e.1);
            lemma_missing_lookup(put(acc, e.0, e.1), q, i + 1, key);
            if e.0 == key {
                lemma_one_place(q, i, key_at(q, key)->0);
            }
        }
    }
}

/// Of two schemas of objects without alternatives, merged, a property that
/// both have is the two merged, and one that only one of them has is as it is
/// there. There are no others.
pub proof fn law_merged_property(a: SchemaView, b: SchemaView, key: Seq<char>)
    requires
        a.any_of is None,
        b.any_of is None,
        a.schema_type == Some("object"@),
        b.schema_type == Some("object"@),
        a.properties matches Some(p) && ascending(p),
        b.properties matches Some(q) && ascending(q),
    ensures
        merged(a, b).schema_type == Some("object"@),
        merged(a, b).any_of is None,
        merged(a, b).properties matches Some(r) && lookup(r, key) == match (
            lookup(a.properties->0, key),
            lookup(b.properties->0, key),
        ) {
            (Some(x), Some(y)) => Some(merged(x, y)),
            (Some(x), None) => Some(x),
            (None, y) => y,
        },
{
    let p = a.properties->0;
    let q = b.properties->0;
    let known = merged_known(p, q);
    lemma_same_keys(p);
    assert(forall|i: int| 0 <= i < p.len() ==> (#[trigger] known[i]).0 == p[i].0);
    assert(ascending(known));
    lemma_missing_lookup(known, q, 0, key);
    lemma_key_at(p, key);
    lemma_key_at(known, key);
    if let Some(k) = key_at(p, key) {
        assert(known[k].0 == key);
        lemma_one_place(known, k, key_at(known, key)->0);
    }
    if let Some(k) = key_at(known, key) {
        assert(p[k].0 == key);
    }
}

/// A merged schema takes null where one of the two does, it stays silent about
/// it where both are silent, and it says of itself what the first says. It has
/// the type of both, or of the one that has a type; where the types differ, it
/// has the two as its alternatives instead, and where there are alternatives
/// already the second is one more.
pub proof fn law_merged_fields(a: SchemaView, b: SchemaView)
    ensures
        (merged(a, b).nullable == Some(true)) == (a.nullable == Some(true) || b.nullable == Some(
            true,
        )),
        (merged(a, b).nullable is None) == (a.nullable is None && b.nullable is None),
        merged(a, b).description == a.description,
        merged(a, b).format == a.format,
        merged(a, b).default == a.default,
        merged(a, b).example == a.example,
        merged(a, b).enum_values == a.enum_values,
        merged(a, b).minimum == a.minimum,
        merged(a, b).maximum == a.maximum,
        merged(a, b).required == a.required,
        a.any_of matches Some(list) ==> merged(a, b).any_of == Some(list.push(RefView::Object(b)))
            && merged(a, b).schema_type == a.schema_type && merged(a, b).properties == a.properties
            && merged(a, b).items == a.items,
        a.any_of is None && a.schema_type == b.schema_type ==> merged(a, b).any_of is None
            && merged(a, b).schema_type == a.schema_type && merged(a, b).items == a.items,
        a.any_of is None && a.schema_type is None && b.any_of is None ==> merged(a, b).schema_type
            == b.schema_type && merged(a, b).any_of is None,
        a.any_of is None && b.schema_type is None ==> merged(a, b).schema_type == a.schema_type
            && merged(a, b).any_of is None,
        a.any_of is None && merged(a, b).any_of is None ==> merged(a, b).items == a.items,
        a.any_of is None && merged(a, b).any_of is None && (merged(a, b).schema_type != Some(
            "object"@,
        ) || a.properties is None || b.properties is None) ==> merged(a, b).properties
            == a.properties,
        a.any_of is None && a.schema_type is Some && b.schema_type is Some && a.schema_type
            != b.schema_type ==> {
            let r = merged(a, b);
            &&& r.schema_type is None && r.properties is None && r.items is None
            &&& r.any_of matches Some(list) && list.len() == 2 && list[1] == RefView::Object(b)
                && (list[0] matches RefView::Object(own) && own.schema_type == a.schema_type
                && own.items == a.items && own.any_of is None && own.description == a.description
                && (b.properties is None ==> own.properties == a.properties))
        },
{
}

/// The type of a value, as schemas name it; null has none.
pub open spec fn type_of(v: JsonView) -> Option<Seq<char>> {
    match v {
        JsonView::Object(_) => Some("object"@),
        JsonView::Array(_) => Some("array"@),
        JsonView::String(_) => Some("string"@),
        JsonView::Bool(_) => Some("boolean"@),
        JsonView::Number(NumberView::Float(_)) => Some("number"@),
        JsonView::Number(NumberView::Literal(text)) => if integer_of(text) is Some {
            Some("integer"@)
        } else {
            Some("number"@)
        },
        JsonView::Null => None,
    }
}

/// Numbers are written as JSON writes them.
pub open spec fn is_written(v: JsonView) -> bool {
    v matches JsonView::Number(NumberView::Literal(text)) ==> is_float(text)
}

/// The schema of a value has the type of the value; that of null has none, and
/// says that null is taken. No schema of a value has alternatives, and only
/// that of an object has properties and that of an array items.
pub proof fn law_generated_type(ctx: Context, v: JsonView, key: Seq<char>)
    requires
        is_written(v),
    ensures
        generated(ctx, v, key) matches Ok(s) ==> {
            &&& s.schema_type == type_of(v)
            &&& v is Null ==> s.nullable == Some(true)
            &&& s.any_of is None
            &&& s.properties is Some <==> v is Object
            &&& s.items is Some <==> v is Array
            &&& s.example is None && s.format is None
        },
{
}

/// The schema of a text, a number or a truth value carries what the notes in
/// the description of its key say: the description without the notes, the
/// default, the bounds of a number, and whether null is taken.
pub proof fn law_generated_notes(ctx: Context, v: JsonView, key: Seq<char>, desc: Seq<char>)
    requires
        ctx.describes(key) == Ok::<_, Fault>(Some(desc)),
        v is String || v is Number || v is Bool,
    ensures
        generated(ctx, v, key) matches Ok(s) ==> {
            &&& s.description == plain(Some(desc))
            &&& match value_from(desc, "[default: "@, 0) {
                Some(text) => s.default == Some(typed(text)) && !is_not_finite(text),
                None => s.default is None,
            }
            &&& v is Number ==> match value_from(desc, "[min: "@, 0) {
                Some(text) => s.minimum == Some(typed(text)) && !is_not_finite(text),
                None => s.minimum is None,
            }
            &&& v is Number ==> match value_from(desc, "[max: "@, 0) {
                Some(text) => s.maximum == Some(typed(text)) && !is_not_finite(text),
                None => s.maximum is None,
            }
            &&& !(v is Bool) ==> s.nullable == if found(desc, "\\[nullable\\]"@) is Some {
                Some(true)
            } else {
                None
            }
            &&& v is String && key == "status"@ ==> s.enum_values == Some(seq!["OK"@, "ERROR"@])
            &&& !(v is String && key == "status"@) ==> s.enum_values is None
        },
{
}

/// The schema of a text, a number or a truth value under a key that nothing
/// describes says no more than the type.
pub proof fn law_generated_bare(ctx: Context, v: JsonView, key: Seq<char>)
    requires
        ctx.describes(key) == Ok::<Option<Seq<char>>, Fault>(None),
        v is String || v is Number || v is Bool,
    ensures
        generated(ctx, v, key) matches Ok(s) && s.description is None && s.default is None
            && s.minimum is None && s.maximum is None && s.nullable is None && s.required is None,
{
    lemma_no_value(seq![], "[default: "@, 0);
    lemma_no_value(seq![], "[min: "@, 0);
    lemma_no_value(seq![], "[max: "@, 0);
    reveal_strlit("\\[nullable\\]");
    lemma_find_from(seq![], "\\[nullable\\]"@, 0);
}

proof fn lemma_no_value(s: Seq<char>, mark: Seq<char>, i: int)
    requires
        i >= s.len(),
    ensures
        value_from(s, mark, i) is None,
{
}

proof fn lemma_entries(
    ctx: Context,
    entries: Seq<(Seq<char>, JsonView)>,
    i: int,
    properties: Seq<(Seq<char>, SchemaView)>,
    required: Seq<Seq<char>>,
    key: Seq<char>,
)
    requires
        0 <= i,
        ascending(entries),
        ascending(properties),
    ensures
        properties_from(ctx, entries, i, properties, required) matches Ok((p, r)) ==> {
            &&& forall|k: int|
                i <= k < entries.len() ==> generated(ctx, (#[trigger] entries[k]).1, entries[k].0)
                    is Ok && ctx.describes(entries[k].0) is Ok
            &&& forall|k: int|
                i <= k < entries.len() && (#[trigger] entries[k]).0 == key ==> lookup(p, key)
                    == Some(generated(ctx, entries[k].1, key)->Ok_0)
            &&& (forall|k: int| i <= k < entries.len() ==> (#[trigger] entries[k]).0 != key)
                ==> lookup(p, key) == lookup(properties, key)
            &&& r.contains(key) <==> required.contains(key) || exists|k: int|
                i <= k < entries.len() && (#[trigger] entries[k]).0 == key && says_required(
                    or_empty(ctx.describes(key)->Ok_0),
                )
        },
    decreases entries.len() - i,
{
    if i < entries.len() {
        let name = entries[i].0;
        if let Ok(own) = generated(ctx, entries[i].1, name) {
            if let Ok(desc) = ctx.describes(name) {
                let next = if says_required(or_empty(desc)) {
                    required.push(name)
                } else {
                    required
                };
                law_put_lookup(properties, name, own, key);
                law_put_ascending(properties, name, own);
                lemma_entries(ctx, entries, i + 1, put(properties, name, own), next, key);
                if name == key {
                    assert forall|k: int| i < k < entries.len() implies (#[trigger] entries[k]).0
                        != key by {
                        if entries[k].0 == key {
                            lemma_one_place(entries, i, k);
                        }
                    }
                }
                if says_required(or_empty(desc)) {
                    assert(next[required.len() as int] == name);
                    assert(required.contains(key) ==> next.contains(key)) by {
                        if required.contains(key) {
                            let j = choose|j: int| 0 <= j < required.len() && required[j] == key;
                            assert(next[j] == key);
                        }
                    }
                    assert(next.contains(key) ==> required.contains(key) || name == key) by {
                        if next.contains(key) {
                            let j = choose|j: int| 0 <= j < next.len() && next[j] == key;
                            if j < required.len() {
                                assert(required[j] == key);
                            }
                        }
                    }
                }
            }
        }
    }
}

/// The schema of an object has for each of its keys the schema of the value
/// under that key, and no other properties. It requires the keys that are
/// described as required.
pub proof fn law_generated_object(
    ctx: Context,
    entries: Seq<(Seq<char>, JsonView)>,
    name: Seq<char>,
    key: Seq<char>,
)
    requires
        ascending(entries),
    ensures
        generated(ctx, JsonView::Object(entries), name) matches Ok(s) ==> {
            &&& s.properties matches Some(p) && match lookup(entries, key) {
                Some(v) => generated(ctx, v, key) matches Ok(own) && lookup(p, key) == Some(own),
                None => lookup(p, key) is None,
            }
            &&& (s.required matches Some(r) && r.contains(key)) <==> has_key(entries, key)
                && says_required(or_empty(ctx.describes(key)->Ok_0))
        },
{
    lemma_entries(ctx, entries, 0, seq![], seq![], key);
    lemma_key_at(entries, key);
    lemma_key_at(Seq::<(Seq<char>, SchemaView)>::empty(), key);
    if let Some(k) = key_at(entries, key) {
        assert(entries[k].0 == key);
    }
}

proof fn lemma_items_push(ctx: Context, values: Seq<JsonView>, v: JsonView, i: int, items: SchemaView)
    requires
        0 <= i <= values.len(),
    ensures
        items_from(ctx, values.push(v), i, items) == match items_from(ctx, values, i, items) {
            Err(f) => Err(f),
            Ok(s) => match generated(ctx, v, seq![]) {
                Err(f) => Err(f),
                Ok(own) => Ok(
                    if values.len() == 0 {
                        own
                    } else {
                        merged(s, own)
                    },
                ),
            },
        },
    decreases values.len() - i,
{
    let all = values.push(v);
    if i < values.len() {
        assert(all[i] == values[i]);
        if let Ok(own) = generated(ctx, values[i], seq![]) {
            lemma_items_push(
                ctx,
                values,
                v,
                i + 1,
                if i == 0 {
                    own
                } else {
                    merged(items, own)
                },
            );
        }
    } else {
        assert(all[i] == v);
        if let Ok(own) = generated(ctx, v, seq![]) {
            let next = if i == 0 {
                own
            } else {
                merged(items, own)
            };
            assert(items_from(ctx, all, i + 1, next) == Ok::<SchemaView, Fault>(next));
        }
    }
}

/// The items of an array with one item have the schema of that item. With one
/// item more at its end, an array has the schema of its items merged with the
/// schema of that item. Those of an empty array have a schema that says nothing.
pub proof fn law_generated_array(
    ctx: Context,
    values: Seq<JsonView>,
    v: JsonView,
    key: Seq<char>,
)
    ensures
        generated(ctx, JsonView::Array(seq![]), key) matches Ok(s) ==> s.items == Some(
            Box::new(SchemaView::empty()),
        ),
        generated(ctx, JsonView::Array(seq![v]), key) matches Ok(s) ==> generated(ctx, v, seq![])
            matches Ok(own) && s.items == Some(Box::new(own)),
        values.len() > 0 ==> (generated(ctx, JsonView::Array(values.push(v)), key) matches Ok(s)
            ==> {
            &&& generated(ctx, JsonView::Array(values), key) matches Ok(before)
                && before.items matches Some(items) && generated(ctx, v, seq![]) matches Ok(own)
                && s.items == Some(Box::new(merged(*items, own)))
                && s.description == before.description
        }),
        generated(ctx, JsonView::Array(values), key) matches Ok(s) ==> (ctx.describes(key) matches Ok(
            desc,
        ) && s.description == plain(desc)),
{
    lemma_items_push(ctx, values, v, 0, SchemaView::empty());
    lemma_items_push(ctx, seq![], v, 0, SchemaView::empty());
    assert(Seq::<JsonView>::empty().push(v) =~= seq![v]);
}

/// There is neither null nor an array in the value.
pub open spec fn is_simple(v: JsonView) -> bool
    decreases v,
{
    match v {
        JsonView::Null => false,
        JsonView::Array(_) => false,
        JsonView::Object(entries) => ascending(entries) && forall|i: int|
            0 <= i < entries.len() ==> is_simple((#[trigger] entries[i]).1),
        _ => is_written(v),
    }
}

/// The value has a value of the type `t` at the end of the path.
pub open spec fn shows(v: JsonView, path: Seq<Step>, t: Seq<char>) -> bool
    decreases v,
{
    if path.len() == 0 {
        type_of(v) == Some(t)
    } else {
        match (path[0], v) {
            (Step::Property(key), JsonView::Object(entries)) => exists|i: int|
                0 <= i < entries.len() && (#[trigger] entries[i]).0 == key && shows(
                    entries[i].1,
                    path.skip(1),
                    t,
                ),
            (Step::Item, JsonView::Array(values)) => exists|i: int|
                0 <= i < values.len() && shows(#[trigger] values[i], path.skip(1), t),
            _ => false,
        }
    }
}

/// A schema of values without null and arrays, which takes in others such.
pub open spec fn takes_in(s: SchemaView) -> bool
    decreases s,
{
    s.any_of is Some || {
        &&& s.schema_type is Some
        &&& s.items is None
        &&& s.schema_type == Some("object"@) <==> s.properties is Some
        &&& s.properties matches Some(p) ==> ascending(p) && forall|i: int|
            0 <= i < p.len() ==> takes_in((#[trigger] p[i]).1)
    }
}

/// Such a schema, of one value.
pub open spec fn is_of_one(s: SchemaView) -> bool
    decreases s,
{
    &&& s.any_of is None
    &&& s.schema_type is Some
    &&& s.items is None
    &&& s.schema_type == Some("object"@) <==> s.properties is Some
    &&& match s.properties {
        Some(p) => ascending(p) && forall|i: int|
            0 <= i < p.len() ==> is_of_one((#[trigger] p[i]).1),
        None => true,
    }
}

proof fn lemma_of_one_takes_in(s: SchemaView)
    requires
        is_of_one(s),
    ensures
        takes_in(s),
    decreases s,
{
    if let Some(p) = s.properties {
        assert forall|i: int| 0 <= i < p.len() implies takes_in((#[trigger] p[i]).1) by {
            lemma_of_one_takes_in(p[i].1);
        }
    }
}

proof fn lemma_missing_ascending(
    acc: Seq<(Seq<char>, SchemaView)>,
    q: Seq<(Seq<char>, SchemaView)>,
    i: int,
)
    requires
        0 <= i,
        ascending(acc),
    ensures
        ascending(with_missing(acc, q, i)),
    decreases q.len() - i,
{
    if i < q.len() {
        law_put_ascending(acc, q[i].0, q[i].1);
        lemma_missing_ascending(acc, q, i + 1);
        lemma_missing_ascending(put(acc, q[i].0, q[i].1), q, i + 1);
    }
}

proof fn lemma_takes_in(a: SchemaView, b: SchemaView)
    requires
        takes_in(a),
        is_of_one(b),
    ensures
        blends(a, b),
        takes_in(merged(a, b)),
    decreases a,
{
    if a.any_of is None && a.schema_type == b.schema_type && a.properties is Some {
        let p = a.properties->0;
        let q = b.properties->0;
        let known = merged_known(p, q);
        let all = with_missing(known, q, 0);
        assert forall|i: int| 0 <= i < p.len() implies takes_in((#[trigger] known[i]).1) && match lookup(
            q,
            p[i].0,
        ) {
            Some(other) => blends(p[i].1, other),
            None => true,
        } by {
            assert(takes_in(p[i].1));
            lemma_key_at(q, p[i].0);
            if let Some(k) = key_at(q, p[i].0) {
                assert(is_of_one(q[k].1));
                lemma_takes_in(p[i].1, q[k].1);
            }
        }
        assert forall|i: int| 0 <= i < p.len() implies match lookup(q, (#[trigger] p[i]).0) {
            Some(other) => blends(p[i].1, other),
            None => true,
        } by {
            assert(takes_in(known[i].1));
        }
        lemma_same_keys(p);
        assert(forall|i: int| 0 <= i < p.len() ==> (#[trigger] known[i]).0 == p[i].0);
        assert(ascending(known));
        lemma_missing_ascending(known, q, 0);
        lemma_missing_entries(known, q, 0);
        assert forall|i: int| 0 <= i < all.len() implies takes_in((#[trigger] all[i]).1) by {
            if q.contains(all[i]) {
                let k = choose|k: int| 0 <= k < q.len() && q[k] == all[i];
                assert(is_of_one(q[k].1));
                lemma_of_one_takes_in(q[k].1);
            } else {
                let k = choose|k: int| 0 <= k < known.len() && known[k] == all[i];
                assert(takes_in(known[k].1));
            }
        }
    }
}

proof fn lemma_types()
    ensures
        "string"@ != "object"@,
        "boolean"@ != "object"@,
        "number"@ != "object"@,
        "integer"@ != "object"@,
{
    reveal_strlit("object");
    reveal_strlit("string");
    reveal_strlit("boolean");
    reveal_strlit("number");
    reveal_strlit("integer");
    assert("boolean"@.len() == 7 && "integer"@.len() == 7 && "object"@.len() == 6);
    assert("string"@[0] == 's' && "number"@[0] == 'n' && "object"@[0] == 'o');
}

/// The schema of a value without null and arrays knows what the value shows,
/// at every depth, and nothing else.
pub proof fn law_generated_tells(
    ctx: Context,
    v: JsonView,
    key: Seq<char>,
    path: Seq<Step>,
    t: Seq<char>,
)
    requires
        is_simple(v),
    ensures
        generated(ctx, v, key) matches Ok(s) ==> is_of_one(s) && (tells(s, path, t) <==> shows(
            v,
            path,
            t,
        )),
    decreases v,
{
    law_generated_type(ctx, v, key);
    law_generated_ordered(ctx, v, key);
    lemma_types();
    if let (JsonView::Object(entries), Ok(s)) = (v, generated(ctx, v, key)) {
        let p = s.properties->0;
        assert forall|i: int| 0 <= i < p.len() implies is_of_one((#[trigger] p[i]).1) by {
            let name = p[i].0;
            law_generated_object(ctx, entries, key, name);
            lemma_key_at(p, name);
            lemma_one_place(p, i, key_at(p, name)->0);
            lemma_key_at(entries, name);
            let k = key_at(entries, name)->0;
            assert(is_simple(entries[k].1));
            law_generated_tells(ctx, entries[k].1, name, path, t);
        }
        if path.len() > 0 {
            if let Step::Property(name) = path[0] {
                let rest = path.skip(1);
                law_generated_object(ctx, entries, key, name);
                lemma_key_at(p, name);
                lemma_key_at(entries, name);
                if let Some(k) = key_at(entries, name) {
                    let l = key_at(p, name)->0;
                    assert(is_simple(entries[k].1));
                    law_generated_tells(ctx, entries[k].1, name, rest, t);
                    assert(p[l].1 == generated(ctx, entries[k].1, name)->Ok_0);
                    if shows(v, path, t) {
                        let j = choose|j: int|
                            0 <= j < entries.len() && (#[trigger] entries[j]).0 == name && shows(
                                entries[j].1,
                                rest,
                                t,
                            );
                        lemma_one_place(entries, j, k);
                        assert(p[l].0 == name && tells(p[l].1, rest, t));
                    }
                    if tells(s, path, t) {
                        let j = choose|j: int|
                            0 <= j < p.len() && (#[trigger] p[j]).0 == name && tells(
                                p[j].1,
                                rest,
                                t,
                            );
                        lemma_one_place(p, j, l);
                        assert(entries[k].0 == name && shows(entries[k].1, rest, t));
                    }
                }
            }
        }
    }
}

proof fn lemma_items_told(ctx: Context, values: Seq<JsonView>, path: Seq<Step>, t: Seq<char>)
    requires
        values.len() > 0,
        forall|k: int| 0 <= k < values.len() ==> is_simple(#[trigger] values[k]),
    ensures
        items_from(ctx, values, 0, SchemaView::empty()) matches Ok(s) ==> takes_in(s) && (tells(
            s,
            path,
            t,
        ) <==> exists|k: int| 0 <= k < values.len() && shows(#[trigger] values[k], path, t)),
    decreases values.len(),
{
    let init = values.drop_last();
    let v = values.last();
    assert(init.push(v) =~= values);
    lemma_items_push(ctx, init, v, 0, SchemaView::empty());
    assert(is_simple(values[values.len() - 1]));
    law_generated_tells(ctx, v, seq![], path, t);
    law_generated_ordered(ctx, v, seq![]);
    if let Ok(s) = items_from(ctx, values, 0, SchemaView::empty()) {
        let own = generated(ctx, v, seq![])->Ok_0;
        if init.len() == 0 {
            lemma_of_one_takes_in(own);
            assert(values[0] == v);
        } else {
            assert forall|k: int| 0 <= k < init.len() implies is_simple(#[trigger] init[k]) by {
                assert(is_simple(values[k]));
            }
            lemma_items_told(ctx, init, path, t);
            let before = items_from(ctx, init, 0, SchemaView::empty())->Ok_0;
            lemma_takes_in(before, own);
            law_merged_tells(before, own, path, t);
            if exists|k: int| 0 <= k < values.len() && shows(#[trigger] values[k], path, t) {
                let k = choose|k: int| 0 <= k < values.len() && shows(#[trigger] values[k], path, t);
                if k < init.len() {
                    assert(init[k] == values[k]);
                }
            }
            if exists|k: int| 0 <= k < init.len() && shows(#[trigger] init[k], path, t) {
                let k = choose|k: int| 0 <= k < init.len() && shows(#[trigger] init[k], path, t);
                assert(values[k] == init[k]);
            }
            if shows(v, path, t) {
                assert(values[values.len() - 1] == v);
            }
        }
    }
}

/// The schema of an array, in whose items there is neither null nor an array,
/// knows of its items all that any of them shows, at every depth, and nothing
/// that none of them shows.
pub proof fn law_array_tells(
    ctx: Context,
    values: Seq<JsonView>,
    key: Seq<char>,
    path: Seq<Step>,
    t: Seq<char>,
)
    requires
        values.len() > 0,
        forall|k: int| 0 <= k < values.len() ==> is_simple(#[trigger] values[k]),
    ensures
        generated(ctx, JsonView::Array(values), key) matches Ok(s) ==> (s.items matches Some(items)
            && (tells(*items, path, t) <==> exists|k: int|
            0 <= k < values.len() && shows(#[trigger] values[k], path, t))),
{
    lemma_items_told(ctx, values, path, t);
}

/// A schema says nothing but what was said of it: the schema of null only that
/// null is taken, that of an object its type, its properties and what it
/// requires, and that of an array its type, its description and its items.
pub proof fn law_generated_rest(ctx: Context, v: JsonView, key: Seq<char>)
    ensures
        generated(ctx, v, key) matches Ok(s) ==> {
            &&& s.format is None && s.example is None && s.any_of is None
            &&& v is Null || v is Object || v is Array ==> s.default is None && s.enum_values
                is None && s.minimum is None && s.maximum is None
            &&& v is Object || v is Array || v is Bool ==> s.nullable is None
            &&& v is Null || v is Object ==> s.description is None
            &&& !(v is Object) ==> s.required is None && s.properties is None
            &&& !(v is Array) ==> s.items is None
            &&& !(v is Number) ==> s.minimum is None && s.maximum is None
            &&& s.required matches Some(r) ==> r.len() > 0
        },
{
}

proof fn lemma_required_order(
    ctx: Context,
    entries: Seq<(Seq<char>, JsonView)>,
    i: int,
    properties: Seq<(Seq<char>, SchemaView)>,
    required: Seq<Seq<char>>,
)
    requires
        0 <= i,
        ascending(entries),
        forall|a: int, b: int|
            0 <= a < b < required.len() ==> less(#[trigger] required[a], #[trigger] required[b]),
        forall|a: int, k: int|
            0 <= a < required.len() && i <= k < entries.len() ==> less(
                #[trigger] required[a],
                (#[trigger] entries[k]).0,
            ),
    ensures
        properties_from(ctx, entries, i, properties, required) matches Ok((_, r)) ==> forall|
            a: int,
            b: int,
        |
            0 <= a < b < r.len() ==> less(#[trigger] r[a], #[trigger] r[b]),
    decreases entries.len() - i,
{
    if i < entries.len() {
        let name = entries[i].0;
        if let Ok(own) = generated(ctx, entries[i].1, name) {
            if let Ok(desc) = ctx.describes(name) {
                let next = if says_required(or_empty(desc)) {
                    required.push(name)
                } else {
                    required
                };
                assert forall|a: int, b: int| 0 <= a < b < next.len() implies less(
                    #[trigger] next[a],
                    #[trigger] next[b],
                ) by {
                    if b == required.len() {
                        assert(less(required[a], entries[i].0));
                    } else {
                        assert(less(required[a], required[b]));
                    }
                }
                assert forall|a: int, k: int|
                    0 <= a < next.len() && i + 1 <= k < entries.len() implies less(
                    #[trigger] next[a],
                    (#[trigger] entries[k]).0,
                ) by {
                    if a == required.len() {
                        assert(less(entries[i].0, entries[k].0));
                    } else {
                        assert(less(required[a], entries[k].0));
                    }
                }
                lemma_required_order(
                    ctx,
                    entries,
                    i + 1,
                    put(properties, name, own),
                    next,
                );
            }
        }
    }
}

/// The keys that an object requires stand in their order, none twice.
pub proof fn law_required_order(
    ctx: Context,
    entries: Seq<(Seq<char>, JsonView)>,
    name: Seq<char>,
)
    requires
        ascending(entries),
    ensures
        generated(ctx, JsonView::Object(entries), name) matches Ok(s) ==> (s.required matches Some(r)
            ==> forall|a: int, b: int|
            0 <= a < b < r.len() ==> less(#[trigger] r[a], #[trigger] r[b])),
{
    lemma_required_order(ctx, entries, 0, seq![], seq![]);
}

/// A view with nothing in it says nothing.
pub proof fn law_empty()
    ensures
        SchemaView::empty().schema_type is None,
        SchemaView::empty().format is None,
        SchemaView::empty().description is None,
        SchemaView::empty().default is None,
        SchemaView::empty().example is None,
        SchemaView::empty().enum_values is None,
        SchemaView::empty().nullable is None,
        SchemaView::empty().minimum is None,
        SchemaView::empty().maximum is None,
        SchemaView::empty().required is None,
        SchemaView::empty().properties is None,
        SchemaView::empty().items is None,
        SchemaView::empty().any_of is None,
        MediaTypeView::empty().schema is None,
        MediaTypeView::empty().examples is None,
        ResponseView::empty().description is None,
        ResponseView::empty().headers is None,
        ResponseView::empty().content is None,
        OperationView::empty().tags is None,
        OperationView::empty().summary is None,
        OperationView::empty().description is None,
        OperationView::empty().operation_id is None,
        OperationView::empty().parameters is None,
        OperationView::empty().request_body is None,
        OperationView::empty().responses.len() == 0,
        OperationView::empty().security is None,
        PathItemView::empty().parameters is None,
        forall|k: int| 0 <= k < 7 ==> #[trigger] operations(PathItemView::empty())[k] is None,
{
}

} // verus!
