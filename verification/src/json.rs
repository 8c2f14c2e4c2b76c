//! JSON values.

use vstd::prelude::*;

use serde_json::Value;

use crate::fault::{outcome, Fault};
use crate::map::StrMap;
use crate::number::{
    integer_of, is_float, is_not_finite, parse_integer, parses_as_float, parses_as_not_finite,
    signed_decimal, to_signed_decimal,
};
use crate::text::same;

verus! {

/// A number, as the text that it is known by.
#[derive(Debug, PartialEq)]
pub enum Number {
    /// The number as JSON writes it.
    Literal(String),
    /// The double that is nearest to what a floating-point literal says. Which
    /// one that is, is not decided here.
    Float(String),
}

/// A JSON value.
#[derive(Debug, PartialEq)]
pub enum Json {
    Null,
    Bool(bool),
    Number(Number),
    String(String),
    Array(Vec<Json>),
    Object(StrMap<Json>),
}

/// The view of a number.
#[verifier::ext_equal]
pub enum NumberView {
    Literal(Seq<char>),
    Float(Seq<char>),
}

/// The view of a JSON value.
#[verifier::ext_equal]
pub enum JsonView {
    Null,
    Bool(bool),
    Number(NumberView),
    String(Seq<char>),
    Array(Seq<JsonView>),
    Object(Seq<(Seq<char>, JsonView)>),
}

impl DeepView for Number {
    type V = NumberView;

    open spec fn deep_view(&self) -> NumberView {
        match *self {
            Number::Literal(s) => NumberView::Literal(s@),
            Number::Float(s) => NumberView::Float(s@),
        }
    }
}

/// The view of a JSON value.
pub open spec fn json_view(j: Json) -> JsonView
    decreases j,
{
    match j {
        Json::Null => JsonView::Null,
        Json::Bool(b) => JsonView::Bool(b),
        Json::Number(n) => JsonView::Number(n.deep_view()),
        Json::String(s) => JsonView::String(s@),
        Json::Array(a) => JsonView::Array(
            Seq::new(
                a@.len(),
                |i: int|
                    if 0 <= i < a@.len() {
                        json_view(a@[i])
                    } else {
                        arbitrary()
                    },
            ),
        ),
        Json::Object(m) => JsonView::Object(
            Seq::new(
                m.entries@.len(),
                |i: int|
                    if 0 <= i < m.entries@.len() {
                        (m.entries@[i].0@, json_view(m.entries@[i].1))
                    } else {
                        arbitrary()
                    },
            ),
        ),
    }
}

impl DeepView for Json {
    type V = JsonView;

    open spec fn deep_view(&self) -> JsonView {
        json_view(*self)
    }
}

/// The view of an array or an object is made of the views of what it holds.
pub broadcast proof fn lemma_json_view(j: Json)
    ensures
        match j {
            Json::Array(a) => #[trigger] json_view(j) == JsonView::Array(a.deep_view()),
            Json::Object(m) => json_view(j) == JsonView::Object(m.deep_view()),
            _ => true,
        },
{
    match j {
        Json::Array(a) => {
            assert(json_view(j)->Array_0 =~= a.deep_view());
        },
        Json::Object(m) => {
            assert(json_view(j)->Object_0 =~= m.deep_view());
        },
        _ => {},
    }
}

impl Clone for Number {
    fn clone(&self) -> (r: Self)
        ensures
            r.deep_view() == self.deep_view(),
    {
        match self {
            Number::Literal(s) => Number::Literal(s.clone()),
            Number::Float(s) => Number::Float(s.clone()),
        }
    }
}

impl Clone for Json {
    fn clone(&self) -> (r: Self)
        ensures
            r.deep_view() == self.deep_view(),
        decreases self.deep_view(),
    {
        broadcast use lemma_json_view;

        match self {
            Json::Null => Json::Null,
            Json::Bool(b) => Json::Bool(*b),
            Json::Number(n) => Json::Number(n.clone()),
            Json::String(s) => Json::String(s.clone()),
            Json::Array(a) => {
                let mut out: Vec<Json> = Vec::new();
                let mut i: usize = 0;
                while i < a.len()
                    invariant
                        self == &Json::Array(*a),
                        i <= a.len(),
                        out@.len() == i,
                        forall|k: int|
                            0 <= k < i ==> (#[trigger] out@[k]).deep_view() == a@[k].deep_view(),
                    decreases a.len() - i,
                {
                    assert(self.deep_view()->Array_0[i as int] == a@[i as int].deep_view());
                    let e: Json = a[i].clone();
                    out.push(e);
                    i = i + 1;
                }
                assert(out.deep_view() =~= a.deep_view());
                Json::Array(out)
            },
            Json::Object(m) => {
                let mut out: Vec<(String, Json)> = Vec::new();
                let mut i: usize = 0;
                while i < m.entries.len()
                    invariant
                        self == &Json::Object(*m),
                        i <= m.entries.len(),
                        out@.len() == i,
                        forall|k: int|
                            0 <= k < i ==> (#[trigger] out@[k]).deep_view()
                                == m.entries@[k].deep_view(),
                    decreases m.entries.len() - i,
                {
                    assert(self.deep_view()->Object_0[i as int].1
                        == m.entries@[i as int].1.deep_view());
                    let e: (String, Json) = (m.entries[i].0.clone(), m.entries[i].1.clone());
                    out.push(e);
                    i = i + 1;
                }
                let r: StrMap<Json> = StrMap { entries: out };
                assert(r.deep_view() =~= m.deep_view());
                Json::Object(r)
            },
        }
    }
}

/// A JSON value, as the `serde_json` crate holds it.
#[verifier::external_type_specification]
#[verifier::external_body]
pub struct ExValue(serde_json::Value);

/// The value that a `serde_json::Value` holds.
pub uninterp spec fn json_of(v: Value) -> JsonView;

/// The value of a JSON document, where the text is one.
pub uninterp spec fn parsed(text: Seq<char>) -> Option<JsonView>;

/// A `serde_json::Value` taken apart: what it is, and what it holds.
enum Node {
    Null,
    Bool(bool),
    Number(String),
    String(String),
    Array(Vec<Value>),
    Object(Vec<(String, Value)>),
}

/// `n` is `v` taken apart.
spec fn taken_apart(v: Value, n: Node) -> bool {
    json_of(v) == match n {
        Node::Null => JsonView::Null,
        Node::Bool(b) => JsonView::Bool(b),
        Node::Number(s) => JsonView::Number(NumberView::Literal(s@)),
        Node::String(s) => JsonView::String(s@),
        Node::Array(a) => JsonView::Array(a@.map_values(|e: Value| json_of(e))),
        Node::Object(m) => JsonView::Object(
            m@.map_values(|e: (String, Value)| (e.0@, json_of(e.1))),
        ),
    }
}

/// Takes a `serde_json::Value` apart: its variant, with a number as the text
/// that `Number::to_string` gives and an object as its entries in the order of
/// `Map::into_iter`.
#[verifier::external_body]
fn take_apart(v: Value) -> (n: Node)
    ensures
        taken_apart(v, n),
{
    match v {
        Value::Null => Node::Null,
        Value::Bool(b) => Node::Bool(b),
        Value::Number(n) => Node::Number(n.to_string()),
        Value::String(s) => Node::String(s),
        Value::Array(a) => Node::Array(a),
        Value::Object(m) => Node::Object(m.into_iter().collect()),
    }
}

/// `serde_json::from_str` into a `serde_json::Value`: names the value of the
/// document, and says by `None` that the text is none.
#[verifier::external_body]
fn parse_value(text: &str) -> (r: Option<Value>)
    ensures
        match r {
            Some(v) => parsed(text@) == Some(json_of(v)),
            None => parsed(text@) is None,
        },
{
    serde_json::from_str(text).ok()
}

/// The value as this library holds it.
pub fn from_value(v: Value) -> (j: Json)
    ensures
        j.deep_view() == json_of(v),
    decreases json_of(v),
{
    broadcast use lemma_json_view;

    let ghost top = json_of(v);
    match take_apart(v) {
        Node::Null => Json::Null,
        Node::Bool(b) => Json::Bool(b),
        Node::Number(s) => Json::Number(Number::Literal(s)),
        Node::String(s) => Json::String(s),
        Node::Array(a) => {
            let ghost all = a@;
            let mut out: Vec<Json> = Vec::new();
            for e in it: a
                invariant
                    it.seq() == all,
                    out@.len() == it.index(),
                    top == json_of(v),
                    top == JsonView::Array(all.map_values(|e: Value| json_of(e))),
                    forall|i: int|
                        0 <= i < out@.len() ==> (#[trigger] out@[i]).deep_view() == json_of(all[i]),
            {
                proof {
                    let items = top->Array_0;
                    assert(items[out@.len() as int] == json_of(e));
                    assert(decreases_to!(top => items[out@.len() as int]));
                }
                let j: Json = from_value(e);
                out.push(j);
            }
            assert(out.deep_view() =~= top->Array_0);
            Json::Array(out)
        },
        Node::Object(m) => {
            let ghost all = m@;
            let mut out: Vec<(String, Json)> = Vec::new();
            for e in it: m
                invariant
                    it.seq() == all,
                    out@.len() == it.index(),
                    top == json_of(v),
                    top == JsonView::Object(
                        all.map_values(|e: (String, Value)| (e.0@, json_of(e.1))),
                    ),
                    forall|i: int|
                        0 <= i < out@.len() ==> (#[trigger] out@[i]).deep_view() == (
                            all[i].0@,
                            json_of(all[i].1),
                        ),
            {
                proof {
                    let items = top->Object_0;
                    assert(items[out@.len() as int] == (e.0@, json_of(e.1)));
                    assert(decreases_to!(top => items[out@.len() as int].1));
                }
                let j: Json = from_value(e.1);
                out.push((e.0, j));
            }
            let r: StrMap<Json> = StrMap { entries: out };
            assert(r.deep_view() =~= top->Object_0);
            Json::Object(r)
        },
    }
}

/// Reads a JSON document.
pub fn parse(text: &str) -> (r: Option<Json>)
    ensures
        r.deep_view() == parsed(text@),
{
    match parse_value(text) {
        Some(v) => Some(from_value(v)),
        None => None,
    }
}

/// The type that a plain text is taken to have.
pub open spec fn inferred_type(s: Seq<char>) -> Seq<char> {
    if integer_of(s) is Some {
        "integer"@
    } else if is_float(s) {
        "number"@
    } else if s == "true"@ || s == "false"@ {
        "boolean"@
    } else {
        "string"@
    }
}

/// The type that a plain text is taken to have.
pub fn infer_type(value: &str) -> (r: &'static str)
    ensures
        r@ == inferred_type(value@),
{
    if parse_integer(value).is_some() {
        "integer"
    } else if parses_as_float(value) {
        "number"
    } else if same(value, "true") || same(value, "false") {
        "boolean"
    } else {
        "string"
    }
}

/// The value that a plain text is taken to stand for.
pub open spec fn typed(s: Seq<char>) -> JsonView {
    match integer_of(s) {
        Some(n) => JsonView::Number(NumberView::Literal(signed_decimal(n as int))),
        None => if is_float(s) {
            JsonView::Number(NumberView::Float(s))
        } else if s == "true"@ {
            JsonView::Bool(true)
        } else if s == "false"@ {
            JsonView::Bool(false)
        } else {
            JsonView::String(s)
        },
    }
}

/// The value that a plain text is taken to stand for, unless that is no finite
/// number.
pub open spec fn read(s: Seq<char>) -> Result<JsonView, Fault> {
    if is_not_finite(s) {
        Err(Fault::Number)
    } else {
        Ok(typed(s))
    }
}

/// The value that a plain text is taken to stand for, unless that is no finite
/// number.
pub fn read_value(value: &str) -> (r: Result<Json, Fault>)
    ensures
        outcome(r) == read(value@),
{
    if parses_as_not_finite(value) {
        Err(Fault::Number)
    } else {
        Ok(value_infer_type(value))
    }
}

/// The value that a plain text is taken to stand for. A number has to be finite.
pub fn value_infer_type(value: &str) -> (r: Json)
    requires
        !is_not_finite(value@),
    ensures
        r.deep_view() == typed(value@),
{
    match parse_integer(value) {
        Some(n) => Json::Number(Number::Literal(to_signed_decimal(n))),
        None => {
            if parses_as_float(value) {
                Json::Number(Number::Float(value.to_owned()))
            } else if same(value, "true") {
                Json::Bool(true)
            } else if same(value, "false") {
                Json::Bool(false)
            } else {
                Json::String(value.to_owned())
            }
        },
    }
}

/// The type that a text is taken to have is that of the value that it is taken
/// to stand for. A text that stands for itself has the type of a text.
pub proof fn law_typed(s: Seq<char>)
    requires
        !is_not_finite(s),
    ensures
        match typed(s) {
            JsonView::Number(NumberView::Literal(_)) => inferred_type(s) == "integer"@,
            JsonView::Number(NumberView::Float(text)) => inferred_type(s) == "number"@ && text == s,
            JsonView::Bool(b) => inferred_type(s) == "boolean"@ && b == (s == "true"@),
            JsonView::String(text) => inferred_type(s) == "string"@ && text == s,
            _ => false,
        },
{
    reveal_strlit("true");
    reveal_strlit("false");
    if s == "false"@ {
        assert("true"@.len() != "false"@.len());
    }
}

} // verus!
