//! What the parts of a collection are read against.

use vstd::prelude::*;

use regex::Regex;

use crate::fault::{outcome, Fault};
use crate::json::{Json, JsonView};
use crate::map::{lookup, StrMap};
use crate::notes::{described, find_description_by_key};
use crate::pattern::{
    captures, compile, compile_fixed, compiles, escape, escaped, first_variable, placeholder,
    substitute, substituted, templated, LITERAL_CHARS, VARIABLE,
};
use crate::text::replaced;

verus! {

/// How many times a variable is replaced in one text, at most.
pub const VAR_REPLACE_CREDITS: usize = 20;

/// Reads a collection and describes it.
pub struct Transpiler<'a> {
    /// The variables of the collection.
    pub variable_map: &'a StrMap<Json>,
    /// The description of the collection, with its sections.
    pub info_description: &'a str,
    /// The identifier of the operation at hand, if there is one.
    pub cur_op_id: Vec<String>,
}

/// The view of a `Transpiler`.
#[verifier::ext_equal]
pub struct Context {
    pub variables: Seq<(Seq<char>, JsonView)>,
    pub description: Seq<char>,
    pub operation: Option<Seq<char>>,
}

impl Context {
    /// The description of the key.
    pub open spec fn describes(self, key: Seq<char>) -> Result<Option<Seq<char>>, Fault> {
        described(self.description, self.operation, key)
    }
}

/// The text with the value in place of each occurrence of the variable. A
/// value with a dollar sign is read as a template for the replacement.
pub open spec fn with_value(text: Seq<char>, name: Seq<char>, value: Seq<char>) -> Seq<char> {
    if value.contains('$') {
        substituted(escaped(placeholder(name)), text, value)
    } else {
        replaced(text, placeholder(name), value)
    }
}

/// A variable of that name can be searched for: its name is not too long.
pub open spec fn is_searchable(name: Seq<char>) -> bool {
    placeholder(name).len() <= LITERAL_CHARS || compiles(escaped(placeholder(name)))
}

/// The text after the replacement of the variable of that name, wherever it
/// occurs, by its value; none where it has no value that is a text.
pub open spec fn replaced_variable(
    variables: Seq<(Seq<char>, JsonView)>,
    text: Seq<char>,
    name: Seq<char>,
) -> Result<Option<Seq<char>>, Fault> {
    match lookup(variables, name) {
        Some(JsonView::String(value)) => if is_searchable(name) {
            Ok(Some(with_value(text, name, value)))
        } else {
            Err(Fault::Pattern)
        },
        _ => Ok(None),
    }
}

/// The text after the replacement of its first variable, wherever it occurs,
/// by the value of that variable; none where there is nothing to replace.
pub open spec fn replaced_once(variables: Seq<(Seq<char>, JsonView)>, text: Seq<char>) -> Result<
    Option<Seq<char>>,
    Fault,
> {
    match first_variable(text) {
        Some(name) => replaced_variable(variables, text, name),
        None => Ok(None),
    }
}

/// The text after at most `credits` replacements.
pub open spec fn resolved(
    variables: Seq<(Seq<char>, JsonView)>,
    text: Seq<char>,
    credits: nat,
) -> Result<Seq<char>, Fault>
    decreases credits,
{
    if credits == 0 {
        Ok(text)
    } else {
        match replaced_once(variables, text) {
            Ok(Some(next)) => resolved(variables, next, (credits - 1) as nat),
            Ok(None) => Ok(text),
            Err(f) => Err(f),
        }
    }
}

/// A segment of a path after the replacement of its variables. Where there is
/// nothing to replace, the variables become places of the path template.
pub open spec fn resolved_segment(
    variables: Seq<(Seq<char>, JsonView)>,
    text: Seq<char>,
    credits: nat,
) -> Result<Seq<char>, Fault> {
    if credits == 0 {
        Ok(text)
    } else {
        match replaced_once(variables, text) {
            Ok(Some(next)) => resolved(variables, next, (credits - 1) as nat),
            Ok(None) => Ok(templated(text, 0)),
            Err(f) => Err(f),
        }
    }
}

/// The text with its variables replaced, up to the limit.
pub open spec fn resolution(ctx: Context, text: Seq<char>) -> Result<Seq<char>, Fault> {
    resolved(ctx.variables, text, VAR_REPLACE_CREDITS as nat)
}

/// The text after the replacement of the variable of that name by its value.
pub fn replace_variable(variables: &StrMap<Json>, text: &str, name: &str) -> (r: Result<
    Option<String>,
    Fault,
>)
    ensures
        outcome(r) == replaced_variable(variables.deep_view(), text@, name@),
{
    if let Some(Json::String(value)) = variables.get(name) {
        let mut whole: String = "{{".to_owned();
        whole.append(name);
        whole.append("}}");
        proof {
            reveal_strlit("{{");
        }
        match compile(escape(whole.as_str()).as_str()) {
            Some(re) => Ok(Some(substitute(&re, text, value.as_str()))),
            None => Err(Fault::Pattern),
        }
    } else {
        Ok(None)
    }
}

/// The name of the first variable in the text.
fn find_variable(text: &str) -> (r: Option<String>)
    ensures
        r.deep_view() == first_variable(text@),
{
    let found: Option<Vec<Option<String>>> = captures(&compile_fixed(VARIABLE), text);
    match found {
        Some(g) => {
            assert(found.deep_view() == Some(g.deep_view()));
            assert(g.deep_view().len() == 2);
            let mut g: Vec<Option<String>> = g;
            assert(g.deep_view()[1] == g@[1].deep_view());
            g.remove(1)
        },
        None => None,
    }
}

fn replace_once(variables: &StrMap<Json>, text: &str) -> (r: Result<Option<String>, Fault>)
    ensures
        outcome(r) == replaced_once(variables.deep_view(), text@),
{
    match find_variable(text) {
        Some(name) => replace_variable(variables, text, name.as_str()),
        None => Ok(None),
    }
}

fn resolve(variables: &StrMap<Json>, text: &str, credits: usize) -> (r: Result<String, Fault>)
    ensures
        outcome(r) == resolved(variables.deep_view(), text@, credits as nat),
    decreases credits,
{
    if credits == 0 {
        return Ok(text.to_owned());
    }
    match replace_once(variables, text) {
        Ok(Some(next)) => resolve(variables, next.as_str(), credits - 1),
        Ok(None) => Ok(text.to_owned()),
        Err(f) => Err(f),
    }
}

impl<'a> Transpiler<'a> {
    /// What the parts of a collection are read against.
    pub open spec fn context(&self) -> Context {
        Context {
            variables: self.variable_map.deep_view(),
            description: self.info_description@,
            operation: if self.cur_op_id@.len() > 0 {
                Some(self.cur_op_id@[0]@)
            } else {
                None
            },
        }
    }

    /// A reader with the given variables and description, at the operation
    /// that comes first in `cur_op_id`, if any.
    pub fn new(
        variable_map: &'a StrMap<Json>,
        info_description: &'a str,
        cur_op_id: Vec<String>,
    ) -> (r: Self)
        ensures
            r.variable_map == variable_map,
            r.info_description == info_description,
            r.cur_op_id == cur_op_id,
    {
        Transpiler { variable_map, info_description, cur_op_id }
    }

    /// The description of the key.
    pub fn describe(&self, key: &str) -> (r: Result<Option<String>, Fault>)
        ensures
            outcome(r) == self.context().describes(key@),
    {
        let section: Option<&str> = if self.cur_op_id.len() > 0 {
            Some(self.cur_op_id[0].as_str())
        } else {
            None
        };
        find_description_by_key(self.info_description, section, key)
    }

    /// The text with its variables replaced, at most that many times.
    pub fn resolve_variables(&self, segment: &str, sub_replace_credits: usize) -> (r: Result<
        String,
        Fault,
    >)
        ensures
            outcome(r) == resolved(
                self.context().variables,
                segment@,
                sub_replace_credits as nat,
            ),
    {
        resolve(self.variable_map, segment, sub_replace_credits)
    }

    /// A segment of a path with its variables replaced, at most that many times.
    pub fn resolve_segment(&self, segment: &str, sub_replace_credits: usize) -> (r: Result<
        String,
        Fault,
    >)
        ensures
            outcome(r) == resolved_segment(
                self.context().variables,
                segment@,
                sub_replace_credits as nat,
            ),
    {
        if sub_replace_credits == 0 {
            return Ok(segment.to_owned());
        }
        match replace_once(self.variable_map, segment) {
            Ok(Some(next)) => resolve(self.variable_map, next.as_str(), sub_replace_credits - 1),
            Ok(None) => {
                let re: Regex = compile_fixed(VARIABLE);
                Ok(substitute(&re, segment, "{$1}"))
            },
            Err(f) => Err(f),
        }
    }
}

/// Where the first variable in a text has a text without a dollar sign as its
/// value, that value takes the place of each occurrence of the variable, and
/// what that gives is resolved with one credit less.
pub proof fn law_first_variable_replaced(
    variables: Seq<(Seq<char>, JsonView)>,
    text: Seq<char>,
    credits: nat,
    name: Seq<char>,
    value: Seq<char>,
)
    requires
        credits > 0,
        first_variable(text) == Some(name),
        lookup(variables, name) == Some(JsonView::String(value)),
        !value.contains('$'),
        is_searchable(name),
    ensures
        resolved(variables, text, credits) == resolved(
            variables,
            replaced(text, placeholder(name), value),
            (credits - 1) as nat,
        ),
        resolved_segment(variables, text, credits) == resolved(
            variables,
            replaced(text, placeholder(name), value),
            (credits - 1) as nat,
        ),
{
}

/// Where the first variable in a text has no text as its value, or there is no
/// variable, or there are no credits, the text stays as it is, whatever
/// variables come later. Only in a segment of a path, and with credits, the
/// variables then become places.
pub proof fn law_first_variable_kept(
    variables: Seq<(Seq<char>, JsonView)>,
    text: Seq<char>,
    credits: nat,
)
    requires
        credits == 0 || (first_variable(text) matches Some(name) ==> !(lookup(
            variables,
            name,
        ) matches Some(JsonView::String(_)))),
    ensures
        resolved(variables, text, credits) == Ok::<Seq<char>, Fault>(text),
        resolved_segment(variables, text, credits) == Ok::<Seq<char>, Fault>(
            if credits == 0 {
                text
            } else {
                templated(text, 0)
            },
        ),
{
}

/// A text in which there is nothing to replace stays as it is.
pub proof fn law_nothing_to_resolve(
    variables: Seq<(Seq<char>, JsonView)>,
    text: Seq<char>,
    credits: nat,
)
    requires
        replaced_once(variables, text) == Ok::<Option<Seq<char>>, Fault>(None),
    ensures
        resolved(variables, text, credits) == Ok::<Seq<char>, Fault>(text),
{
}

/// The number of replacements that can be made in the text, up to `credits`.
pub open spec fn replacements(
    variables: Seq<(Seq<char>, JsonView)>,
    text: Seq<char>,
    credits: nat,
) -> nat
    decreases credits,
{
    if credits == 0 {
        0
    } else {
        match replaced_once(variables, text) {
            Ok(Some(next)) => 1 + replacements(variables, next, (credits - 1) as nat),
            _ => 0,
        }
    }
}

/// Where the replacements end before the credits do, there is nothing left to
/// replace, so that replacing once more changes nothing.
pub proof fn law_resolved_again(
    variables: Seq<(Seq<char>, JsonView)>,
    text: Seq<char>,
    credits: nat,
    more: nat,
)
    requires
        replacements(variables, text, credits) < credits,
    ensures
        resolved(variables, text, credits) matches Ok(r) ==> resolved(variables, r, more) == Ok::<
            Seq<char>,
            Fault,
        >(r),
    decreases credits,
{
    if let Ok(Some(next)) = replaced_once(variables, text) {
        law_resolved_again(variables, next, (credits - 1) as nat, more);
    } else if let Ok(r) = resolved(variables, text, credits) {
        law_nothing_to_resolve(variables, r, more);
    }
}

} // verus!
