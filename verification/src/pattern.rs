//! Regular expressions.

use vstd::prelude::*;

use regex::Regex;

use crate::casing::is_letter;
use crate::text::{matches_at, replaced, stop_at};

verus! {

/// A variable between doubled braces; the group is its name.
pub const VARIABLE: &'static str = r"\{\{([^{}]*?)\}\}";

/// A place in a path template; the group is its name.
pub const PLACE: &'static str = r"\{([^{}]*?)\}";

/// The note that gives a default; the group is the value.
pub const DEFAULT_NOTE: &'static str = r"\[default: (.+?)\\]";

/// The note that gives a lower bound; the group is the value.
pub const MIN_NOTE: &'static str = r"\[min: (.+?)\\]";

/// The note that gives an upper bound; the group is the value.
pub const MAX_NOTE: &'static str = r"\[max: (.+?)\\]";

/// A line from the note that gives a default to the last bracket.
pub const DEFAULT_TAIL: &'static str = r"\\\[default: .*\]";

/// A line from the note that gives an upper bound to the last bracket.
pub const MAX_TAIL: &'static str = r"\\\[max: .*\]";

/// A line from the note that gives a lower bound to the last bracket.
pub const MIN_TAIL: &'static str = r"\\\[min: .*\]";

/// The patterns that are written out above.
pub open spec fn is_fixed(pattern: Seq<char>) -> bool {
    ||| pattern == VARIABLE@
    ||| pattern == PLACE@
    ||| pattern == DEFAULT_NOTE@
    ||| pattern == MIN_NOTE@
    ||| pattern == MAX_NOTE@
    ||| pattern == DEFAULT_TAIL@
    ||| pattern == MAX_TAIL@
    ||| pattern == MIN_TAIL@
}

/// A compiled regular expression, as the `regex` crate holds it.
#[verifier::external_type_specification]
#[verifier::external_body]
pub struct ExRegex(regex::Regex);

/// The pattern that a regular expression was made from.
pub uninterp spec fn pattern_of(re: Regex) -> Seq<char>;

/// The pattern is a regular expression.
pub uninterp spec fn compiles(pattern: Seq<char>) -> bool;

/// The groups of the first match of the pattern in a text: group 0 is the
/// whole match, and a group that took no part in it is `None`.
pub uninterp spec fn groups(pattern: Seq<char>, text: Seq<char>) -> Option<Seq<Option<Seq<char>>>>;

/// A text with every match of the pattern replaced, where `$1` and the like in
/// the replacement stand for groups.
pub uninterp spec fn substituted(pattern: Seq<char>, text: Seq<char>, by: Seq<char>) -> Seq<char>;

/// A character that means something in a pattern.
pub open spec fn is_meta(c: char) -> bool {
    ||| c == '\\' || c == '.' || c == '+' || c == '*' || c == '?' || c == '(' || c == ')'
    ||| c == '|' || c == '[' || c == ']' || c == '{' || c == '}' || c == '^' || c == '$'
    ||| c == '#' || c == '&' || c == '-' || c == '~'
}

/// The pattern that matches a text as it stands: a backslash comes before each
/// character that means something.
pub open spec fn escaped(text: Seq<char>) -> Seq<char>
    decreases text.len(),
{
    if text.len() == 0 {
        seq![]
    } else if is_meta(text.last()) {
        escaped(text.drop_last()).push('\\').push(text.last())
    } else {
        escaped(text.drop_last()).push(text.last())
    }
}

/// The number of characters up to which the pattern of a text as it stands is
/// sure to compile. What a pattern compiles to may not pass a fixed size, which
/// a text of some hundred thousand bytes reaches.
pub const LITERAL_CHARS: usize = 1000;

/// A variable of that name, as it stands in a text.
pub open spec fn placeholder(name: Seq<char>) -> Seq<char> {
    "{{"@ + name + "}}"@
}

/// The position of the first brace in `s` at or after `i`.
pub open spec fn brace_from(s: Seq<char>, i: int) -> int
    decreases s.len() - i,
{
    if i >= s.len() || s[i] == '{' || s[i] == '}' {
        i
    } else {
        brace_from(s, i + 1)
    }
}

/// The name that stands in `s` between `open` at position `i` and `close`,
/// with no brace in it.
pub open spec fn name_at(s: Seq<char>, open: Seq<char>, close: Seq<char>, i: int) -> Option<
    Seq<char>,
> {
    let from = i + open.len();
    let to = brace_from(s, from);
    if matches_at(s, open, i) && matches_at(s, close, to) {
        Some(s.subrange(from, to))
    } else {
        None
    }
}

/// The names between `open` and `close` in `s`, from position `i` on, one after
/// the other.
pub open spec fn names_between(s: Seq<char>, open: Seq<char>, close: Seq<char>, i: int) -> Seq<
    Seq<char>,
>
    decreases
            if i < s.len() {
                s.len() - i
            } else {
                0
            },
{
    if i >= s.len() || open.len() == 0 {
        seq![]
    } else {
        match name_at(s, open, close, i) {
            Some(name) => seq![name] + names_between(
                s,
                open,
                close,
                i + open.len() + name.len() + close.len(),
            ),
            None => names_between(s, open, close, i + 1),
        }
    }
}

/// The name of the first variable in a text.
pub open spec fn first_variable(text: Seq<char>) -> Option<Seq<char>> {
    let names = names_between(text, "{{"@, "}}"@, 0);
    if names.len() > 0 {
        Some(names[0])
    } else {
        None
    }
}

/// The names of the places in a text.
pub open spec fn places(text: Seq<char>) -> Seq<Seq<char>> {
    names_between(text, "{"@, "}"@, 0)
}

/// `s` from position `i` on, with its variables made into places.
pub open spec fn templated(s: Seq<char>, i: int) -> Seq<char>
    decreases
            if i < s.len() {
                s.len() - i
            } else {
                0
            },
{
    if i >= s.len() {
        seq![]
    } else {
        match name_at(s, "{{"@, "}}"@, i) {
            Some(name) => "{"@ + name + "}"@ + templated(s, i + 4 + name.len()),
            None => seq![s[i]] + templated(s, i + 1),
        }
    }
}

/// The position at or after `i` at which a backslash and a bracket end a value,
/// on the same line.
pub open spec fn value_end(s: Seq<char>, i: int) -> Option<int>
    decreases s.len() - i,
{
    if i >= s.len() || s[i] == '\n' {
        None
    } else if matches_at(s, "\\]"@, i) {
        Some(i)
    } else {
        value_end(s, i + 1)
    }
}

/// The value behind `mark`, which stands in `s` at position `i`. It is not
/// empty, and ends on its line.
pub open spec fn value_at(s: Seq<char>, mark: Seq<char>, i: int) -> Option<Seq<char>> {
    let from = i + mark.len();
    if matches_at(s, mark, i) && from < s.len() && s[from] != '\n' {
        match value_end(s, from + 1) {
            Some(to) => Some(s.subrange(from, to)),
            None => None,
        }
    } else {
        None
    }
}

/// The first value behind a `mark` in `s` at or after position `i`.
pub open spec fn value_from(s: Seq<char>, mark: Seq<char>, i: int) -> Option<Seq<char>>
    decreases s.len() - i,
{
    if i >= s.len() {
        None
    } else {
        match value_at(s, mark, i) {
            Some(value) => Some(value),
            None => value_from(s, mark, i + 1),
        }
    }
}

/// The position of the last closing bracket in `s` at or after `i`, on the same
/// line.
pub open spec fn last_bracket(s: Seq<char>, i: int) -> Option<int>
    decreases s.len() - i,
{
    if i >= s.len() || s[i] == '\n' {
        None
    } else {
        match last_bracket(s, i + 1) {
            Some(k) => Some(k),
            None => if s[i] == ']' {
                Some(i)
            } else {
                None
            },
        }
    }
}

/// `s` from position `i` on, without what stands from a `mark` to the last
/// closing bracket on its line.
pub open spec fn without_tails(s: Seq<char>, mark: Seq<char>, i: int) -> Seq<char>
    decreases
            if i < s.len() {
                s.len() - i
            } else {
                0
            },
{
    if i >= s.len() {
        seq![]
    } else {
        match last_bracket(s, i + mark.len()) {
            Some(k) => if matches_at(s, mark, i) && i <= k {
                without_tails(s, mark, k + 1)
            } else {
                seq![s[i]] + without_tails(s, mark, i + 1)
            },
            None => seq![s[i]] + without_tails(s, mark, i + 1),
        }
    }
}

/// The groups of a match that is `inner` between `open` and `close`, the one
/// group besides group 0 being `inner`.
pub open spec fn groups_between(open: Seq<char>, inner: Seq<char>, close: Seq<char>) -> Seq<
    Option<Seq<char>>,
> {
    seq![Some(open + inner + close), Some(inner)]
}

/// The groups of the first match of a pattern for a value behind `mark`.
pub open spec fn value_groups(s: Seq<char>, mark: Seq<char>) -> Option<Seq<Option<Seq<char>>>> {
    match value_from(s, mark, 0) {
        Some(value) => Some(groups_between(mark, value, "\\]"@)),
        None => None,
    }
}

/// A character that is not taken as it stands outside of a class.
pub open spec fn is_operator(c: char) -> bool {
    ||| c == '\\' || c == '.' || c == '+' || c == '*' || c == '?' || c == '(' || c == ')'
    ||| c == '|' || c == '[' || c == '{' || c == '^' || c == '$'
}

/// Each character of the key is taken as it stands.
pub open spec fn is_literal(key: Seq<char>) -> bool {
    forall|i: int| 0 <= i < key.len() ==> !is_operator(#[trigger] key[i])
}

/// The pattern of a line that describes the key.
pub open spec fn key_pattern(key: Seq<char>) -> Seq<char> {
    "^([^a-zA-Z]*"@ + key + ")[ ]+-[ ]+(.*)"@
}

/// The first position at or after `i` at which no blank stands.
pub open spec fn blanks_end(s: Seq<char>, i: int) -> int
    decreases s.len() - i,
{
    if 0 <= i < s.len() && s[i] == ' ' {
        blanks_end(s, i + 1)
    } else {
        i
    }
}

/// The position behind the key at `i`, the blanks, the dash and the blanks.
pub open spec fn text_from(s: Seq<char>, key: Seq<char>, i: int) -> Option<int> {
    let end = i + key.len();
    let dash = blanks_end(s, end);
    let from = blanks_end(s, dash + 1);
    if matches_at(s, key, i) && end < dash < s.len() && s[dash] == '-' && dash + 1 < from {
        Some(from)
    } else {
        None
    }
}

/// The last position at or after `i` at which the key is described, with no
/// letter between `i` and that position.
pub open spec fn described_from(s: Seq<char>, key: Seq<char>, i: int) -> Option<int>
    decreases s.len() - i,
{
    let further = if 0 <= i < s.len() && !is_letter(s[i]) {
        described_from(s, key, i + 1)
    } else {
        None
    };
    if further is None && text_from(s, key, i) is Some {
        Some(i)
    } else {
        further
    }
}

/// The groups of the match of a line that describes the key: all of it, what
/// stands up to the end of the key, and what follows the dash and its blanks.
pub open spec fn key_groups(s: Seq<char>, key: Seq<char>) -> Option<Seq<Option<Seq<char>>>> {
    match described_from(s, key, 0) {
        Some(i) => {
            let from = text_from(s, key, i)->0;
            let to = stop_at(s, '\n', from);
            Some(seq![Some(s.take(to)), Some(s.take(i + key.len())), Some(s.subrange(from, to))])
        },
        None => None,
    }
}

/// `Regex::new`: names whether a pattern is a regular expression, and states
/// that each of the fixed patterns of this module, all of them within the
/// documented syntax, is one, and so is the pattern of a text as it stands, up
/// to `LITERAL_CHARS`, and that of a line that describes a key, where each
/// character of the key is taken as it stands, up to the same length. The
/// result is made from the pattern.
#[verifier::external_body]
pub(crate) fn compile(pattern: &str) -> (r: Option<Regex>)
    ensures
        r is Some == compiles(pattern@),
        is_fixed(pattern@) ==> r is Some,
        forall|text: Seq<char>|
            pattern@ == #[trigger] escaped(text) && text.len() <= LITERAL_CHARS ==> r is Some,
        forall|key: Seq<char>|
            pattern@ == #[trigger] key_pattern(key) && is_literal(key) && key.len()
                <= LITERAL_CHARS ==> r is Some,
        r matches Some(re) ==> pattern_of(re) == pattern@,
{
    Regex::new(pattern).ok()
}

/// `Regex::captures`: names the groups of the first match. There is always a
/// group 0, and it always takes part. What `VARIABLE` and the patterns of the
/// notes match, from the left, is stated: each has one more group, for the name
/// between the braces or for the value behind the mark. So is what the pattern
/// of a line matches that describes a key, where each character of the key is
/// taken as it stands: no letter before the key, as much of that as there can
/// be, then blanks, a dash and blanks, and the rest of the line.
#[verifier::external_body]
pub(crate) fn captures(re: &Regex, text: &str) -> (r: Option<Vec<Option<String>>>)
    ensures
        r.deep_view() == groups(pattern_of(*re), text@),
        r matches Some(g) ==> g@.len() > 0 && g@[0] is Some,
        pattern_of(*re) == VARIABLE@ ==> r.deep_view() == match first_variable(text@) {
            Some(name) => Some(groups_between("{{"@, name, "}}"@)),
            None => None,
        },
        pattern_of(*re) == DEFAULT_NOTE@ ==> r.deep_view() == value_groups(text@, "[default: "@),
        pattern_of(*re) == MIN_NOTE@ ==> r.deep_view() == value_groups(text@, "[min: "@),
        pattern_of(*re) == MAX_NOTE@ ==> r.deep_view() == value_groups(text@, "[max: "@),
        forall|key: Seq<char>|
            pattern_of(*re) == #[trigger] key_pattern(key) && is_literal(key) ==> r.deep_view()
                == key_groups(text@, key),
{
    re.captures(text).map(|c| c.iter().map(|m| m.map(|m| m.as_str().to_string())).collect())
}

/// `Regex::captures_iter`: the groups of all matches of `PLACE`, which are the
/// names between braces, from the left, none inside another.
#[verifier::external_body]
pub(crate) fn captures_all(re: &Regex, text: &str) -> (r: Vec<Vec<Option<String>>>)
    requires
        pattern_of(*re) == PLACE@,
    ensures
        r.deep_view() == places(text@).map_values(
            |name: Seq<char>| groups_between("{"@, name, "}"@),
        ),
{
    re.captures_iter(text).map(
        |c| c.iter().map(|m| m.map(|m| m.as_str().to_string())).collect(),
    ).collect()
}

/// `Regex::replace_all`: names the text it gives. Where nothing matches, that
/// is the text itself. The pattern of a text as it stands matches where that
/// text occurs, one occurrence after the other from the left, and a replacement
/// without a dollar sign takes the place of each as it is. `$1` stands for the
/// name of a variable. The patterns of the tails match from a mark to the last
/// closing bracket on its line.
#[verifier::external_body]
pub(crate) fn substitute(re: &Regex, text: &str, by: &str) -> (r: String)
    ensures
        r@ == substituted(pattern_of(*re), text@, by@),
        groups(pattern_of(*re), text@) is None ==> r@ == text@,
        forall|literal: Seq<char>|
            pattern_of(*re) == #[trigger] escaped(literal) && literal.len() > 0 && !by@.contains(
                '$',
            ) ==> r@ == replaced(text@, literal, by@),
        pattern_of(*re) == VARIABLE@ && by@ == "{$1}"@ ==> r@ == templated(text@, 0),
        pattern_of(*re) == DEFAULT_TAIL@ && by@ == ""@ ==> r@ == without_tails(
            text@,
            "\\[default: "@,
            0,
        ),
        pattern_of(*re) == MAX_TAIL@ && by@ == ""@ ==> r@ == without_tails(
            text@,
            "\\[max: "@,
            0,
        ),
        pattern_of(*re) == MIN_TAIL@ && by@ == ""@ ==> r@ == without_tails(
            text@,
            "\\[min: "@,
            0,
        ),
{
    re.replace_all(text, by).to_string()
}

/// `regex::escape` puts a backslash before each character that means something
/// in a pattern, and copies the others.
#[verifier::external_body]
pub(crate) fn escape(text: &str) -> (r: String)
    ensures
        r@ == escaped(text@),
{
    regex::escape(text)
}

/// The compiled form of one of the fixed patterns.
pub(crate) fn compile_fixed(pattern: &str) -> (r: Regex)
    requires
        is_fixed(pattern@),
    ensures
        pattern_of(r) == pattern@,
{
    match compile(pattern) {
        Some(re) => re,
        None => vstd::pervasive::unreached(),
    }
}

/// A variable stands in the text at the position: its name, in which there is
/// no brace, is between doubled braces.
pub open spec fn stands_at(text: Seq<char>, name: Seq<char>, i: int) -> bool {
    !name.contains('{') && !name.contains('}') && matches_at(text, placeholder(name), i)
}

proof fn lemma_brace_from(s: Seq<char>, i: int)
    requires
        0 <= i <= s.len(),
    ensures
        i <= brace_from(s, i) <= s.len(),
        forall|k: int|
            i <= k < brace_from(s, i) ==> #[trigger] s[k] != '{' && s[k] != '}',
        brace_from(s, i) < s.len() ==> s[brace_from(s, i)] == '{' || s[brace_from(s, i)] == '}',
    decreases s.len() - i,
{
    if i < s.len() && s[i] != '{' && s[i] != '}' {
        lemma_brace_from(s, i + 1);
    }
}

/// The name of a variable stands at a position where it is read there.
pub proof fn lemma_name_at(s: Seq<char>, i: int)
    requires
        0 <= i,
    ensures
        forall|name: Seq<char>|
            #[trigger] stands_at(s, name, i) <==> name_at(s, "{{"@, "}}"@, i) == Some(name),
{
    reveal_strlit("{{");
    reveal_strlit("}}");
    let open = "{{"@;
    let close = "}}"@;
    assert forall|name: Seq<char>|
        #[trigger] stands_at(s, name, i) <==> name_at(s, open, close, i) == Some(name) by {
        let whole = placeholder(name);
        if stands_at(s, name, i) {
            let sub = s.subrange(i, i + whole.len());
            assert(sub == whole);
            assert(sub[0] == '{' && sub[1] == '{');
            assert(s.subrange(i, i + 2) =~= open);
            lemma_brace_from(s, i + 2);
            let to = brace_from(s, i + 2);
            let end = i + 2 + name.len();
            assert(sub[end - i] == '}' && sub[end - i + 1] == '}');
            assert(to >= end) by {
                if to < end {
                    assert(s[to] == sub[to - i]);
                    assert(whole[to - i] == name[to - i - 2]);
                    assert(name.contains(s[to]));
                }
            }
            assert(to == end);
            assert(s.subrange(to, to + 2) =~= close);
            assert(whole.subrange(2, end - i) =~= name);
            assert(s.subrange(i + 2, to) =~= sub.subrange(2, end - i));
        }
        if name_at(s, open, close, i) == Some(name) {
            lemma_brace_from(s, i + 2);
            let to = brace_from(s, i + 2);
            assert(name == s.subrange(i + 2, to));
            assert(s.subrange(i, i + 2)[0] == '{' && s.subrange(i, i + 2)[1] == '{');
            assert(s.subrange(to, to + 2)[0] == '}' && s.subrange(to, to + 2)[1] == '}');
            assert(s.subrange(i, i + whole.len()) =~= whole);
            assert(forall|k: int| 0 <= k < name.len() ==> name[k] == s[i + 2 + k]);
        }
    }
}

proof fn lemma_first_variable(s: Seq<char>, i: int, from: int)
    requires
        0 <= from,
        forall|name: Seq<char>, j: int| from <= j < i ==> !#[trigger] stands_at(s, name, j),
        from <= i,
    ensures
        i <= s.len() ==> names_between(s, "{{"@, "}}"@, from) == names_between(
            s,
            "{{"@,
            "}}"@,
            i,
        ),
    decreases i - from,
{
    if from < i && i <= s.len() {
        lemma_name_at(s, from);
        if let Some(name) = name_at(s, "{{"@, "}}"@, from) {
            assert(stands_at(s, name, from));
        }
        reveal_strlit("{{");
        lemma_first_variable(s, i, from + 1);
    }
}

/// The first variable in a text is the one that stands further to the left
/// than all others, and there is none where no variable stands in the text.
pub proof fn law_first_variable(text: Seq<char>, name: Seq<char>, i: int)
    ensures
        stands_at(text, name, i) && (forall|other: Seq<char>, j: int|
            0 <= j < i ==> !#[trigger] stands_at(text, other, j)) ==> first_variable(text) == Some(
            name,
        ),
        (forall|other: Seq<char>, j: int| !#[trigger] stands_at(text, other, j))
            ==> first_variable(text) is None,
{
    reveal_strlit("{{");
    if stands_at(text, name, i) && (forall|other: Seq<char>, j: int|
        0 <= j < i ==> !#[trigger] stands_at(text, other, j)) {
        lemma_first_variable(text, i, 0);
        lemma_name_at(text, i);
        assert(names_between(text, "{{"@, "}}"@, i)[0] == name);
    }
    if forall|other: Seq<char>, j: int| !#[trigger] stands_at(text, other, j) {
        lemma_first_variable(text, text.len() as int, 0);
    }
}

} // verus!
