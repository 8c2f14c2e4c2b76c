//! What the description of a collection says about its parts.
//!
//! The description may hold sections, each between the marks `\[name\]` and
//! `\[/name\]`. A line `key - text` in a section describes a key, and notes
//! such as `\[required\]` or `\[default: 5\]` in that text say more of it.

use vstd::prelude::*;

use regex::Regex;

use crate::casing::is_letter;
use crate::fault::{outcome, Fault};
use crate::json::{read, read_value, Json, JsonView};
use crate::pattern::{
    blanks_end, captures, compile, compile_fixed, compiles, described_from, groups, is_literal,
    key_groups, key_pattern, pattern_of, substitute, text_from, value_from, without_tails,
    DEFAULT_NOTE, DEFAULT_TAIL, LITERAL_CHARS, MAX_NOTE, MAX_TAIL, MIN_NOTE, MIN_TAIL,
};
use crate::text::{
    contains, find, found, lemma_find_from, lines, lines_of, matches_at, part, pieces, replace,
    replaced, same, split, stop_at, trim, trimmed,
};

verus! {

/// The text, or the empty one where there is none.
pub open spec fn or_empty(o: Option<Seq<char>>) -> Seq<char> {
    match o {
        Some(s) => s,
        None => seq![],
    }
}

/// The text, or the empty one where there is none.
pub fn text_or_empty(o: &Option<String>) -> (r: &str)
    ensures
        r@ == or_empty(o.deep_view()),
{
    match o {
        Some(s) => s.as_str(),
        None => {
            proof {
                reveal_strlit("");
                assert(""@ =~= seq![]);
            }
            ""
        },
    }
}

/// The text says that what it describes must be there.
pub open spec fn says_required(text: Seq<char>) -> bool {
    found(text, "\\[required\\]"@) is Some
}

/// Whether the text says that what it describes must be there.
pub fn is_required(text: &str) -> (r: bool)
    ensures
        r == says_required(text@),
{
    contains(text, "\\[required\\]")
}

/// What the text says about null values.
pub open spec fn said_nullable(text: Seq<char>) -> Option<bool> {
    if found(text, "\\[nullable\\]"@) is Some {
        Some(true)
    } else {
        None
    }
}

/// What the text says about null values.
pub fn get_nullable_value(text: &str) -> (r: Option<bool>)
    ensures
        r == said_nullable(text@),
{
    if contains(text, "\\[nullable\\]") {
        Some(true)
    } else {
        None
    }
}

/// The value that the text notes behind the mark.
pub open spec fn noted(mark: Seq<char>, text: Seq<char>) -> Result<Option<JsonView>, Fault> {
    match value_from(text, mark, 0) {
        Some(value) => match read(value) {
            Err(f) => Err(f),
            Ok(value) => Ok(Some(value)),
        },
        None => Ok(None),
    }
}

/// The value of the last group of a match.
fn note(found: Option<Vec<Option<String>>>) -> (r: Result<Option<Json>, Fault>)
    requires
        found.deep_view() matches Some(g) ==> g.len() == 2 && g[1] is Some,
    ensures
        outcome(r) == match found.deep_view() {
            Some(g) => match read(g[1]->0) {
                Err(f) => Err(f),
                Ok(value) => Ok(Some(value)),
            },
            None => Ok(None),
        },
{
    match found {
        Some(g) => {
            assert(found.deep_view() == Some(g.deep_view()));
            match read_value(text_or_empty(&g[1])) {
                Ok(value) => Ok(Some(value)),
                Err(f) => Err(f),
            }
        },
        None => Ok(None),
    }
}

/// The default and the bounds that a text gives: first the default, then the
/// lower and the upper bound.
pub type Limits = (Option<JsonView>, Option<JsonView>, Option<JsonView>);

/// The default and the bounds that the text gives.
pub open spec fn limits(text: Seq<char>) -> Result<Limits, Fault> {
    match noted("[default: "@, text) {
        Err(f) => Err(f),
        Ok(default) => match noted("[min: "@, text) {
            Err(f) => Err(f),
            Ok(minimum) => match noted("[max: "@, text) {
                Err(f) => Err(f),
                Ok(maximum) => Ok((default, minimum, maximum)),
            },
        },
    }
}

/// The default and the bounds that the text gives.
pub fn find_limits(text: &str) -> (r: Result<(Option<Json>, Option<Json>, Option<Json>), Fault>)
    ensures
        outcome(r) == limits(text@),
{
    let default: Option<Json> = match get_def_value(text) {
        Ok(value) => value,
        Err(f) => {
            return Err(f);
        },
    };
    let minimum: Option<Json> = match get_min_value(text) {
        Ok(value) => value,
        Err(f) => {
            return Err(f);
        },
    };
    match get_max_value(text) {
        Ok(maximum) => Ok((default, minimum, maximum)),
        Err(f) => Err(f),
    }
}

/// The default that the text gives.
pub fn get_def_value(text: &str) -> (r: Result<Option<Json>, Fault>)
    ensures
        outcome(r) == noted("[default: "@, text@),
{
    note(captures(&compile_fixed(DEFAULT_NOTE), text))
}

/// The lower bound that the text gives.
pub fn get_min_value(text: &str) -> (r: Result<Option<Json>, Fault>)
    ensures
        outcome(r) == noted("[min: "@, text@),
{
    note(captures(&compile_fixed(MIN_NOTE), text))
}

/// The upper bound that the text gives.
pub fn get_max_value(text: &str) -> (r: Result<Option<Json>, Fault>)
    ensures
        outcome(r) == noted("[max: "@, text@),
{
    note(captures(&compile_fixed(MAX_NOTE), text))
}

/// The text without the notes that are patterns: the default and the bounds.
pub open spec fn without_values(text: Seq<char>) -> Seq<char> {
    let a = without_tails(text, "\\[default: "@, 0);
    let b = without_tails(a, "\\[max: "@, 0);
    without_tails(b, "\\[min: "@, 0)
}

/// The text without the notes that are plain words.
pub open spec fn without_words(text: Seq<char>) -> Seq<char> {
    replaced(replaced(text, "\\[nullable\\]"@, ""@), "\\[required\\]"@, ""@)
}

/// A description without its notes; an empty one is none.
pub open spec fn plain(description: Option<Seq<char>>) -> Option<Seq<char>> {
    if or_empty(description).len() == 0 {
        None
    } else {
        Some(without_words(without_values(or_empty(description))))
    }
}

/// The text without the notes that are plain words.
pub fn remove_words(text: &str) -> (r: String)
    ensures
        r@ == without_words(text@),
{
    proof {
        reveal_strlit("\\[nullable\\]");
        reveal_strlit("\\[required\\]");
    }
    let a: String = replace(text, "\\[nullable\\]", "");
    replace(a.as_str(), "\\[required\\]", "")
}

/// A description without its notes.
pub fn replace_description(description: &Option<String>) -> (r: Option<String>)
    ensures
        r.deep_view() == plain(description.deep_view()),
{
    let text: &str = text_or_empty(description);
    if text.is_empty() {
        return None;
    }
    let a: String = substitute(&compile_fixed(DEFAULT_TAIL), text, "");
    let b: String = substitute(&compile_fixed(MAX_TAIL), a.as_str(), "");
    let c: String = substitute(&compile_fixed(MIN_TAIL), b.as_str(), "");
    Some(remove_words(c.as_str()))
}

/// The text without what stands from the first `start` to the first `end`, and
/// without whitespace at either end.
pub open spec fn without_block(text: Seq<char>, start: Seq<char>, end: Seq<char>) -> Seq<char> {
    match (found(text, start), found(text, end)) {
        (Some(i), Some(j)) => trimmed(text.take(i) + text.skip(j + end.len())),
        _ => trimmed(text),
    }
}

fn remove_block(input: &str, start: &str, end: &str) -> (r: String)
    ensures
        r@ == without_block(input@, start@, end@),
{
    match find(input, start) {
        Some(i) => match find(input, end) {
            Some(j) => {
                proof {
                    lemma_find_from(input@, start@, 0);
                    lemma_find_from(input@, end@, 0);
                }
                let len: usize = input.unicode_len();
                let width: usize = end.unicode_len();
                let mut kept: String = part(input, 0, i);
                let after: String = part(input, j + width, len);
                kept.append(after.as_str());
                proof {
                    assert(kept@ =~= input@.take(i as int) + input@.skip(j + width));
                }
                trim(kept.as_str())
            },
            None => trim(input),
        },
        None => trim(input),
    }
}

/// The text without the block of descriptions.
pub fn remove_descriptions_block(input: &str) -> (r: String)
    ensures
        r@ == without_block(input@, "\\[descriptions\\]"@, "\\[/descriptions\\]"@),
{
    remove_block(input, "\\[descriptions\\]", "\\[/descriptions\\]")
}

/// The text without the block of headers.
pub fn remove_headers_block(input: &str) -> (r: String)
    ensures
        r@ == without_block(input@, "\\[headers\\]"@, "\\[/headers\\]"@),
{
    remove_block(input, "\\[headers\\]", "\\[/headers\\]")
}

/// The mark that opens the section.
pub open spec fn opening(name: Seq<char>) -> Seq<char> {
    "\\["@ + name + "\\]"@
}

/// The mark that closes the section.
pub open spec fn closing(name: Seq<char>) -> Seq<char> {
    "\\[/"@ + name + "\\]"@
}

/// What stands between the first opening mark of the section and the first
/// closing mark at or behind its beginning.
pub open spec fn section(input: Seq<char>, name: Seq<char>) -> Result<Option<Seq<char>>, Fault> {
    match found(input, opening(name)) {
        Some(i) => match found(input.skip(i), closing(name)) {
            Some(k) => if k < opening(name).len() {
                Err(Fault::Section)
            } else {
                Ok(Some(input.subrange(i + opening(name).len(), i + k)))
            },
            None => Ok(None),
        },
        None => Ok(None),
    }
}

/// The closing mark cannot begin inside the opening mark where the name holds
/// no backslash and does not begin with a slash.
pub proof fn lemma_section(input: Seq<char>, name: Seq<char>)
    requires
        !name.contains('\\'),
        name.len() > 0 ==> name[0] != '/',
    ensures
        section(input, name) is Ok,
{
    reveal_strlit("\\[");
    reveal_strlit("\\]");
    reveal_strlit("\\[/");
    let open = opening(name);
    let close = closing(name);
    lemma_find_from(input, open, 0);
    if let Some(i) = found(input, open) {
        let rest = input.skip(i);
        lemma_find_from(rest, close, 0);
        if let Some(k) = found(rest, close) {
            if k < open.len() {
                assert(matches_at(rest, close, k));
                assert(rest.subrange(k, k + close.len())[0] == close[0]);
                assert(rest.subrange(k, k + close.len())[1] == close[1]);
                assert(rest.subrange(k, k + close.len())[2] == close[2]);
                assert(forall|j: int| 0 <= j < open.len() ==> rest[j] == input.subrange(
                    i,
                    i + open.len(),
                )[j]);
                assert(open[k] == '\\');
                if k == 0 {
                    assert(open[2] == '/');
                } else if k == 1 {
                } else if k < open.len() - 2 {
                    assert(open[k] == name[k - 2]);
                    assert(name.contains(name[k - 2]));
                } else if k == open.len() - 2 {
                    assert(open[k + 1] == ']');
                } else {
                    assert(open[k] == ']');
                }
            }
        }
    }
}

/// What stands in the section.
pub fn find_section(input: &str, name: &str) -> (r: Result<Option<String>, Fault>)
    ensures
        outcome(r) == section(input@, name@),
{
    let mut open: String = "\\[".to_owned();
    open.append(name);
    open.append("\\]");
    let mut close: String = "\\[/".to_owned();
    close.append(name);
    close.append("\\]");
    match find(input, open.as_str()) {
        Some(i) => {
            proof {
                lemma_find_from(input@, open@, 0);
            }
            let len: usize = input.unicode_len();
            let width: usize = open.as_str().unicode_len();
            let rest: String = part(input, i, len);
            assert(rest@ =~= input@.skip(i as int));
            match find(rest.as_str(), close.as_str()) {
                Some(k) => {
                    proof {
                        lemma_find_from(rest@, close@, 0);
                    }
                    if k < width {
                        Err(Fault::Section)
                    } else {
                        Ok(Some(part(input, i + width, i + k)))
                    }
                },
                None => Ok(None),
            }
        },
        None => Ok(None),
    }
}

/// The key can be searched for. A key is a part of a pattern, so that it need
/// not be taken as it stands; one that is, is only limited in its length.
pub open spec fn is_sought(key: Seq<char>) -> bool {
    (is_literal(key) && key.len() <= LITERAL_CHARS) || compiles(key_pattern(key))
}

/// The groups of the match of a line that describes the key.
pub open spec fn line_groups(key: Seq<char>, line: Seq<char>) -> Option<Seq<Option<Seq<char>>>> {
    if is_literal(key) {
        key_groups(line, key)
    } else {
        groups(key_pattern(key), line)
    }
}

/// The description that a line gives, by the groups of its match: the second
/// group, without whitespace at either end.
pub open spec fn description_in(g: Option<Seq<Option<Seq<char>>>>) -> Option<Seq<char>> {
    match g {
        Some(g) => if g.len() > 2 {
            match g[2] {
                Some(text) => Some(trimmed(text)),
                None => None,
            }
        } else {
            None
        },
        None => None,
    }
}

/// What the first of the lines from `i` on that describes the key says.
pub open spec fn described_in(key: Seq<char>, lines: Seq<Seq<char>>, i: int) -> Option<Seq<char>>
    decreases lines.len() - i,
{
    if i >= lines.len() {
        None
    } else {
        match description_in(line_groups(key, lines[i])) {
            Some(text) => Some(text),
            None => described_in(key, lines, i + 1),
        }
    }
}

/// What the section says of the key.
pub open spec fn section_says(input: Seq<char>, name: Seq<char>, key: Seq<char>) -> Result<
    Option<Seq<char>>,
    Fault,
> {
    match section(input, name) {
        Ok(Some(content)) => Ok(described_in(key, lines_of(content), 0)),
        Ok(None) => Ok(None),
        Err(f) => Err(f),
    }
}

/// The description of the key: what the named section says of it, if there is
/// a name and it says anything, and otherwise what the section `global` says.
pub open spec fn described(
    input: Seq<char>,
    section_name: Option<Seq<char>>,
    key: Seq<char>,
) -> Result<Option<Seq<char>>, Fault> {
    if key.len() == 0 {
        Ok(None)
    } else if !is_sought(key) {
        Err(Fault::Pattern)
    } else {
        match section_name {
            Some(name) => match section_says(input, name, key) {
                Ok(None) => section_says(input, "global"@, key),
                said => said,
            },
            None => section_says(input, "global"@, key),
        }
    }
}

/// The description that a line gives, by the groups of its match.
pub fn description_of_groups(g: &Option<Vec<Option<String>>>) -> (r: Option<String>)
    ensures
        r.deep_view() == description_in(g.deep_view()),
{
    match g {
        Some(g) => {
            if g.len() > 2 {
                assert(g.deep_view()[2] == g@[2].deep_view());
                match &g[2] {
                    Some(text) => Some(trim(text.as_str())),
                    None => None,
                }
            } else {
                None
            }
        },
        None => None,
    }
}

fn find_in_lines(re: &Regex, key: &str, all: &Vec<String>) -> (r: Option<String>)
    requires
        pattern_of(*re) == key_pattern(key@),
    ensures
        r.deep_view() == described_in(key@, all.deep_view(), 0),
{
    let mut i: usize = 0;
    while i < all.len()
        invariant
            i <= all.len(),
            pattern_of(*re) == key_pattern(key@),
            described_in(key@, all.deep_view(), 0) == described_in(
                key@,
                all.deep_view(),
                i as int,
            ),
        decreases all.len() - i,
    {
        let g: Option<Vec<Option<String>>> = captures(re, all[i].as_str());
        if let Some(text) = description_of_groups(&g) {
            return Some(text);
        }
        i = i + 1;
    }
    None
}

fn find_in_section(input: &str, name: &str, re: &Regex, key: &str) -> (r: Result<
    Option<String>,
    Fault,
>)
    requires
        pattern_of(*re) == key_pattern(key@),
    ensures
        outcome(r) == section_says(input@, name@, key@),
{
    match find_section(input, name) {
        Ok(Some(content)) => Ok(find_in_lines(re, key, &lines(content.as_str()))),
        Ok(None) => Ok(None),
        Err(f) => Err(f),
    }
}

/// The description of the key.
pub fn find_description_by_key(input: &str, section_name: Option<&str>, key: &str) -> (r: Result<
    Option<String>,
    Fault,
>)
    ensures
        outcome(r) == described(input@, section_name.deep_view(), key@),
{
    if key.is_empty() {
        return Ok(None);
    }
    let mut pattern: String = "^([^a-zA-Z]*".to_owned();
    pattern.append(key);
    pattern.append(")[ ]+-[ ]+(.*)");
    let re: Regex = match compile(pattern.as_str()) {
        Some(re) => re,
        None => {
            return Err(Fault::Pattern);
        },
    };
    if let Some(name) = section_name {
        match find_in_section(input, name, &re, key) {
            Ok(None) => {},
            said => {
                return said;
            },
        }
    }
    find_in_section(input, "global", &re, key)
}

/// The names in the lines from `i` on, which commas part.
pub open spec fn names_from(lines: Seq<Seq<char>>, i: int) -> Seq<Seq<char>>
    decreases lines.len() - i,
{
    if i >= lines.len() {
        seq![]
    } else {
        pieces(lines[i], ',').map_values(|s: Seq<char>| trimmed(s)) + names_from(lines, i + 1)
    }
}

/// The names that the section `headers` lists.
pub open spec fn listed_headers(input: Seq<char>) -> Seq<Seq<char>> {
    match section(input, "headers"@) {
        Ok(Some(content)) => names_from(lines_of(content), 0),
        _ => seq![],
    }
}

/// The names that the section `headers` lists.
pub fn find_headers(input: &str) -> (r: Vec<String>)
    ensures
        r.deep_view() == listed_headers(input@),
{
    let mut out: Vec<String> = Vec::new();
    assert(out.deep_view() =~= seq![]);
    if let Ok(Some(content)) = find_section(input, "headers") {
        let all: Vec<String> = lines(content.as_str());
        let ghost names = names_from(all.deep_view(), 0);
        let mut i: usize = 0;
        assert(out.deep_view() + names =~= names);
        while i < all.len()
            invariant
                i <= all.len(),
                out.deep_view() + names_from(all.deep_view(), i as int) == names,
            decreases all.len() - i,
        {
            let parts: Vec<String> = split(all[i].as_str(), ',');
            let ghost before = out.deep_view();
            let ghost cut = parts.deep_view();
            let ghost kept = cut.map_values(|s: Seq<char>| trimmed(s));
            let mut j: usize = 0;
            assert(before + kept.take(0) =~= before);
            while j < parts.len()
                invariant
                    j <= parts.len(),
                    cut == parts.deep_view(),
                    kept == cut.map_values(|s: Seq<char>| trimmed(s)),
                    out.deep_view() == before + kept.take(j as int),
                decreases parts.len() - j,
            {
                let name: String = trim(parts[j].as_str());
                let ghost so_far = out.deep_view();
                out.push(name);
                proof {
                    assert(out.deep_view() =~= so_far.push(name@));
                    assert(before + kept.take(j + 1) =~= (before + kept.take(j as int)).push(
                        kept[j as int],
                    ));
                }
                j = j + 1;
            }
            proof {
                assert(kept.take(j as int) =~= kept);
                assert(out.deep_view() + names_from(all.deep_view(), i + 1) =~= before + (kept
                    + names_from(all.deep_view(), i + 1)));
            }
            i = i + 1;
        }
        assert(out.deep_view() + seq![] =~= out.deep_view());
    }
    out
}

/// The values that a key is known to take.
pub open spec fn known_values(key: Seq<char>) -> Option<Seq<Seq<char>>> {
    if key == "status"@ {
        Some(seq!["OK"@, "ERROR"@])
    } else {
        None
    }
}

/// The values that a key is known to take.
pub fn find_enum_by_key(key: &str) -> (r: Option<Vec<String>>)
    ensures
        r.deep_view() == known_values(key@),
{
    if same(key, "status") {
        let v: Vec<String> = vec!["OK".to_owned(), "ERROR".to_owned()];
        assert(v.deep_view() =~= seq!["OK"@, "ERROR"@]);
        Some(v)
    } else {
        None
    }
}

/// What the section of an operation says of a key comes before what the
/// section `global` says, and that is heard where the operation has no section
/// or its section is silent.
pub proof fn law_section_first(
    input: Seq<char>,
    name: Seq<char>,
    key: Seq<char>,
    own: Option<Seq<char>>,
)
    requires
        key.len() > 0,
        is_sought(key),
        section_says(input, name, key) == Ok::<_, Fault>(own),
    ensures
        own is Some ==> described(input, Some(name), key) == Ok::<_, Fault>(own),
        own is None ==> described(input, Some(name), key) == described(input, None, key),
{
}

/// A key is described unless it makes no pattern, where the name of the
/// section holds no backslash and does not begin with a slash.
pub proof fn law_described(input: Seq<char>, section_name: Option<Seq<char>>, key: Seq<char>)
    requires
        section_name matches Some(name) ==> !name.contains('\\') && (name.len() > 0 ==> name[0]
            != '/'),
    ensures
        described(input, section_name, key) is Err <==> key.len() > 0 && !is_sought(key),
{
    reveal_strlit("global");
    if let Some(name) = section_name {
        lemma_section(input, name);
    }
    lemma_section(input, "global"@);
}

proof fn lemma_blanks_end(s: Seq<char>, i: int)
    requires
        0 <= i <= s.len(),
    ensures
        i <= blanks_end(s, i) <= s.len(),
        trimmed(s.skip(i)) == trimmed(s.skip(blanks_end(s, i))),
    decreases s.len() - i,
{
    if i < s.len() && s[i] == ' ' {
        lemma_blanks_end(s, i + 1);
        assert(s.skip(i).drop_first() =~= s.skip(i + 1));
    }
}

proof fn lemma_to_end(s: Seq<char>, c: char, i: int)
    requires
        0 <= i <= s.len(),
        forall|k: int| i <= k < s.len() ==> #[trigger] s[k] != c,
    ensures
        stop_at(s, c, i) == s.len(),
    decreases s.len() - i,
{
    if i < s.len() {
        lemma_to_end(s, c, i + 1);
    }
}

proof fn lemma_described_from(s: Seq<char>, key: Seq<char>, i: int, at: int)
    requires
        0 <= i <= at < s.len(),
        forall|k: int| i <= k < at ==> !is_letter(#[trigger] s[k]),
        is_letter(s[at]),
        text_from(s, key, at) is Some,
    ensures
        described_from(s, key, i) == Some(at),
    decreases at - i,
{
    if i < at {
        lemma_described_from(s, key, i + 1, at);
    }
}

/// A key that begins with a letter, and each character of which is taken as it
/// stands, is described by the line that holds it, a dash and a text. There may
/// be a mark before the key, if there is no letter in it. The description is the
/// text, without whitespace at either end.
pub proof fn law_line_describes(
    mark: Seq<char>,
    key: Seq<char>,
    text: Seq<char>,
    lines: Seq<Seq<char>>,
    i: int,
)
    requires
        is_literal(key),
        key.len() > 0,
        is_letter(key[0]),
        forall|k: int| 0 <= k < mark.len() ==> !is_letter(#[trigger] mark[k]),
        !text.contains('\n'),
        0 <= i < lines.len(),
        lines[i] == mark + key + " - "@ + text,
    ensures
        described_in(key, lines, i) == Some(trimmed(text)),
{
    reveal_strlit(" - ");
    let s = lines[i];
    let at = mark.len() as int;
    let end = at + key.len();
    assert(s.subrange(at, end) =~= key);
    assert(s[at] == key[0]);
    assert(s[end] == ' ' && s[end + 1] == '-' && s[end + 2] == ' ');
    assert(blanks_end(s, end + 1) == end + 1);
    assert(blanks_end(s, end) == end + 1);
    lemma_blanks_end(s, end + 3);
    assert(blanks_end(s, end + 2) == blanks_end(s, end + 3));
    let from = blanks_end(s, end + 2);
    assert(text_from(s, key, at) == Some(from));
    assert forall|k: int| 0 <= k < at implies !is_letter(#[trigger] s[k]) by {
        assert(s[k] == mark[k]);
    }
    lemma_described_from(s, key, 0, at);
    assert forall|k: int| from <= k < s.len() implies #[trigger] s[k] != '\n' by {
        assert(s[k] == text[k - end - 3]);
        assert(text.contains(s[k]));
    }
    lemma_to_end(s, '\n', from);
    assert(s.skip(end + 3) =~= text);
    assert(s.subrange(from, s.len() as int) =~= s.skip(from));
    assert(key_groups(s, key)->0[2] == Some(s.skip(from)));
}

proof fn lemma_not_described(s: Seq<char>, key: Seq<char>, i: int)
    requires
        0 <= i,
        found(s, key) is None,
    ensures
        described_from(s, key, i) is None,
    decreases s.len() - i,
{
    lemma_find_from(s, key, 0);
    assert(!matches_at(s, key, i));
    if i < s.len() {
        lemma_not_described(s, key, i + 1);
    }
}

/// A line in which the key does not occur says nothing of it, where each
/// character of the key is taken as it stands.
pub proof fn law_line_silent(key: Seq<char>, lines: Seq<Seq<char>>, i: int)
    requires
        is_literal(key),
        0 <= i < lines.len(),
        found(lines[i], key) is None,
    ensures
        described_in(key, lines, i) == described_in(key, lines, i + 1),
{
    lemma_not_described(lines[i], key, 0);
}

} // verus!
