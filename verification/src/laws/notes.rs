//! What the notes in descriptions say.

use vstd::prelude::*;

use crate::fault::Fault;
use crate::json::typed;
use crate::laws::texts::law_replaced;
use crate::notes::{
    closing, described, described_in, is_sought, limits, listed_headers, names_from, opening, plain,
    said_nullable, says_required, section, without_block,
};
use crate::number::is_not_finite;
use crate::pattern::{
    compiles, groups, is_literal, key_pattern, last_bracket, value_at, value_end, value_from,
    without_tails, LITERAL_CHARS,
};
use crate::text::{found, lemma_find_from, lines_of, matches_at, pieces, replaced, trimmed};

verus! {

/// `pattern` stands in `s` at `i`, and not before.
pub open spec fn is_first(s: Seq<char>, pattern: Seq<char>, i: int) -> bool {
    matches_at(s, pattern, i) && forall|j: int| 0 <= j < i ==> !#[trigger] matches_at(s, pattern, j)
}

proof fn lemma_found(s: Seq<char>, pattern: Seq<char>, i: int)
    requires
        is_first(s, pattern, i),
    ensures
        found(s, pattern) == Some(i),
{
    lemma_find_from(s, pattern, 0);
}

/// What stands between the mark that opens a section, where that stands first,
/// and the first mark behind it that closes the section, is its content. There
/// is none where no mark opens it, or where none closes it.
pub proof fn law_section(a: Seq<char>, name: Seq<char>, content: Seq<char>, b: Seq<char>)
    requires
        is_first(a + ("\\["@ + name + "\\]"@) + content + ("\\[/"@ + name + "\\]"@) + b, "\\["@
            + name + "\\]"@, a.len() as int),
        is_first(
            ("\\["@ + name + "\\]"@) + content + ("\\[/"@ + name + "\\]"@) + b,
            "\\[/"@ + name + "\\]"@,
            ("\\["@ + name + "\\]"@ + content).len() as int,
        ),
    ensures
        section(
            a + ("\\["@ + name + "\\]"@) + content + ("\\[/"@ + name + "\\]"@) + b,
            name,
        ) == Ok::<_, Fault>(Some(content)),
{
    let open = opening(name);
    let close = closing(name);
    let s = a + open + content + close + b;
    let rest = open + content + close + b;
    let at = a.len() as int;
    lemma_found(s, open, at);
    assert(s.skip(at) =~= rest);
    let k = (open + content).len() as int;
    lemma_found(rest, close, k);
    assert(s.subrange(at + open.len(), at + k) =~= content);
}

/// A section that nothing opens, or that nothing closes behind its beginning,
/// is not there.
pub proof fn law_no_section(s: Seq<char>, name: Seq<char>)
    ensures
        (forall|i: int| !#[trigger] matches_at(s, "\\["@ + name + "\\]"@, i)) ==> section(s, name)
            == Ok::<Option<Seq<char>>, Fault>(None),
        (forall|i: int| !#[trigger] matches_at(s, "\\[/"@ + name + "\\]"@, i)) ==> section(s, name)
            == Ok::<Option<Seq<char>>, Fault>(None),
{
    lemma_find_from(s, opening(name), 0);
    if forall|i: int| !#[trigger] matches_at(s, "\\[/"@ + name + "\\]"@, i) {
        if let Some(i) = found(s, opening(name)) {
            let rest = s.skip(i);
            lemma_find_from(rest, closing(name), 0);
            if let Some(k) = found(rest, closing(name)) {
                assert(s.subrange(i + k, i + k + closing(name).len()) =~= rest.subrange(
                    k,
                    k + closing(name).len(),
                ));
                assert(matches_at(s, "\\[/"@ + name + "\\]"@, i + k));
            }
        }
    }
}

/// A block, from the first mark that begins it to the first that ends it, is
/// taken out of a text, and what is left is trimmed. Without such marks the
/// text is trimmed.
pub proof fn law_block_removed(
    s: Seq<char>,
    start: Seq<char>,
    end: Seq<char>,
    i: int,
    j: int,
)
    ensures
        is_first(s, start, i) && is_first(s, end, j) ==> without_block(s, start, end) == trimmed(
            s.take(i) + s.skip(j + end.len()),
        ),
        (forall|k: int| !#[trigger] matches_at(s, start, k)) ==> without_block(s, start, end)
            == trimmed(s),
        (forall|k: int| !#[trigger] matches_at(s, end, k)) ==> without_block(s, start, end)
            == trimmed(s),
{
    lemma_find_from(s, start, 0);
    lemma_find_from(s, end, 0);
}

proof fn lemma_names(lines: Seq<Seq<char>>, i: int, name: Seq<char>)
    requires
        0 <= i,
    ensures
        names_from(lines, i).contains(name) <==> exists|k: int, l: int|
            i <= k < lines.len() && 0 <= l < pieces(lines[k], ',').len() && trimmed(
                #[trigger] pieces(lines[k], ',')[l],
            ) == name,
    decreases lines.len() - i,
{
    if i < lines.len() {
        let own = pieces(lines[i], ',').map_values(|s: Seq<char>| trimmed(s));
        let rest = names_from(lines, i + 1);
        let all = own + rest;
        lemma_names(lines, i + 1, name);
        if all.contains(name) {
            let k = choose|k: int| 0 <= k < all.len() && all[k] == name;
            if k < own.len() {
                assert(trimmed(pieces(lines[i], ',')[k]) == name);
            } else {
                assert(rest[k - own.len()] == name);
                assert(rest.contains(name));
            }
        }
        if exists|k: int, l: int|
            i <= k < lines.len() && 0 <= l < pieces(lines[k], ',').len() && trimmed(
                #[trigger] pieces(lines[k], ',')[l],
            ) == name {
            let (k, l) = choose|k: int, l: int|
                i <= k < lines.len() && 0 <= l < pieces(lines[k], ',').len() && trimmed(
                    #[trigger] pieces(lines[k], ',')[l],
                ) == name;
            if k == i {
                assert(own[l] == name);
                assert(all[l] == name);
            } else {
                assert(rest.contains(name));
                let j = choose|j: int| 0 <= j < rest.len() && rest[j] == name;
                assert(all[own.len() + j] == name);
            }
        }
    }
}

/// A header is listed exactly where it stands, trimmed, between commas in a
/// line of the section `headers`.
pub proof fn law_listed(input: Seq<char>, name: Seq<char>)
    ensures
        listed_headers(input).contains(name) <==> (section(input, "headers"@) matches Ok(
            Some(content),
        ) && exists|k: int, l: int|
            0 <= k < lines_of(content).len() && 0 <= l < pieces(lines_of(content)[k], ',').len()
                && trimmed(#[trigger] pieces(lines_of(content)[k], ',')[l]) == name),
{
    if let Ok(Some(content)) = section(input, "headers"@) {
        lemma_names(lines_of(content), 0, name);
    }
}

proof fn lemma_value_end(s: Seq<char>, i: int, to: int)
    requires
        0 <= i <= to,
        matches_at(s, "\\]"@, to),
        forall|k: int| i <= k < to ==> !#[trigger] matches_at(s, "\\]"@, k),
        forall|k: int| i <= k < to ==> #[trigger] s[k] != '\n',
    ensures
        value_end(s, i) == Some(to),
    decreases to - i,
{
    reveal_strlit("\\]");
    assert(s.subrange(to, to + 2)[0] == "\\]"@[0]);
    assert(s[to] == '\\');
    if i < to {
        assert(!matches_at(s, "\\]"@, i));
        assert(s[i] != '\n');
        lemma_value_end(s, i + 1, to);
    }
}

proof fn lemma_value_from(s: Seq<char>, mark: Seq<char>, i: int, at: int)
    requires
        0 <= i <= at < s.len(),
        value_at(s, mark, at) is Some,
        forall|k: int| i <= k < at ==> !#[trigger] matches_at(s, mark, k),
    ensures
        value_from(s, mark, i) == value_at(s, mark, at),
    decreases at - i,
{
    if i < at {
        assert(!matches_at(s, mark, i));
        lemma_value_from(s, mark, i + 1, at);
    }
}

/// What stands between the first mark of a note and the first mark that ends a
/// note on that line, if it is not empty, is its value.
pub proof fn law_value(a: Seq<char>, mark: Seq<char>, value: Seq<char>, b: Seq<char>)
    requires
        mark.len() > 0,
        value.len() > 0,
        !value.contains('\n'),
        is_first(a + mark + value + "\\]"@ + b, mark, a.len() as int),
        forall|k: int|
            0 < k < value.len() ==> !#[trigger] matches_at(value + "\\]"@ + b, "\\]"@, k),
    ensures
        value_from(a + mark + value + "\\]"@ + b, mark, 0) == Some(value),
{
    reveal_strlit("\\]");
    let s = a + mark + value + "\\]"@ + b;
    let at = a.len() as int;
    let from = at + mark.len();
    let to = from + value.len();
    let rest = value + "\\]"@ + b;
    assert(s.skip(from) =~= rest);
    assert(s.subrange(to, to + 2) =~= "\\]"@);
    assert(matches_at(s, "\\]"@, to));
    assert forall|k: int| from + 1 <= k < to implies !#[trigger] matches_at(s, "\\]"@, k) by {
        assert(!matches_at(rest, "\\]"@, k - from));
        if matches_at(s, "\\]"@, k) {
            assert(rest.subrange(k - from, k - from + 2) =~= s.subrange(k, k + 2));
        }
    }
    assert forall|k: int| from <= k < to implies #[trigger] s[k] != '\n' by {
        assert(s[k] == value[k - from]);
        assert(value.contains(s[k]));
    }
    lemma_value_end(s, from + 1, to);
    assert(s.subrange(from, to) =~= value);
    assert(s[from] != '\n');
    assert(value_at(s, mark, at) == Some(value));
    lemma_value_from(s, mark, 0, at);
}

proof fn lemma_no_mark(s: Seq<char>, mark: Seq<char>, i: int)
    requires
        0 <= i,
        forall|k: int| !#[trigger] matches_at(s, mark, k),
    ensures
        value_from(s, mark, i) is None,
        i <= s.len() ==> without_tails(s, mark, i) == s.skip(i),
    decreases
            if i < s.len() {
                s.len() - i
            } else {
                0
            },
{
    assert(!matches_at(s, mark, i));
    if i < s.len() {
        lemma_no_mark(s, mark, i + 1);
        assert(s.skip(i) =~= seq![s[i]] + s.skip(i + 1));
    } else if i == s.len() {
        assert(s.skip(i) =~= seq![]);
    }
}

/// A text without the mark of a note has no value for it, and nothing is taken
/// out of it on its account.
pub proof fn law_no_value(s: Seq<char>, mark: Seq<char>)
    requires
        forall|k: int| !#[trigger] matches_at(s, mark, k),
    ensures
        value_from(s, mark, 0) is None,
        without_tails(s, mark, 0) == s,
{
    lemma_no_mark(s, mark, 0);
    assert(s.skip(0) =~= s);
}

/// The default and the bounds that a text gives are the values behind their
/// marks, as they are read. There is a fault where one of them is not finite.
pub proof fn law_limits(text: Seq<char>)
    ensures
        limits(text) is Ok <==> {
            &&& value_from(text, "[default: "@, 0) matches Some(v) ==> !is_not_finite(v)
            &&& value_from(text, "[min: "@, 0) matches Some(v) ==> !is_not_finite(v)
            &&& value_from(text, "[max: "@, 0) matches Some(v) ==> !is_not_finite(v)
        },
        limits(text) matches Ok((default, minimum, maximum)) ==> {
            &&& default == match value_from(text, "[default: "@, 0) {
                Some(v) => Some(typed(v)),
                None => None,
            }
            &&& minimum == match value_from(text, "[min: "@, 0) {
                Some(v) => Some(typed(v)),
                None => None,
            }
            &&& maximum == match value_from(text, "[max: "@, 0) {
                Some(v) => Some(typed(v)),
                None => None,
            }
        },
{
}

/// A text says that something must be there, or takes null, where the mark for
/// it stands in the text.
pub proof fn law_marks(text: Seq<char>)
    ensures
        says_required(text) <==> exists|i: int| #[trigger] matches_at(text, "\\[required\\]"@, i),
        said_nullable(text) == if exists|i: int| #[trigger]
            matches_at(text, "\\[nullable\\]"@, i) {
            Some(true)
        } else {
            None
        },
{
    lemma_find_from(text, "\\[required\\]"@, 0);
    lemma_find_from(text, "\\[nullable\\]"@, 0);
    if let Some(k) = found(text, "\\[required\\]"@) {
        assert(matches_at(text, "\\[required\\]"@, k));
    }
    if let Some(k) = found(text, "\\[nullable\\]"@) {
        assert(matches_at(text, "\\[nullable\\]"@, k));
    }
}

proof fn lemma_last_bracket(s: Seq<char>, i: int, last: int)
    requires
        0 <= i <= last < s.len(),
        s[last] == ']',
        forall|k: int| i <= k <= last ==> #[trigger] s[k] != '\n',
        forall|k: int|
            last < k < s.len() && (forall|l: int| last < l <= k ==> #[trigger] s[l] != '\n')
                ==> #[trigger] s[k] != ']',
    ensures
        last_bracket(s, i) == Some(last),
    decreases last - i,
{
    if i < last {
        assert(s[i] != '\n');
        lemma_last_bracket(s, i + 1, last);
    } else {
        lemma_no_bracket(s, i + 1);
    }
}

proof fn lemma_no_bracket(s: Seq<char>, i: int)
    requires
        0 <= i,
        forall|k: int|
            i <= k < s.len() && (forall|l: int| i <= l <= k ==> #[trigger] s[l] != '\n')
                ==> #[trigger] s[k] != ']',
    ensures
        last_bracket(s, i) is None,
    decreases s.len() - i,
{
    if i < s.len() && s[i] != '\n' {
        assert(s[i] != ']');
        assert forall|k: int|
            i + 1 <= k < s.len() && (forall|l: int|
                i + 1 <= l <= k ==> #[trigger] s[l] != '\n') implies #[trigger] s[k] != ']' by {
            assert forall|l: int| i <= l <= k implies #[trigger] s[l] != '\n' by {
                if l > i {
                    assert(s[l] != '\n');
                }
            }
        }
        lemma_no_bracket(s, i + 1);
    }
}

proof fn lemma_before_tail(s: Seq<char>, mark: Seq<char>, i: int, at: int)
    requires
        0 <= i <= at < s.len(),
        forall|k: int| i <= k < at ==> !#[trigger] matches_at(s, mark, k),
    ensures
        without_tails(s, mark, i) == s.subrange(i, at) + without_tails(s, mark, at),
    decreases at - i,
{
    if i < at {
        assert(!matches_at(s, mark, i));
        lemma_before_tail(s, mark, i + 1, at);
        assert(s.subrange(i, at) =~= seq![s[i]] + s.subrange(i + 1, at));
        assert(without_tails(s, mark, i) =~= s.subrange(i, at) + without_tails(s, mark, at));
    } else {
        assert(s.subrange(i, at) =~= seq![]);
        assert(without_tails(s, mark, i) =~= s.subrange(i, at) + without_tails(s, mark, at));
    }
}

/// From the first mark of a note to the last closing bracket on its line, a
/// text is left out of a description. What follows is treated likewise.
pub proof fn law_tail_removed(s: Seq<char>, mark: Seq<char>, at: int, last: int)
    requires
        mark.len() > 0,
        is_first(s, mark, at),
        at + mark.len() <= last < s.len(),
        s[last] == ']',
        forall|k: int| at + mark.len() <= k <= last ==> #[trigger] s[k] != '\n',
        forall|k: int|
            last < k < s.len() && (forall|l: int| last < l <= k ==> #[trigger] s[l] != '\n')
                ==> #[trigger] s[k] != ']',
    ensures
        without_tails(s, mark, 0) == s.take(at) + without_tails(s, mark, last + 1),
{
    lemma_last_bracket(s, at + mark.len(), last);
    lemma_before_tail(s, mark, 0, at);
    assert(s.subrange(0, at) =~= s.take(at));
}

/// A description without any of the marks of notes is told as it is; an empty
/// one, or none, is not told.
pub proof fn law_plain(text: Seq<char>)
    ensures
        plain(None) is None,
        plain(Some(seq![])) is None,
        text.len() > 0 ==> plain(Some(text)) is Some,
        text.len() > 0 && (forall|i: int| !#[trigger] matches_at(text, "\\[default: "@, i)) && (
        forall|i: int| !#[trigger] matches_at(text, "\\[min: "@, i)) && (forall|i: int|
            !#[trigger] matches_at(text, "\\[max: "@, i)) && (forall|i: int|
            !#[trigger] matches_at(text, "\\[nullable\\]"@, i)) && (forall|i: int|
            !#[trigger] matches_at(text, "\\[required\\]"@, i)) ==> plain(Some(text)) == Some(text),
{
    reveal_strlit("\\[nullable\\]");
    reveal_strlit("\\[required\\]");
    reveal_strlit("");
    if (forall|i: int| !#[trigger] matches_at(text, "\\[default: "@, i)) && (forall|i: int|
        !#[trigger] matches_at(text, "\\[min: "@, i)) && (forall|i: int|
        !#[trigger] matches_at(text, "\\[max: "@, i)) {
        law_no_value(text, "\\[default: "@);
        law_no_value(text, "\\[max: "@);
        law_no_value(text, "\\[min: "@);
    }
    law_replaced(text, "\\[nullable\\]"@, seq![], ""@);
    law_replaced(text, "\\[required\\]"@, seq![], ""@);
}

/// What is told of a description is what is left once the notes on the default
/// and the bounds and then the marks for null and for what must be there are
/// taken out.
pub proof fn law_plain_parts(text: Seq<char>)
    requires
        text.len() > 0,
    ensures
        ({
            let a = without_tails(text, "\\[default: "@, 0);
            let b = without_tails(a, "\\[max: "@, 0);
            let c = without_tails(b, "\\[min: "@, 0);
            let d = replaced(c, "\\[nullable\\]"@, ""@);
            plain(Some(text)) == Some(replaced(d, "\\[required\\]"@, ""@))
        }),
{
}

/// What describes a key is the first line of a section whose match has a text
/// as its second group, and the description is that text, trimmed.
pub proof fn law_line_groups(key: Seq<char>, lines: Seq<Seq<char>>, i: int)
    requires
        0 <= i < lines.len(),
        !is_literal(key),
    ensures
        described_in(key, lines, lines.len() as int) is None,
        match groups(key_pattern(key), lines[i]) {
            Some(g) => if g.len() > 2 && g[2] is Some {
                described_in(key, lines, i) == Some(trimmed(g[2]->0))
            } else {
                described_in(key, lines, i) == described_in(key, lines, i + 1)
            },
            None => described_in(key, lines, i) == described_in(key, lines, i + 1),
        },
{
}

/// A section says of a key what the first of its lines says that describes the
/// key. Without a section of its own, a key is described by the section
/// `global`. An empty key is not described.
pub proof fn law_described_by(input: Seq<char>, key: Seq<char>, content: Seq<char>)
    ensures
        described(input, None, seq![]) == Ok::<Option<Seq<char>>, Fault>(None),
        key.len() > 0 && is_sought(key) && section(input, "global"@) == Ok::<_, Fault>(
            Some(content),
        ) ==> described(input, None, key) == Ok::<_, Fault>(
            described_in(key, lines_of(content), 0),
        ),
        key.len() > 0 && is_sought(key) && section(input, "global"@) == Ok::<
            Option<Seq<char>>,
            Fault,
        >(None) ==> described(input, None, key) == Ok::<Option<Seq<char>>, Fault>(None),
        key.len() > 0 && !is_sought(key) ==> described(input, None, key) == Err::<
            Option<Seq<char>>,
            Fault,
        >(Fault::Pattern),
        is_sought(key) <==> (is_literal(key) && key.len() <= LITERAL_CHARS) || compiles(
            key_pattern(key),
        ),
{
}

/// What a section of its own says of a key.
pub proof fn law_section_says(
    input: Seq<char>,
    name: Seq<char>,
    key: Seq<char>,
    content: Seq<char>,
)
    requires
        key.len() > 0,
        is_sought(key),
        section(input, name) == Ok::<_, Fault>(Some(content)),
    ensures
        described_in(key, lines_of(content), 0) is Some ==> described(input, Some(name), key)
            == Ok::<_, Fault>(described_in(key, lines_of(content), 0)),
        described_in(key, lines_of(content), 0) is None ==> described(input, Some(name), key)
            == described(input, None, key),
{
}

} // verus!
