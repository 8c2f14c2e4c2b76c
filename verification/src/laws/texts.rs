//! What holds of texts.

use vstd::prelude::*;

use crate::casing::{ascii_upper, camel, identifier, is_letter, word_char};
use crate::fault::Fault;
use crate::json::{inferred_type, read, typed, JsonView, NumberView};
use crate::number::{ascii_lower, integer_of, is_digit, is_float, is_not_finite, signed_decimal};
use crate::postman::{attribute_from, Attribute};
use crate::text::{
    found, joined, lemma_find_from, lemma_stop_at, less, lines_of, matches_at, pieces, replaced,
    stop_at, trimmed, trimmed_end, trimmed_start, whitespace, word_end, words_of,
};

verus! {

/// A text in which a pattern does not occur stays as it is. Where the pattern
/// occurs first behind `a`, the replacement follows `a`, and then what is left
/// with the pattern replaced.
pub proof fn law_replaced(a: Seq<char>, pattern: Seq<char>, b: Seq<char>, by: Seq<char>)
    requires
        pattern.len() > 0,
    ensures
        (forall|i: int| !#[trigger] matches_at(a, pattern, i)) ==> replaced(a, pattern, by) == a,
        (forall|i: int| 0 <= i < a.len() ==> !#[trigger] matches_at(a + pattern + b, pattern, i))
            ==> replaced(a + pattern + b, pattern, by) == a + by + replaced(b, pattern, by),
{
    lemma_find_from(a, pattern, 0);
    let s = a + pattern + b;
    lemma_find_from(s, pattern, 0);
    if forall|i: int| 0 <= i < a.len() ==> !#[trigger] matches_at(s, pattern, i) {
        let at = a.len() as int;
        assert(s.subrange(at, at + pattern.len()) =~= pattern);
        assert(matches_at(s, pattern, at));
        assert(found(s, pattern) == Some(at));
        assert(s.take(at) =~= a);
        assert(s.skip(at + pattern.len()) =~= b);
    }
}

/// What stands before a separator is the first piece of a text, and the pieces
/// of what follows are the others. A text without the separator is one piece.
pub proof fn law_pieces(a: Seq<char>, c: char, b: Seq<char>)
    requires
        !a.contains(c),
    ensures
        pieces(a, c) == seq![a],
        pieces(a + seq![c] + b, c) == seq![a] + pieces(b, c),
{
    lemma_stop_at(a, c, 0);
    if stop_at(a, c, 0) < a.len() {
        assert(a.contains(a[stop_at(a, c, 0)]));
    }
    let s = a + seq![c] + b;
    lemma_stop_at(s, c, 0);
    let i = stop_at(s, c, 0);
    assert(s[a.len() as int] == c);
    if i < a.len() {
        assert(a[i] == s[i]);
        assert(a.contains(c));
    }
    assert(i == a.len());
    assert(s.take(i) =~= a);
    assert(s.skip(i + 1) =~= b);
}

/// What stands before a line feed, without a carriage return at its end, is
/// the first line of a text, and the lines of what follows are the others. A
/// text without a line feed is one line, unless it is empty.
pub proof fn law_lines(a: Seq<char>, b: Seq<char>)
    requires
        !a.contains('\n'),
    ensures
        lines_of(Seq::<char>::empty()) == Seq::<Seq<char>>::empty(),
        a.len() > 0 ==> lines_of(a) == seq![a],
        lines_of(a + seq!['\n'] + b) == seq![
            if a.len() > 0 && a[a.len() - 1] == '\r' {
                a.take(a.len() - 1)
            } else {
                a
            },
        ] + lines_of(b),
{
    lemma_stop_at(a, '\n', 0);
    if stop_at(a, '\n', 0) < a.len() {
        assert(a.contains(a[stop_at(a, '\n', 0)]));
    }
    let s = a + seq!['\n'] + b;
    lemma_stop_at(s, '\n', 0);
    let i = stop_at(s, '\n', 0);
    assert(s[a.len() as int] == '\n');
    if i < a.len() {
        assert(a[i] == s[i]);
        assert(a.contains('\n'));
    }
    assert(i == a.len());
    assert(s.take(i) =~= a);
    assert(s.skip(i + 1) =~= b);
    if a.len() > 0 {
        assert(a.drop_last() =~= a.take(a.len() - 1));
    }
}

/// Parts are joined one after the other, with the separator between them.
pub proof fn law_joined(parts: Seq<Seq<char>>, part: Seq<char>, sep: Seq<char>)
    ensures
        joined(seq![], sep) == Seq::<char>::empty(),
        joined(seq![part], sep) == part,
        parts.len() > 0 ==> joined(parts.push(part), sep) == joined(parts, sep) + sep + part,
{
    assert(parts.push(part).drop_last() =~= parts);
}

proof fn lemma_trimmed_start(s: Seq<char>)
    ensures
        exists|i: int|
            0 <= i <= s.len() && trimmed_start(s) == #[trigger] s.skip(i) && (forall|k: int|
                0 <= k < i ==> whitespace(#[trigger] s[k])) && (i < s.len() ==> !whitespace(s[i])),
    decreases s.len(),
{
    if s.len() > 0 && whitespace(s.first()) {
        let t = s.drop_first();
        lemma_trimmed_start(t);
        let i = choose|i: int|
            0 <= i <= t.len() && trimmed_start(t) == #[trigger] t.skip(i) && (forall|k: int|
                0 <= k < i ==> whitespace(#[trigger] t[k])) && (i < t.len() ==> !whitespace(t[i]));
        assert(t.skip(i) =~= s.skip(i + 1));
        assert forall|k: int| 0 <= k < i + 1 implies whitespace(#[trigger] s[k]) by {
            if k > 0 {
                assert(t[k - 1] == s[k]);
            }
        }
    } else {
        assert(s.skip(0) =~= s);
    }
}

proof fn lemma_trimmed_end(s: Seq<char>)
    ensures
        exists|j: int|
            0 <= j <= s.len() && trimmed_end(s) == #[trigger] s.take(j) && (forall|k: int|
                j <= k < s.len() ==> whitespace(#[trigger] s[k])) && (j > 0 ==> !whitespace(
                s[j - 1],
            )),
    decreases s.len(),
{
    if s.len() > 0 && whitespace(s.last()) {
        let t = s.drop_last();
        lemma_trimmed_end(t);
        let j = choose|j: int|
            0 <= j <= t.len() && trimmed_end(t) == #[trigger] t.take(j) && (forall|k: int|
                j <= k < t.len() ==> whitespace(#[trigger] t[k])) && (j > 0 ==> !whitespace(
                t[j - 1],
            ));
        assert(t.take(j) =~= s.take(j));
        assert forall|k: int| j <= k < s.len() implies whitespace(#[trigger] s[k]) by {
            if k < t.len() {
                assert(t[k] == s[k]);
            }
        }
    } else {
        assert(s.take(s.len() as int) =~= s);
    }
}

/// The text from `i` to `j` is what is left without the whitespace at its ends.
pub open spec fn is_core(s: Seq<char>, i: int, j: int) -> bool {
    &&& 0 <= i <= j <= s.len()
    &&& forall|k: int| 0 <= k < i ==> whitespace(#[trigger] s[k])
    &&& forall|k: int| j <= k < s.len() ==> whitespace(#[trigger] s[k])
    &&& i < j ==> !whitespace(s[i]) && !whitespace(s[j - 1])
}

/// Trimming a text takes away the whitespace at its ends, and nothing else.
pub proof fn law_trimmed(s: Seq<char>)
    ensures
        exists|i: int, j: int| #[trigger] is_core(s, i, j) && trimmed(s) == s.subrange(i, j),
{
    lemma_trimmed_start(s);
    let i = choose|i: int|
        0 <= i <= s.len() && trimmed_start(s) == #[trigger] s.skip(i) && (forall|k: int|
            0 <= k < i ==> whitespace(#[trigger] s[k])) && (i < s.len() ==> !whitespace(s[i]));
    let t = s.skip(i);
    lemma_trimmed_end(t);
    let j = choose|j: int|
        0 <= j <= t.len() && trimmed_end(t) == #[trigger] t.take(j) && (forall|k: int|
            j <= k < t.len() ==> whitespace(#[trigger] t[k])) && (j > 0 ==> !whitespace(t[j - 1]));
    assert(t.take(j) =~= s.subrange(i, i + j));
    assert forall|k: int| i + j <= k < s.len() implies whitespace(#[trigger] s[k]) by {
        assert(t[k - i] == s[k]);
    }
    assert(is_core(s, i, i + j));
}

/// Whitespace at its beginning does not count among the words of a text. A run
/// without whitespace, at the end of the text or before whitespace, is the
/// first word, and the words of what follows are the others.
pub proof fn law_words(word: Seq<char>, s: Seq<char>, c: char)
    requires
        word.len() > 0,
        forall|k: int| 0 <= k < word.len() ==> !whitespace(#[trigger] word[k]),
        s.len() > 0 ==> whitespace(s[0]),
        whitespace(c),
    ensures
        words_of(Seq::<char>::empty()) == Seq::<Seq<char>>::empty(),
        words_of(seq![c] + s) == words_of(s),
        words_of(word + s) == seq![word] + words_of(s),
{
    let t = seq![c] + s;
    assert(t.drop_first() =~= s);
    assert(word_end(t, 0) == 0);
    let u = word + s;
    lemma_word_ends(u, word.len() as int, 0);
    assert(u.take(word.len() as int) =~= word);
    assert(u.skip(word.len() as int) =~= s);
}

proof fn lemma_word_ends(s: Seq<char>, n: int, i: int)
    requires
        0 <= i <= n <= s.len(),
        forall|k: int| i <= k < n ==> !whitespace(#[trigger] s[k]),
        n < s.len() ==> whitespace(s[n]),
    ensures
        word_end(s, i) == n,
    decreases n - i,
{
    if i < n {
        lemma_word_ends(s, n, i + 1);
    }
}

/// A text stands before what goes on from it. Where two texts first differ, the
/// one with the smaller character stands before the other.
pub proof fn law_less(s: Seq<char>, a: Seq<char>, b: Seq<char>)
    ensures
        a.len() > 0 ==> less(s, s + a),
        a.len() > 0 && b.len() > 0 && a[0] < b[0] ==> less(s + a, s + b),
    decreases s.len(),
{
    if s.len() > 0 {
        law_less(s.drop_first(), a, b);
        assert((s + a).drop_first() =~= s.drop_first() + a);
        assert((s + b).drop_first() =~= s.drop_first() + b);
    } else {
        assert(s + a =~= a);
        assert(s + b =~= b);
    }
}

/// A text that is an integer stands for that integer, written without a plus
/// sign or zeros at its beginning. Another number stands for itself, as do
/// `true` and `false` for truth values, and any other text is a text. What is
/// no finite number cannot be read.
pub proof fn law_read(s: Seq<char>)
    ensures
        integer_of(s) matches Some(n) ==> typed(s) == JsonView::Number(
            NumberView::Literal(signed_decimal(n as int)),
        ),
        integer_of(s) is None && is_float(s) ==> typed(s) == JsonView::Number(
            NumberView::Float(s),
        ),
        s == "true"@ && !is_float(s) && integer_of(s) is None ==> typed(s) == JsonView::Bool(true),
        s == "false"@ && !is_float(s) && integer_of(s) is None ==> typed(s) == JsonView::Bool(
            false,
        ),
        s != "true"@ && s != "false"@ && !is_float(s) && integer_of(s) is None ==> typed(s)
            == JsonView::String(s),
        read(s) is Err <==> is_not_finite(s),
        read(s) matches Ok(v) ==> v == typed(s),
        read(s) matches Err(f) ==> f == Fault::Number,
{
    reveal_strlit("true");
    reveal_strlit("false");
    assert("true"@.len() == 4 && "false"@.len() == 5);
}

/// The characters without the blanks, in small letters.
pub open spec fn run_together(s: Seq<char>) -> Seq<char>
    decreases s.len(),
{
    if s.len() == 0 {
        seq![]
    } else if s.last() == ' ' {
        run_together(s.drop_last())
    } else {
        run_together(s.drop_last()).push(ascii_lower(s.last()))
    }
}

proof fn lemma_run_together(s: Seq<char>)
    ensures
        camel(s).map_values(|c: char| ascii_lower(c)) == run_together(s),
    decreases s.len(),
{
    let low = |c: char| ascii_lower(c);
    if s.len() > 0 {
        lemma_run_together(s.drop_last());
        let done = camel(s.drop_last());
        let c = s.last();
        assert(ascii_lower(ascii_upper(c)) == ascii_lower(c));
        assert(ascii_lower(ascii_lower(c)) == ascii_lower(c));
        assert(done.push(ascii_lower(c)).map_values(low) =~= done.map_values(low).push(
            ascii_lower(c),
        ));
        assert(done.push(ascii_upper(c)).map_values(low) =~= done.map_values(
            low,
        ).push(ascii_lower(c)));
    } else {
        assert(camel(s).map_values(low) =~= seq![]);
    }
}

/// An identifier holds the letters and digits of the name in their order, but
/// for the case of the letters. It begins with a small letter or a digit.
pub proof fn law_identifier_letters(name: Seq<char>)
    ensures
        identifier(name).map_values(|c: char| ascii_lower(c)) == run_together(
            name.map_values(
                |c: char|
                    if is_letter(c) || is_digit(c) {
                        c
                    } else {
                        ' '
                    },
            ),
        ),
        identifier(name).len() > 0 ==> ascii_lower(identifier(name)[0]) == identifier(name)[0],
{
    let words = name.map_values(|c: char| word_char(c));
    lemma_run_together(words);
    assert(words =~= name.map_values(
        |c: char|
            if is_letter(c) || is_digit(c) {
                c
            } else {
                ' '
            },
    ));
    lemma_small_first(words);
}

proof fn lemma_small_first(s: Seq<char>)
    ensures
        camel(s).len() > 0 ==> ascii_lower(camel(s)[0]) == camel(s)[0],
    decreases s.len(),
{
    if s.len() > 0 {
        lemma_small_first(s.drop_last());
        let done = camel(s.drop_last());
        if done.len() > 0 {
            assert(camel(s)[0] == done[0]);
        }
    }
}

/// A word that follows others in a name begins with a capital letter in the
/// identifier, and the rest of it is in small letters.
pub proof fn law_camel_word(words: Seq<char>, word: Seq<char>)
    requires
        word.len() > 0,
        !word.contains(' '),
    ensures
        camel(word) == word.map_values(|c: char| ascii_lower(c)),
        camel(words).len() > 0 ==> camel(words + seq![' '] + word) == camel(words) + seq![
            ascii_upper(word[0]),
        ] + word.skip(1).map_values(|c: char| ascii_lower(c)),
    decreases word.len(),
{
    let low = |c: char| ascii_lower(c);
    let init = word.drop_last();
    let all = words + seq![' '] + word;
    assert(word.contains(word.last()));
    assert(all.drop_last() =~= words + seq![' '] + init);
    if init.len() > 0 {
        assert(!init.contains(' ')) by {
            if init.contains(' ') {
                let k = choose|k: int| 0 <= k < init.len() && init[k] == ' ';
                assert(word[k] == ' ');
            }
        }
        law_camel_word(words, init);
        assert(init.contains(init.last()));
        assert(word.map_values(low) =~= init.map_values(low).push(ascii_lower(word.last())));
        assert(word.skip(1).map_values(low) =~= init.skip(1).map_values(low).push(
            ascii_lower(word.last()),
        ));
        assert(all.drop_last().last() == init.last());
        if camel(words).len() > 0 {
            let head = camel(words) + seq![ascii_upper(word[0])];
            assert(camel(all) =~= head + word.skip(1).map_values(low));
        }
    } else {
        assert(word =~= seq![word[0]]);
        assert(camel(init) =~= seq![]);
        assert(camel(word) =~= word.map_values(low));
        let before = words + seq![' '];
        assert(all.drop_last() =~= before);
        assert(before.drop_last() =~= words);
        assert(before.last() == ' ');
        assert(camel(before) == camel(words));
        if camel(words).len() > 0 {
            assert(camel(all) =~= camel(words) + seq![ascii_upper(word[0])]
                + word.skip(1).map_values(low));
        }
    }
}

/// The type that a text seems to have is that of an integer, another number or
/// a truth value where it is written as one, and otherwise that of a text.
pub proof fn law_inferred_type(s: Seq<char>)
    ensures
        integer_of(s) is Some ==> inferred_type(s) == "integer"@,
        integer_of(s) is None && is_float(s) ==> inferred_type(s) == "number"@,
        integer_of(s) is None && !is_float(s) && (s == "true"@ || s == "false"@) ==> inferred_type(
            s,
        ) == "boolean"@,
        integer_of(s) is None && !is_float(s) && s != "true"@ && s != "false"@ ==> inferred_type(s)
            == "string"@,
{
}

/// The attribute at `i` is the first with that key.
pub open spec fn is_attribute(attributes: Seq<Attribute>, i: int, key: Seq<char>) -> bool {
    &&& 0 <= i < attributes.len()
    &&& attributes[i].key@ == key
    &&& forall|j: int| 0 <= j < i ==> (#[trigger] attributes[j]).key@ != key
}

proof fn lemma_attribute(attributes: Seq<Attribute>, key: Seq<char>, n: int, i: int)
    requires
        is_attribute(attributes, n, key),
        0 <= i <= n,
    ensures
        attribute_from(attributes, key, i) == match attributes[n].value.deep_view() {
            Some(JsonView::String(text)) => Some(text),
            _ => None,
        },
    decreases n - i,
{
    if i < n {
        assert(attributes[i].key@ != key);
        lemma_attribute(attributes, key, n, i + 1);
    }
}

proof fn lemma_no_attribute(attributes: Seq<Attribute>, key: Seq<char>, i: int)
    requires
        0 <= i,
        forall|j: int| 0 <= j < attributes.len() ==> (#[trigger] attributes[j]).key@ != key,
    ensures
        attribute_from(attributes, key, i) is None,
    decreases attributes.len() - i,
{
    if i < attributes.len() {
        lemma_no_attribute(attributes, key, i + 1);
    }
}

/// The text of an attribute is that of the first with its key, where that has
/// a text.
pub proof fn law_attribute(attributes: Seq<Attribute>, key: Seq<char>, i: int)
    ensures
        is_attribute(attributes, i, key) ==> attribute_from(attributes, key, 0)
            == match attributes[i].value.deep_view() {
            Some(JsonView::String(text)) => Some(text),
            _ => None,
        },
        (forall|j: int| 0 <= j < attributes.len() ==> (#[trigger] attributes[j]).key@ != key)
            ==> attribute_from(attributes, key, 0) is None,
{
    if is_attribute(attributes, i, key) {
        lemma_attribute(attributes, key, i, 0);
    }
    if forall|j: int| 0 <= j < attributes.len() ==> (#[trigger] attributes[j]).key@ != key {
        lemma_no_attribute(attributes, key, 0);
    }
}

} // verus!
