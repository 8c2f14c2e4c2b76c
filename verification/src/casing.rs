//! Letter case.

use vstd::prelude::*;

use convert_case::{Case, Casing};

use crate::number::{ascii_lower, is_digit};
use crate::text::chars_of;

verus! {

/// The capital letter for a small one of the ASCII range, and any other
/// character itself.
pub open spec fn ascii_upper(c: char) -> char {
    if 'a' <= c <= 'z' {
        (c as u32 - 32) as char
    } else {
        c
    }
}

/// A letter of the ASCII range.
pub open spec fn is_letter(c: char) -> bool {
    ('A' <= c <= 'Z') || ('a' <= c <= 'z')
}

/// A letter, a digit or the blank.
pub open spec fn is_word_char(c: char) -> bool {
    is_letter(c) || is_digit(c) || c == ' '
}

/// `s` holds letters, digits and blanks only.
pub open spec fn is_words(s: Seq<char>) -> bool {
    forall|i: int| 0 <= i < s.len() ==> is_word_char(#[trigger] s[i])
}

/// The words of `s` run together: small letters, but for the first letter of
/// every word after the first one.
pub open spec fn camel(s: Seq<char>) -> Seq<char>
    decreases s.len(),
{
    if s.len() == 0 {
        seq![]
    } else {
        let init = s.drop_last();
        let done = camel(init);
        let c = s.last();
        if c == ' ' {
            done
        } else if done.len() > 0 && init.last() == ' ' {
            done.push(ascii_upper(c))
        } else {
            done.push(ascii_lower(c))
        }
    }
}

/// `Casing::from_case` with `Case::Title`, which splits at blanks, and then
/// `StateConverter::to_case` with `Case::Camel`, which writes the first word in
/// small letters and every other with a capital first, and joins them. On
/// letters and digits of the ASCII range and blanks this is `camel`.
#[verifier::external_body]
fn to_camel(s: &str) -> (r: String)
    requires
        is_words(s@),
    ensures
        r@ == camel(s@),
{
    s.from_case(Case::Title).to_case(Case::Camel)
}

/// `s`, which goes beyond the ASCII range, in the small letters that Unicode gives.
pub uninterp spec fn unicode_lowercase(s: Seq<char>) -> Seq<char>;

/// `s` keeps to the ASCII range.
pub open spec fn is_ascii(s: Seq<char>) -> bool {
    forall|i: int| 0 <= i < s.len() ==> #[trigger] s[i] <= '\u{7f}'
}

/// `s` in small letters.
pub open spec fn lowercase(s: Seq<char>) -> Seq<char> {
    if is_ascii(s) {
        s.map_values(|c: char| ascii_lower(c))
    } else {
        unicode_lowercase(s)
    }
}

/// `str::to_lowercase`: states its result for text of the ASCII range, where
/// each capital letter becomes its small one, and names it beyond.
#[verifier::external_body]
pub(crate) fn to_lowercase(s: &str) -> (r: String)
    ensures
        is_ascii(s@) ==> r@ == s@.map_values(|c: char| ascii_lower(c)),
        !is_ascii(s@) ==> r@ == unicode_lowercase(s@),
{
    s.to_lowercase()
}

/// `c`, or a blank in place of what is neither a letter nor a digit.
pub open spec fn word_char(c: char) -> char {
    if is_letter(c) || is_digit(c) {
        c
    } else {
        ' '
    }
}

/// The identifier that a name stands for: its words in camel case.
pub open spec fn identifier(name: Seq<char>) -> Seq<char> {
    camel(name.map_values(|c: char| word_char(c)))
}

/// The identifier that `name` stands for.
pub fn to_identifier(name: &str) -> (r: String)
    ensures
        r@ == identifier(name@),
{
    let v: Vec<char> = chars_of(name);
    let ghost all = name@.map_values(|c: char| word_char(c));
    let mut words: String = String::new();
    let mut i: usize = 0;
    assert(all.take(0) =~= seq![]);
    while i < v.len()
        invariant
            v@ == name@,
            all == name@.map_values(|c: char| word_char(c)),
            i <= v.len(),
            words@ == all.take(i as int),
        decreases v.len() - i,
    {
        let c: char = v[i];
        let kept: bool = ('A' <= c && c <= 'Z') || ('a' <= c && c <= 'z') || ('0' <= c && c
            <= '9');
        assert(all.take(i + 1) =~= all.take(i as int).push(word_char(c)));
        words.push(
            if kept {
                c
            } else {
                ' '
            },
        );
        i = i + 1;
    }
    assert(all.take(i as int) =~= all);
    to_camel(words.as_str())
}

proof fn lemma_camel(s: Seq<char>)
    requires
        is_words(s),
    ensures
        forall|i: int|
            0 <= i < camel(s).len() ==> is_letter(#[trigger] camel(s)[i]) || is_digit(camel(s)[i]),
    decreases s.len(),
{
    if s.len() > 0 {
        assert forall|i: int| 0 <= i < s.drop_last().len() implies is_word_char(
            #[trigger] s.drop_last()[i],
        ) by {
            assert(is_word_char(s[i]));
        }
        lemma_camel(s.drop_last());
        let c = s.last();
        assert(is_word_char(c));
        if c != ' ' {
            assert(is_letter(ascii_upper(c)) || is_digit(ascii_upper(c)));
            assert(is_letter(ascii_lower(c)) || is_digit(ascii_lower(c)));
            let done = camel(s.drop_last());
            assert(camel(s) == done.push(ascii_upper(c)) || camel(s) == done.push(ascii_lower(c)));
            assert forall|i: int| 0 <= i < camel(s).len() implies is_letter(
                #[trigger] camel(s)[i],
            ) || is_digit(camel(s)[i]) by {
                if i < done.len() {
                    assert(camel(s)[i] == done[i]);
                }
            }
        }
    }
}

/// An identifier is made of letters and digits of the ASCII range.
pub proof fn law_identifier(name: Seq<char>)
    ensures
        forall|i: int|
            0 <= i < identifier(name).len() ==> is_letter(#[trigger] identifier(name)[i])
                || is_digit(identifier(name)[i]),
{
    lemma_camel(name.map_values(|c: char| word_char(c)));
}

} // verus!
