//! Text as a sequence of characters: searching, cutting, splitting, joining.
//!
//! Every function here is stated over `Seq<char>`, the view of `str` and
//! `String`, and positions are counted in characters.

use vstd::prelude::*;

verus! {

/// `pattern` stands in `s` at position `i`.
pub open spec fn matches_at(s: Seq<char>, pattern: Seq<char>, i: int) -> bool {
    &&& 0 <= i
    &&& i + pattern.len() <= s.len()
    &&& s.subrange(i, i + pattern.len()) == pattern
}

/// The first position at or after `i` at which `pattern` stands in `s`.
pub open spec fn find_from(s: Seq<char>, pattern: Seq<char>, i: int) -> Option<int>
    decreases s.len() - i + 1,
{
    if i + pattern.len() > s.len() {
        None
    } else if matches_at(s, pattern, i) {
        Some(i)
    } else {
        find_from(s, pattern, i + 1)
    }
}

/// The first position at which `pattern` stands in `s`.
pub open spec fn found(s: Seq<char>, pattern: Seq<char>) -> Option<int> {
    find_from(s, pattern, 0)
}

/// What `find_from` gives is a place where `pattern` stands, and no earlier
/// place at or after `i` is one.
pub proof fn lemma_find_from(s: Seq<char>, pattern: Seq<char>, i: int)
    requires
        0 <= i,
    ensures
        match find_from(s, pattern, i) {
            Some(k) => i <= k && matches_at(s, pattern, k) && forall|j: int|
                i <= j < k ==> !#[trigger] matches_at(s, pattern, j),
            None => forall|j: int| i <= j ==> !#[trigger] matches_at(s, pattern, j),
        },
    decreases s.len() - i + 1,
{
    if i + pattern.len() <= s.len() && !matches_at(s, pattern, i) {
        lemma_find_from(s, pattern, i + 1);
    }
}

/// The characters of `s`.
pub fn chars_of(s: &str) -> (v: Vec<char>)
    ensures
        v@ == s@,
{
    let mut v: Vec<char> = Vec::new();
    for c in it: s.chars()
        invariant
            it.seq() == s@,
            v@ == s@.take(it.index()),
    {
        proof {
            assert(s@.take(it.index() + 1) =~= s@.take(it.index()).push(c));
        }
        v.push(c);
    }
    assert(s@.take(s@.len() as int) =~= s@);
    v
}

/// Whether `a` and `b` hold the same characters.
pub fn same(a: &str, b: &str) -> (r: bool)
    ensures
        r == (a@ == b@),
{
    a.to_owned() == b.to_owned()
}

/// The first position of `pattern` in `s`.
pub fn find(s: &str, pattern: &str) -> (r: Option<usize>)
    ensures
        match r {
            Some(i) => found(s@, pattern@) == Some(i as int),
            None => found(s@, pattern@) is None,
        },
{
    let hay: Vec<char> = chars_of(s);
    let pin: Vec<char> = chars_of(pattern);
    if pin.len() > hay.len() {
        return None;
    }
    let last: usize = hay.len() - pin.len();
    let mut i: usize = 0;
    while i <= last
        invariant
            hay@ == s@,
            pin@ == pattern@,
            last == hay.len() - pin.len(),
            0 <= i <= last + 1,
            found(s@, pattern@) == find_from(s@, pattern@, i as int),
        decreases last + 1 - i,
    {
        let mut j: usize = 0;
        let mut equal: bool = true;
        while j < pin.len() && equal
            invariant
                hay@ == s@,
                pin@ == pattern@,
                i + pin.len() <= hay.len(),
                j <= pin.len(),
                equal ==> forall|k: int| 0 <= k < j ==> hay@[i + k] == pin@[k],
                !equal ==> !matches_at(s@, pattern@, i as int),
            decreases pin.len() - j + (if equal { 1int } else { 0int }),
        {
            if hay[i + j] == pin[j] {
                j = j + 1;
            } else {
                proof {
                    if matches_at(s@, pattern@, i as int) {
                        assert(s@.subrange(i as int, i + pattern@.len())[j as int] == pattern@[j as int]);
                    }
                }
                equal = false;
            }
        }
        if equal {
            assert(s@.subrange(i as int, i + pattern@.len()) =~= pattern@);
            return Some(i);
        }
        if i == last {
            assert(find_from(s@, pattern@, i + 1) is None);
            return None;
        }
        i = i + 1;
    }
    None
}

/// Whether `pattern` stands anywhere in `s`.
pub fn contains(s: &str, pattern: &str) -> (r: bool)
    ensures
        r == (found(s@, pattern@) is Some),
{
    match find(s, pattern) {
        Some(_) => true,
        None => false,
    }
}

/// The characters of `s` from position `from` to before position `to`.
pub fn part(s: &str, from: usize, to: usize) -> (r: String)
    requires
        from <= to <= s@.len(),
    ensures
        r@ == s@.subrange(from as int, to as int),
{
    s.substring_char(from, to).to_owned()
}

/// `s` with every occurrence of `pattern`, read from the left, replaced by `by`.
pub open spec fn replaced(s: Seq<char>, pattern: Seq<char>, by: Seq<char>) -> Seq<char>
    decreases s.len(),
{
    match found(s, pattern) {
        Some(i) => if 0 < pattern.len() && 0 <= i && i + pattern.len() <= s.len() {
            s.take(i) + by + replaced(s.skip(i + pattern.len()), pattern, by)
        } else {
            s
        },
        None => s,
    }
}

/// `s` with every occurrence of `pattern` replaced by `by`.
pub fn replace(s: &str, pattern: &str, by: &str) -> (r: String)
    requires
        pattern@.len() > 0,
    ensures
        r@ == replaced(s@, pattern@, by@),
{
    let width: usize = pattern.unicode_len();
    let mut rest: String = s.to_owned();
    let mut out: String = String::new();
    loop
        invariant
            width == pattern@.len(),
            width > 0,
            out@ + replaced(rest@, pattern@, by@) == replaced(s@, pattern@, by@),
        decreases rest@.len(),
    {
        match find(rest.as_str(), pattern) {
            Some(i) => {
                proof {
                    lemma_find_from(rest@, pattern@, 0);
                }
                let ghost before = out@;
                let ghost whole = rest@;
                let len: usize = rest.as_str().unicode_len();
                let head: String = part(rest.as_str(), 0, i);
                let next: String = part(rest.as_str(), i + width, len);
                out.append(head.as_str());
                out.append(by);
                rest = next;
                proof {
                    assert(rest@ =~= whole.skip(i + width));
                    assert(head@ =~= whole.take(i as int));
                    assert(out@ + replaced(rest@, pattern@, by@) =~= before + (whole.take(i as int)
                        + by@ + replaced(rest@, pattern@, by@)));
                }
            },
            None => {
                out.append(rest.as_str());
                return out;
            },
        }
    }
}

/// Whether `c`, which is beyond the ASCII range, has the Unicode property
/// `White_Space`.
pub uninterp spec fn white_space(c: char) -> bool;

/// `c` is whitespace: in the ASCII range the blank and the controls from tab to
/// carriage return, and beyond it what has the Unicode property.
pub open spec fn whitespace(c: char) -> bool {
    if c <= '\u{7f}' {
        c == ' ' || '\t' <= c <= '\r'
    } else {
        white_space(c)
    }
}

/// `char::is_whitespace`: states its answer in the ASCII range, where the blank
/// and the controls from tab to carriage return are the only ones with the
/// property `White_Space`, and names it beyond.
#[verifier::external_body]
fn is_whitespace(c: char) -> (r: bool)
    ensures
        c <= '\u{7f}' ==> r == (c == ' ' || '\t' <= c <= '\r'),
        c > '\u{7f}' ==> r == white_space(c),
{
    c.is_whitespace()
}

/// `s` without the whitespace at its end.
pub open spec fn trimmed_end(s: Seq<char>) -> Seq<char>
    decreases s.len(),
{
    if s.len() > 0 && whitespace(s.last()) {
        trimmed_end(s.drop_last())
    } else {
        s
    }
}

/// `s` without the whitespace at its beginning.
pub open spec fn trimmed_start(s: Seq<char>) -> Seq<char>
    decreases s.len(),
{
    if s.len() > 0 && whitespace(s.first()) {
        trimmed_start(s.drop_first())
    } else {
        s
    }
}

/// `s` without the whitespace at either end.
pub open spec fn trimmed(s: Seq<char>) -> Seq<char> {
    trimmed_end(trimmed_start(s))
}

/// `s` without the whitespace at either end. A text that neither begins nor
/// ends with whitespace stays as it is.
pub fn trim(s: &str) -> (r: String)
    ensures
        r@ == trimmed(s@),
        s@.len() > 0 && !whitespace(s@.first()) && !whitespace(s@.last()) ==> r@ == s@,
{
    let v: Vec<char> = chars_of(s);
    let mut from: usize = 0;
    assert(s@.skip(0) =~= s@);
    while from < v.len() && is_whitespace(v[from])
        invariant
            v@ == s@,
            from <= v.len(),
            trimmed_start(s@) == trimmed_start(s@.skip(from as int)),
        ensures
            from <= v.len(),
            trimmed_start(s@) == s@.skip(from as int),
        decreases v.len() - from,
    {
        assert(s@.skip(from as int).drop_first() =~= s@.skip(from + 1));
        from = from + 1;
    }
    let mut to: usize = v.len();
    assert(s@.subrange(from as int, to as int) =~= s@.skip(from as int));
    while from < to && is_whitespace(v[to - 1])
        invariant
            v@ == s@,
            from <= to <= v.len(),
            trimmed(s@) == trimmed_end(s@.subrange(from as int, to as int)),
        ensures
            from <= to <= v.len(),
            trimmed(s@) == s@.subrange(from as int, to as int),
        decreases to,
    {
        assert(s@.subrange(from as int, to as int).drop_last() =~= s@.subrange(
            from as int,
            to - 1,
        ));
        to = to - 1;
    }
    part(s, from, to)
}

/// The first position at or after `i` at which `c` stands in `s`, or the
/// length of `s`.
pub open spec fn stop_at(s: Seq<char>, c: char, i: int) -> int
    decreases s.len() - i,
{
    if i >= s.len() || s[i] == c {
        i
    } else {
        stop_at(s, c, i + 1)
    }
}

/// The pieces of `s` between the characters `c`.
pub open spec fn pieces(s: Seq<char>, c: char) -> Seq<Seq<char>>
    decreases s.len(),
{
    let i = stop_at(s, c, 0);
    if 0 <= i < s.len() {
        seq![s.take(i)] + pieces(s.skip(i + 1), c)
    } else {
        seq![s]
    }
}

/// `s` without one carriage return at its end.
pub open spec fn without_return(s: Seq<char>) -> Seq<char> {
    if s.len() > 0 && s.last() == '\r' {
        s.drop_last()
    } else {
        s
    }
}

/// The lines of `s`: what stands before each line feed, without a carriage
/// return right before it, and what follows the last one unless it is empty.
pub open spec fn lines_of(s: Seq<char>) -> Seq<Seq<char>>
    decreases s.len(),
{
    let i = stop_at(s, '\n', 0);
    if s.len() == 0 {
        seq![]
    } else if 0 <= i < s.len() {
        seq![without_return(s.take(i))] + lines_of(s.skip(i + 1))
    } else {
        seq![s]
    }
}

/// What `stop_at` gives is the first such position, or the length.
pub proof fn lemma_stop_at(s: Seq<char>, c: char, i: int)
    requires
        0 <= i <= s.len(),
    ensures
        i <= stop_at(s, c, i) <= s.len(),
        stop_at(s, c, i) < s.len() ==> s[stop_at(s, c, i)] == c,
        forall|j: int| i <= j < stop_at(s, c, i) ==> s[j] != c,
    decreases s.len() - i,
{
    if i < s.len() && s[i] != c {
        lemma_stop_at(s, c, i + 1);
    }
}

/// The first position of `c` in `v` at or after `from`, or the length of `v`.
fn stop(v: &Vec<char>, c: char, from: usize) -> (r: usize)
    requires
        from <= v.len(),
    ensures
        r == stop_at(v@, c, from as int),
        from <= r <= v.len(),
        r < v.len() ==> v@[r as int] == c,
{
    let mut i: usize = from;
    while i < v.len() && v[i] != c
        invariant
            from <= i <= v.len(),
            stop_at(v@, c, from as int) == stop_at(v@, c, i as int),
        ensures
            from <= i <= v.len(),
            stop_at(v@, c, from as int) == i,
        decreases v.len() - i,
    {
        i = i + 1;
    }
    proof {
        lemma_stop_at(v@, c, from as int);
    }
    i
}

proof fn lemma_stop_at_skip(s: Seq<char>, c: char, from: int, i: int)
    requires
        0 <= from,
        0 <= i,
        from + i <= s.len(),
    ensures
        stop_at(s, c, from + i) == from + stop_at(s.skip(from), c, i),
    decreases s.len() - from - i,
{
    if from + i < s.len() && s[from + i] != c {
        lemma_stop_at_skip(s, c, from, i + 1);
    }
}

/// The pieces of `s` between the characters `c`.
pub fn split(s: &str, c: char) -> (r: Vec<String>)
    ensures
        r.deep_view() == pieces(s@, c),
{
    let v: Vec<char> = chars_of(s);
    let mut out: Vec<String> = Vec::new();
    let mut from: usize = 0;
    assert(s@.skip(0) =~= s@);
    assert(out.deep_view() + pieces(s@, c) =~= pieces(s@, c));
    loop
        invariant
            v@ == s@,
            from <= v.len(),
            out.deep_view() + pieces(s@.skip(from as int), c) == pieces(s@, c),
        decreases v.len() - from,
    {
        let i: usize = stop(&v, c, from);
        let ghost rest = s@.skip(from as int);
        proof {
            lemma_stop_at_skip(s@, c, from as int, 0);
        }
        let piece: String = part(s, from, i);
        let ghost before = out.deep_view();
        out.push(piece);
        assert(out.deep_view() =~= before.push(piece@));
        assert(piece@ =~= rest.take(i - from));
        if i < v.len() {
            proof {
                assert(rest.skip(i - from + 1) =~= s@.skip(i + 1));
                assert(out.deep_view() + pieces(s@.skip(i + 1), c) =~= before + (seq![piece@]
                    + pieces(s@.skip(i + 1), c)));
            }
            from = i + 1;
        } else {
            proof {
                assert(piece@ =~= rest);
                assert(out.deep_view() =~= before + seq![piece@]);
            }
            return out;
        }
    }
}

/// The lines of `s`.
pub fn lines(s: &str) -> (r: Vec<String>)
    ensures
        r.deep_view() == lines_of(s@),
{
    let v: Vec<char> = chars_of(s);
    let mut out: Vec<String> = Vec::new();
    let mut from: usize = 0;
    assert(s@.skip(0) =~= s@);
    assert(out.deep_view() + lines_of(s@) =~= lines_of(s@));
    while from < v.len()
        invariant
            v@ == s@,
            from <= v.len(),
            out.deep_view() + lines_of(s@.skip(from as int)) == lines_of(s@),
        decreases v.len() - from,
    {
        let i: usize = stop(&v, '\n', from);
        let ghost rest = s@.skip(from as int);
        let ghost before = out.deep_view();
        proof {
            lemma_stop_at_skip(s@, '\n', from as int, 0);
        }
        if i < v.len() {
            let end: usize = if from < i && v[i - 1] == '\r' {
                i - 1
            } else {
                i
            };
            let line: String = part(s, from, end);
            out.push(line);
            proof {
                assert(out.deep_view() =~= before.push(line@));
                assert(line@ =~= without_return(rest.take(i - from)));
                assert(rest.skip(i - from + 1) =~= s@.skip(i + 1));
                assert(out.deep_view() + lines_of(s@.skip(i + 1)) =~= before + (seq![line@]
                    + lines_of(s@.skip(i + 1))));
            }
            from = i + 1;
        } else {
            let line: String = part(s, from, i);
            out.push(line);
            proof {
                assert(out.deep_view() =~= before.push(line@));
                assert(line@ =~= rest);
                assert(s@.skip(i as int) =~= seq![]);
                assert(out.deep_view() + lines_of(s@.skip(i as int)) =~= before + seq![line@]);
            }
            from = i;
        }
    }
    assert(s@.skip(from as int) =~= seq![]);
    assert(out.deep_view() + lines_of(seq![]) =~= out.deep_view());
    out
}

/// What stands in `s` before the first `c`, or all of `s`.
pub fn before(s: &str, c: char) -> (r: String)
    ensures
        r@ == pieces(s@, c)[0],
{
    let v: Vec<char> = chars_of(s);
    let i: usize = stop(&v, c, 0);
    let r: String = part(s, 0, i);
    assert(r@ =~= s@.take(i as int));
    assert(i == s@.len() ==> r@ =~= s@);
    r
}

/// The parts, with `sep` between any two neighbours.
pub open spec fn joined(parts: Seq<Seq<char>>, sep: Seq<char>) -> Seq<char>
    decreases parts.len(),
{
    if parts.len() == 0 {
        seq![]
    } else if parts.len() == 1 {
        parts[0]
    } else {
        joined(parts.drop_last(), sep) + sep + parts.last()
    }
}

/// The parts, with `sep` between any two neighbours.
pub fn join(parts: &Vec<String>, sep: &str) -> (r: String)
    ensures
        r@ == joined(parts.deep_view(), sep@),
{
    let ghost all = parts.deep_view();
    let mut out: String = String::new();
    let mut i: usize = 0;
    assert(all.take(0) =~= seq![]);
    while i < parts.len()
        invariant
            all == parts.deep_view(),
            i <= parts.len(),
            out@ == joined(all.take(i as int), sep@),
        decreases parts.len() - i,
    {
        proof {
            assert(all.take(i + 1).drop_last() =~= all.take(i as int));
            assert(all.take(i + 1).last() == parts@[i as int]@);
            if i == 0 {
                assert(out@ =~= seq![]);
                assert(out@ + parts@[0]@ =~= parts@[0]@);
            }
        }
        if i > 0 {
            out.append(sep);
        }
        out.append(parts[i].as_str());
        i = i + 1;
    }
    assert(all.take(i as int) =~= all);
    out
}

/// `a` stands before `b` in the order of the character codes.
pub open spec fn less(a: Seq<char>, b: Seq<char>) -> bool
    decreases a.len(),
{
    if b.len() == 0 {
        false
    } else if a.len() == 0 {
        true
    } else if a[0] == b[0] {
        less(a.drop_first(), b.drop_first())
    } else {
        a[0] < b[0]
    }
}

/// No text stands before itself.
pub proof fn law_less_irreflexive(a: Seq<char>)
    ensures
        !less(a, a),
    decreases a.len(),
{
    if a.len() > 0 {
        law_less_irreflexive(a.drop_first());
    }
}

/// What stands before something stands before all that comes after it.
pub proof fn law_less_transitive(a: Seq<char>, b: Seq<char>, c: Seq<char>)
    requires
        less(a, b),
        less(b, c),
    ensures
        less(a, c),
    decreases a.len(),
{
    if a.len() > 0 && a[0] == b[0] && b[0] == c[0] {
        law_less_transitive(a.drop_first(), b.drop_first(), c.drop_first());
    }
}

/// Of two texts that differ, one stands before the other.
pub proof fn law_less_total(a: Seq<char>, b: Seq<char>)
    ensures
        a == b || less(a, b) || less(b, a),
    decreases a.len(),
{
    if a.len() == 0 && b.len() == 0 {
        assert(a =~= b);
    } else if a.len() > 0 && b.len() > 0 && a[0] == b[0] {
        law_less_total(a.drop_first(), b.drop_first());
        if a.drop_first() == b.drop_first() {
            assert(a =~= seq![a[0]] + a.drop_first());
            assert(b =~= seq![b[0]] + b.drop_first());
        }
    }
}

/// Whether `a` stands before `b`.
pub fn is_less(a: &str, b: &str) -> (r: bool)
    ensures
        r == less(a@, b@),
{
    let x: Vec<char> = chars_of(a);
    let y: Vec<char> = chars_of(b);
    let mut i: usize = 0;
    assert(a@.skip(0) =~= a@);
    assert(b@.skip(0) =~= b@);
    while i < x.len() && i < y.len()
        invariant
            x@ == a@,
            y@ == b@,
            i <= x.len(),
            i <= y.len(),
            less(a@, b@) == less(a@.skip(i as int), b@.skip(i as int)),
        decreases x.len() - i,
    {
        if x[i] != y[i] {
            return x[i] < y[i];
        }
        assert(a@.skip(i as int).drop_first() =~= a@.skip(i + 1));
        assert(b@.skip(i as int).drop_first() =~= b@.skip(i + 1));
        i = i + 1;
    }
    i < y.len()
}

/// A copy of the texts.
pub(crate) fn copy_texts(v: &Vec<String>) -> (r: Vec<String>)
    ensures
        r.deep_view() == v.deep_view(),
{
    let mut out: Vec<String> = Vec::new();
    let mut i: usize = 0;
    while i < v.len()
        invariant
            i <= v.len(),
            out@.len() == i,
            forall|k: int| 0 <= k < i ==> (#[trigger] out@[k]) == v@[k],
        decreases v.len() - i,
    {
        out.push(v[i].clone());
        i = i + 1;
    }
    assert(out.deep_view() =~= v.deep_view());
    out
}

/// The first position at or after `i` at which whitespace stands in `s`, or
/// the length of `s`.
pub open spec fn word_end(s: Seq<char>, i: int) -> int
    decreases s.len() - i,
{
    if i >= s.len() || whitespace(s[i]) {
        i
    } else {
        word_end(s, i + 1)
    }
}

/// The words of `s`: the longest runs in it without whitespace.
pub open spec fn words_of(s: Seq<char>) -> Seq<Seq<char>>
    decreases s.len(),
{
    let i = word_end(s, 0);
    if s.len() == 0 {
        seq![]
    } else if i == 0 {
        words_of(s.drop_first())
    } else if 0 < i <= s.len() {
        seq![s.take(i)] + words_of(s.skip(i))
    } else {
        seq![]
    }
}

proof fn lemma_word_end(s: Seq<char>, from: int, i: int)
    requires
        0 <= from,
        0 <= i,
        from + i <= s.len(),
    ensures
        word_end(s, from + i) == from + word_end(s.skip(from), i),
        from + i <= word_end(s, from + i) <= s.len(),
    decreases s.len() - from - i,
{
    if from + i < s.len() && !whitespace(s[from + i]) {
        lemma_word_end(s, from, i + 1);
    }
}

/// The words of `s`.
pub fn words(s: &str) -> (r: Vec<String>)
    ensures
        r.deep_view() == words_of(s@),
{
    let v: Vec<char> = chars_of(s);
    let mut out: Vec<String> = Vec::new();
    let mut from: usize = 0;
    assert(s@.skip(0) =~= s@);
    assert(out.deep_view() + words_of(s@) =~= words_of(s@));
    while from < v.len()
        invariant
            v@ == s@,
            from <= v.len(),
            out.deep_view() + words_of(s@.skip(from as int)) == words_of(s@),
        decreases v.len() - from,
    {
        let ghost rest = s@.skip(from as int);
        proof {
            lemma_word_end(s@, from as int, 0);
        }
        let mut to: usize = from;
        while to < v.len() && !is_whitespace(v[to])
            invariant
                v@ == s@,
                from <= to <= v.len(),
                word_end(s@, from as int) == word_end(s@, to as int),
            ensures
                from <= to <= v.len(),
                word_end(s@, from as int) == to,
            decreases v.len() - to,
        {
            to = to + 1;
        }
        if to == from {
            assert(rest.drop_first() =~= s@.skip(from + 1));
            from = from + 1;
        } else {
            let word: String = part(s, from, to);
            let ghost before = out.deep_view();
            out.push(word);
            proof {
                assert(out.deep_view() =~= before.push(word@));
                assert(word@ =~= rest.take(to - from));
                assert(rest.skip(to - from) =~= s@.skip(to as int));
                assert(out.deep_view() + words_of(s@.skip(to as int)) =~= before + (seq![word@]
                    + words_of(s@.skip(to as int))));
            }
            from = to;
        }
    }
    assert(s@.skip(from as int) =~= seq![]);
    assert(out.deep_view() + words_of(seq![]) =~= out.deep_view());
    out
}

} // verus!
