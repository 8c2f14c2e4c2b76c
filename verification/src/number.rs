//! Numbers written out in text.

use vstd::prelude::*;

use crate::text::{chars_of, is_less, less};

verus! {

/// A decimal digit of the ASCII range.
pub open spec fn is_digit(c: char) -> bool {
    '0' <= c <= '9'
}

/// The number that a run of decimal digits stands for.
pub open spec fn digits_value(s: Seq<char>) -> nat
    decreases s.len(),
{
    if s.len() == 0 {
        0
    } else {
        digits_value(s.drop_last()) * 10 + (s.last() as nat - '0' as nat) as nat
    }
}

/// The digit with the value `n`.
pub open spec fn digit(n: nat) -> char {
    ('0' as u32 + n) as char
}

/// The decimal digits of `n`, without leading zeros.
pub open spec fn decimal(n: nat) -> Seq<char>
    decreases n,
{
    if n < 10 {
        seq![digit(n)]
    } else {
        decimal(n / 10).push(digit(n % 10))
    }
}

/// `n` in decimal digits, with a minus sign where it is negative.
pub open spec fn signed_decimal(n: int) -> Seq<char> {
    if n < 0 {
        seq!['-'] + decimal((-n) as nat)
    } else {
        decimal(n as nat)
    }
}

/// `s` begins with a sign.
pub open spec fn has_sign(s: Seq<char>) -> bool {
    s.len() > 0 && (s[0] == '+' || s[0] == '-')
}

/// `s` without a sign at its beginning.
pub open spec fn unsigned(s: Seq<char>) -> Seq<char> {
    if has_sign(s) {
        s.skip(1)
    } else {
        s
    }
}

/// The integer that `s` stands for: one or more digits, with at most one sign
/// before them, whose value fits in 64 bits.
pub open spec fn integer_of(s: Seq<char>) -> Option<i64> {
    let body = unsigned(s);
    let value = digits_value(body);
    let n: int = if has_sign(s) && s[0] == '-' {
        -(value as int)
    } else {
        value as int
    };
    if body.len() > 0 && (forall|i: int| 0 <= i < body.len() ==> is_digit(#[trigger] body[i]))
        && i64::MIN <= n <= i64::MAX {
        Some(n as i64)
    } else {
        None
    }
}

/// The first position at or after `i` at which no digit stands.
pub open spec fn digits_end(s: Seq<char>, i: int) -> int
    decreases s.len() - i,
{
    if 0 <= i < s.len() && is_digit(s[i]) {
        digits_end(s, i + 1)
    } else {
        i
    }
}

/// The position behind the digits, the point and the digits that `s` begins with.
pub open spec fn mantissa_end(s: Seq<char>) -> int {
    let a = digits_end(s, 0);
    if a < s.len() && s[a] == '.' {
        digits_end(s, a + 1)
    } else {
        a
    }
}

/// `s` begins with digits, or with a point and digits behind it.
pub open spec fn has_mantissa(s: Seq<char>) -> bool {
    let a = digits_end(s, 0);
    a > 0 || mantissa_end(s) > a + 1
}

/// What stands in `s` from `i` on is empty, or an exponent: the letter `e`, at
/// most one sign and one or more digits.
pub open spec fn exponent_at(s: Seq<char>, i: int) -> bool {
    if i >= s.len() {
        true
    } else {
        let j = if i + 1 < s.len() && (s[i + 1] == '+' || s[i + 1] == '-') {
            i + 2
        } else {
            i + 1
        };
        (s[i] == 'e' || s[i] == 'E') && digits_end(s, j) > j && digits_end(s, j) == s.len()
    }
}

/// The small letter for a capital one of the ASCII range, and any other
/// character itself.
pub open spec fn ascii_lower(c: char) -> char {
    if 'A' <= c <= 'Z' {
        (c as u32 + 32) as char
    } else {
        c
    }
}

/// `s` spells one of the values that are no finite number.
pub open spec fn is_special(s: Seq<char>) -> bool {
    let t = s.map_values(|c: char| ascii_lower(c));
    ||| t == seq!['i', 'n', 'f']
    ||| t == seq!['i', 'n', 'f', 'i', 'n', 'i', 't', 'y']
    ||| t == seq!['n', 'a', 'n']
}

/// `s` is a floating-point literal: at most one sign, and then either the name
/// of a special value or a mantissa with an optional exponent.
pub open spec fn is_float(s: Seq<char>) -> bool {
    is_special(unsigned(s)) || is_plain(unsigned(s))
}

/// `s` is a mantissa with an optional exponent.
pub open spec fn is_plain(s: Seq<char>) -> bool {
    has_mantissa(s) && exponent_at(s, mantissa_end(s))
}

/// The digits of the mantissa, without its point.
pub open spec fn mantissa(s: Seq<char>) -> Seq<char> {
    let a = digits_end(s, 0);
    if a < s.len() && s[a] == '.' {
        s.take(a) + s.subrange(a + 1, mantissa_end(s))
    } else {
        s.take(a)
    }
}

/// The digits without the zeros that they begin with.
pub open spec fn significant(digits: Seq<char>) -> Seq<char>
    decreases digits.len(),
{
    if digits.len() > 0 && digits[0] == '0' {
        significant(digits.skip(1))
    } else {
        digits
    }
}

/// The exponent that stands in `s` from `i` on.
pub open spec fn exponent(s: Seq<char>, i: int) -> int {
    if i >= s.len() {
        0
    } else if i + 1 < s.len() && s[i + 1] == '-' {
        -(digits_value(s.skip(i + 2)) as int)
    } else if i + 1 < s.len() && s[i + 1] == '+' {
        digits_value(s.skip(i + 2)) as int
    } else {
        digits_value(s.skip(i + 1)) as int
    }
}

/// How many digits, from the first that is not zero, stand before the point
/// where the number is written without an exponent.
pub open spec fn magnitude(s: Seq<char>) -> int {
    significant(mantissa(s)).len() - (mantissa(s).len() - digits_end(s, 0)) + exponent(
        s,
        mantissa_end(s),
    )
}

/// The digits of the least number that a double takes for infinite. It lies
/// halfway between the largest double, 2^1024 - 2^971, and 2^1024.
pub const INFINITE: &'static str = "\
    17976931348623158079372897140530341507993413271003782693617377898044496829276475\
    09466490179775872070963302864166928879109465555478519404026306574886715058206819\
    08902000708383676273854845817711531764475730270069855571366959622842914819860834\
    936475292719074168444365510704342711559699508093042880177904174497792";

/// The number of digits of `INFINITE`.
pub const INFINITE_DIGITS: i128 = 309;

/// `s` is a number that a double takes for infinite. `INFINITE` does not end
/// with a zero, so that digits which stand before it in the order of texts are
/// those of a smaller number of the same magnitude.
pub open spec fn is_huge(s: Seq<char>) -> bool {
    let digits = significant(mantissa(s));
    is_plain(s) && digits.len() > 0 && (magnitude(s) > INFINITE_DIGITS || (magnitude(s)
        == INFINITE_DIGITS && !less(digits, INFINITE@)))
}

/// `s` is a floating-point literal for a value that is no finite number.
pub open spec fn is_not_finite(s: Seq<char>) -> bool {
    is_special(unsigned(s)) || is_huge(unsigned(s))
}

/// Reads `s` as an integer.
pub fn parse_integer(s: &str) -> (r: Option<i64>)
    ensures
        r == integer_of(s@),
{
    let v: Vec<char> = chars_of(s);
    let signed: bool = v.len() > 0 && (v[0] == '+' || v[0] == '-');
    let negative: bool = v.len() > 0 && v[0] == '-';
    let start: usize = if signed {
        1
    } else {
        0
    };
    let ghost body = unsigned(s@);
    if v.len() == start {
        assert(body.len() == 0);
        return None;
    }
    let limit: u128 = 1 << 64;
    assert(limit == 0x1_0000_0000_0000_0000u128) by (bit_vector)
        requires
            limit == (1u128 << 64),
    ;
    let mut value: u128 = 0;
    let mut large: bool = false;
    let mut i: usize = start;
    assert(body.take(0) =~= seq![]);
    while i < v.len()
        invariant
            v@ == s@,
            start == (if has_sign(s@) { 1int } else { 0int }),
            body == unsigned(s@),
            start <= i <= v.len(),
            limit == 0x1_0000_0000_0000_0000u128,
            forall|k: int| 0 <= k < i - start ==> is_digit(#[trigger] body[k]),
            !large ==> value == digits_value(body.take(i - start)) && value < limit,
            large ==> digits_value(body.take(i - start)) >= limit,
        decreases v.len() - i,
    {
        let c: char = v[i];
        assert(c == body[i - start]);
        if c < '0' || c > '9' {
            return None;
        }
        proof {
            assert(body.take(i + 1 - start).drop_last() =~= body.take(i - start));
            assert(body.take(i + 1 - start).last() == c);
        }
        if !large {
            value = value * 10 + (c as u32 - '0' as u32) as u128;
            if value >= limit {
                large = true;
            }
        }
        i = i + 1;
    }
    assert(body.take(i - start) =~= body);
    if large {
        return None;
    }
    let n: i128 = if negative {
        -(value as i128)
    } else {
        value as i128
    };
    if n < i64::MIN as i128 || n > i64::MAX as i128 {
        return None;
    }
    Some(n as i64)
}

proof fn lemma_digits_end(s: Seq<char>, i: int)
    requires
        0 <= i <= s.len(),
    ensures
        i <= digits_end(s, i) <= s.len(),
    decreases s.len() - i,
{
    if i < s.len() && is_digit(s[i]) {
        lemma_digits_end(s, i + 1);
    }
}

/// The first position at or after `from` at which no digit stands.
fn end_of_digits(v: &Vec<char>, from: usize) -> (r: usize)
    requires
        from <= v.len(),
    ensures
        r == digits_end(v@, from as int),
        from <= r <= v.len(),
{
    let mut i: usize = from;
    while i < v.len() && '0' <= v[i] && v[i] <= '9'
        invariant
            from <= i <= v.len(),
            digits_end(v@, from as int) == digits_end(v@, i as int),
        ensures
            from <= i <= v.len(),
            digits_end(v@, from as int) == i,
        decreases v.len() - i,
    {
        i = i + 1;
    }
    i
}

/// The small letter for a capital one of the ASCII range.
fn to_ascii_lower(c: char) -> (r: char)
    ensures
        r == ascii_lower(c),
{
    match c {
        'A' => 'a', 'B' => 'b', 'C' => 'c', 'D' => 'd', 'E' => 'e', 'F' => 'f', 'G' => 'g',
        'H' => 'h', 'I' => 'i', 'J' => 'j', 'K' => 'k', 'L' => 'l', 'M' => 'm', 'N' => 'n',
        'O' => 'o', 'P' => 'p', 'Q' => 'q', 'R' => 'r', 'S' => 's', 'T' => 't', 'U' => 'u',
        'V' => 'v', 'W' => 'w', 'X' => 'x', 'Y' => 'y', 'Z' => 'z',
        _ => c,
    }
}

/// Whether `v`, read without regard to case, spells `word`.
fn spells(v: &Vec<char>, word: &Vec<char>) -> (r: bool)
    ensures
        r == (v@.map_values(|c: char| ascii_lower(c)) == word@),
{
    let ghost t = v@.map_values(|c: char| ascii_lower(c));
    if v.len() != word.len() {
        assert(t.len() != word@.len());
        return false;
    }
    let mut i: usize = 0;
    while i < v.len()
        invariant
            t == v@.map_values(|c: char| ascii_lower(c)),
            v.len() == word.len(),
            i <= v.len(),
            forall|k: int| 0 <= k < i ==> t[k] == word@[k],
        decreases v.len() - i,
    {
        if to_ascii_lower(v[i]) != word[i] {
            assert(t[i as int] != word@[i as int]);
            return false;
        }
        i = i + 1;
    }
    assert(t =~= word@);
    true
}

/// `s` without a sign, character by character.
fn unsigned_chars(s: &str) -> (r: Vec<char>)
    ensures
        r@ == unsigned(s@),
{
    let mut v: Vec<char> = chars_of(s);
    if v.len() > 0 && (v[0] == '+' || v[0] == '-') {
        let _ = v.remove(0);
    }
    assert(v@ =~= unsigned(s@));
    v
}

/// Whether `v` spells one of the values that are no finite number.
fn spells_special(v: &Vec<char>) -> (r: bool)
    ensures
        r == is_special(v@),
{
    let inf: Vec<char> = vec!['i', 'n', 'f'];
    let infinity: Vec<char> = vec!['i', 'n', 'f', 'i', 'n', 'i', 't', 'y'];
    let nan: Vec<char> = vec!['n', 'a', 'n'];
    assert(inf@ =~= seq!['i', 'n', 'f']);
    assert(infinity@ =~= seq!['i', 'n', 'f', 'i', 'n', 'i', 't', 'y']);
    assert(nan@ =~= seq!['n', 'a', 'n']);
    spells(v, &inf) || spells(v, &infinity) || spells(v, &nan)
}

/// Whether `v` is a mantissa with an optional exponent.
fn spells_plain(v: &Vec<char>) -> (r: bool)
    ensures
        r == is_plain(v@),
{
    let a: usize = end_of_digits(v, 0);
    let b: usize = end_of_mantissa(v);
    if a == 0 && (b == 0 || b == a + 1) {
        return false;
    }
    if b == v.len() {
        return true;
    }
    if v[b] != 'e' && v[b] != 'E' {
        return false;
    }
    let j: usize = if b + 1 < v.len() && (v[b + 1] == '+' || v[b + 1] == '-') {
        b + 2
    } else {
        b + 1
    };
    let d: usize = end_of_digits(v, j);
    d > j && d == v.len()
}

/// The position behind the mantissa.
fn end_of_mantissa(v: &Vec<char>) -> (r: usize)
    ensures
        r == mantissa_end(v@),
        digits_end(v@, 0) <= r <= v.len(),
        digits_end(v@, 0) < v.len() && v@[digits_end(v@, 0)] == '.' ==> digits_end(v@, 0) < r,
{
    let a: usize = end_of_digits(v, 0);
    if a < v.len() && v[a] == '.' {
        end_of_digits(v, a + 1)
    } else {
        a
    }
}

/// More than any number of characters.
const FAR: i128 = 1_000_000_000_000_000_000_000;

/// `n`, or `FAR` where that is less.
spec fn capped(n: nat) -> int {
    if n < FAR {
        n as int
    } else {
        FAR as int
    }
}

proof fn lemma_all_digits(s: Seq<char>, i: int)
    requires
        0 <= i <= s.len(),
        digits_end(s, i) == s.len(),
    ensures
        forall|k: int| i <= k < s.len() ==> is_digit(#[trigger] s[k]),
    decreases s.len() - i,
{
    if i < s.len() {
        lemma_all_digits(s, i + 1);
    }
}

/// The value of the digits from `from` on, or `FAR` where that is less.
fn capped_value(v: &Vec<char>, from: usize) -> (r: i128)
    requires
        from <= v.len(),
        digits_end(v@, from as int) == v.len(),
    ensures
        r == capped(digits_value(v@.skip(from as int))),
{
    proof {
        lemma_all_digits(v@, from as int);
    }
    let mut n: i128 = 0;
    let mut i: usize = from;
    while i < v.len()
        invariant
            from <= i <= v.len(),
            forall|k: int| from <= k < v.len() ==> is_digit(#[trigger] v@[k]),
            0 <= n <= FAR,
            n == capped(digits_value(v@.subrange(from as int, i as int))),
        decreases v.len() - i,
    {
        proof {
            let next = v@.subrange(from as int, i + 1);
            assert(next.drop_last() =~= v@.subrange(from as int, i as int));
            assert(next.last() == v@[i as int]);
        }
        let d: i128 = v[i] as u32 as i128 - 48;
        let m: i128 = n * 10 + d;
        n = if m < FAR {
            m
        } else {
            FAR
        };
        i = i + 1;
    }
    assert(v@.subrange(from as int, i as int) =~= v@.skip(from as int));
    n
}

/// The exponent from `i` on, which is taken for `FAR` where it is further.
fn capped_exponent(v: &Vec<char>, i: usize) -> (r: i128)
    requires
        i <= v.len(),
        exponent_at(v@, i as int),
    ensures
        exponent(v@, i as int) < -FAR ==> r == -FAR,
        exponent(v@, i as int) > FAR ==> r == FAR,
        -FAR <= exponent(v@, i as int) <= FAR ==> r == exponent(v@, i as int),
{
    if i == v.len() {
        0
    } else if i + 1 < v.len() && v[i + 1] == '-' {
        -capped_value(v, i + 2)
    } else if i + 1 < v.len() && v[i + 1] == '+' {
        capped_value(v, i + 2)
    } else {
        capped_value(v, i + 1)
    }
}

/// The digits of the mantissa, without its point.
fn mantissa_chars(v: &Vec<char>) -> (r: Vec<char>)
    ensures
        r@ == mantissa(v@),
{
    let a: usize = end_of_digits(v, 0);
    let b: usize = end_of_mantissa(v);
    let mut out: Vec<char> = Vec::new();
    let mut i: usize = 0;
    while i < a
        invariant
            i <= a <= v.len(),
            out@ == v@.take(i as int),
        decreases a - i,
    {
        out.push(v[i]);
        assert(out@ =~= v@.take(i + 1));
        i = i + 1;
    }
    if a < b {
        i = a + 1;
        assert(out@ =~= v@.take(a as int) + v@.subrange(a + 1, i as int));
        while i < b
            invariant
                a + 1 <= i <= b <= v.len(),
                out@ == v@.take(a as int) + v@.subrange(a + 1, i as int),
            decreases b - i,
        {
            out.push(v[i]);
            assert(out@ =~= v@.take(a as int) + v@.subrange(a + 1, i + 1));
            i = i + 1;
        }
    }
    out
}

/// The digits without the zeros that they begin with.
fn significant_digits(v: &Vec<char>) -> (r: String)
    ensures
        r@ == significant(v@),
{
    let mut k: usize = 0;
    assert(v@.skip(0) =~= v@);
    while k < v.len() && v[k] == '0'
        invariant
            k <= v.len(),
            significant(v@) == significant(v@.skip(k as int)),
        ensures
            k <= v.len(),
            significant(v@) == v@.skip(k as int),
        decreases v.len() - k,
    {
        assert(v@.skip(k as int).skip(1) =~= v@.skip(k + 1));
        k = k + 1;
    }
    let ghost from = k as int;
    let mut out: String = "".to_owned();
    proof {
        reveal_strlit("");
        assert(out@ =~= v@.subrange(from, from));
    }
    while k < v.len()
        invariant
            0 <= from <= k <= v.len(),
            out@ == v@.subrange(from, k as int),
        decreases v.len() - k,
    {
        out.push(v[k]);
        assert(out@ =~= v@.subrange(from, k + 1));
        k = k + 1;
    }
    assert(out@ =~= v@.skip(from));
    out
}

/// Whether `v` is a number that a double takes for infinite.
fn spells_huge(v: &Vec<char>) -> (r: bool)
    ensures
        r == is_huge(v@),
{
    if !spells_plain(v) {
        return false;
    }
    let a: usize = end_of_digits(v, 0);
    let b: usize = end_of_mantissa(v);
    let all: Vec<char> = mantissa_chars(v);
    let digits: String = significant_digits(&all);
    let len: usize = digits.as_str().unicode_len();
    if len == 0 {
        return false;
    }
    let before: i128 = len as i128 - all.len() as i128 + a as i128;
    let places: i128 = before + capped_exponent(v, b);
    if places > INFINITE_DIGITS {
        true
    } else if places == INFINITE_DIGITS {
        !is_less(digits.as_str(), INFINITE)
    } else {
        false
    }
}

/// Whether `s` is a floating-point literal for a value that is no finite number.
pub fn parses_as_not_finite(s: &str) -> (r: bool)
    ensures
        r == is_not_finite(s@),
{
    let v: Vec<char> = unsigned_chars(s);
    spells_special(&v) || spells_huge(&v)
}

/// Whether `s` is a floating-point literal.
pub fn parses_as_float(s: &str) -> (r: bool)
    ensures
        r == is_float(s@),
{
    let v: Vec<char> = unsigned_chars(s);
    spells_special(&v) || spells_plain(&v)
}

/// `String::push` adds one character at the end.
pub assume_specification[ std::string::String::push ](s: &mut std::string::String, c: char)
    ensures
        final(s)@ == old(s)@.push(c),
;

/// The digit with the value `n`.
fn to_digit(n: u64) -> (r: char)
    requires
        n < 10,
    ensures
        r == digit(n as nat),
{
    match n {
        0 => '0', 1 => '1', 2 => '2', 3 => '3', 4 => '4', 5 => '5', 6 => '6', 7 => '7', 8 => '8',
        _ => '9',
    }
}

/// `n` in decimal digits.
pub fn to_decimal(n: u64) -> (r: String)
    ensures
        r@ == decimal(n as nat),
    decreases n,
{
    if n < 10 {
        let mut s: String = String::new();
        s.push(to_digit(n));
        assert(s@ =~= seq![digit(n as nat)]);
        s
    } else {
        let mut s: String = to_decimal(n / 10);
        s.push(to_digit(n % 10));
        s
    }
}

/// `n` in decimal digits, with a minus sign where it is negative.
pub fn to_signed_decimal(n: i64) -> (r: String)
    ensures
        r@ == signed_decimal(n as int),
{
    if n < 0 {
        let m: u64 = (-(n as i128)) as u64;
        let mut s: String = String::new();
        s.push('-');
        let digits: String = to_decimal(m);
        assert(s@ =~= seq!['-']);
        s.append(digits.as_str());
        s
    } else {
        to_decimal(n as u64)
    }
}

/// The decimal digits of a number stand for that number.
pub proof fn law_decimal(n: nat)
    ensures
        decimal(n).len() > 0,
        forall|i: int| 0 <= i < decimal(n).len() ==> is_digit(#[trigger] decimal(n)[i]),
        digits_value(decimal(n)) == n,
    decreases n,
{
    if n < 10 {
        assert(decimal(n).drop_last() =~= seq![]);
        assert(digits_value(seq![]) == 0);
    } else {
        law_decimal(n / 10);
        assert(decimal(n).drop_last() =~= decimal(n / 10));
    }
}

/// Different numbers have different decimal digits.
pub proof fn law_decimal_injective(a: nat, b: nat)
    requires
        decimal(a) == decimal(b),
    ensures
        a == b,
{
    law_decimal(a);
    law_decimal(b);
}

/// An integer is what is read back from its decimal digits.
pub proof fn law_integer_round_trip(n: i64)
    ensures
        integer_of(signed_decimal(n as int)) == Some(n),
{
    let s = signed_decimal(n as int);
    if n < 0 {
        law_decimal((-n) as nat);
        assert(s.skip(1) =~= decimal((-n) as nat));
    } else {
        law_decimal(n as nat);
        assert(is_digit(decimal(n as nat)[0]));
    }
}

/// Different integers are written differently.
pub proof fn law_signed_decimal_injective(a: i64, b: i64)
    requires
        signed_decimal(a as int) == signed_decimal(b as int),
    ensures
        a == b,
{
    law_integer_round_trip(a);
    law_integer_round_trip(b);
}

} // verus!
