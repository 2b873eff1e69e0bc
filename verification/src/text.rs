//! Questions about text that the parser and the evaluator ask: whether two
//! texts are the same, and whether a text is a number literal.
use vstd::prelude::*;
use vstd::string::StringSliceAdditionalSpecFns;
use vstd::utf8::encode_utf8_decode_utf8;
use crate::lex::{is_digit, DIGIT_0, DIGIT_9, DOT};

verus! {

/// Taken on trust from the documentation of std: `String::push` appends the
/// given character to the end of the string and leaves the rest of it as it
/// was.
pub assume_specification[ String::push ](s: &mut String, c: char)
    ensures
        final(s)@ == old(s)@.push(c),
;

/// The digits `0` to `9`.
pub open spec fn is_digit_char(c: char) -> bool {
    '0' <= c && c <= '9'
}

/// Every character of `s` from `from` up to `to` is a digit.
pub open spec fn all_digits(s: Seq<char>, from: int, to: int) -> bool {
    forall|i: int| from <= i < to ==> is_digit_char(#[trigger] s[i])
}

/// `s` is a number literal: one or more digits, optionally followed by a
/// decimal point and one or more digits.
pub open spec fn is_number_text(s: Seq<char>) -> bool {
    ||| s.len() > 0 && all_digits(s, 0, s.len() as int)
    ||| exists|dot: int|
        0 < dot < s.len() - 1 && #[trigger] s[dot] == '.' && all_digits(s, 0, dot) && all_digits(
            s,
            dot + 1,
            s.len() as int,
        )
}

/// Whether `a` and `b` hold the same characters.
pub fn same_text(a: &str, b: &str) -> (r: bool)
    ensures
        r == (a@ == b@),
{
    let x = a.as_bytes();
    let y = b.as_bytes();
    proof {
        encode_utf8_decode_utf8(a@);
        encode_utf8_decode_utf8(b@);
    }
    if x.len() != y.len() {
        return false;
    }
    let mut i: usize = 0;
    while i < x.len()
        invariant
            i <= x@.len() == y@.len(),
            forall|j: int| 0 <= j < i ==> x@[j] == y@[j],
            x@ == a.spec_bytes(),
            y@ == b.spec_bytes(),
            a@ == b@ ==> x@ == y@,
        decreases x@.len() - i,
    {
        if x[i] != y[i] {
            return false;
        }
        i += 1;
    }
    assert(x@ =~= y@);
    true
}

/// Whether `text` is a number literal.
pub fn is_number(text: &str) -> (r: bool)
    ensures
        r == is_number_text(text@),
{
    if !text.is_ascii() {
        return false;
    }
    broadcast use vstd::string::is_ascii_spec_bytes;

    let bytes = text.as_bytes();
    let ghost s = text@;
    assert(bytes@.len() == s.len());
    assert(forall|j: int| 0 <= j < s.len() ==> bytes@[j] == s[j] as u8);
    assert(forall|j: int| 0 <= j < s.len() ==> (is_digit(bytes@[j]) <==> is_digit_char(s[j])));
    let mut i: usize = 0;
    while i < bytes.len() && DIGIT_0 <= bytes[i] && bytes[i] <= DIGIT_9
        invariant
            i <= bytes@.len() == s.len(),
            forall|j: int| 0 <= j < s.len() ==> (is_digit(bytes@[j]) <==> is_digit_char(s[j])),
            all_digits(s, 0, i as int),
        decreases bytes@.len() - i,
    {
        i += 1;
    }
    if i == 0 {
        return false;
    }
    if i == bytes.len() {
        return true;
    }
    let dot = i;
    if bytes[dot] != DOT {
        return false;
    }
    i += 1;
    while i < bytes.len() && DIGIT_0 <= bytes[i] && bytes[i] <= DIGIT_9
        invariant
            dot < i <= bytes@.len() == s.len(),
            forall|j: int| 0 <= j < s.len() ==> (is_digit(bytes@[j]) <==> is_digit_char(s[j])),
            all_digits(s, dot + 1, i as int),
        decreases bytes@.len() - i,
    {
        i += 1;
    }
    i == bytes.len() && i > dot + 1
}

/// The character of the digit `d`.
pub open spec fn digit_char(d: nat) -> char {
    ((DIGIT_0 + d) as u8) as char
}

/// `n` in decimal, without leading zeros.
pub open spec fn decimal_text(n: nat) -> Seq<char>
    decreases n,
{
    if n < 10 {
        seq![digit_char(n)]
    } else {
        decimal_text(n / 10).push(digit_char(n % 10))
    }
}

/// Appends `n` in decimal to `out`.
pub fn push_decimal(n: usize, out: &mut String)
    ensures
        final(out)@ == old(out)@ + decimal_text(n as nat),
    decreases n,
{
    if n >= 10 {
        push_decimal(n / 10, out);
    }
    let d = (n % 10) as u8;
    out.push((DIGIT_0 + d) as char);
    assert(out@ =~= old(out)@ + decimal_text(n as nat));
}

/// The decimal text of a number is a number literal.
pub proof fn lemma_decimal_is_literal(n: nat)
    ensures
        decimal_text(n).len() > 0,
        all_digits(decimal_text(n), 0, decimal_text(n).len() as int),
        is_number_text(decimal_text(n)),
    decreases n,
{
    if n >= 10 {
        lemma_decimal_is_literal(n / 10);
    }
}

} // verus!
