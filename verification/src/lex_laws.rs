//! What holds of every scan.
use vstd::prelude::*;
use vstd::utf8::{
    char_is_scalar, encode_scalar, encode_utf8, has_width_1_encoding, is_ascii_chars,
    is_ascii_chars_encode_utf8,
};
use crate::lex::{
    ascii_text, digits_end, ident_end, is_digit, is_ident_byte, is_letter, is_space,
    lemma_token_at_bounds, punct, scan, token_at, tokens_of, Lexeme, TokenTy, COMMA, DIGIT_0,
    DIGIT_9, DOT, LOWER_A, LOWER_Z, LPAREN, MINUS, NEWLINE, PLUS, RPAREN, SLASH, SPACE, STAR,
    UNDERSCORE, UPPER_A, UPPER_Z,
};
use crate::text::{all_digits, is_digit_char, is_number_text};

verus! {

/// The bytes that some lexical rule covers: spaces and newlines, letters,
/// digits, the underscore, the decimal point, parentheses, the comma and the
/// four operators.
pub open spec fn in_alphabet(b: u8) -> bool {
    is_space(b) || is_ident_byte(b) || b == DOT || punct(b) is Some
}

/// The bytes that the rules name are the codes of their characters.
pub proof fn lemma_alphabet_characters()
    ensures
        SPACE as char == ' ',
        NEWLINE as char == '\n',
        UPPER_A as char == 'A',
        UPPER_Z as char == 'Z',
        LOWER_A as char == 'a',
        LOWER_Z as char == 'z',
        DIGIT_0 as char == '0',
        DIGIT_9 as char == '9',
        UNDERSCORE as char == '_',
        LPAREN as char == '(',
        RPAREN as char == ')',
        COMMA as char == ',',
        PLUS as char == '+',
        MINUS as char == '-',
        STAR as char == '*',
        SLASH as char == '/',
        DOT as char == '.',
{
}

/// An identifier does not reach over a byte that is no identifier byte.
pub proof fn lemma_ident_end_stops(s: Seq<u8>, from: int, i: int)
    requires
        0 <= from <= i < s.len(),
        !is_ident_byte(s[i]),
    ensures
        from <= ident_end(s, from) <= i,
    decreases i - from,
{
    if from < i && is_ident_byte(s[from]) {
        lemma_ident_end_stops(s, from + 1, i);
    }
}

/// A run of digits does not reach over a byte that is no digit.
pub proof fn lemma_digits_end_stops(s: Seq<u8>, from: int, i: int)
    requires
        0 <= from <= i < s.len(),
        !is_digit(s[i]),
    ensures
        from <= digits_end(s, from) <= i,
    decreases i - from,
{
    if from < i && is_digit(s[from]) {
        lemma_digits_end_stops(s, from + 1, i);
    }
}

/// A run of digits holds digits only, and the byte behind it is none.
pub proof fn lemma_digits_end_run(s: Seq<u8>, from: int)
    requires
        0 <= from <= s.len(),
    ensures
        from <= digits_end(s, from) <= s.len(),
        forall|j: int| from <= j < digits_end(s, from) ==> is_digit(#[trigger] s[j]),
        digits_end(s, from) < s.len() ==> !is_digit(s[digits_end(s, from)]),
    decreases s.len() - from,
{
    if from < s.len() && is_digit(s[from]) {
        lemma_digits_end_run(s, from + 1);
    }
}

/// An identifier holds identifier bytes only.
pub proof fn lemma_ident_end_run(s: Seq<u8>, from: int)
    requires
        0 <= from <= s.len(),
    ensures
        from <= ident_end(s, from) <= s.len(),
        forall|j: int| from <= j < ident_end(s, from) ==> is_ident_byte(#[trigger] s[j]),
        ident_end(s, from) < s.len() ==> !is_ident_byte(s[ident_end(s, from)]),
    decreases s.len() - from,
{
    if from < s.len() && is_ident_byte(s[from]) {
        lemma_ident_end_run(s, from + 1);
    }
}

/// A scan that starts at or before a byte outside the alphabet fails, at
/// that byte or before it.
pub proof fn lemma_scan_stops(s: Seq<u8>, pos: int, i: int)
    requires
        0 <= pos <= i < s.len(),
        !in_alphabet(s[i]),
    ensures
        scan(s, pos) matches Err(offset) && pos <= offset <= i,
    decreases i - pos,
{
    if is_space(s[pos]) {
        lemma_scan_stops(s, pos + 1, i);
    } else {
        match token_at(s, pos) {
            None => {},
            Some((ty, end)) => {
                lemma_token_at_bounds(s, pos);
                lemma_ident_end_stops(s, pos + 1, i);
                lemma_digits_end_stops(s, pos, i);
                let e = digits_end(s, pos);
                if e + 1 < s.len() && s[e] == DOT {
                    lemma_digits_end_stops(s, e + 1, i);
                }
                lemma_scan_stops(s, end, i);
            },
        }
    }
}

/// An input that holds a byte outside the alphabet has no tokens: the scan
/// fails, at that byte or before it.
pub proof fn lemma_foreign_byte_fails(s: Seq<u8>, i: int)
    requires
        0 <= i < s.len(),
        !in_alphabet(s[i]),
    ensures
        tokens_of(s) matches Err(offset) && 0 <= offset <= i,
{
    lemma_scan_stops(s, 0, i);
}

/// Where a scan fails, it fails at a byte of the input that is no space and
/// starts no token; every byte before it, from the start of the scan on, is
/// in the alphabet.
pub proof fn lemma_scan_failure(s: Seq<u8>, pos: int)
    requires
        0 <= pos,
        scan(s, pos) is Err,
    ensures
        ({
            let offset = scan(s, pos)->Err_0;
            &&& pos <= offset < s.len()
            &&& !is_space(s[offset])
            &&& token_at(s, offset) is None
            &&& forall|j: int| pos <= j < offset ==> in_alphabet(#[trigger] s[j])
        }),
    decreases s.len() - pos,
{
    if pos < s.len() {
        if is_space(s[pos]) {
            lemma_scan_failure(s, pos + 1);
        } else {
            match token_at(s, pos) {
                None => {},
                Some((ty, end)) => {
                    lemma_token_at_bounds(s, pos);
                    lemma_scan_failure(s, end);
                    let offset = scan(s, pos)->Err_0;
                    assert forall|j: int| pos <= j < offset implies in_alphabet(
                        #[trigger] s[j],
                    ) by {
                        if j < end {
                            lemma_token_bytes(s, pos);
                        }
                    }
                },
            }
        }
    }
}

/// The failure of a scan of the whole input: see [`lemma_scan_failure`].
pub proof fn lemma_failure_offset(s: Seq<u8>)
    requires
        tokens_of(s) is Err,
    ensures
        ({
            let offset = tokens_of(s)->Err_0;
            &&& 0 <= offset < s.len()
            &&& !is_space(s[offset])
            &&& token_at(s, offset) is None
            &&& forall|j: int| 0 <= j < offset ==> in_alphabet(#[trigger] s[j])
        }),
{
    lemma_scan_failure(s, 0);
}

/// Every byte of a token is in the alphabet and is no space.
pub proof fn lemma_token_bytes(s: Seq<u8>, pos: int)
    requires
        0 <= pos < s.len(),
        token_at(s, pos) is Some,
    ensures
        forall|j: int|
            pos <= j < token_at(s, pos)->Some_0.1 ==> in_alphabet(#[trigger] s[j]) && !is_space(
                s[j],
            ),
{
    lemma_ident_end_run(s, pos + 1);
    lemma_digits_end_run(s, pos);
    let e = digits_end(s, pos);
    if e + 1 < s.len() {
        lemma_digits_end_run(s, e + 1);
    }
}

/// The text that a token of each kind may hold.
pub open spec fn well_formed(t: Lexeme) -> bool {
    match t.ty {
        TokenTy::Ident => t.text.len() > 0 && is_letter_char(t.text[0]) && forall|i: int|
            0 <= i < t.text.len() ==> is_ident_char(#[trigger] t.text[i]),
        TokenTy::Number => is_number_text(t.text),
        TokenTy::LParen => t.text == seq!['('],
        TokenTy::RParen => t.text == seq![')'],
        TokenTy::Comma => t.text == seq![','],
        TokenTy::Operator => t.text == seq!['+'] || t.text == seq!['-'] || t.text == seq!['*']
            || t.text == seq!['/'],
        TokenTy::EOF => false,
    }
}

/// The letters `A` to `Z` and `a` to `z`.
pub open spec fn is_letter_char(c: char) -> bool {
    ('a' <= c && c <= 'z') || ('A' <= c && c <= 'Z')
}

/// The characters of an identifier: letters, digits and the underscore.
pub open spec fn is_ident_char(c: char) -> bool {
    is_letter_char(c) || is_digit_char(c) || c == '_'
}

/// The token that starts at `pos` is well formed.
pub proof fn lemma_token_well_formed(s: Seq<u8>, pos: int)
    requires
        0 <= pos < s.len(),
        token_at(s, pos) is Some,
    ensures
        ({
            let (ty, end) = token_at(s, pos)->Some_0;
            well_formed(Lexeme { ty, text: ascii_text(s.subrange(pos, end)) })
        }),
{
    let (ty, end) = token_at(s, pos)->Some_0;
    let text = ascii_text(s.subrange(pos, end));
    lemma_token_at_bounds(s, pos);
    lemma_token_bytes(s, pos);
    assert forall|i: int| 0 <= i < text.len() implies text[i] == s[pos + i] as char by {}
    if is_letter(s[pos]) {
        lemma_ident_end_run(s, pos + 1);
        assert forall|i: int| 0 <= i < text.len() implies is_ident_char(#[trigger] text[i]) by {
            assert(is_ident_byte(s[pos + i]));
        }
    } else if is_digit(s[pos]) {
        lemma_digits_end_run(s, pos);
        let e = digits_end(s, pos);
        if e + 1 < s.len() && s[e] == DOT && is_digit(s[e + 1]) {
            lemma_digits_end_run(s, e + 1);
            let dot = e - pos;
            assert(text[dot] == '.');
            assert forall|i: int| 0 <= i < dot implies is_digit_char(#[trigger] text[i]) by {
                assert(is_digit(s[pos + i]));
            }
            assert forall|i: int| dot + 1 <= i < text.len() implies is_digit_char(
                #[trigger] text[i],
            ) by {
                assert(is_digit(s[pos + i]));
            }
            assert(all_digits(text, 0, dot));
            assert(all_digits(text, dot + 1, text.len() as int));
        } else {
            assert forall|i: int| 0 <= i < text.len() implies is_digit_char(#[trigger] text[i]) by {
                assert(is_digit(s[pos + i]));
            }
            assert(all_digits(text, 0, text.len() as int));
        }
    } else {
        assert(text =~= seq![s[pos] as char]);
    }
}

/// Every token of a scan is well formed.
pub proof fn lemma_scan_well_formed(s: Seq<u8>, pos: int)
    requires
        0 <= pos,
        scan(s, pos) is Ok,
    ensures
        forall|i: int|
            0 <= i < scan(s, pos)->Ok_0.len() ==> well_formed(#[trigger] scan(s, pos)->Ok_0[i]),
    decreases s.len() - pos,
{
    if pos < s.len() {
        if is_space(s[pos]) {
            lemma_scan_well_formed(s, pos + 1);
        } else {
            let (ty, end) = token_at(s, pos)->Some_0;
            lemma_token_at_bounds(s, pos);
            lemma_token_well_formed(s, pos);
            lemma_scan_well_formed(s, end);
        }
    }
}

/// Every token of an input is well formed: an identifier starts with a
/// letter and goes on with letters, digits and underscores, a number is a
/// number literal, and every other token is its one character. No token is
/// the end-of-input token.
pub proof fn lemma_tokens_well_formed(s: Seq<u8>)
    requires
        tokens_of(s) is Ok,
    ensures
        forall|i: int|
            0 <= i < tokens_of(s)->Ok_0.len() ==> well_formed(#[trigger] tokens_of(s)->Ok_0[i]),
{
    lemma_scan_well_formed(s, 0);
}

/// The texts of the tokens, one behind the other.
pub open spec fn texts(ts: Seq<Lexeme>) -> Seq<char>
    decreases ts.len(),
{
    if ts.len() == 0 {
        Seq::empty()
    } else {
        ts[0].text + texts(ts.drop_first())
    }
}

/// The bytes of `s` from `from` on that are neither space nor newline.
pub open spec fn significant(s: Seq<u8>, from: int) -> Seq<u8>
    decreases s.len() - from,
{
    if from < 0 || from >= s.len() {
        Seq::empty()
    } else if is_space(s[from]) {
        significant(s, from + 1)
    } else {
        seq![s[from]] + significant(s, from + 1)
    }
}

/// A stretch without spaces is significant as it stands.
proof fn lemma_significant_run(s: Seq<u8>, from: int, to: int)
    requires
        0 <= from <= to <= s.len(),
        forall|j: int| from <= j < to ==> !is_space(#[trigger] s[j]),
    ensures
        significant(s, from) == s.subrange(from, to) + significant(s, to),
    decreases to - from,
{
    if from < to {
        lemma_significant_run(s, from + 1, to);
        assert(s.subrange(from, to) =~= seq![s[from]] + s.subrange(from + 1, to));
        assert(seq![s[from]] + (s.subrange(from + 1, to) + significant(s, to)) =~= (seq![s[from]]
            + s.subrange(from + 1, to)) + significant(s, to));
    } else {
        assert(s.subrange(from, to) + significant(s, to) =~= significant(s, to));
    }
}

/// The tokens of a scan hold what the input holds from the start of the
/// scan on, but for its spaces and newlines.
pub proof fn lemma_scan_keeps_text(s: Seq<u8>, pos: int)
    requires
        0 <= pos,
        scan(s, pos) is Ok,
    ensures
        texts(scan(s, pos)->Ok_0) == ascii_text(significant(s, pos)),
    decreases s.len() - pos,
{
    if pos >= s.len() {
        assert(ascii_text(Seq::<u8>::empty()) =~= Seq::<char>::empty());
    } else if is_space(s[pos]) {
        lemma_scan_keeps_text(s, pos + 1);
    } else {
        let (ty, end) = token_at(s, pos)->Some_0;
        let first = Lexeme { ty, text: ascii_text(s.subrange(pos, end)) };
        let rest = scan(s, end)->Ok_0;
        lemma_token_at_bounds(s, pos);
        lemma_token_bytes(s, pos);
        lemma_scan_keeps_text(s, end);
        lemma_significant_run(s, pos, end);
        assert((seq![first] + rest).drop_first() =~= rest);
        assert(ascii_text(s.subrange(pos, end) + significant(s, end)) =~= ascii_text(
            s.subrange(pos, end),
        ) + ascii_text(significant(s, end)));
    }
}

/// Lexing loses nothing but spaces and newlines, adds nothing and keeps the
/// order: the texts of the tokens, one behind the other, are the input
/// without its spaces and newlines.
pub proof fn lemma_tokens_keep_text(s: Seq<u8>)
    requires
        tokens_of(s) is Ok,
    ensures
        texts(tokens_of(s)->Ok_0) == ascii_text(significant(s, 0)),
{
    lemma_scan_keeps_text(s, 0);
}

/// Every byte that a successful scan has read is in the alphabet.
pub proof fn lemma_scan_success(s: Seq<u8>, pos: int)
    requires
        0 <= pos,
        scan(s, pos) is Ok,
    ensures
        forall|j: int| pos <= j < s.len() ==> in_alphabet(#[trigger] s[j]),
    decreases s.len() - pos,
{
    if pos < s.len() {
        if is_space(s[pos]) {
            lemma_scan_success(s, pos + 1);
        } else {
            let (ty, end) = token_at(s, pos)->Some_0;
            lemma_token_at_bounds(s, pos);
            lemma_token_bytes(s, pos);
            lemma_scan_success(s, end);
        }
    }
}

/// A character below 128 is its byte.
proof fn lemma_ascii_char(c: char)
    ensures
        c as u32 == c as int,
        c as u32 <= 0x7F ==> '\0' <= c <= '\u{7f}' && (c as u32) as u8 == c as u8,
{
}

/// Where the encoding of a text starts with `k` ASCII bytes, they are its
/// first `k` characters; where these are all its bytes, they are all its
/// characters.
pub proof fn lemma_ascii_prefix(chars: Seq<char>, k: int)
    requires
        0 <= k <= encode_utf8(chars).len(),
        forall|j: int| 0 <= j < k ==> #[trigger] encode_utf8(chars)[j] < 0x80,
    ensures
        k <= chars.len(),
        forall|j: int|
            0 <= j < k ==> '\0' <= #[trigger] chars[j] <= '\u{7f}' && encode_utf8(chars)[j]
                == chars[j] as u8,
        k == encode_utf8(chars).len() ==> chars.len() == k,
    decreases k,
{
    let bytes = encode_utf8(chars);
    if chars.len() == 0 {
    } else if k > 0 {
        let c = #[verifier::truncate] (chars[0] as u32);
        let rest = chars.drop_first();
        char_is_scalar(chars[0]);
        lemma_ascii_char(chars[0]);
        assert(bytes[0] == encode_scalar(c)[0]);
        let b = bytes[0];
        if !has_width_1_encoding(c) {
            let x = encode_scalar(c)[0];
            assert(x >= 0x80) by {
                let y2 = #[verifier::truncate] (((c >> 6) & 0x1F) as u8);
                let y3 = #[verifier::truncate] (((c >> 12) & 0x0F) as u8);
                let y4 = #[verifier::truncate] (((c >> 18) & 0x7) as u8);
                assert(0xC0u8 | y2 >= 0x80) by (bit_vector);
                assert(0xE0u8 | y3 >= 0x80) by (bit_vector);
                assert(0xF0u8 | y4 >= 0x80) by (bit_vector);
            }
            assert(false);
        }
        assert((c & 0x7F) as u8 == c as u8) by (bit_vector)
            requires
                c <= 0x7F,
        ;
        assert(encode_utf8(rest) =~= bytes.skip(1));
        assert forall|j: int| 0 <= j < k - 1 implies #[trigger] encode_utf8(rest)[j] < 0x80 by {
            assert(encode_utf8(rest)[j] == bytes[j + 1]);
        }
        lemma_ascii_prefix(rest, k - 1);
        assert forall|j: int| 0 <= j < k implies '\0' <= #[trigger] chars[j] <= '\u{7f}'
            && bytes[j] == chars[j] as u8 by {
            if j > 0 {
                assert(chars[j] == rest[j - 1]);
                assert(bytes[j] == encode_utf8(rest)[j - 1]);
            } else {
                lemma_ascii_char(chars[0]);
            }
        }
    }
}

/// A text that has tokens is ASCII, so its bytes are its characters: the
/// text of each token is a stretch of the characters of the input.
pub proof fn lemma_lexed_text_is_ascii(chars: Seq<char>)
    requires
        tokens_of(encode_utf8(chars)) is Ok,
    ensures
        is_ascii_chars(chars),
        ascii_text(encode_utf8(chars)) == chars,
{
    let bytes = encode_utf8(chars);
    lemma_scan_success(bytes, 0);
    lemma_ascii_prefix(chars, bytes.len() as int);
    assert(ascii_text(bytes) =~= chars);
}

/// The offset of a lexical error counts characters as well as bytes: the
/// text before it is ASCII, and the byte that no rule matches starts the
/// character at that index.
pub proof fn lemma_failure_offset_counts_chars(chars: Seq<char>)
    requires
        tokens_of(encode_utf8(chars)) is Err,
    ensures
        ({
            let offset = tokens_of(encode_utf8(chars))->Err_0;
            &&& 0 <= offset < chars.len()
            &&& is_ascii_chars(chars.take(offset))
            &&& encode_utf8(chars)[offset] == encode_scalar(chars[offset] as u32)[0]
        }),
{
    let bytes = encode_utf8(chars);
    let offset = tokens_of(bytes)->Err_0;
    lemma_failure_offset(bytes);
    lemma_ascii_prefix(chars, offset);
    let before = chars.take(offset);
    let behind = chars.skip(offset);
    assert(is_ascii_chars(before));
    if offset == chars.len() {
        assert(before =~= chars);
        is_ascii_chars_encode_utf8(chars);
    }
    lemma_encoding_behind_ascii(chars, offset);
    assert(behind[0] == chars[offset]);
    assert(encode_utf8(behind)[0] == encode_scalar(behind[0] as u32)[0]);
}

/// Behind `k` ASCII characters the encoding of a text goes on with the
/// encoding of the other characters.
pub proof fn lemma_encoding_behind_ascii(chars: Seq<char>, k: int)
    requires
        0 <= k <= chars.len(),
        is_ascii_chars(chars.take(k)),
    ensures
        k <= encode_utf8(chars).len(),
        encode_utf8(chars).skip(k) == encode_utf8(chars.skip(k)),
    decreases k,
{
    if k == 0 {
        assert(chars.skip(0) =~= chars);
        assert(encode_utf8(chars).skip(0) =~= encode_utf8(chars));
    } else {
        let rest = chars.drop_first();
        assert(chars.take(k)[0] == chars[0]);
        assert(rest.take(k - 1) =~= chars.take(k).drop_first());
        assert forall|j: int| 0 <= j < k - 1 implies '\0' <= #[trigger] rest.take(k - 1)[j]
            <= '\u{7f}' by {
            assert(rest.take(k - 1)[j] == chars.take(k)[j + 1]);
        }
        lemma_encoding_behind_ascii(rest, k - 1);
        assert(rest.skip(k - 1) =~= chars.skip(k));
        assert(encode_utf8(chars).skip(k) =~= encode_utf8(rest).skip(k - 1));
    }
}

} // verus!
