//! Lexical analysis: from the bytes of a formula to its tokens.
//!
//! Every character of the language is ASCII, so the lexer works on the bytes
//! of the input and reports failures by byte offset.
use vstd::prelude::*;
use vstd::string::{StringExecFns, StringSliceAdditionalSpecFns};
use crate::text::{decimal_text, push_decimal};

verus! {

/// The kind of a token.
#[derive(Clone, Copy, Debug, PartialEq, Eq, Structural)]
pub enum TokenTy {
    Ident,
    Number,
    LParen,
    RParen,
    Comma,
    Operator,
    EOF,
}

/// A lexical unit: its kind and the text it was read from.
#[derive(Clone, Debug, PartialEq, Eq)]
pub struct Token {
    pub text: String,
    pub ty: TokenTy,
}

/// What a token is to the contracts: its kind and its text as characters.
pub struct Lexeme {
    pub ty: TokenTy,
    pub text: Seq<char>,
}

impl View for Token {
    type V = Lexeme;

    open spec fn view(&self) -> Lexeme {
        Lexeme { ty: self.ty, text: self.text@ }
    }
}

/// No lexical rule matches the byte at `offset`.
#[derive(Clone, Copy, Debug, PartialEq, Eq, Structural)]
pub struct LexError {
    pub offset: usize,
}

/// The name of a kind of token, as messages show it.
pub open spec fn kind_name(ty: TokenTy) -> Seq<char> {
    match ty {
        TokenTy::Ident => "Ident"@,
        TokenTy::Number => "Number"@,
        TokenTy::LParen => "LParen"@,
        TokenTy::RParen => "RParen"@,
        TokenTy::Comma => "Comma"@,
        TokenTy::Operator => "Operator"@,
        TokenTy::EOF => "EOF"@,
    }
}

/// What a lexical error at `offset` says.
pub open spec fn lex_message(offset: nat) -> Seq<char> {
    "Could not parse token at idx: "@ + decimal_text(offset)
}

impl TokenTy {
    /// The name of the kind.
    pub fn name(&self) -> (s: &'static str)
        ensures
            s@ == kind_name(*self),
    {
        match self {
            TokenTy::Ident => "Ident",
            TokenTy::Number => "Number",
            TokenTy::LParen => "LParen",
            TokenTy::RParen => "RParen",
            TokenTy::Comma => "Comma",
            TokenTy::Operator => "Operator",
            TokenTy::EOF => "EOF",
        }
    }
}

impl LexError {
    /// The error in words.
    pub fn message(&self) -> (s: String)
        ensures
            s@ == lex_message(self.offset as nat),
    {
        let mut s = String::from_str("Could not parse token at idx: ");
        push_decimal(self.offset, &mut s);
        s
    }
}

/// The byte of ' '.
pub const SPACE: u8 = 0x20;

/// The byte of a newline.
pub const NEWLINE: u8 = 0x0a;

/// The byte of 'A'.
pub const UPPER_A: u8 = 0x41;

/// The byte of 'Z'.
pub const UPPER_Z: u8 = 0x5a;

/// The byte of 'a'.
pub const LOWER_A: u8 = 0x61;

/// The byte of 'z'.
pub const LOWER_Z: u8 = 0x7a;

/// The byte of '0'.
pub const DIGIT_0: u8 = 0x30;

/// The byte of '9'.
pub const DIGIT_9: u8 = 0x39;

/// The byte of '_'.
pub const UNDERSCORE: u8 = 0x5f;

/// The byte of '('.
pub const LPAREN: u8 = 0x28;

/// The byte of ')'.
pub const RPAREN: u8 = 0x29;

/// The byte of ','.
pub const COMMA: u8 = 0x2c;

/// The byte of '+'.
pub const PLUS: u8 = 0x2b;

/// The byte of '-'.
pub const MINUS: u8 = 0x2d;

/// The byte of '*'.
pub const STAR: u8 = 0x2a;

/// The byte of '/'.
pub const SLASH: u8 = 0x2f;

/// The byte of '.'.
pub const DOT: u8 = 0x2e;

/// Spaces and newlines separate tokens.
pub open spec fn is_space(b: u8) -> bool {
    b == SPACE || b == NEWLINE
}

/// The letters `A` to `Z` and `a` to `z`.
pub open spec fn is_letter(b: u8) -> bool {
    (UPPER_A <= b <= UPPER_Z) || (LOWER_A <= b <= LOWER_Z)
}

/// The digits `0` to `9`.
pub open spec fn is_digit(b: u8) -> bool {
    DIGIT_0 <= b <= DIGIT_9
}

/// Bytes that may follow the first letter of an identifier.
pub open spec fn is_ident_byte(b: u8) -> bool {
    is_letter(b) || is_digit(b) || b == UNDERSCORE
}

/// The kind of the one-byte token `b`, if it is one.
pub open spec fn punct(b: u8) -> Option<TokenTy> {
    if b == LPAREN {
        Some(TokenTy::LParen)
    } else if b == RPAREN {
        Some(TokenTy::RParen)
    } else if b == COMMA {
        Some(TokenTy::Comma)
    } else if b == PLUS || b == MINUS || b == STAR || b == SLASH {
        Some(TokenTy::Operator)
    } else {
        None
    }
}

/// The characters that a run of ASCII bytes stands for.
pub open spec fn ascii_text(bytes: Seq<u8>) -> Seq<char> {
    Seq::new(bytes.len(), |i: int| bytes[i] as char)
}

/// The first index at or after `from` that holds no identifier byte.
pub open spec fn ident_end(s: Seq<u8>, from: int) -> int
    decreases s.len() - from,
{
    if 0 <= from < s.len() && is_ident_byte(s[from]) {
        ident_end(s, from + 1)
    } else {
        from
    }
}

/// The first index at or after `from` that holds no digit.
pub open spec fn digits_end(s: Seq<u8>, from: int) -> int
    decreases s.len() - from,
{
    if 0 <= from < s.len() && is_digit(s[from]) {
        digits_end(s, from + 1)
    } else {
        from
    }
}

/// Where the number that starts at `from` ends: after its digits, and after
/// a decimal point with the digits behind it where at least one digit follows
/// the point.
pub open spec fn number_end(s: Seq<u8>, from: int) -> int {
    let e = digits_end(s, from);
    if e + 1 < s.len() && s[e] == DOT && is_digit(s[e + 1]) {
        digits_end(s, e + 1)
    } else {
        e
    }
}

/// The kind and the end of the token that starts at `pos`, or `None` where no
/// rule matches the byte there.
pub open spec fn token_at(s: Seq<u8>, pos: int) -> Option<(TokenTy, int)> {
    if is_letter(s[pos]) {
        Some((TokenTy::Ident, ident_end(s, pos + 1)))
    } else if is_digit(s[pos]) {
        Some((TokenTy::Number, number_end(s, pos)))
    } else {
        match punct(s[pos]) {
            Some(ty) => Some((ty, pos + 1)),
            None => None,
        }
    }
}

/// An identifier ends at or behind its start, within the input.
pub proof fn lemma_ident_end_bounds(s: Seq<u8>, from: int)
    requires
        0 <= from <= s.len(),
    ensures
        from <= ident_end(s, from) <= s.len(),
    decreases s.len() - from,
{
    if from < s.len() && is_ident_byte(s[from]) {
        lemma_ident_end_bounds(s, from + 1);
    }
}

/// A run of digits ends at or behind its start, within the input.
pub proof fn lemma_digits_end_bounds(s: Seq<u8>, from: int)
    requires
        0 <= from <= s.len(),
    ensures
        from <= digits_end(s, from) <= s.len(),
    decreases s.len() - from,
{
    if from < s.len() && is_digit(s[from]) {
        lemma_digits_end_bounds(s, from + 1);
    }
}

/// A token is at least one byte long and ends within the input.
pub proof fn lemma_token_at_bounds(s: Seq<u8>, pos: int)
    requires
        0 <= pos < s.len(),
    ensures
        token_at(s, pos) matches Some((_, end)) ==> pos < end <= s.len(),
{
    lemma_ident_end_bounds(s, pos + 1);
    lemma_digits_end_bounds(s, pos + 1);
    let e = digits_end(s, pos);
    if e + 1 < s.len() {
        lemma_digits_end_bounds(s, e + 1);
    }
}

/// The tokens of `s` from `pos` on, or the offset of the first byte that no
/// rule matches.
pub open spec fn scan(s: Seq<u8>, pos: int) -> Result<Seq<Lexeme>, int>
    decreases s.len() - pos,
{
    if pos < 0 || pos >= s.len() {
        Ok(Seq::empty())
    } else if is_space(s[pos]) {
        scan(s, pos + 1)
    } else {
        match token_at(s, pos) {
            None => Err(pos),
            Some((ty, end)) => {
                proof {
                    lemma_token_at_bounds(s, pos);
                }
                match scan(s, end) {
                    Ok(rest) => Ok(
                        seq![Lexeme { ty, text: ascii_text(s.subrange(pos, end)) }] + rest,
                    ),
                    Err(offset) => Err(offset),
                }
            },
        }
    }
}

/// The tokens of the whole input, or the offset of the first byte that no rule
/// matches.
pub open spec fn tokens_of(s: Seq<u8>) -> Result<Seq<Lexeme>, int> {
    scan(s, 0)
}

/// The tokens of a buffer as the contracts see them.
pub open spec fn lexemes(tokens: Seq<Token>) -> Seq<Lexeme> {
    tokens.map_values(|t: Token| t@)
}

/// `front` followed by what a scan of the rest gave.
pub open spec fn prepend(front: Seq<Lexeme>, rest: Result<Seq<Lexeme>, int>) -> Result<
    Seq<Lexeme>,
    int,
> {
    match rest {
        Ok(tail) => Ok(front + tail),
        Err(offset) => Err(offset),
    }
}

/// Whether `b` is a letter.
fn byte_is_letter(b: u8) -> (r: bool)
    ensures
        r == is_letter(b),
{
    (UPPER_A <= b && b <= UPPER_Z) || (LOWER_A <= b && b <= LOWER_Z)
}

/// Whether `b` is a digit.
fn byte_is_digit(b: u8) -> (r: bool)
    ensures
        r == is_digit(b),
{
    DIGIT_0 <= b && b <= DIGIT_9
}

/// The kind of the one-byte token `b`, if it is one.
fn byte_punct(b: u8) -> (r: Option<TokenTy>)
    ensures
        r == punct(b),
{
    if b == LPAREN {
        Some(TokenTy::LParen)
    } else if b == RPAREN {
        Some(TokenTy::RParen)
    } else if b == COMMA {
        Some(TokenTy::Comma)
    } else if b == PLUS || b == MINUS || b == STAR || b == SLASH {
        Some(TokenTy::Operator)
    } else {
        None
    }
}

/// Appends the identifier bytes that start at `from` to `text` and returns
/// the index behind them.
fn ident_run(bytes: &[u8], from: usize, text: &mut String) -> (end: usize)
    requires
        from <= bytes@.len(),
    ensures
        end == ident_end(bytes@, from as int),
        from <= end <= bytes@.len(),
        final(text)@ == old(text)@ + ascii_text(bytes@.subrange(from as int, end as int)),
{
    let mut i = from;
    while i < bytes.len() && (byte_is_letter(bytes[i]) || byte_is_digit(bytes[i]) || bytes[i]
        == UNDERSCORE)
        invariant
            from <= i <= bytes@.len(),
            ident_end(bytes@, i as int) == ident_end(bytes@, from as int),
            text@ == old(text)@ + ascii_text(bytes@.subrange(from as int, i as int)),
        decreases bytes@.len() - i,
    {
        text.push(bytes[i] as char);
        assert(ascii_text(bytes@.subrange(from as int, i + 1)) =~= ascii_text(
            bytes@.subrange(from as int, i as int),
        ).push(bytes@[i as int] as char));
        i += 1;
    }
    assert(ascii_text(bytes@.subrange(from as int, from as int)) =~= Seq::<char>::empty());
    i
}

/// Appends the digits that start at `from` to `text` and returns the index
/// behind them.
fn digit_run(bytes: &[u8], from: usize, text: &mut String) -> (end: usize)
    requires
        from <= bytes@.len(),
    ensures
        end == digits_end(bytes@, from as int),
        from <= end <= bytes@.len(),
        final(text)@ == old(text)@ + ascii_text(bytes@.subrange(from as int, end as int)),
{
    let mut i = from;
    while i < bytes.len() && byte_is_digit(bytes[i])
        invariant
            from <= i <= bytes@.len(),
            digits_end(bytes@, i as int) == digits_end(bytes@, from as int),
            text@ == old(text)@ + ascii_text(bytes@.subrange(from as int, i as int)),
        decreases bytes@.len() - i,
    {
        text.push(bytes[i] as char);
        assert(ascii_text(bytes@.subrange(from as int, i + 1)) =~= ascii_text(
            bytes@.subrange(from as int, i as int),
        ).push(bytes@[i as int] as char));
        i += 1;
    }
    assert(ascii_text(bytes@.subrange(from as int, from as int)) =~= Seq::<char>::empty());
    i
}

/// Reads the token that starts at `pos`, where one does.
fn token(bytes: &[u8], pos: usize) -> (r: Option<(Token, usize)>)
    requires
        pos < bytes@.len(),
    ensures
        match r {
            Some((tok, end)) => token_at(bytes@, pos as int) == Some((tok.ty, end as int))
                && pos < end <= bytes@.len()
                && tok.text@ == ascii_text(bytes@.subrange(pos as int, end as int)),
            None => token_at(bytes@, pos as int) is None,
        },
{
    let b = bytes[pos];
    let mut text = String::new();
    proof {
        lemma_token_at_bounds(bytes@, pos as int);
    }
    if byte_is_letter(b) {
        text.push(b as char);
        let end = ident_run(bytes, pos + 1, &mut text);
        assert(text@ =~= ascii_text(bytes@.subrange(pos as int, end as int)));
        Some((Token { text, ty: TokenTy::Ident }, end))
    } else if byte_is_digit(b) {
        let mut end = digit_run(bytes, pos, &mut text);
        if end < bytes.len() && bytes.len() - end > 1 && bytes[end] == DOT && byte_is_digit(
            bytes[end + 1],
        ) {
            let dot = end;
            text.push('.');
            end = digit_run(bytes, dot + 1, &mut text);
        }
        assert(text@ =~= ascii_text(bytes@.subrange(pos as int, end as int)));
        Some((Token { text, ty: TokenTy::Number }, end))
    } else {
        match byte_punct(b) {
            Some(ty) => {
                text.push(b as char);
                assert(text@ =~= ascii_text(bytes@.subrange(pos as int, pos + 1)));
                Some((Token { text, ty }, pos + 1))
            },
            None => None,
        }
    }
}

/// Splits `input` into its tokens, left to right. Spaces and newlines
/// separate tokens and give none. The first byte that no rule matches ends
/// the scan with its offset.
pub fn lex(input: &str) -> (r: Result<Vec<Token>, LexError>)
    ensures
        match r {
            Ok(tokens) => tokens_of(input.spec_bytes()) == Ok::<Seq<Lexeme>, int>(
                lexemes(tokens@),
            ),
            Err(e) => tokens_of(input.spec_bytes()) == Err::<Seq<Lexeme>, int>(e.offset as int)
                && e.offset < input.spec_bytes().len(),
        },
{
    let bytes = input.as_bytes();
    let mut tokens: Vec<Token> = Vec::new();
    let mut pos: usize = 0;
    assert(lexemes(tokens@) + scan(bytes@, 0)->Ok_0 =~= scan(bytes@, 0)->Ok_0);
    while pos < bytes.len()
        invariant
            bytes@ == input.spec_bytes(),
            pos <= bytes@.len(),
            scan(bytes@, 0) == prepend(lexemes(tokens@), scan(bytes@, pos as int)),
        decreases bytes@.len() - pos,
    {
        let b = bytes[pos];
        if b == SPACE || b == NEWLINE {
            pos += 1;
        } else {
            match token(bytes, pos) {
                Some((tok, end)) => {
                    let ghost before = lexemes(tokens@);
                    tokens.push(tok);
                    proof {
                        assert(lexemes(tokens@) =~= before.push(tok@));
                        let rest = scan(bytes@, end as int);
                        if rest is Ok {
                            assert(before + (seq![tok@] + rest->Ok_0) =~= before.push(tok@)
                                + rest->Ok_0);
                        }
                    }
                    pos = end;
                },
                None => {
                    return Err(LexError { offset: pos });
                },
            }
        }
    }
    assert(lexemes(tokens@) + Seq::<Lexeme>::empty() =~= lexemes(tokens@));
    Ok(tokens)
}

} // verus!
