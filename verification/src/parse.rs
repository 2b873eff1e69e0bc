//! Recursive descent over a buffer of tokens.
//!
//! The grammar has one level: every binary operator binds alike and groups
//! to the left.
//!
//! ```text
//! bin_expr := expr (OPERATOR expr)*
//! expr     := call | number | '(' bin_expr ')'
//! call     := IDENT '(' args ')'
//! args     := (bin_expr (',' bin_expr)*)?
//! number   := NUMBER
//! ```
use vstd::prelude::*;
use vstd::string::{StringExecFns, StringSliceAdditionalSpecFns};
use crate::ast::{literal, Expr, Operator, Tree};
use crate::lex::{
    kind_name, lex, lex_message, lexemes, tokens_of, LexError, Lexeme, Token, TokenTy,
};
use crate::parse_laws::lemma_parsed_numbers_are_literals;
use crate::text::{is_number, is_number_text, same_text};

verus! {

/// Why a text is no expression.
#[derive(Clone, Debug, PartialEq, Eq)]
pub enum ParseError {
    /// No lexical rule matches the byte at `offset`.
    Lex { offset: usize },
    /// A token of kind `expected` had to come, and one of kind `found` came.
    Unexpected { expected: TokenTy, found: TokenTy },
    /// An operator token whose text is none of `+ - * /`.
    UnsupportedOperator { text: String },
    /// No expression starts with a token of kind `found`.
    UnexpectedToken { found: TokenTy },
    /// A number token whose text is no number literal.
    InvalidNumber { text: String },
}

/// A parse error as the contracts see it.
pub ghost enum ParseFailure {
    Lex { offset: int },
    Unexpected { expected: TokenTy, found: TokenTy },
    UnsupportedOperator { text: Seq<char> },
    UnexpectedToken { found: TokenTy },
    InvalidNumber { text: Seq<char> },
}

impl View for ParseError {
    type V = ParseFailure;

    open spec fn view(&self) -> ParseFailure {
        match self {
            ParseError::Lex { offset } => ParseFailure::Lex { offset: *offset as int },
            ParseError::Unexpected { expected, found } => ParseFailure::Unexpected {
                expected: *expected,
                found: *found,
            },
            ParseError::UnsupportedOperator { text } => ParseFailure::UnsupportedOperator {
                text: text@,
            },
            ParseError::UnexpectedToken { found } => ParseFailure::UnexpectedToken {
                found: *found,
            },
            ParseError::InvalidNumber { text } => ParseFailure::InvalidNumber { text: text@ },
        }
    }
}

/// What a parse error says.
pub open spec fn parse_message(e: ParseFailure) -> Seq<char> {
    match e {
        ParseFailure::Lex { offset } => lex_message(offset as nat),
        ParseFailure::Unexpected { expected, found } => "expected: "@ + kind_name(expected)
            + ", found "@ + kind_name(found),
        ParseFailure::UnsupportedOperator { text } => "unsupported operator: "@ + text,
        ParseFailure::UnexpectedToken { found } => "unexpected token: "@ + kind_name(found),
        ParseFailure::InvalidNumber { text } => "invalid number: "@ + text,
    }
}

impl ParseError {
    /// The error in words.
    pub fn message(&self) -> (s: String)
        ensures
            s@ == parse_message(self@),
    {
        match self {
            ParseError::Lex { offset } => (LexError { offset: *offset }).message(),
            ParseError::Unexpected { expected, found } => {
                let mut s = String::from_str("expected: ");
                s.append(expected.name());
                s.append(", found ");
                s.append(found.name());
                s
            },
            ParseError::UnsupportedOperator { text } => {
                let mut s = String::from_str("unsupported operator: ");
                s.append(text.as_str());
                s
            },
            ParseError::UnexpectedToken { found } => {
                let mut s = String::from_str("unexpected token: ");
                s.append(found.name());
                s
            },
            ParseError::InvalidNumber { text } => {
                let mut s = String::from_str("invalid number: ");
                s.append(text.as_str());
                s
            },
        }
    }
}

/// What the parser asks for behind the last token.
pub open spec fn end_of_input() -> Lexeme {
    Lexeme { ty: TokenTy::EOF, text: Seq::empty() }
}

/// The token at `pos`, or the end-of-input token where the buffer has none.
pub open spec fn lookahead(ts: Seq<Lexeme>, pos: nat) -> Lexeme {
    if pos < ts.len() {
        ts[pos as int]
    } else {
        end_of_input()
    }
}

/// How many tokens stand at or behind `pos`.
pub open spec fn remaining(ts: Seq<Lexeme>, pos: nat) -> nat {
    if pos <= ts.len() {
        (ts.len() - pos) as nat
    } else {
        0
    }
}

/// The operator that the text of an operator token names.
pub open spec fn operator_of(text: Seq<char>) -> Option<Operator> {
    if text == "+"@ {
        Some(Operator::Add)
    } else if text == "-"@ {
        Some(Operator::Subtract)
    } else if text == "*"@ {
        Some(Operator::Multiply)
    } else if text == "/"@ {
        Some(Operator::Divide)
    } else {
        None
    }
}

/// An expression read from the buffer and the number of tokens it took, or
/// the failure that ended the reading.
pub type Parsed = Result<(Tree, nat), ParseFailure>;

/// A list of arguments and the number of tokens it took.
pub type ParsedArgs = Result<(Seq<Tree>, nat), ParseFailure>;

/// `number := NUMBER`
pub open spec fn number(ts: Seq<Lexeme>, pos: nat) -> Parsed {
    let tok = lookahead(ts, pos);
    if tok.ty != TokenTy::Number {
        Err(ParseFailure::Unexpected { expected: TokenTy::Number, found: tok.ty })
    } else if !is_number_text(tok.text) {
        Err(ParseFailure::InvalidNumber { text: tok.text })
    } else {
        Ok((Tree::Number { text: tok.text }, 1))
    }
}

/// `expr := call | number | '(' bin_expr ')'`
pub open spec fn operand(ts: Seq<Lexeme>, pos: nat) -> Parsed
    decreases remaining(ts, pos), 4nat,
{
    match lookahead(ts, pos).ty {
        TokenTy::Ident => call(ts, pos),
        TokenTy::Number => number(ts, pos),
        TokenTy::LParen => paren(ts, pos),
        found => Err(ParseFailure::UnexpectedToken { found }),
    }
}

/// `'(' bin_expr ')'`
pub open spec fn paren(ts: Seq<Lexeme>, pos: nat) -> Parsed
    decreases remaining(ts, pos), 3nat,
{
    if lookahead(ts, pos).ty != TokenTy::LParen {
        Err(
            ParseFailure::Unexpected {
                expected: TokenTy::LParen,
                found: lookahead(ts, pos).ty,
            },
        )
    } else {
        match bin_expr(ts, pos + 1) {
            Err(e) => Err(e),
            Ok((inner, n)) => {
                let close = lookahead(ts, pos + 1 + n);
                if close.ty != TokenTy::RParen {
                    Err(ParseFailure::Unexpected { expected: TokenTy::RParen, found: close.ty })
                } else {
                    Ok((inner, n + 2))
                }
            },
        }
    }
}

/// `call := IDENT '(' args ')'`
pub open spec fn call(ts: Seq<Lexeme>, pos: nat) -> Parsed
    decreases remaining(ts, pos), 3nat,
{
    let name = lookahead(ts, pos);
    let open = lookahead(ts, pos + 1);
    if name.ty != TokenTy::Ident {
        Err(ParseFailure::Unexpected { expected: TokenTy::Ident, found: name.ty })
    } else if open.ty != TokenTy::LParen {
        Err(ParseFailure::Unexpected { expected: TokenTy::LParen, found: open.ty })
    } else {
        match arguments(ts, pos + 2) {
            Err(e) => Err(e),
            Ok((args, n)) => {
                let close = lookahead(ts, pos + 2 + n);
                if close.ty != TokenTy::RParen {
                    Err(ParseFailure::Unexpected { expected: TokenTy::RParen, found: close.ty })
                } else {
                    Ok((Tree::Call { name: name.text, args }, n + 3))
                }
            },
        }
    }
}

/// `args := (bin_expr (',' bin_expr)*)?`, read up to the closing parenthesis.
pub open spec fn arguments(ts: Seq<Lexeme>, pos: nat) -> ParsedArgs
    decreases remaining(ts, pos), 6nat,
{
    if lookahead(ts, pos).ty == TokenTy::RParen {
        Ok((Seq::empty(), 0))
    } else {
        match bin_expr(ts, pos) {
            Err(e) => Err(e),
            Ok((first, n)) => more_arguments(ts, pos + n, seq![first], n),
        }
    }
}

/// `(',' bin_expr)*` behind the arguments `args`, which took `used` tokens.
pub open spec fn more_arguments(
    ts: Seq<Lexeme>,
    pos: nat,
    args: Seq<Tree>,
    used: nat,
) -> ParsedArgs
    decreases remaining(ts, pos), 1nat,
{
    if lookahead(ts, pos).ty == TokenTy::Comma {
        match bin_expr(ts, pos + 1) {
            Err(e) => Err(e),
            Ok((next, n)) => more_arguments(ts, pos + 1 + n, args.push(next), used + 1 + n),
        }
    } else {
        Ok((args, used))
    }
}

/// `bin_expr := expr (OPERATOR expr)*`
pub open spec fn bin_expr(ts: Seq<Lexeme>, pos: nat) -> Parsed
    decreases remaining(ts, pos), 5nat,
{
    match operand(ts, pos) {
        Err(e) => Err(e),
        Ok((first, n)) => more_operands(ts, pos + n, first, n),
    }
}

/// `(OPERATOR expr)*` behind the expression `left`, which took `used` tokens.
/// Each operator takes all that stands to its left as its left operand.
pub open spec fn more_operands(ts: Seq<Lexeme>, pos: nat, left: Tree, used: nat) -> Parsed
    decreases remaining(ts, pos), 1nat,
{
    let tok = lookahead(ts, pos);
    if tok.ty == TokenTy::Operator {
        match operator_of(tok.text) {
            None => Err(ParseFailure::UnsupportedOperator { text: tok.text }),
            Some(operator) => match operand(ts, pos + 1) {
                Err(e) => Err(e),
                Ok((right, n)) => more_operands(
                    ts,
                    pos + 1 + n,
                    Tree::BinaryOp { operator, left: Box::new(left), right: Box::new(right) },
                    used + 1 + n,
                ),
            },
        }
    } else {
        Ok((left, used))
    }
}

/// The kinds of token that an expression starts with.
pub open spec fn starts_operand(ty: TokenTy) -> bool {
    ty == TokenTy::Ident || ty == TokenTy::Number || ty == TokenTy::LParen
}

/// Where the cursor stands after the reading of an expression at `pos` has
/// failed. A token that starts no expression is left unread; a token that
/// was expected and did not come is consumed.
pub open spec fn operand_stop(ts: Seq<Lexeme>, pos: nat) -> nat
    decreases remaining(ts, pos), 4nat,
{
    match lookahead(ts, pos).ty {
        TokenTy::Ident => call_stop(ts, pos),
        TokenTy::Number => next(pos),
        TokenTy::LParen => paren_stop(ts, pos),
        _ => pos,
    }
}

/// Where the cursor stands after the reading of an expression in
/// parentheses at `pos` has failed: behind the token that came in place of
/// a parenthesis, or where the reading of the inner expression stopped.
pub open spec fn paren_stop(ts: Seq<Lexeme>, pos: nat) -> nat
    decreases remaining(ts, pos), 3nat,
{
    if lookahead(ts, pos).ty != TokenTy::LParen {
        next(pos)
    } else {
        match bin_expr(ts, pos + 1) {
            Err(_) => bin_expr_stop(ts, pos + 1),
            Ok((_, n)) => next(pos + 1 + n),
        }
    }
}

/// Where the cursor stands after the reading of a call at `pos` has failed:
/// behind the token that came in place of the name or of a parenthesis, or
/// where the reading of the arguments stopped.
pub open spec fn call_stop(ts: Seq<Lexeme>, pos: nat) -> nat
    decreases remaining(ts, pos), 3nat,
{
    if lookahead(ts, pos).ty != TokenTy::Ident {
        next(pos)
    } else if lookahead(ts, pos + 1).ty != TokenTy::LParen {
        next(pos + 1)
    } else {
        match arguments(ts, pos + 2) {
            Err(_) => arguments_stop(ts, pos + 2),
            Ok((_, n)) => next(pos + 2 + n),
        }
    }
}

/// Where the cursor stands after the reading of a list of arguments at
/// `pos` has failed: where the reading of one of them stopped.
pub open spec fn arguments_stop(ts: Seq<Lexeme>, pos: nat) -> nat
    decreases remaining(ts, pos), 6nat,
{
    match bin_expr(ts, pos) {
        Err(_) => bin_expr_stop(ts, pos),
        Ok((_, n)) => more_arguments_stop(ts, pos + n),
    }
}

/// Where the cursor stands after the reading of the rest of a list of
/// arguments at `pos` has failed.
pub open spec fn more_arguments_stop(ts: Seq<Lexeme>, pos: nat) -> nat
    decreases remaining(ts, pos), 1nat,
{
    if lookahead(ts, pos).ty == TokenTy::Comma {
        match bin_expr(ts, pos + 1) {
            Err(_) => bin_expr_stop(ts, pos + 1),
            Ok((_, n)) => more_arguments_stop(ts, pos + 1 + n),
        }
    } else {
        pos
    }
}

/// Where the cursor stands after the reading of a chain of operators at
/// `pos` has failed: where the reading of one of its expressions stopped,
/// or behind an operator that is not known.
pub open spec fn bin_expr_stop(ts: Seq<Lexeme>, pos: nat) -> nat
    decreases remaining(ts, pos), 5nat,
{
    match operand(ts, pos) {
        Err(_) => operand_stop(ts, pos),
        Ok((_, n)) => more_operands_stop(ts, pos + n),
    }
}

/// Where the cursor stands after the reading of the rest of a chain of
/// operators at `pos` has failed.
pub open spec fn more_operands_stop(ts: Seq<Lexeme>, pos: nat) -> nat
    decreases remaining(ts, pos), 1nat,
{
    let tok = lookahead(ts, pos);
    if tok.ty == TokenTy::Operator {
        match operator_of(tok.text) {
            None => pos + 1,
            Some(_) => match operand(ts, pos + 1) {
                Err(_) => operand_stop(ts, pos + 1),
                Ok((_, n)) => more_operands_stop(ts, pos + 1 + n),
            },
        }
    } else {
        pos
    }
}

/// The expression that the buffer starts with. Tokens behind it are not
/// looked at.
pub open spec fn parse_tokens_spec(ts: Seq<Lexeme>) -> Result<Tree, ParseFailure> {
    match bin_expr(ts, 0) {
        Ok((tree, _)) => Ok(tree),
        Err(e) => Err(e),
    }
}

/// The expression that the text starts with.
pub open spec fn parse_spec(input: Seq<u8>) -> Result<Tree, ParseFailure> {
    match tokens_of(input) {
        Err(offset) => Err(ParseFailure::Lex { offset }),
        Ok(ts) => parse_tokens_spec(ts),
    }
}

/// What a parsing function returned, with the number of tokens it took, as
/// the grammar states it.
pub open spec fn outcome(r: Result<Expr, ParseError>, used: int) -> Parsed {
    match r {
        Ok(expr) => Ok((expr@, used as nat)),
        Err(e) => Err(e@),
    }
}

/// What the parser of an argument list returned, as the grammar states it.
pub open spec fn outcome_args(r: Result<Vec<Expr>, ParseError>, used: int) -> ParsedArgs {
    match r {
        Ok(args) => Ok((crate::ast::trees_of(args@), used as nat)),
        Err(e) => Err(e@),
    }
}

/// A buffer of tokens and a cursor into it.
pub struct Ctx {
    tokens: Vec<Token>,
    idx: usize,
}

/// A parsing context as the contracts see it: the tokens, and the index of
/// the next one.
pub ghost struct Cursor {
    pub tokens: Seq<Lexeme>,
    pub pos: nat,
}

impl View for Ctx {
    type V = Cursor;

    closed spec fn view(&self) -> Cursor {
        Cursor { tokens: lexemes(self.tokens@), pos: self.idx as nat }
    }
}

/// The index behind `pos`. The largest index that the machine has is its
/// own successor.
pub open spec fn next(pos: nat) -> nat {
    if pos < usize::MAX {
        pos + 1
    } else {
        pos
    }
}

/// The cursor one token further, whether or not a token stands there.
pub open spec fn advanced(c: Cursor) -> Cursor {
    Cursor { tokens: c.tokens, pos: next(c.pos) }
}

/// A buffer holds no more tokens than the machine has indices, so a cursor
/// at a token always has a successor.
pub proof fn lemma_tokens_fit(ctx: &Ctx)
    ensures
        ctx@.tokens.len() <= usize::MAX,
{
    assert(ctx.tokens@.len() == ctx.tokens.len());
}

impl Ctx {
    /// A context whose cursor stands at the first token.
    pub fn new(tokens: Vec<Token>) -> (ctx: Ctx)
        ensures
            ctx@ == (Cursor { tokens: lexemes(tokens@), pos: 0 }),
    {
        Ctx { tokens, idx: 0 }
    }

    /// The index of the token at the cursor.
    pub fn position(&self) -> (pos: usize)
        ensures
            pos == self@.pos,
    {
        self.idx
    }

    /// The kind of the token at the cursor.
    fn peek_ty(&self) -> (ty: TokenTy)
        ensures
            ty == lookahead(self@.tokens, self@.pos).ty,
    {
        if self.idx >= self.tokens.len() {
            TokenTy::EOF
        } else {
            self.tokens[self.idx].ty
        }
    }
}

/// The token at the cursor, or the end-of-input token where the cursor is
/// behind the last one. The cursor stays.
pub fn peek(ctx: &Ctx) -> (tok: Token)
    ensures
        tok@ == lookahead(ctx@.tokens, ctx@.pos),
{
    if ctx.idx >= ctx.tokens.len() {
        return Token { text: String::new(), ty: TokenTy::EOF };
    }
    let tok = &ctx.tokens[ctx.idx];
    Token { text: tok.text.clone(), ty: tok.ty }
}

/// The token at the cursor, or the end-of-input token where the cursor is
/// behind the last one. The cursor moves on by one in either case; only at
/// the largest index of the machine it has nowhere to go.
pub fn consume(ctx: &mut Ctx) -> (tok: Token)
    ensures
        tok@ == lookahead(old(ctx)@.tokens, old(ctx)@.pos),
        final(ctx)@ == advanced(old(ctx)@),
{
    let tok = peek(ctx);
    if ctx.idx < usize::MAX {
        ctx.idx += 1;
    }
    tok
}

/// Consumes one token, whatever its kind, and returns it where its kind is
/// `ty`.
pub fn expect(ctx: &mut Ctx, ty: TokenTy) -> (r: Result<Token, ParseError>)
    ensures
        final(ctx)@ == advanced(old(ctx)@),
        match r {
            Ok(tok) => tok@ == lookahead(old(ctx)@.tokens, old(ctx)@.pos) && tok.ty == ty,
            Err(e) => lookahead(old(ctx)@.tokens, old(ctx)@.pos).ty != ty && e@ == (
            ParseFailure::Unexpected {
                expected: ty,
                found: lookahead(old(ctx)@.tokens, old(ctx)@.pos).ty,
            }),
        },
{
    let tok = consume(ctx);
    if tok.ty != ty {
        return Err(ParseError::Unexpected { expected: ty, found: tok.ty });
    }
    Ok(tok)
}

/// The operator that `text` names.
fn operator(text: &str) -> (r: Option<Operator>)
    ensures
        r == operator_of(text@),
{
    if same_text(text, "+") {
        Some(Operator::Add)
    } else if same_text(text, "-") {
        Some(Operator::Subtract)
    } else if same_text(text, "*") {
        Some(Operator::Multiply)
    } else if same_text(text, "/") {
        Some(Operator::Divide)
    } else {
        None
    }
}

/// Reads `bin_expr`: an expression, and every operator and expression that
/// follow it, grouped to the left.
fn parse_bin_op_or_expr(ctx: &mut Ctx) -> (r: Result<Expr, ParseError>)
    ensures
        final(ctx)@.tokens == old(ctx)@.tokens,
        r is Ok ==> final(ctx)@.pos >= old(ctx)@.pos,
        r is Err ==> final(ctx)@.pos == bin_expr_stop(old(ctx)@.tokens, old(ctx)@.pos),
        outcome(r, final(ctx)@.pos - old(ctx)@.pos) == bin_expr(
            old(ctx)@.tokens,
            old(ctx)@.pos,
        ),
    decreases remaining(old(ctx)@.tokens, old(ctx)@.pos), 5nat,
{
    let ghost ts = ctx@.tokens;
    let ghost start = ctx@.pos;
    let mut expr = match parse_expr(ctx) {
        Ok(first) => first,
        Err(e) => {
            return Err(e);
        },
    };
    while ctx.peek_ty() == TokenTy::Operator
        invariant
            ts == old(ctx)@.tokens,
            start == old(ctx)@.pos,
            ctx@.tokens == ts,
            ctx@.pos >= start,
            bin_expr(ts, start) == more_operands(
                ts,
                ctx@.pos,
                expr@,
                (ctx@.pos - start) as nat,
            ),
            bin_expr_stop(ts, start) == more_operands_stop(ts, ctx@.pos),
        decreases remaining(ts, ctx@.pos),
    {
        proof {
            lemma_tokens_fit(ctx);
        }
        let op_token = consume(ctx);
        let operator = match operator(op_token.text.as_str()) {
            Some(operator) => operator,
            None => {
                return Err(ParseError::UnsupportedOperator { text: op_token.text });
            },
        };
        let right = match parse_expr(ctx) {
            Ok(right) => right,
            Err(e) => {
                return Err(e);
            },
        };
        expr = Expr::BinaryOp { operator, left: Box::new(expr), right: Box::new(right) };
    }
    Ok(expr)
}

/// Reads `expr`: a call, a number or an expression in parentheses, by the
/// kind of the token at the cursor. A token of another kind is left unread.
fn parse_expr(ctx: &mut Ctx) -> (r: Result<Expr, ParseError>)
    ensures
        final(ctx)@.tokens == old(ctx)@.tokens,
        r is Ok ==> final(ctx)@.pos >= old(ctx)@.pos,
        r is Err ==> final(ctx)@.pos == operand_stop(old(ctx)@.tokens, old(ctx)@.pos),
        !starts_operand(lookahead(old(ctx)@.tokens, old(ctx)@.pos).ty) ==> r is Err && final(ctx)@
            == old(ctx)@,
        outcome(r, final(ctx)@.pos - old(ctx)@.pos) == operand(old(ctx)@.tokens, old(ctx)@.pos),
    decreases remaining(old(ctx)@.tokens, old(ctx)@.pos), 4nat,
{
    match ctx.peek_ty() {
        TokenTy::Ident => parse_call(ctx),
        TokenTy::Number => parse_num(ctx),
        TokenTy::LParen => parse_paren_expr(ctx),
        found => Err(ParseError::UnexpectedToken { found }),
    }
}

/// Reads an expression in parentheses.
fn parse_paren_expr(ctx: &mut Ctx) -> (r: Result<Expr, ParseError>)
    ensures
        final(ctx)@.tokens == old(ctx)@.tokens,
        r is Ok ==> final(ctx)@.pos >= old(ctx)@.pos,
        r is Err ==> final(ctx)@.pos == paren_stop(old(ctx)@.tokens, old(ctx)@.pos),
        outcome(r, final(ctx)@.pos - old(ctx)@.pos) == paren(old(ctx)@.tokens, old(ctx)@.pos),
    decreases remaining(old(ctx)@.tokens, old(ctx)@.pos), 3nat,
{
    proof {
        lemma_tokens_fit(ctx);
    }
    match expect(ctx, TokenTy::LParen) {
        Ok(_) => {},
        Err(e) => {
            return Err(e);
        },
    }
    let expr = match parse_bin_op_or_expr(ctx) {
        Ok(expr) => expr,
        Err(e) => {
            return Err(e);
        },
    };
    match expect(ctx, TokenTy::RParen) {
        Ok(_) => Ok(expr),
        Err(e) => Err(e),
    }
}

/// Reads a call: a name and its arguments in parentheses.
fn parse_call(ctx: &mut Ctx) -> (r: Result<Expr, ParseError>)
    ensures
        final(ctx)@.tokens == old(ctx)@.tokens,
        r is Ok ==> final(ctx)@.pos >= old(ctx)@.pos,
        r is Err ==> final(ctx)@.pos == call_stop(old(ctx)@.tokens, old(ctx)@.pos),
        outcome(r, final(ctx)@.pos - old(ctx)@.pos) == call(old(ctx)@.tokens, old(ctx)@.pos),
    decreases remaining(old(ctx)@.tokens, old(ctx)@.pos), 3nat,
{
    proof {
        lemma_tokens_fit(ctx);
    }
    let tok = match expect(ctx, TokenTy::Ident) {
        Ok(tok) => tok,
        Err(e) => {
            return Err(e);
        },
    };
    match expect(ctx, TokenTy::LParen) {
        Ok(_) => {},
        Err(e) => {
            return Err(e);
        },
    }
    let args = match parse_args(ctx) {
        Ok(args) => args,
        Err(e) => {
            return Err(e);
        },
    };
    match expect(ctx, TokenTy::RParen) {
        Ok(_) => {},
        Err(e) => {
            return Err(e);
        },
    }
    proof {
        crate::ast::lemma_call_view(tok.text, args);
    }
    Ok(Expr::Call { name: tok.text, args })
}

/// Reads a number. The token at the cursor is consumed, whatever it is.
fn parse_num(ctx: &mut Ctx) -> (r: Result<Expr, ParseError>)
    ensures
        final(ctx)@ == advanced(old(ctx)@),
        r is Ok ==> final(ctx)@.pos == old(ctx)@.pos + 1,
        outcome(r, final(ctx)@.pos - old(ctx)@.pos) == number(old(ctx)@.tokens, old(ctx)@.pos),
{
    proof {
        lemma_tokens_fit(ctx);
    }
    let tok = match expect(ctx, TokenTy::Number) {
        Ok(tok) => tok,
        Err(e) => {
            return Err(e);
        },
    };
    if !is_number(tok.text.as_str()) {
        return Err(ParseError::InvalidNumber { text: tok.text });
    }
    Ok(Expr::Number { text: tok.text })
}

/// Reads the arguments of a call, up to its closing parenthesis.
fn parse_args(ctx: &mut Ctx) -> (r: Result<Vec<Expr>, ParseError>)
    ensures
        final(ctx)@.tokens == old(ctx)@.tokens,
        r is Ok ==> final(ctx)@.pos >= old(ctx)@.pos,
        r is Err ==> final(ctx)@.pos == arguments_stop(old(ctx)@.tokens, old(ctx)@.pos),
        outcome_args(r, final(ctx)@.pos - old(ctx)@.pos) == arguments(
            old(ctx)@.tokens,
            old(ctx)@.pos,
        ),
    decreases remaining(old(ctx)@.tokens, old(ctx)@.pos), 6nat,
{
    let ghost ts = ctx@.tokens;
    let ghost start = ctx@.pos;
    let mut args: Vec<Expr> = Vec::new();
    if ctx.peek_ty() == TokenTy::RParen {
        assert(crate::ast::trees_of(args@) =~= Seq::<Tree>::empty());
        return Ok(args);
    }
    let first = match parse_bin_op_or_expr(ctx) {
        Ok(first) => first,
        Err(e) => {
            return Err(e);
        },
    };
    args.push(first);
    assert(crate::ast::trees_of(args@) =~= seq![first@]);
    while ctx.peek_ty() == TokenTy::Comma
        invariant
            ts == old(ctx)@.tokens,
            start == old(ctx)@.pos,
            ctx@.tokens == ts,
            ctx@.pos >= start,
            arguments(ts, start) == more_arguments(
                ts,
                ctx@.pos,
                crate::ast::trees_of(args@),
                (ctx@.pos - start) as nat,
            ),
            arguments_stop(ts, start) == more_arguments_stop(ts, ctx@.pos),
        decreases remaining(ts, ctx@.pos),
    {
        proof {
            lemma_tokens_fit(ctx);
        }
        consume(ctx);
        let arg = match parse_bin_op_or_expr(ctx) {
            Ok(arg) => arg,
            Err(e) => {
                return Err(e);
            },
        };
        let ghost before = crate::ast::trees_of(args@);
        args.push(arg);
        assert(crate::ast::trees_of(args@) =~= before.push(arg@));
    }
    Ok(args)
}

/// Parses the expression that the buffer starts with. Tokens behind that
/// expression are left unread. Every number in the expression is a number
/// literal.
pub fn parse_tokens(tokens: Vec<Token>) -> (r: Result<Expr, ParseError>)
    ensures
        match r {
            Ok(expr) => parse_tokens_spec(lexemes(tokens@)) == Ok::<Tree, ParseFailure>(expr@)
                && literal(expr@),
            Err(e) => parse_tokens_spec(lexemes(tokens@)) == Err::<Tree, ParseFailure>(e@),
        },
{
    proof {
        lemma_parsed_numbers_are_literals(lexemes(tokens@));
    }
    let mut ctx = Ctx::new(tokens);
    parse_bin_op_or_expr(&mut ctx)
}

/// Parses the expression that `code` starts with.
pub fn parse(code: &str) -> (r: Result<Expr, ParseError>)
    ensures
        match r {
            Ok(expr) => parse_spec(code.spec_bytes()) == Ok::<Tree, ParseFailure>(expr@)
                && literal(expr@),
            Err(e) => parse_spec(code.spec_bytes()) == Err::<Tree, ParseFailure>(e@),
        },
{
    match lex(code) {
        Ok(tokens) => parse_tokens(tokens),
        Err(e) => Err(ParseError::Lex { offset: e.offset }),
    }
}

} // verus!
