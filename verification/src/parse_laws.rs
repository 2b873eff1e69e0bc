//! What holds of every parse.
use vstd::prelude::*;
use crate::ast::{literal, Tree};
use crate::lex::{tokens_of, Lexeme, TokenTy};
use crate::lex_laws::{lemma_tokens_well_formed, well_formed};
use crate::parse::{
    arguments, arguments_stop, bin_expr, bin_expr_stop, call, call_stop, lookahead,
    more_arguments, more_arguments_stop, more_operands, more_operands_stop, number, operand,
    operand_stop, operator_of, paren, paren_stop, parse_spec, parse_tokens_spec, remaining,
    ParseFailure,
};

verus! {

/// A well-formed operator token names an operator.
pub proof fn lemma_operator_known(t: Lexeme)
    requires
        t.ty == TokenTy::Operator,
        well_formed(t),
    ensures
        operator_of(t.text) is Some,
{
    reveal_strlit("+");
    reveal_strlit("-");
    reveal_strlit("*");
    reveal_strlit("/");
    assert("+"@ =~= seq!['+']);
    assert("-"@ =~= seq!['-']);
    assert("*"@ =~= seq!['*']);
    assert("/"@ =~= seq!['/']);
}

/// An expression takes at least one token, and only tokens of the buffer.
pub proof fn lemma_operand_bounds(ts: Seq<Lexeme>, pos: nat)
    ensures
        operand(ts, pos) matches Ok((_, n)) ==> 1 <= n && pos + n <= ts.len(),
    decreases remaining(ts, pos), 4nat,
{
    match lookahead(ts, pos).ty {
        TokenTy::Ident => lemma_call_bounds(ts, pos),
        TokenTy::LParen => lemma_paren_bounds(ts, pos),
        _ => {},
    }
}

/// An expression in parentheses takes at least three tokens of the buffer.
pub proof fn lemma_paren_bounds(ts: Seq<Lexeme>, pos: nat)
    ensures
        paren(ts, pos) matches Ok((_, n)) ==> 3 <= n && pos + n <= ts.len(),
    decreases remaining(ts, pos), 3nat,
{
    if lookahead(ts, pos).ty == TokenTy::LParen {
        lemma_bin_expr_bounds(ts, pos + 1);
    }
}

/// A call takes at least three tokens of the buffer.
pub proof fn lemma_call_bounds(ts: Seq<Lexeme>, pos: nat)
    ensures
        call(ts, pos) matches Ok((_, n)) ==> 3 <= n && pos + n <= ts.len(),
    decreases remaining(ts, pos), 3nat,
{
    if lookahead(ts, pos).ty == TokenTy::Ident && lookahead(ts, pos + 1).ty == TokenTy::LParen {
        lemma_arguments_bounds(ts, pos + 2);
    }
}

/// A list of arguments takes only tokens of the buffer, one for each comma
/// and at least one for each argument.
pub proof fn lemma_arguments_bounds(ts: Seq<Lexeme>, pos: nat)
    ensures
        arguments(ts, pos) matches Ok((args, n)) ==> pos + n <= ts.len() && (args.len() == 0
            <==> n == 0) && 2 * args.len() <= n + 1,
    decreases remaining(ts, pos), 6nat,
{
    if lookahead(ts, pos).ty != TokenTy::RParen {
        lemma_bin_expr_bounds(ts, pos);
        if let Ok((first, n)) = bin_expr(ts, pos) {
            lemma_more_arguments_bounds(ts, pos + n, seq![first], n);
        }
    }
}

/// The rest of a list of arguments takes only tokens of the buffer, one for
/// each comma and at least one for each argument.
proof fn lemma_more_arguments_bounds(ts: Seq<Lexeme>, pos: nat, args: Seq<Tree>, used: nat)
    requires
        pos <= ts.len(),
    ensures
        more_arguments(ts, pos, args, used) matches Ok((all, n)) ==> used <= n && pos + n - used
            <= ts.len() && args.len() <= all.len() && 2 * (all.len() - args.len()) <= n - used,
    decreases remaining(ts, pos), 1nat,
{
    if lookahead(ts, pos).ty == TokenTy::Comma {
        lemma_bin_expr_bounds(ts, pos + 1);
        if let Ok((next, n)) = bin_expr(ts, pos + 1) {
            lemma_more_arguments_bounds(ts, pos + 1 + n, args.push(next), used + 1 + n);
        }
    }
}

/// A chain of operators and expressions takes at least one token, and only
/// tokens of the buffer.
pub proof fn lemma_bin_expr_bounds(ts: Seq<Lexeme>, pos: nat)
    ensures
        bin_expr(ts, pos) matches Ok((_, n)) ==> 1 <= n && pos + n <= ts.len(),
    decreases remaining(ts, pos), 5nat,
{
    lemma_operand_bounds(ts, pos);
    if let Ok((first, n)) = operand(ts, pos) {
        lemma_more_operands_bounds(ts, pos + n, first, n);
    }
}

/// The rest of a chain of operators takes only tokens of the buffer.
proof fn lemma_more_operands_bounds(ts: Seq<Lexeme>, pos: nat, left: Tree, used: nat)
    requires
        pos <= ts.len(),
    ensures
        more_operands(ts, pos, left, used) matches Ok((_, n)) ==> used <= n && pos + n - used
            <= ts.len(),
    decreases remaining(ts, pos), 1nat,
{
    let tok = lookahead(ts, pos);
    if tok.ty == TokenTy::Operator {
        if let Some(operator) = operator_of(tok.text) {
            lemma_operand_bounds(ts, pos + 1);
            if let Ok((right, n)) = operand(ts, pos + 1) {
                lemma_more_operands_bounds(
                    ts,
                    pos + 1 + n,
                    Tree::BinaryOp { operator, left: Box::new(left), right: Box::new(right) },
                    used + 1 + n,
                );
            }
        }
    }
}

/// A failed reading of an expression leaves the cursor where it stood or
/// further on, at most one behind the last token.
pub proof fn lemma_operand_stop_bounds(ts: Seq<Lexeme>, pos: nat)
    requires
        pos <= ts.len(),
    ensures
        pos <= operand_stop(ts, pos) <= ts.len() + 1,
    decreases remaining(ts, pos), 4nat,
{
    match lookahead(ts, pos).ty {
        TokenTy::Ident => lemma_call_stop_bounds(ts, pos),
        TokenTy::LParen => lemma_paren_stop_bounds(ts, pos),
        _ => {},
    }
}

/// A failed reading of an expression in parentheses leaves the cursor where
/// it stood or further on, at most one behind the last token.
pub proof fn lemma_paren_stop_bounds(ts: Seq<Lexeme>, pos: nat)
    requires
        pos <= ts.len(),
    ensures
        pos <= paren_stop(ts, pos) <= ts.len() + 1,
    decreases remaining(ts, pos), 3nat,
{
    if lookahead(ts, pos).ty == TokenTy::LParen {
        lemma_bin_expr_bounds(ts, pos + 1);
        lemma_bin_expr_stop_bounds(ts, pos + 1);
    }
}

/// A failed reading of a call leaves the cursor where it stood or further
/// on, at most one behind the last token.
pub proof fn lemma_call_stop_bounds(ts: Seq<Lexeme>, pos: nat)
    requires
        pos <= ts.len(),
    ensures
        pos <= call_stop(ts, pos) <= ts.len() + 1,
    decreases remaining(ts, pos), 3nat,
{
    if lookahead(ts, pos).ty == TokenTy::Ident && lookahead(ts, pos + 1).ty == TokenTy::LParen {
        lemma_arguments_bounds(ts, pos + 2);
        lemma_arguments_stop_bounds(ts, pos + 2);
    }
}

/// A failed reading of a list of arguments leaves the cursor where it stood
/// or further on, at most one behind the last token.
pub proof fn lemma_arguments_stop_bounds(ts: Seq<Lexeme>, pos: nat)
    requires
        pos <= ts.len(),
    ensures
        pos <= arguments_stop(ts, pos) <= ts.len() + 1,
    decreases remaining(ts, pos), 6nat,
{
    lemma_bin_expr_bounds(ts, pos);
    lemma_bin_expr_stop_bounds(ts, pos);
    if let Ok((_, n)) = bin_expr(ts, pos) {
        lemma_more_arguments_stop_bounds(ts, pos + n);
    }
}

/// What [`lemma_arguments_stop_bounds`] says, of the rest of the list.
proof fn lemma_more_arguments_stop_bounds(ts: Seq<Lexeme>, pos: nat)
    requires
        pos <= ts.len(),
    ensures
        pos <= more_arguments_stop(ts, pos) <= ts.len() + 1,
    decreases remaining(ts, pos), 1nat,
{
    if lookahead(ts, pos).ty == TokenTy::Comma {
        lemma_bin_expr_bounds(ts, pos + 1);
        lemma_bin_expr_stop_bounds(ts, pos + 1);
        if let Ok((_, n)) = bin_expr(ts, pos + 1) {
            lemma_more_arguments_stop_bounds(ts, pos + 1 + n);
        }
    }
}

/// A failed reading of a chain of operators leaves the cursor where it
/// stood or further on, at most one behind the last token.
pub proof fn lemma_bin_expr_stop_bounds(ts: Seq<Lexeme>, pos: nat)
    requires
        pos <= ts.len(),
    ensures
        pos <= bin_expr_stop(ts, pos) <= ts.len() + 1,
    decreases remaining(ts, pos), 5nat,
{
    lemma_operand_bounds(ts, pos);
    lemma_operand_stop_bounds(ts, pos);
    if let Ok((_, n)) = operand(ts, pos) {
        lemma_more_operands_stop_bounds(ts, pos + n);
    }
}

/// What [`lemma_bin_expr_stop_bounds`] says, of the rest of the chain.
proof fn lemma_more_operands_stop_bounds(ts: Seq<Lexeme>, pos: nat)
    requires
        pos <= ts.len(),
    ensures
        pos <= more_operands_stop(ts, pos) <= ts.len() + 1,
    decreases remaining(ts, pos), 1nat,
{
    let tok = lookahead(ts, pos);
    if tok.ty == TokenTy::Operator && operator_of(tok.text) is Some {
        lemma_operand_bounds(ts, pos + 1);
        lemma_operand_stop_bounds(ts, pos + 1);
        if let Ok((_, n)) = operand(ts, pos + 1) {
            lemma_more_operands_stop_bounds(ts, pos + 1 + n);
        }
    }
}

/// Every token of the buffer is well formed.
pub open spec fn lexical(ts: Seq<Lexeme>) -> bool {
    forall|i: int| 0 <= i < ts.len() ==> well_formed(#[trigger] ts[i])
}

/// The failures of the grammar itself: a token of the wrong kind.
pub open spec fn is_grammar_failure(e: ParseFailure) -> bool {
    e is Unexpected || e is UnexpectedToken
}

/// Among well-formed tokens the reading of an expression fails only on a token of
/// the wrong kind.
proof fn lemma_operand_failure(ts: Seq<Lexeme>, pos: nat)
    requires
        lexical(ts),
    ensures
        operand(ts, pos) matches Err(e) ==> is_grammar_failure(e),
    decreases remaining(ts, pos), 4nat,
{
    match lookahead(ts, pos).ty {
        TokenTy::Ident => lemma_call_failure(ts, pos),
        TokenTy::LParen => lemma_paren_failure(ts, pos),
        TokenTy::Number => lemma_number_failure(ts, pos),
        _ => {},
    }
}

/// Among well-formed tokens the reading of a number fails only on a token of
/// the wrong kind.
proof fn lemma_number_failure(ts: Seq<Lexeme>, pos: nat)
    requires
        lexical(ts),
    ensures
        number(ts, pos) matches Err(e) ==> is_grammar_failure(e),
{
    if pos < ts.len() {
        assert(well_formed(ts[pos as int]));
    }
}

/// Among well-formed tokens the reading of an expression in parentheses fails only on a token of
/// the wrong kind.
proof fn lemma_paren_failure(ts: Seq<Lexeme>, pos: nat)
    requires
        lexical(ts),
    ensures
        paren(ts, pos) matches Err(e) ==> is_grammar_failure(e),
    decreases remaining(ts, pos), 3nat,
{
    if lookahead(ts, pos).ty == TokenTy::LParen {
        lemma_bin_expr_failure(ts, pos + 1);
    }
}

/// Among well-formed tokens the reading of a call fails only on a token of
/// the wrong kind.
proof fn lemma_call_failure(ts: Seq<Lexeme>, pos: nat)
    requires
        lexical(ts),
    ensures
        call(ts, pos) matches Err(e) ==> is_grammar_failure(e),
    decreases remaining(ts, pos), 3nat,
{
    if lookahead(ts, pos).ty == TokenTy::Ident && lookahead(ts, pos + 1).ty == TokenTy::LParen {
        lemma_arguments_failure(ts, pos + 2);
    }
}

/// Among well-formed tokens the reading of a list of arguments fails only on a token of
/// the wrong kind.
proof fn lemma_arguments_failure(ts: Seq<Lexeme>, pos: nat)
    requires
        lexical(ts),
    ensures
        arguments(ts, pos) matches Err(e) ==> is_grammar_failure(e),
    decreases remaining(ts, pos), 6nat,
{
    if lookahead(ts, pos).ty != TokenTy::RParen {
        lemma_bin_expr_failure(ts, pos);
        if let Ok((first, n)) = bin_expr(ts, pos) {
            lemma_more_arguments_failure(ts, pos + n, seq![first], n);
        }
    }
}

/// Among well-formed tokens the reading of the rest of a list of arguments fails only on a token of
/// the wrong kind.
proof fn lemma_more_arguments_failure(ts: Seq<Lexeme>, pos: nat, args: Seq<Tree>, used: nat)
    requires
        lexical(ts),
    ensures
        more_arguments(ts, pos, args, used) matches Err(e) ==> is_grammar_failure(e),
    decreases remaining(ts, pos), 1nat,
{
    if lookahead(ts, pos).ty == TokenTy::Comma {
        lemma_bin_expr_failure(ts, pos + 1);
        if let Ok((next, n)) = bin_expr(ts, pos + 1) {
            lemma_more_arguments_failure(ts, pos + 1 + n, args.push(next), used + 1 + n);
        }
    }
}

/// Among well-formed tokens the reading of a chain of operators fails only on a token of
/// the wrong kind.
proof fn lemma_bin_expr_failure(ts: Seq<Lexeme>, pos: nat)
    requires
        lexical(ts),
    ensures
        bin_expr(ts, pos) matches Err(e) ==> is_grammar_failure(e),
    decreases remaining(ts, pos), 5nat,
{
    lemma_operand_failure(ts, pos);
    if let Ok((first, n)) = operand(ts, pos) {
        lemma_more_operands_failure(ts, pos + n, first, n);
    }
}

/// Among well-formed tokens the reading of the rest of a chain of operators fails only on a token of
/// the wrong kind.
proof fn lemma_more_operands_failure(ts: Seq<Lexeme>, pos: nat, left: Tree, used: nat)
    requires
        lexical(ts),
    ensures
        more_operands(ts, pos, left, used) matches Err(e) ==> is_grammar_failure(e),
    decreases remaining(ts, pos), 1nat,
{
    let tok = lookahead(ts, pos);
    if tok.ty == TokenTy::Operator {
        assert(well_formed(ts[pos as int]));
        lemma_operator_known(tok);
        let operator = operator_of(tok.text)->Some_0;
        lemma_operand_failure(ts, pos + 1);
        if let Ok((right, n)) = operand(ts, pos + 1) {
            lemma_more_operands_failure(
                ts,
                pos + 1 + n,
                Tree::BinaryOp { operator, left: Box::new(left), right: Box::new(right) },
                used + 1 + n,
            );
        }
    }
}

/// A buffer of well-formed tokens fails to parse only on a token of the
/// wrong kind: its operators are known and its numbers are literals.
pub proof fn lemma_lexical_failures(ts: Seq<Lexeme>)
    requires
        lexical(ts),
    ensures
        parse_tokens_spec(ts) matches Err(e) ==> is_grammar_failure(e),
{
    lemma_bin_expr_failure(ts, 0);
}

/// A text fails to parse on a byte that no lexical rule matches or on a
/// token of the wrong kind, and on nothing else: the lexer gives no operator
/// that the parser does not know and no number that is no literal.
pub proof fn lemma_parse_failures(input: Seq<u8>)
    ensures
        parse_spec(input) matches Err(e) ==> e is Lex || is_grammar_failure(e),
{
    if tokens_of(input) is Ok {
        lemma_tokens_well_formed(input);
        lemma_lexical_failures(tokens_of(input)->Ok_0);
    }
}

/// Every number in what the reading of an expression gives is a number literal.
proof fn lemma_operand_literal(ts: Seq<Lexeme>, pos: nat)
    ensures
        operand(ts, pos) matches Ok((tree, _)) ==> literal(tree),
    decreases remaining(ts, pos), 4nat,
{
    match lookahead(ts, pos).ty {
        TokenTy::Ident => lemma_call_literal(ts, pos),
        TokenTy::LParen => lemma_paren_literal(ts, pos),
        _ => {},
    }
}

/// Every number in what the reading of an expression in parentheses gives is a number literal.
proof fn lemma_paren_literal(ts: Seq<Lexeme>, pos: nat)
    ensures
        paren(ts, pos) matches Ok((tree, _)) ==> literal(tree),
    decreases remaining(ts, pos), 3nat,
{
    if lookahead(ts, pos).ty == TokenTy::LParen {
        lemma_bin_expr_literal(ts, pos + 1);
    }
}

/// Every number in what the reading of a call gives is a number literal.
proof fn lemma_call_literal(ts: Seq<Lexeme>, pos: nat)
    ensures
        call(ts, pos) matches Ok((tree, _)) ==> literal(tree),
    decreases remaining(ts, pos), 3nat,
{
    if lookahead(ts, pos).ty == TokenTy::Ident && lookahead(ts, pos + 1).ty == TokenTy::LParen {
        lemma_arguments_literal(ts, pos + 2);
    }
}

/// Every number in what the reading of a list of arguments gives is a number literal.
proof fn lemma_arguments_literal(ts: Seq<Lexeme>, pos: nat)
    ensures
        arguments(ts, pos) matches Ok((args, _)) ==> forall|i: int|
            0 <= i < args.len() ==> literal(#[trigger] args[i]),
    decreases remaining(ts, pos), 6nat,
{
    if lookahead(ts, pos).ty != TokenTy::RParen {
        lemma_bin_expr_literal(ts, pos);
        if let Ok((first, n)) = bin_expr(ts, pos) {
            lemma_more_arguments_literal(ts, pos + n, seq![first], n);
        }
    }
}

/// Every number in what the reading of the rest of a list of arguments gives is a number literal.
proof fn lemma_more_arguments_literal(ts: Seq<Lexeme>, pos: nat, args: Seq<Tree>, used: nat)
    requires
        forall|i: int| 0 <= i < args.len() ==> literal(#[trigger] args[i]),
    ensures
        more_arguments(ts, pos, args, used) matches Ok((all, _)) ==> forall|i: int|
            0 <= i < all.len() ==> literal(#[trigger] all[i]),
    decreases remaining(ts, pos), 1nat,
{
    if lookahead(ts, pos).ty == TokenTy::Comma {
        lemma_bin_expr_literal(ts, pos + 1);
        if let Ok((next, n)) = bin_expr(ts, pos + 1) {
            lemma_more_arguments_literal(ts, pos + 1 + n, args.push(next), used + 1 + n);
        }
    }
}

/// Every number in what the reading of a chain of operators gives is a number literal.
proof fn lemma_bin_expr_literal(ts: Seq<Lexeme>, pos: nat)
    ensures
        bin_expr(ts, pos) matches Ok((tree, _)) ==> literal(tree),
    decreases remaining(ts, pos), 5nat,
{
    lemma_operand_literal(ts, pos);
    if let Ok((first, n)) = operand(ts, pos) {
        lemma_more_operands_literal(ts, pos + n, first, n);
    }
}

/// Every number in what the reading of the rest of a chain of operators gives is a number literal.
proof fn lemma_more_operands_literal(ts: Seq<Lexeme>, pos: nat, left: Tree, used: nat)
    requires
        literal(left),
    ensures
        more_operands(ts, pos, left, used) matches Ok((tree, _)) ==> literal(tree),
    decreases remaining(ts, pos), 1nat,
{
    let tok = lookahead(ts, pos);
    if tok.ty == TokenTy::Operator {
        if let Some(operator) = operator_of(tok.text) {
            lemma_operand_literal(ts, pos + 1);
            if let Ok((right, n)) = operand(ts, pos + 1) {
                lemma_more_operands_literal(
                    ts,
                    pos + 1 + n,
                    Tree::BinaryOp { operator, left: Box::new(left), right: Box::new(right) },
                    used + 1 + n,
                );
            }
        }
    }
}

/// Every number in a parsed expression is a number literal, whatever the
/// tokens were.
pub proof fn lemma_parsed_numbers_are_literals(ts: Seq<Lexeme>)
    ensures
        parse_tokens_spec(ts) matches Ok(tree) ==> literal(tree),
{
    lemma_bin_expr_literal(ts, 0);
}

/// Operators group to the left, whatever they are: in `a op b op c` the
/// second operator takes `a op b` as its left operand.
pub proof fn lemma_operators_group_left(
    ts: Seq<Lexeme>,
    pos: nat,
    left: Tree,
    used: nat,
)
    requires
        lookahead(ts, pos).ty == TokenTy::Operator,
        operator_of(lookahead(ts, pos).text) is Some,
        operand(ts, pos + 1) is Ok,
    ensures
        ({
            let operator = operator_of(lookahead(ts, pos).text)->Some_0;
            let (right, n) = operand(ts, pos + 1)->Ok_0;
            more_operands(ts, pos, left, used) == more_operands(
                ts,
                pos + 1 + n,
                Tree::BinaryOp { operator, left: Box::new(left), right: Box::new(right) },
                used + 1 + n,
            )
        }),
{
}

} // verus!
