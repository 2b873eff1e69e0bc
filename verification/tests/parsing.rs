use formula::ast::{Expr, Operator};
use formula::lex::{lex, Token, TokenTy};
use formula::parse::{consume, expect, parse, parse_tokens, peek, Ctx, ParseError};

fn tok(ty: TokenTy, text: &str) -> Token {
    Token { text: text.to_string(), ty }
}

fn num(text: &str) -> Expr {
    Expr::Number { text: text.to_string() }
}

fn bin(operator: Operator, left: Expr, right: Expr) -> Expr {
    Expr::BinaryOp { operator, left: Box::new(left), right: Box::new(right) }
}

fn call(name: &str, args: Vec<Expr>) -> Expr {
    Expr::Call { name: name.to_string(), args }
}

#[test]
fn a_number_is_an_expression() {
    assert_eq!(parse("42"), Ok(num("42")));
    assert_eq!(parse("3.14"), Ok(num("3.14")));
}

#[test]
fn each_operator_text_names_its_operator() {
    assert_eq!(parse("1 + 2"), Ok(bin(Operator::Add, num("1"), num("2"))));
    assert_eq!(parse("1 - 2"), Ok(bin(Operator::Subtract, num("1"), num("2"))));
    assert_eq!(parse("1 * 2"), Ok(bin(Operator::Multiply, num("1"), num("2"))));
    assert_eq!(parse("1 / 2"), Ok(bin(Operator::Divide, num("1"), num("2"))));
}

#[test]
fn operators_group_to_the_left_without_precedence() {
    assert_eq!(
        parse("2 + 3 * 4"),
        Ok(bin(Operator::Multiply, bin(Operator::Add, num("2"), num("3")), num("4")))
    );
    assert_eq!(
        parse("1 - 2 - 3 - 4"),
        Ok(bin(
            Operator::Subtract,
            bin(Operator::Subtract, bin(Operator::Subtract, num("1"), num("2")), num("3")),
            num("4")
        ))
    );
}

#[test]
fn parentheses_group_and_leave_no_node() {
    assert_eq!(parse("(7)"), Ok(num("7")));
    assert_eq!(parse("((7))"), Ok(num("7")));
    assert_eq!(
        parse("2 - (3 - 6)"),
        Ok(bin(Operator::Subtract, num("2"), bin(Operator::Subtract, num("3"), num("6"))))
    );
}

#[test]
fn calls_keep_their_arguments_in_order() {
    assert_eq!(parse("Sum()"), Ok(call("Sum", vec![])));
    assert_eq!(parse("Sin(0)"), Ok(call("Sin", vec![num("0")])));
    assert_eq!(
        parse("Sum(1, 2 + 3, Pi())"),
        Ok(call(
            "Sum",
            vec![num("1"), bin(Operator::Add, num("2"), num("3")), call("Pi", vec![])]
        ))
    );
}

#[test]
fn function_names_are_not_checked() {
    assert_eq!(parse("Unknown(1)"), Ok(call("Unknown", vec![num("1")])));
}

#[test]
fn input_behind_the_expression_is_left_unread() {
    assert_eq!(parse("2 + 2 )))"), Ok(bin(Operator::Add, num("2"), num("2"))));
    assert_eq!(parse("1 2"), Ok(num("1")));
}

#[test]
fn a_lexical_error_ends_the_parse() {
    assert_eq!(parse("2 + @"), Err(ParseError::Lex { offset: 4 }));
    assert_eq!(parse("2 @ 3 +"), Err(ParseError::Lex { offset: 2 }));
}

#[test]
fn a_token_that_starts_no_expression_is_reported() {
    assert_eq!(parse(""), Err(ParseError::UnexpectedToken { found: TokenTy::EOF }));
    assert_eq!(parse("+ 1"), Err(ParseError::UnexpectedToken { found: TokenTy::Operator }));
    assert_eq!(parse("1 +"), Err(ParseError::UnexpectedToken { found: TokenTy::EOF }));
    assert_eq!(parse("1 + )"), Err(ParseError::UnexpectedToken { found: TokenTy::RParen }));
    assert_eq!(parse("-3"), Err(ParseError::UnexpectedToken { found: TokenTy::Operator }));
    assert_eq!(parse(", 1"), Err(ParseError::UnexpectedToken { found: TokenTy::Comma }));
    assert_eq!(parse("()"), Err(ParseError::UnexpectedToken { found: TokenTy::RParen }));
}

#[test]
fn a_missing_token_is_reported_with_what_came() {
    assert_eq!(
        parse("(1 + 2"),
        Err(ParseError::Unexpected { expected: TokenTy::RParen, found: TokenTy::EOF })
    );
    assert_eq!(
        parse("(1 2)"),
        Err(ParseError::Unexpected { expected: TokenTy::RParen, found: TokenTy::Number })
    );
    assert_eq!(
        parse("x + 1"),
        Err(ParseError::Unexpected { expected: TokenTy::LParen, found: TokenTy::Operator })
    );
    assert_eq!(
        parse("Sum"),
        Err(ParseError::Unexpected { expected: TokenTy::LParen, found: TokenTy::EOF })
    );
    assert_eq!(
        parse("Sum(1"),
        Err(ParseError::Unexpected { expected: TokenTy::RParen, found: TokenTy::EOF })
    );
}

#[test]
fn arguments_are_separated_by_commas() {
    assert_eq!(
        parse("Sum(1 2)"),
        Err(ParseError::Unexpected { expected: TokenTy::RParen, found: TokenTy::Number })
    );
    assert_eq!(parse("Sum(1,)"), Err(ParseError::UnexpectedToken { found: TokenTy::RParen }));
    assert_eq!(parse("Sum(,1)"), Err(ParseError::UnexpectedToken { found: TokenTy::Comma }));
    assert_eq!(parse("Sum(1,,2)"), Err(ParseError::UnexpectedToken { found: TokenTy::Comma }));
}

#[test]
fn an_error_inside_parentheses_comes_out_unchanged() {
    assert_eq!(parse("(+"), Err(ParseError::UnexpectedToken { found: TokenTy::Operator }));
    assert_eq!(
        parse("Sum((1)"),
        Err(ParseError::Unexpected { expected: TokenTy::RParen, found: TokenTy::EOF })
    );
}

#[test]
fn an_operator_token_with_another_text_is_unsupported() {
    let tokens = vec![
        tok(TokenTy::Number, "1"),
        tok(TokenTy::Operator, "%"),
        tok(TokenTy::Number, "2"),
    ];
    assert_eq!(
        parse_tokens(tokens),
        Err(ParseError::UnsupportedOperator { text: "%".to_string() })
    );
    let tokens = vec![
        tok(TokenTy::Number, "1"),
        tok(TokenTy::Operator, "++"),
        tok(TokenTy::Number, "2"),
    ];
    assert_eq!(
        parse_tokens(tokens),
        Err(ParseError::UnsupportedOperator { text: "++".to_string() })
    );
}

#[test]
fn a_number_token_with_another_text_is_invalid() {
    for text in ["", "abc", "1.", ".5", "1e5", "1.2.3", "-1", "1 ", "１"] {
        assert_eq!(
            parse_tokens(vec![tok(TokenTy::Number, text)]),
            Err(ParseError::InvalidNumber { text: text.to_string() }),
            "{:?}",
            text
        );
    }
    assert_eq!(parse_tokens(vec![tok(TokenTy::Number, "0.5")]), Ok(num("0.5")));
}

#[test]
fn parsing_tokens_agrees_with_parsing_text() {
    for code in ["1 + 2 * (3 - Sum(4, 5))", "Sin(Pi())", "(1", "Sum(1 2)", ""] {
        assert_eq!(parse_tokens(lex(code).unwrap()), parse(code), "{}", code);
    }
}

#[test]
fn peek_returns_the_token_and_stays() {
    let ctx = Ctx::new(lex("a 1").unwrap());
    assert_eq!(peek(&ctx), tok(TokenTy::Ident, "a"));
    assert_eq!(peek(&ctx), tok(TokenTy::Ident, "a"));
}

#[test]
fn peek_behind_the_last_token_gives_end_of_input() {
    let ctx = Ctx::new(vec![]);
    assert_eq!(peek(&ctx), tok(TokenTy::EOF, ""));
}

#[test]
fn consume_returns_the_token_and_advances() {
    let mut ctx = Ctx::new(lex("a 1").unwrap());
    assert_eq!(ctx.position(), 0);
    assert_eq!(consume(&mut ctx), tok(TokenTy::Ident, "a"));
    assert_eq!(ctx.position(), 1);
    assert_eq!(consume(&mut ctx), tok(TokenTy::Number, "1"));
    assert_eq!(ctx.position(), 2);
}

#[test]
fn consume_advances_behind_the_last_token_too() {
    let mut ctx = Ctx::new(lex("a").unwrap());
    assert_eq!(consume(&mut ctx), tok(TokenTy::Ident, "a"));
    assert_eq!(consume(&mut ctx), tok(TokenTy::EOF, ""));
    assert_eq!(ctx.position(), 2);
    assert_eq!(consume(&mut ctx), tok(TokenTy::EOF, ""));
    assert_eq!(ctx.position(), 3);
    assert_eq!(peek(&ctx), tok(TokenTy::EOF, ""));
    assert_eq!(ctx.position(), 3);

    let mut empty = Ctx::new(vec![]);
    assert_eq!(consume(&mut empty), tok(TokenTy::EOF, ""));
    assert_eq!(empty.position(), 1);
}

#[test]
fn expect_returns_the_token_of_the_kind() {
    let mut ctx = Ctx::new(lex("a (").unwrap());
    assert_eq!(expect(&mut ctx, TokenTy::Ident), Ok(tok(TokenTy::Ident, "a")));
    assert_eq!(expect(&mut ctx, TokenTy::LParen), Ok(tok(TokenTy::LParen, "(")));
    assert_eq!(expect(&mut ctx, TokenTy::EOF), Ok(tok(TokenTy::EOF, "")));
}

#[test]
fn expect_fails_on_another_kind_and_still_advances() {
    let mut ctx = Ctx::new(lex("a 1").unwrap());
    assert_eq!(
        expect(&mut ctx, TokenTy::Number),
        Err(ParseError::Unexpected { expected: TokenTy::Number, found: TokenTy::Ident })
    );
    assert_eq!(ctx.position(), 1);
    assert_eq!(peek(&ctx), tok(TokenTy::Number, "1"));
    assert_eq!(expect(&mut ctx, TokenTy::Number), Ok(tok(TokenTy::Number, "1")));
    assert_eq!(ctx.position(), 2);
    assert_eq!(
        expect(&mut ctx, TokenTy::RParen),
        Err(ParseError::Unexpected { expected: TokenTy::RParen, found: TokenTy::EOF })
    );
    assert_eq!(ctx.position(), 3);
    assert_eq!(
        expect(&mut ctx, TokenTy::Comma),
        Err(ParseError::Unexpected { expected: TokenTy::Comma, found: TokenTy::EOF })
    );
    assert_eq!(ctx.position(), 4);
}

#[test]
fn expect_of_end_of_input_advances_too() {
    let mut ctx = Ctx::new(vec![]);
    assert_eq!(expect(&mut ctx, TokenTy::EOF), Ok(tok(TokenTy::EOF, "")));
    assert_eq!(ctx.position(), 1);
}

#[test]
fn parse_errors_have_messages() {
    assert_eq!(ParseError::Lex { offset: 17 }.message(), "Could not parse token at idx: 17");
    assert_eq!(
        ParseError::Unexpected { expected: TokenTy::RParen, found: TokenTy::EOF }.message(),
        "expected: RParen, found EOF"
    );
    assert_eq!(
        ParseError::UnsupportedOperator { text: "%".to_string() }.message(),
        "unsupported operator: %"
    );
    assert_eq!(
        ParseError::UnexpectedToken { found: TokenTy::Comma }.message(),
        "unexpected token: Comma"
    );
    assert_eq!(
        ParseError::InvalidNumber { text: "1e5".to_string() }.message(),
        "invalid number: 1e5"
    );
}
