use formula::lex::{lex, LexError, Token, TokenTy};

fn tok(ty: TokenTy, text: &str) -> Token {
    Token { text: text.to_string(), ty }
}

#[test]
fn empty_input_has_no_tokens() {
    assert_eq!(lex(""), Ok(vec![]));
    assert_eq!(lex("  \n \n"), Ok(vec![]));
}

#[test]
fn tokens_come_in_source_order_with_their_text() {
    assert_eq!(
        lex("Sum(1, 2.5) - x_1"),
        Ok(vec![
            tok(TokenTy::Ident, "Sum"),
            tok(TokenTy::LParen, "("),
            tok(TokenTy::Number, "1"),
            tok(TokenTy::Comma, ","),
            tok(TokenTy::Number, "2.5"),
            tok(TokenTy::RParen, ")"),
            tok(TokenTy::Operator, "-"),
            tok(TokenTy::Ident, "x_1"),
        ])
    );
}

#[test]
fn each_operator_is_a_token() {
    assert_eq!(
        lex("+-*/"),
        Ok(vec![
            tok(TokenTy::Operator, "+"),
            tok(TokenTy::Operator, "-"),
            tok(TokenTy::Operator, "*"),
            tok(TokenTy::Operator, "/"),
        ])
    );
}

#[test]
fn whitespace_separates_and_gives_no_token() {
    assert_eq!(lex("2+2"), lex(" 2 \n+\n2 "));
    assert_eq!(
        lex("ab cd"),
        Ok(vec![tok(TokenTy::Ident, "ab"), tok(TokenTy::Ident, "cd")])
    );
}

#[test]
fn the_longest_match_is_taken() {
    assert_eq!(lex("abc123"), Ok(vec![tok(TokenTy::Ident, "abc123")]));
    assert_eq!(
        lex("123abc"),
        Ok(vec![tok(TokenTy::Number, "123"), tok(TokenTy::Ident, "abc")])
    );
    assert_eq!(lex("007.250"), Ok(vec![tok(TokenTy::Number, "007.250")]));
}

#[test]
fn a_leading_minus_is_an_operator() {
    assert_eq!(
        lex("-3"),
        Ok(vec![tok(TokenTy::Operator, "-"), tok(TokenTy::Number, "3")])
    );
}

#[test]
fn an_unknown_byte_fails_with_its_offset() {
    assert_eq!(lex("@"), Err(LexError { offset: 0 }));
    assert_eq!(lex("2 + @"), Err(LexError { offset: 4 }));
    assert_eq!(lex("2\t+ 2"), Err(LexError { offset: 1 }));
    assert_eq!(lex("a\r\n"), Err(LexError { offset: 1 }));
    assert_eq!(lex("1e5 # 3"), Err(LexError { offset: 4 }));
}

#[test]
fn a_point_needs_digits_on_both_sides() {
    assert_eq!(lex("1."), Err(LexError { offset: 1 }));
    assert_eq!(lex(".5"), Err(LexError { offset: 0 }));
    assert_eq!(lex("1.5.2"), Err(LexError { offset: 3 }));
    assert_eq!(lex("1.x"), Err(LexError { offset: 1 }));
}

#[test]
fn an_underscore_does_not_start_an_identifier() {
    assert_eq!(lex("_a"), Err(LexError { offset: 0 }));
    assert_eq!(lex("a_"), Ok(vec![tok(TokenTy::Ident, "a_")]));
}

#[test]
fn bytes_outside_ascii_fail_at_their_byte_offset() {
    assert_eq!(lex("é"), Err(LexError { offset: 0 }));
    assert_eq!(lex("ab é"), Err(LexError { offset: 3 }));
    assert_eq!(lex("1 + π"), Err(LexError { offset: 4 }));
}

#[test]
fn the_first_failure_is_reported() {
    assert_eq!(lex("1 $ 2 @"), Err(LexError { offset: 2 }));
}

#[test]
fn kinds_have_names() {
    assert_eq!(TokenTy::Ident.name(), "Ident");
    assert_eq!(TokenTy::Number.name(), "Number");
    assert_eq!(TokenTy::LParen.name(), "LParen");
    assert_eq!(TokenTy::RParen.name(), "RParen");
    assert_eq!(TokenTy::Comma.name(), "Comma");
    assert_eq!(TokenTy::Operator.name(), "Operator");
    assert_eq!(TokenTy::EOF.name(), "EOF");
}

#[test]
fn a_lexical_error_names_the_offset() {
    assert_eq!(LexError { offset: 0 }.message(), "Could not parse token at idx: 0");
    assert_eq!(LexError { offset: 1234567890 }.message(), "Could not parse token at idx: 1234567890");
}
