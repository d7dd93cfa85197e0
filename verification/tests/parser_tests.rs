use jlox::expr::{Expr, LiteralValue};
use jlox::grammar::{is_decimal_text, SyntaxFault};
use jlox::parser::{Parser, ParserError};
use jlox::scanner::Scanner;
use jlox::token::Token;
use jlox::token_type::TokenType;

fn parse(source: &str) -> Result<Expr, ParserError> {
    let mut scanner = Scanner::new(source.to_string());
    let tokens = scanner.scan_tokens().clone();
    assert!(!scanner.had_error());
    Parser::new(tokens).parse()
}

fn number(text: &str) -> Expr {
    Expr::Literal(LiteralValue::Number(text.to_string()))
}

fn op(token_type: TokenType, lexeme: &str) -> Token {
    Token::new(token_type, lexeme.to_string(), 1)
}

fn binary(left: Expr, operator: Token, right: Expr) -> Expr {
    Expr::Binary { left: Box::new(left), operator, right: Box::new(right) }
}

#[test]
fn multiplication_binds_tighter_than_addition() {
    let expected = binary(
        number("1"),
        op(TokenType::Plus, "+"),
        binary(number("2"), op(TokenType::Star, "*"), number("3")),
    );
    assert_eq!(parse("1 + 2 * 3"), Ok(expected));
}

#[test]
fn subtraction_is_left_associative() {
    let expected = binary(
        binary(number("1"), op(TokenType::Minus, "-"), number("2")),
        op(TokenType::Minus, "-"),
        number("3"),
    );
    assert_eq!(parse("1 - 2 - 3"), Ok(expected));
}

#[test]
fn parentheses_override_precedence() {
    let expected = binary(
        Expr::Grouping(Box::new(binary(number("1"), op(TokenType::Plus, "+"), number("2")))),
        op(TokenType::Star, "*"),
        number("3"),
    );
    assert_eq!(parse("(1 + 2) * 3"), Ok(expected));
}

#[test]
fn missing_right_paren_is_reported_at_the_unmatched_token() {
    let err = parse("(1 +\n 2").unwrap_err();
    assert_eq!(err.message, "Expect ')' after expression");
    assert_eq!(err.line, 2);
    assert_eq!(err.token.token_type, TokenType::Eof);
    let err = parse("(1 + 2").unwrap_err();
    assert_eq!(err.message, "Expect ')' after expression");
    assert_eq!(err.line, 1);
}

#[test]
fn empty_input_expects_an_expression() {
    let err = parse("").unwrap_err();
    assert_eq!(err.message, "Expect expression");
    assert_eq!(err.line, 1);
    assert_eq!(err.token.token_type, TokenType::Eof);
}

#[test]
fn operator_only_input_expects_an_expression() {
    let err = parse("*").unwrap_err();
    assert_eq!(err.message, "Expect expression");
    assert_eq!(err.token.token_type, TokenType::Star);
    assert_eq!(err.token.lexeme, "*");
    assert_eq!(err.line, 1);
}

#[test]
fn missing_right_operand_expects_an_expression() {
    let err = parse("1 +").unwrap_err();
    assert_eq!(err.message, "Expect expression");
    assert_eq!(err.token.token_type, TokenType::Eof);
}

#[test]
fn unary_operators_nest_to_the_right() {
    let expected = Expr::Unary {
        operator: op(TokenType::Minus, "-"),
        right: Box::new(Expr::Unary {
            operator: op(TokenType::Bang, "!"),
            right: Box::new(Expr::Literal(LiteralValue::Boolean(true))),
        }),
    };
    assert_eq!(parse("-!true"), Ok(expected));
}

#[test]
fn constants() {
    assert_eq!(parse("nil"), Ok(Expr::Literal(LiteralValue::Nil)));
    assert_eq!(parse("false"), Ok(Expr::Literal(LiteralValue::Boolean(false))));
    assert_eq!(parse("true"), Ok(Expr::Literal(LiteralValue::Boolean(true))));
    assert_eq!(parse("12.5"), Ok(number("12.5")));
    assert_eq!(parse("\"hi\""), Ok(Expr::Literal(LiteralValue::String("hi".to_string()))));
}

#[test]
fn string_token_without_literal_gives_its_lexeme() {
    let tokens = vec![op(TokenType::String, "raw"), op(TokenType::Eof, "")];
    assert_eq!(
        Parser::new(tokens).parse(),
        Ok(Expr::Literal(LiteralValue::String("raw".to_string())))
    );
}

#[test]
fn comparison_and_equality_levels() {
    let expected = binary(
        binary(number("1"), op(TokenType::Less, "<"), number("2")),
        op(TokenType::EqualEqual, "=="),
        binary(number("3"), op(TokenType::GreaterEqual, ">="), number("4")),
    );
    assert_eq!(parse("1 < 2 == 3 >= 4"), Ok(expected));
    let expected = binary(
        binary(number("1"), op(TokenType::Slash, "/"), number("2")),
        op(TokenType::BangEqual, "!="),
        binary(number("3"), op(TokenType::LessEqual, "<="), number("4")),
    );
    assert_eq!(parse("1 / 2 != 3 <= 4"), Ok(expected));
    let expected = binary(number("1"), op(TokenType::Greater, ">"), number("2"));
    assert_eq!(parse("1 > 2"), Ok(expected));
}

#[test]
fn parsing_stops_at_the_first_token_that_does_not_continue() {
    let mut scanner = Scanner::new("1 2 )".to_string());
    let tokens = scanner.scan_tokens().clone();
    let mut parser = Parser::new(tokens);
    assert_eq!(parser.parse(), Ok(number("1")));
    assert_eq!(parser.parse(), Ok(number("2")));
    let err = parser.parse().unwrap_err();
    assert_eq!(err.message, "Expect expression");
    assert_eq!(err.token.token_type, TokenType::RightParen);
}

#[test]
fn number_token_that_is_no_numeral_is_invalid() {
    let tokens = vec![Token::new(TokenType::Number, "12x".to_string(), 4), op(TokenType::Eof, "")];
    let err = Parser::new(tokens).parse().unwrap_err();
    assert_eq!(err.message, "Invalid number");
    assert_eq!(err.line, 4);
    assert_eq!(err.token.lexeme, "12x");
}

#[test]
fn decimal_numerals() {
    assert!(is_decimal_text("0"));
    assert!(is_decimal_text("123.456"));
    assert!(!is_decimal_text(""));
    assert!(!is_decimal_text("3."));
    assert!(!is_decimal_text(".5"));
    assert!(!is_decimal_text("1.2.3"));
    assert!(!is_decimal_text("1e5"));
}

#[test]
fn parser_error_new_keeps_its_parts() {
    let e = ParserError::new("Expect expression", 3, op(TokenType::Star, "*"));
    assert_eq!(e.message, "Expect expression");
    assert_eq!(e.line, 3);
    assert_eq!(e.token, op(TokenType::Star, "*"));
}

#[test]
fn fault_messages() {
    assert_eq!(SyntaxFault::ExpectExpression.message(), "Expect expression");
    assert_eq!(SyntaxFault::ExpectRightParen.message(), "Expect ')' after expression");
    assert_eq!(SyntaxFault::InvalidNumber.message(), "Invalid number");
}

#[test]
fn parser_is_well_formed_only_over_a_terminated_sequence() {
    assert!(!Parser::new(Vec::new()).is_well_formed());
    assert!(!Parser::new(vec![op(TokenType::Plus, "+")]).is_well_formed());
    assert!(Parser::new(vec![op(TokenType::Eof, "")]).is_well_formed());
    assert!(Parser::new(vec![op(TokenType::Plus, "+"), op(TokenType::Eof, "")]).is_well_formed());
}

#[test]
fn error_line_of_a_token_with_negative_line_wraps() {
    let tokens = vec![Token::new(TokenType::Star, "*".to_string(), -1), op(TokenType::Eof, "")];
    let err = Parser::new(tokens).parse().unwrap_err();
    assert_eq!(err.message, "Expect expression");
    assert_eq!(err.line, usize::MAX);
    assert_eq!(err.token.line, -1);
}

#[test]
fn end_of_input_inside_the_sequence_stops_the_parse() {
    let tokens = vec![
        Token::new(TokenType::Number, "1".to_string(), 1),
        op(TokenType::Eof, ""),
        op(TokenType::Plus, "+"),
        op(TokenType::Eof, ""),
    ];
    let mut parser = Parser::new(tokens);
    assert_eq!(parser.parse(), Ok(number("1")));
    let err = parser.parse().unwrap_err();
    assert_eq!(err.message, "Expect expression");
    assert_eq!(err.token.token_type, TokenType::Eof);
}

#[test]
fn grouping_is_kept_in_the_tree() {
    let expected = Expr::Grouping(Box::new(Expr::Grouping(Box::new(number("7")))));
    assert_eq!(parse("((7))"), Ok(expected));
}

#[test]
fn unary_binds_tighter_than_factor() {
    let expected = binary(
        Expr::Unary { operator: op(TokenType::Minus, "-"), right: Box::new(number("1")) },
        op(TokenType::Star, "*"),
        Expr::Unary { operator: op(TokenType::Minus, "-"), right: Box::new(number("2")) },
    );
    assert_eq!(parse("-1 * -2"), Ok(expected));
}
