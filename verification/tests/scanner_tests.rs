use jlox::scanner::Scanner;
use jlox::token_type::TokenType;

#[test]
fn test_single_character_tokens() {
    let source = "(){},.-+;*".to_string();
    let mut scanner = Scanner::new(source);
    let tokens = scanner.scan_tokens();

    assert_eq!(tokens.len(), 11);
    assert_eq!(tokens[0].token_type, TokenType::LeftParen);
    assert_eq!(tokens[1].token_type, TokenType::RightParen);
    assert_eq!(tokens[2].token_type, TokenType::LeftBrace);
    assert_eq!(tokens[3].token_type, TokenType::RightBrace);
    assert_eq!(tokens[4].token_type, TokenType::Comma);
    assert_eq!(tokens[5].token_type, TokenType::Dot);
    assert_eq!(tokens[6].token_type, TokenType::Minus);
    assert_eq!(tokens[7].token_type, TokenType::Plus);
    assert_eq!(tokens[8].token_type, TokenType::Semicolon);
    assert_eq!(tokens[9].token_type, TokenType::Star);
    assert_eq!(tokens[10].token_type, TokenType::Eof);
}

#[test]
fn test_two_character_tokens() {
    let source = "! != = == < <= > >=".to_string();
    let mut scanner = Scanner::new(source);
    let tokens = scanner.scan_tokens();

    assert_eq!(tokens[0].token_type, TokenType::Bang);
    assert_eq!(tokens[1].token_type, TokenType::BangEqual);
    assert_eq!(tokens[2].token_type, TokenType::Equal);
    assert_eq!(tokens[3].token_type, TokenType::EqualEqual);
    assert_eq!(tokens[4].token_type, TokenType::Less);
    assert_eq!(tokens[5].token_type, TokenType::LessEqual);
    assert_eq!(tokens[6].token_type, TokenType::Greater);
    assert_eq!(tokens[7].token_type, TokenType::GreaterEqual);
}

#[test]
fn test_slash_and_comment() {
    let source = "/ // this is a comment\n/".to_string();
    let mut scanner = Scanner::new(source);
    let tokens = scanner.scan_tokens();

    assert_eq!(tokens[0].token_type, TokenType::Slash);
    assert_eq!(tokens[1].token_type, TokenType::Slash);
    assert_eq!(tokens[2].token_type, TokenType::Eof);
}

#[test]
fn test_string_literal() {
    let source = r#""hello world""#.to_string();
    let mut scanner = Scanner::new(source);
    let tokens = scanner.scan_tokens();

    assert_eq!(tokens[0].token_type, TokenType::String);
    assert_eq!(tokens[0].literal, Some("hello world".to_string()));
    assert_eq!(tokens[0].lexeme, r#""hello world""#);
}

#[test]
fn test_multiline_string() {
    let source = "\"hello\nworld\"".to_string();
    let mut scanner = Scanner::new(source);
    let tokens = scanner.scan_tokens();

    assert_eq!(tokens[0].token_type, TokenType::String);
    assert_eq!(tokens[0].line, 2);
}

#[test]
fn test_number_integer() {
    let source = "123".to_string();
    let mut scanner = Scanner::new(source);
    let tokens = scanner.scan_tokens();

    assert_eq!(tokens[0].token_type, TokenType::Number);
    assert_eq!(tokens[0].literal, Some("123".to_string()));
}

#[test]
fn test_number_decimal() {
    let source = "123.456".to_string();
    let mut scanner = Scanner::new(source);
    let tokens = scanner.scan_tokens();

    assert_eq!(tokens[0].token_type, TokenType::Number);
    assert_eq!(tokens[0].literal, Some("123.456".to_string()));
}

#[test]
fn test_keywords() {
    let source = "if else while for class fun var".to_string();
    let mut scanner = Scanner::new(source);
    let tokens = scanner.scan_tokens();

    assert_eq!(tokens[0].token_type, TokenType::If);
    assert_eq!(tokens[1].token_type, TokenType::Else);
    assert_eq!(tokens[2].token_type, TokenType::While);
    assert_eq!(tokens[3].token_type, TokenType::For);
    assert_eq!(tokens[4].token_type, TokenType::Class);
    assert_eq!(tokens[5].token_type, TokenType::Fun);
    assert_eq!(tokens[6].token_type, TokenType::Var);
}

#[test]
fn test_identifiers() {
    let source = "myVar _test123 hello_world".to_string();
    let mut scanner = Scanner::new(source);
    let tokens = scanner.scan_tokens();

    assert_eq!(tokens[0].token_type, TokenType::Identifier);
    assert_eq!(tokens[0].lexeme, "myVar");
    assert_eq!(tokens[1].token_type, TokenType::Identifier);
    assert_eq!(tokens[1].lexeme, "_test123");
    assert_eq!(tokens[2].token_type, TokenType::Identifier);
    assert_eq!(tokens[2].lexeme, "hello_world");
}

#[test]
fn test_whitespace_handling() {
    let source = "  \t\r\n  var  \n  x  ".to_string();
    let mut scanner = Scanner::new(source);
    let tokens = scanner.scan_tokens();

    assert_eq!(tokens.len(), 3);
    assert_eq!(tokens[0].token_type, TokenType::Var);
    assert_eq!(tokens[1].token_type, TokenType::Identifier);
    assert_eq!(tokens[2].token_type, TokenType::Eof);
}

#[test]
fn test_complete_statement() {
    let source = "var x = 42;".to_string();
    let mut scanner = Scanner::new(source);
    let tokens = scanner.scan_tokens();

    assert_eq!(tokens[0].token_type, TokenType::Var);
    assert_eq!(tokens[1].token_type, TokenType::Identifier);
    assert_eq!(tokens[1].lexeme, "x");
    assert_eq!(tokens[2].token_type, TokenType::Equal);
    assert_eq!(tokens[3].token_type, TokenType::Number);
    assert_eq!(tokens[3].literal, Some("42".to_string()));
    assert_eq!(tokens[4].token_type, TokenType::Semicolon);
    assert_eq!(tokens[5].token_type, TokenType::Eof);
}

#[test]
fn test_expression() {
    let source = "3 + 4 * 5 - 2".to_string();
    let mut scanner = Scanner::new(source);
    let tokens = scanner.scan_tokens();

    assert_eq!(tokens[0].token_type, TokenType::Number);
    assert_eq!(tokens[1].token_type, TokenType::Plus);
    assert_eq!(tokens[2].token_type, TokenType::Number);
    assert_eq!(tokens[3].token_type, TokenType::Star);
    assert_eq!(tokens[4].token_type, TokenType::Number);
    assert_eq!(tokens[5].token_type, TokenType::Minus);
    assert_eq!(tokens[6].token_type, TokenType::Number);
}

#[test]
fn test_line_numbers() {
    let source = "var x\nvar y\nvar z".to_string();
    let mut scanner = Scanner::new(source);
    let tokens = scanner.scan_tokens();

    assert_eq!(tokens[0].line, 1);
    assert_eq!(tokens[1].line, 1);
    assert_eq!(tokens[2].line, 2);
    assert_eq!(tokens[3].line, 2);
    assert_eq!(tokens[4].line, 3);
    assert_eq!(tokens[5].line, 3);
}

#[test]
fn test_boolean_literals() {
    let source = "true false nil".to_string();
    let mut scanner = Scanner::new(source);
    let tokens = scanner.scan_tokens();

    assert_eq!(tokens[0].token_type, TokenType::True);
    assert_eq!(tokens[1].token_type, TokenType::False);
    assert_eq!(tokens[2].token_type, TokenType::Nil);
}
