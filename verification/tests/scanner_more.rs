use jlox::lexical::{LexicalError, LexicalErrorKind};
use jlox::scanner::Scanner;
use jlox::token::Token;
use jlox::token_type::TokenType;

fn scan(source: &str) -> (Vec<Token>, bool, Vec<LexicalError>) {
    let mut scanner = Scanner::new(source.to_string());
    let tokens = scanner.scan_tokens().clone();
    (tokens, scanner.had_error(), scanner.errors().clone())
}

fn kinds(tokens: &[Token]) -> Vec<TokenType> {
    tokens.iter().map(|t| t.token_type).collect()
}

#[test]
fn empty_source_yields_only_end_of_input() {
    let (tokens, had_error, errors) = scan("");
    assert_eq!(tokens.len(), 1);
    assert_eq!(tokens[0].token_type, TokenType::Eof);
    assert_eq!(tokens[0].lexeme, "");
    assert_eq!(tokens[0].literal, None);
    assert_eq!(tokens[0].line, 1);
    assert!(!had_error);
    assert!(errors.is_empty());
}

#[test]
fn punctuation_gives_one_token_per_character() {
    let source = "(){},.-+;*";
    let (tokens, had_error, _) = scan(source);
    assert!(!had_error);
    assert_eq!(tokens.len(), source.len() + 1);
    for (i, c) in source.chars().enumerate() {
        assert_eq!(tokens[i].lexeme, c.to_string());
        assert_eq!(tokens[i].literal, None);
        assert_eq!(tokens[i].line, 1);
    }
    assert_eq!(tokens[10].token_type, TokenType::Eof);
}

#[test]
fn two_character_operators_are_one_token() {
    let (tokens, _, _) = scan("!===<=>=");
    assert_eq!(
        kinds(&tokens),
        vec![
            TokenType::BangEqual,
            TokenType::EqualEqual,
            TokenType::LessEqual,
            TokenType::GreaterEqual,
            TokenType::Eof
        ]
    );
    assert_eq!(tokens[0].lexeme, "!=");
    assert_eq!(tokens[3].lexeme, ">=");
}

#[test]
fn operator_at_end_of_input_is_short_form() {
    let (tokens, _, _) = scan("!");
    assert_eq!(kinds(&tokens), vec![TokenType::Bang, TokenType::Eof]);
    let (tokens, _, _) = scan("=!");
    assert_eq!(kinds(&tokens), vec![TokenType::Equal, TokenType::Bang, TokenType::Eof]);
}

#[test]
fn comment_runs_to_end_of_line_without_counting_it() {
    let (tokens, had_error, _) = scan("// nothing here ( ) \"\n+");
    assert!(!had_error);
    assert_eq!(kinds(&tokens), vec![TokenType::Plus, TokenType::Eof]);
    assert_eq!(tokens[0].line, 2);
}

#[test]
fn comment_at_end_of_input() {
    let (tokens, had_error, _) = scan("1 // trailing");
    assert!(!had_error);
    assert_eq!(kinds(&tokens), vec![TokenType::Number, TokenType::Eof]);
    assert_eq!(tokens[1].line, 1);
}

#[test]
fn string_token_line_is_that_of_closing_quote() {
    let (tokens, had_error, _) = scan("\"a\nb\nc\" x");
    assert!(!had_error);
    assert_eq!(tokens[0].token_type, TokenType::String);
    assert_eq!(tokens[0].line, 3);
    assert_eq!(tokens[0].literal, Some("a\nb\nc".to_string()));
    assert_eq!(tokens[0].lexeme, "\"a\nb\nc\"");
    assert_eq!(tokens[1].token_type, TokenType::Identifier);
    assert_eq!(tokens[1].line, 3);
    assert_eq!(tokens[2].line, 3);
}

#[test]
fn empty_string_literal() {
    let (tokens, _, _) = scan("\"\"");
    assert_eq!(tokens[0].token_type, TokenType::String);
    assert_eq!(tokens[0].literal, Some(String::new()));
    assert_eq!(tokens[0].lexeme, "\"\"");
}

#[test]
fn unterminated_string_is_an_error_without_token() {
    let (tokens, had_error, errors) = scan("+ \"abc\ndef");
    assert!(had_error);
    assert_eq!(kinds(&tokens), vec![TokenType::Plus, TokenType::Eof]);
    assert_eq!(
        errors,
        vec![LexicalError { line: 2, kind: LexicalErrorKind::UnterminatedString }]
    );
    assert_eq!(errors[0].kind.message(), "Unterminated string.");
    assert_eq!(tokens[1].line, 2);
}

#[test]
fn unexpected_characters_are_all_reported() {
    let (tokens, had_error, errors) = scan("@ 1\n# 2");
    assert!(had_error);
    assert_eq!(kinds(&tokens), vec![TokenType::Number, TokenType::Number, TokenType::Eof]);
    assert_eq!(
        errors,
        vec![
            LexicalError { line: 1, kind: LexicalErrorKind::UnexpectedCharacter },
            LexicalError { line: 2, kind: LexicalErrorKind::UnexpectedCharacter },
        ]
    );
    assert_eq!(errors[0].kind.message(), "Unexpected character.");
}

#[test]
fn number_with_trailing_dot() {
    let (tokens, _, _) = scan("3.");
    assert_eq!(kinds(&tokens), vec![TokenType::Number, TokenType::Dot, TokenType::Eof]);
    assert_eq!(tokens[0].lexeme, "3");
    assert_eq!(tokens[0].literal, Some("3".to_string()));
    assert_eq!(tokens[1].lexeme, ".");
}

#[test]
fn number_with_fraction_is_one_token() {
    let (tokens, _, _) = scan("123.456");
    assert_eq!(kinds(&tokens), vec![TokenType::Number, TokenType::Eof]);
    assert_eq!(tokens[0].lexeme, "123.456");
    assert_eq!(tokens[0].literal, Some("123.456".to_string()));
}

#[test]
fn number_with_two_dots() {
    let (tokens, _, _) = scan("1.2.3");
    assert_eq!(
        kinds(&tokens),
        vec![TokenType::Number, TokenType::Dot, TokenType::Number, TokenType::Eof]
    );
    assert_eq!(tokens[0].lexeme, "1.2");
    assert_eq!(tokens[2].lexeme, "3");
}

#[test]
fn leading_dot_is_not_part_of_a_number() {
    let (tokens, _, _) = scan(".5");
    assert_eq!(kinds(&tokens), vec![TokenType::Dot, TokenType::Number, TokenType::Eof]);
}

#[test]
fn all_sixteen_keywords() {
    let (tokens, _, _) = scan(
        "and class else false for fun if nil or print return super this true var while",
    );
    assert_eq!(
        kinds(&tokens),
        vec![
            TokenType::And,
            TokenType::Class,
            TokenType::Else,
            TokenType::False,
            TokenType::For,
            TokenType::Fun,
            TokenType::If,
            TokenType::Nil,
            TokenType::Or,
            TokenType::Print,
            TokenType::Return,
            TokenType::Super,
            TokenType::This,
            TokenType::True,
            TokenType::Var,
            TokenType::While,
            TokenType::Eof
        ]
    );
    for t in &tokens {
        assert_eq!(t.literal, None);
    }
}

#[test]
fn keyword_prefixes_and_extensions_are_identifiers() {
    let (tokens, _, _) = scan("an andy If classes _ f0r");
    for t in &tokens[..6] {
        assert_eq!(t.token_type, TokenType::Identifier);
    }
    assert_eq!(tokens[1].lexeme, "andy");
    assert_eq!(tokens[4].lexeme, "_");
}

#[test]
fn identifier_stops_at_a_character_that_is_not_alphanumeric() {
    let (tokens, had_error, _) = scan("ab-cd e9");
    assert!(!had_error);
    assert_eq!(
        kinds(&tokens),
        vec![
            TokenType::Identifier,
            TokenType::Minus,
            TokenType::Identifier,
            TokenType::Identifier,
            TokenType::Eof
        ]
    );
    assert_eq!(tokens[0].lexeme, "ab");
    assert_eq!(tokens[3].lexeme, "e9");
}

#[test]
fn identifier_continues_over_letters_outside_ascii() {
    let (tokens, had_error, errors) = scan("na\u{ef}ve \u{e9}");
    assert_eq!(tokens[0].token_type, TokenType::Identifier);
    assert_eq!(tokens[0].lexeme, "na\u{ef}ve");
    assert_eq!(tokens[1].token_type, TokenType::Eof);
    assert!(had_error);
    assert_eq!(errors.len(), 1);
}

#[test]
fn scanning_again_appends_another_end_token() {
    let mut scanner = Scanner::new("+".to_string());
    assert_eq!(scanner.scan_tokens().len(), 2);
    let tokens = scanner.scan_tokens();
    assert_eq!(tokens.len(), 3);
    assert_eq!(tokens[2].token_type, TokenType::Eof);
}

#[test]
fn token_new_has_no_literal() {
    let t = Token::new(TokenType::Plus, "+".to_string(), 7);
    assert_eq!(t.token_type, TokenType::Plus);
    assert_eq!(t.lexeme, "+");
    assert_eq!(t.literal, None);
    assert_eq!(t.line, 7);
}

#[test]
fn token_text_form() {
    let t = Token::new(TokenType::Plus, "+".to_string(), 1);
    assert_eq!(t.to_text(), "Plus + null");
    let (tokens, _, _) = scan("\"hi\" 12");
    assert_eq!(tokens[0].to_text(), "String \"hi\" hi");
    assert_eq!(tokens[1].to_text(), "Number 12 12");
    assert_eq!(tokens[2].to_text(), "Eof  null");
}

#[test]
fn token_clone_is_equal() {
    let (tokens, _, _) = scan("\"hi\"");
    assert_eq!(tokens[0].clone(), tokens[0]);
}

#[test]
fn scanner_accepts_ordinary_sources() {
    assert!(Scanner::accepts(""));
    assert!(Scanner::accepts("var x = \u{e9};"));
}

#[test]
fn into_parts_gives_tokens_and_errors() {
    let mut scanner = Scanner::new("1 ?".to_string());
    scanner.scan_tokens();
    let (tokens, errors) = scanner.into_parts();
    assert_eq!(kinds(&tokens), vec![TokenType::Number, TokenType::Eof]);
    assert_eq!(errors, vec![LexicalError { line: 1, kind: LexicalErrorKind::UnexpectedCharacter }]);
}

#[test]
fn lexemes_of_a_source_outside_ascii() {
    let (tokens, _, _) = scan("\"\u{4e16}\u{754c}\" + x1");
    assert_eq!(tokens[0].lexeme, "\"\u{4e16}\u{754c}\"");
    assert_eq!(tokens[0].literal, Some("\u{4e16}\u{754c}".to_string()));
    assert_eq!(tokens[1].lexeme, "+");
    assert_eq!(tokens[2].lexeme, "x1");
}

#[test]
fn digits_are_the_ascii_digits() {
    assert!(jlox::lexical::is_ascii_digit('0'));
    assert!(jlox::lexical::is_ascii_digit('9'));
    assert!(!jlox::lexical::is_ascii_digit('a'));
    assert!(!jlox::lexical::is_ascii_digit('\u{664}'));
}

#[test]
fn digit_outside_ascii_is_unexpected() {
    let (tokens, had_error, errors) = scan("\u{664}");
    assert!(had_error);
    assert_eq!(kinds(&tokens), vec![TokenType::Eof]);
    assert_eq!(errors.len(), 1);
}
