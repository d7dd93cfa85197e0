//! The lexical grammar, stated as functions on character sequences.

use vstd::prelude::*;
use crate::token::TokenView;
use crate::token_type::TokenType;

verus! {

/// The two kinds of lexical error.
#[derive(Debug, Clone, Copy, PartialEq, Eq, Structural)]
pub enum LexicalErrorKind {
    UnterminatedString,
    UnexpectedCharacter,
}

/// One lexical error: what went wrong and on which line.
#[derive(Debug, Clone, Copy, PartialEq, Eq, Structural)]
pub struct LexicalError {
    pub line: i32,
    pub kind: LexicalErrorKind,
}

impl LexicalErrorKind {
    pub open spec fn message_text(self) -> Seq<char> {
        match self {
            LexicalErrorKind::UnterminatedString => "Unterminated string."@,
            LexicalErrorKind::UnexpectedCharacter => "Unexpected character."@,
        }
    }

    /// The message shown for this kind of error.
    pub fn message(self) -> (r: &'static str)
        ensures
            r@ == self.message_text(),
    {
        match self {
            LexicalErrorKind::UnterminatedString => "Unterminated string.",
            LexicalErrorKind::UnexpectedCharacter => "Unexpected character.",
        }
    }
}

/// Whether `char::is_alphanumeric` holds of `c`.
pub uninterp spec fn unicode_alphanumeric(c: char) -> bool;

pub open spec fn is_digit(c: char) -> bool {
    '0' <= c && c <= '9'
}

/// Whether `c` is an ASCII digit.
pub fn is_ascii_digit(c: char) -> (r: bool)
    ensures
        r == is_digit(c),
{
    '0' <= c && c <= '9'
}

pub open spec fn is_ascii_letter(c: char) -> bool {
    ('a' <= c && c <= 'z') || ('A' <= c && c <= 'Z')
}

/// A character that may begin an identifier.
pub open spec fn is_word_start(c: char) -> bool {
    is_ascii_letter(c) || c == '_'
}

/// A character that may continue an identifier: an ASCII letter or digit,
/// an underscore, or any other alphanumeric character.
pub open spec fn is_word_char(c: char) -> bool {
    is_word_start(c) || is_digit(c) || unicode_alphanumeric(c)
}

/// The kinds of run that the scanner consumes greedily.
pub enum CharClass {
    /// ASCII digits.
    Digit,
    /// Identifier characters.
    Word,
    /// Anything but a double quote.
    StringBody,
    /// Anything but a newline.
    CommentBody,
}

pub open spec fn in_class(k: CharClass, c: char) -> bool {
    match k {
        CharClass::Digit => is_digit(c),
        CharClass::Word => is_word_char(c),
        CharClass::StringBody => c != '"',
        CharClass::CommentBody => c != '\n',
    }
}

/// The first position at or after `from` that holds no character of class
/// `k`, or the end of `s` if the run reaches it.
pub open spec fn run_end(s: Seq<char>, from: int, k: CharClass) -> int
    decreases s.len() - from,
{
    if 0 <= from < s.len() && in_class(k, s[from]) {
        run_end(s, from + 1, k)
    } else {
        from
    }
}

/// The number of newlines in `s[from..to]`.
pub open spec fn newlines(s: Seq<char>, from: int, to: int) -> int
    decreases to - from,
{
    if to <= from {
        0
    } else {
        newlines(s, from, to - 1) + if s[to - 1] == '\n' {
            1int
        } else {
            0int
        }
    }
}

/// The category of a character that is a token by itself.
pub open spec fn punctuation(c: char) -> Option<TokenType> {
    if c == '(' {
        Some(TokenType::LeftParen)
    } else if c == ')' {
        Some(TokenType::RightParen)
    } else if c == '{' {
        Some(TokenType::LeftBrace)
    } else if c == '}' {
        Some(TokenType::RightBrace)
    } else if c == ',' {
        Some(TokenType::Comma)
    } else if c == '.' {
        Some(TokenType::Dot)
    } else if c == '-' {
        Some(TokenType::Minus)
    } else if c == '+' {
        Some(TokenType::Plus)
    } else if c == ';' {
        Some(TokenType::Semicolon)
    } else if c == '*' {
        Some(TokenType::Star)
    } else {
        None
    }
}

/// For a character that is an operator alone and another one when `=`
/// follows it: the two categories, the short one first.
pub open spec fn operator_pair(c: char) -> Option<(TokenType, TokenType)> {
    if c == '!' {
        Some((TokenType::Bang, TokenType::BangEqual))
    } else if c == '=' {
        Some((TokenType::Equal, TokenType::EqualEqual))
    } else if c == '<' {
        Some((TokenType::Less, TokenType::LessEqual))
    } else if c == '>' {
        Some((TokenType::Greater, TokenType::GreaterEqual))
    } else {
        None
    }
}

/// The keyword that `text` spells, if it spells one.
pub open spec fn keyword_of(text: Seq<char>) -> Option<TokenType> {
    if text == "and"@ {
        Some(TokenType::And)
    } else if text == "class"@ {
        Some(TokenType::Class)
    } else if text == "else"@ {
        Some(TokenType::Else)
    } else if text == "false"@ {
        Some(TokenType::False)
    } else if text == "for"@ {
        Some(TokenType::For)
    } else if text == "fun"@ {
        Some(TokenType::Fun)
    } else if text == "if"@ {
        Some(TokenType::If)
    } else if text == "nil"@ {
        Some(TokenType::Nil)
    } else if text == "or"@ {
        Some(TokenType::Or)
    } else if text == "print"@ {
        Some(TokenType::Print)
    } else if text == "return"@ {
        Some(TokenType::Return)
    } else if text == "super"@ {
        Some(TokenType::Super)
    } else if text == "this"@ {
        Some(TokenType::This)
    } else if text == "true"@ {
        Some(TokenType::True)
    } else if text == "var"@ {
        Some(TokenType::Var)
    } else if text == "while"@ {
        Some(TokenType::While)
    } else {
        None
    }
}

/// The category of an identifier-shaped lexeme.
pub open spec fn word_type(text: Seq<char>) -> TokenType {
    match keyword_of(text) {
        Some(t) => t,
        None => TokenType::Identifier,
    }
}

/// Whether the character after position `pos` is `c`.
pub open spec fn followed_by(s: Seq<char>, pos: int, c: char) -> bool {
    pos + 1 < s.len() && s[pos + 1] == c
}

/// Where the number that starts at `pos` ends: after its digits, and after
/// a fraction if a dot and a digit follow them.
pub open spec fn number_end(s: Seq<char>, pos: int) -> int {
    let whole = run_end(s, pos + 1, CharClass::Digit);
    if whole < s.len() && s[whole] == '.' && whole + 1 < s.len() && is_digit(s[whole + 1]) {
        run_end(s, whole + 2, CharClass::Digit)
    } else {
        whole
    }
}

/// What scanning does at one position: where it goes on, on which line,
/// and the token or the error that it leaves, if any.
pub struct Step {
    pub next: int,
    pub line: int,
    pub token: Option<TokenView>,
    pub error: Option<LexicalError>,
}

pub open spec fn emit(
    s: Seq<char>,
    pos: int,
    end: int,
    line: int,
    token_type: TokenType,
    literal: Option<Seq<char>>,
) -> Step {
    Step {
        next: end,
        line,
        token: Some(TokenView { token_type, lexeme: s.subrange(pos, end), literal, line }),
        error: None,
    }
}

pub open spec fn skip(end: int, line: int) -> Step {
    Step { next: end, line, token: None, error: None }
}

pub open spec fn fail(end: int, line: int, kind: LexicalErrorKind) -> Step {
    Step { next: end, line, token: None, error: Some(LexicalError { line: line as i32, kind }) }
}

/// The step taken at position `pos` of `s`, on line `line`.
pub open spec fn lex_step(s: Seq<char>, pos: int, line: int) -> Step
    recommends
        0 <= pos < s.len(),
{
    let c = s[pos];
    if let Some(t) = punctuation(c) {
        emit(s, pos, pos + 1, line, t, None)
    } else if let Some(pair) = operator_pair(c) {
        if followed_by(s, pos, '=') {
            emit(s, pos, pos + 2, line, pair.1, None)
        } else {
            emit(s, pos, pos + 1, line, pair.0, None)
        }
    } else if c == '/' {
        if followed_by(s, pos, '/') {
            skip(run_end(s, pos + 2, CharClass::CommentBody), line)
        } else {
            emit(s, pos, pos + 1, line, TokenType::Slash, None)
        }
    } else if c == ' ' || c == '\r' || c == '\t' {
        skip(pos + 1, line)
    } else if c == '\n' {
        skip(pos + 1, line + 1)
    } else if c == '"' {
        let close = run_end(s, pos + 1, CharClass::StringBody);
        let last_line = line + newlines(s, pos + 1, close);
        if close >= s.len() {
            fail(close, last_line, LexicalErrorKind::UnterminatedString)
        } else {
            emit(
                s,
                pos,
                close + 1,
                last_line,
                TokenType::String,
                Some(s.subrange(pos + 1, close)),
            )
        }
    } else if is_digit(c) {
        let end = number_end(s, pos);
        emit(s, pos, end, line, TokenType::Number, Some(s.subrange(pos, end)))
    } else if is_word_start(c) {
        let end = run_end(s, pos + 1, CharClass::Word);
        emit(s, pos, end, line, word_type(s.subrange(pos, end)), None)
    } else {
        fail(pos + 1, line, LexicalErrorKind::UnexpectedCharacter)
    }
}

/// An optional value as a sequence of at most one element.
pub open spec fn opt_seq<T>(o: Option<T>) -> Seq<T> {
    match o {
        Some(x) => seq![x],
        None => Seq::empty(),
    }
}

/// Appending what an absent value leaves changes nothing.
pub proof fn lemma_append_none<T>(s: Seq<T>)
    ensures
        s + opt_seq::<T>(None) == s,
{
    assert(s + opt_seq::<T>(None) =~= s);
}

/// The end-of-input token on line `line`.
pub open spec fn end_token(line: int) -> TokenView {
    TokenView { token_type: TokenType::Eof, lexeme: Seq::empty(), literal: None, line }
}

/// The tokens of `s` from position `pos` on, where `pos` is on line `line`:
/// those of each step in order, then the end-of-input token.
pub open spec fn lex_tokens(s: Seq<char>, pos: int, line: int) -> Seq<TokenView>
    decreases s.len() - pos,
    via lex_tokens_terminates
{
    if 0 <= pos < s.len() {
        let st = lex_step(s, pos, line);
        opt_seq(st.token) + lex_tokens(s, st.next, st.line)
    } else {
        seq![end_token(line)]
    }
}

#[via_fn]
proof fn lex_tokens_terminates(s: Seq<char>, pos: int, line: int) {
    if 0 <= pos < s.len() {
        lemma_step_advances(s, pos, line);
    }
}

/// The lexical errors of `s` from position `pos` on, in order.
pub open spec fn lex_errors(s: Seq<char>, pos: int, line: int) -> Seq<LexicalError>
    decreases s.len() - pos,
    via lex_errors_terminates
{
    if 0 <= pos < s.len() {
        let st = lex_step(s, pos, line);
        opt_seq(st.error) + lex_errors(s, st.next, st.line)
    } else {
        Seq::empty()
    }
}

#[via_fn]
proof fn lex_errors_terminates(s: Seq<char>, pos: int, line: int) {
    if 0 <= pos < s.len() {
        lemma_step_advances(s, pos, line);
    }
}

/// A run ends at or after its start, and within the text.
pub proof fn lemma_run_end_bounds(s: Seq<char>, from: int, k: CharClass)
    ensures
        from <= run_end(s, from, k),
        from <= s.len() ==> run_end(s, from, k) <= s.len(),
    decreases s.len() - from,
{
    if 0 <= from < s.len() && in_class(k, s[from]) {
        lemma_run_end_bounds(s, from + 1, k);
    }
}

/// A stretch of text holds no more newlines than characters.
pub proof fn lemma_newlines_bounds(s: Seq<char>, from: int, to: int)
    ensures
        0 <= newlines(s, from, to),
        from <= to ==> newlines(s, from, to) <= to - from,
    decreases to - from,
{
    if to > from {
        lemma_newlines_bounds(s, from, to - 1);
    }
}

/// Every step consumes at least one character, stays within the text, and
/// raises the line by no more than the characters it consumed.
pub proof fn lemma_step_advances(s: Seq<char>, pos: int, line: int)
    requires
        0 <= pos < s.len(),
    ensures
        pos < lex_step(s, pos, line).next <= s.len(),
        line <= lex_step(s, pos, line).line <= line + (lex_step(s, pos, line).next - pos),
{
    lemma_run_end_bounds(s, pos + 1, CharClass::Digit);
    lemma_run_end_bounds(s, pos + 1, CharClass::Word);
    lemma_run_end_bounds(s, pos + 1, CharClass::StringBody);
    lemma_run_end_bounds(s, pos + 2, CharClass::CommentBody);
    let whole = run_end(s, pos + 1, CharClass::Digit);
    lemma_run_end_bounds(s, whole + 2, CharClass::Digit);
    let close = run_end(s, pos + 1, CharClass::StringBody);
    lemma_newlines_bounds(s, pos + 1, close);
}

} // verus!
