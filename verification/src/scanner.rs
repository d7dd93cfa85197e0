//! The scanner: from source text to tokens.

use vstd::prelude::*;
use vstd::std_specs::iter::IteratorSpec;
use vstd::string::StrSliceExecFns;
use vstd::utf8::is_ascii_chars;
use crate::lexical::{
    end_token, is_ascii_digit, is_digit, is_word_char, is_word_start, keyword_of, lemma_append_none,
    lemma_run_end_bounds, lemma_step_advances, lex_errors, lex_step, lex_tokens, newlines,
    number_end, opt_seq, run_end, unicode_alphanumeric, CharClass, LexicalError,
    LexicalErrorKind,
};
use crate::token::{token_views, Token, TokenView};
use crate::token_type::TokenType;

verus! {

broadcast use {vstd::string::axiom_spec_iter, vstd::string::next_postcondition};

/// The longest source text, in characters, whose lines can be counted.
pub const MAX_SOURCE_LEN: usize = 0x7fff_fffe;

/// Calls `char::is_alphanumeric`. Nothing is proved of it: the result is
/// taken to be that method's answer for `c`, which depends on `c` alone.
#[verifier::external_body]
fn is_alphanumeric(c: char) -> (r: bool)
    ensures
        r == unicode_alphanumeric(c),
{
    c.is_alphanumeric()
}

fn is_identifier_start(c: char) -> (r: bool)
    ensures
        r == is_word_start(c),
{
    ('a' <= c && c <= 'z') || ('A' <= c && c <= 'Z') || c == '_'
}

fn is_identifier_part(c: char) -> (r: bool)
    ensures
        r == is_word_char(c),
{
    is_identifier_start(c) || is_ascii_digit(c) || is_alphanumeric(c)
}

/// Whether `chars[start..end]` spells `word`.
fn spells(chars: &Vec<char>, start: usize, end: usize, word: &str) -> (r: bool)
    requires
        start <= end <= chars.len(),
    ensures
        r == (chars@.subrange(start as int, end as int) == word@),
{
    let n = word.unicode_len();
    if end - start != n {
        return false;
    }
    let mut i: usize = 0;
    while i < n
        invariant
            i <= n,
            n == word@.len(),
            n == end - start,
            start <= end <= chars.len(),
            forall|j: int| 0 <= j < i ==> chars@[start + j] == word@[j],
        decreases n - i,
    {
        if chars[start + i] != word.get_char(i) {
            assert(chars@.subrange(start as int, end as int)[i as int] != word@[i as int]);
            return false;
        }
        i += 1;
    }
    assert(chars@.subrange(start as int, end as int) =~= word@);
    true
}

/// The keyword that `chars[start..end]` spells, if any.
fn keyword_type(chars: &Vec<char>, start: usize, end: usize) -> (r: Option<TokenType>)
    requires
        start <= end <= chars.len(),
    ensures
        r == keyword_of(chars@.subrange(start as int, end as int)),
{
    if spells(chars, start, end, "and") {
        Some(TokenType::And)
    } else if spells(chars, start, end, "class") {
        Some(TokenType::Class)
    } else if spells(chars, start, end, "else") {
        Some(TokenType::Else)
    } else if spells(chars, start, end, "false") {
        Some(TokenType::False)
    } else if spells(chars, start, end, "for") {
        Some(TokenType::For)
    } else if spells(chars, start, end, "fun") {
        Some(TokenType::Fun)
    } else if spells(chars, start, end, "if") {
        Some(TokenType::If)
    } else if spells(chars, start, end, "nil") {
        Some(TokenType::Nil)
    } else if spells(chars, start, end, "or") {
        Some(TokenType::Or)
    } else if spells(chars, start, end, "print") {
        Some(TokenType::Print)
    } else if spells(chars, start, end, "return") {
        Some(TokenType::Return)
    } else if spells(chars, start, end, "super") {
        Some(TokenType::Super)
    } else if spells(chars, start, end, "this") {
        Some(TokenType::This)
    } else if spells(chars, start, end, "true") {
        Some(TokenType::True)
    } else if spells(chars, start, end, "var") {
        Some(TokenType::Var)
    } else if spells(chars, start, end, "while") {
        Some(TokenType::While)
    } else {
        None
    }
}

/// A scanner over one source text. It keeps a cursor into the text, the
/// line that the cursor is on, the tokens emitted and the errors met so far.
pub struct Scanner {
    source: String,
    ascii: bool,
    tokens: Vec<Token>,
    chars: Vec<char>,
    start: usize,
    current: usize,
    line: i32,
    had_error: bool,
    errors: Vec<LexicalError>,
}

impl Scanner {
    /// The source text.
    pub closed spec fn text(&self) -> Seq<char> {
        self.chars@
    }

    /// The position of the next character to scan.
    pub closed spec fn cursor(&self) -> int {
        self.current as int
    }

    /// The line that the cursor is on, counted from 1.
    pub closed spec fn line_number(&self) -> int {
        self.line as int
    }

    /// The tokens emitted so far.
    pub closed spec fn emitted(&self) -> Seq<TokenView> {
        token_views(self.tokens@)
    }

    /// The lexical errors met so far.
    pub closed spec fn reported(&self) -> Seq<LexicalError> {
        self.errors@
    }

    /// The scanner's invariant: the cursor is within the text, the line
    /// counter is no further than the cursor, and the error flag is set
    /// exactly when an error was met.
    pub closed spec fn well_formed(&self) -> bool {
        &&& self.source@ == self.chars@
        &&& self.ascii ==> is_ascii_chars(self.source@)
        &&& self.chars.len() <= MAX_SOURCE_LEN
        &&& self.start <= self.current <= self.chars.len()
        &&& 1 <= self.line <= self.current + 1
        &&& self.had_error == (self.errors.len() > 0)
    }

    /// Whether `post` is what `pre` becomes by the step at `pre.start`.
    closed spec fn took_step(pre: Scanner, post: Scanner) -> bool {
        let st = lex_step(pre.chars@, pre.start as int, pre.line as int);
        &&& post.source == pre.source
        &&& post.ascii == pre.ascii
        &&& post.chars == pre.chars
        &&& post.start == pre.start
        &&& post.current == st.next
        &&& post.line == st.line
        &&& token_views(post.tokens@) == token_views(pre.tokens@) + opt_seq(st.token)
        &&& post.errors@ == pre.errors@ + opt_seq(st.error)
        &&& post.well_formed()
    }

    /// Whether `source` is short enough to be scanned.
    pub fn accepts(source: &str) -> (r: bool)
        ensures
            r == (source@.len() <= MAX_SOURCE_LEN),
    {
        source.unicode_len() <= MAX_SOURCE_LEN
    }

    /// A scanner at the start of `source`, on line 1, with nothing emitted.
    pub fn new(source: String) -> (r: Self)
        requires
            source@.len() <= MAX_SOURCE_LEN,
        ensures
            r.well_formed(),
            r.text() == source@,
            r.cursor() == 0,
            r.line_number() == 1,
            r.emitted() == Seq::<TokenView>::empty(),
            r.reported() == Seq::<LexicalError>::empty(),
    {
        let ascii = source.as_str().is_ascii();
        let mut chars: Vec<char> = Vec::new();
        let mut rest = source.as_str().chars();
        loop
            invariant
                rest.obeys_prophetic_iter_laws(),
                rest.decrease() is Some,
                chars@ + rest.remaining() == source@,
            ensures
                rest.remaining().len() == 0,
            decreases rest.decrease()->0,
        {
            match rest.next() {
                Some(c) => {
                    chars.push(c);
                    assert(chars@ + rest.remaining() =~= source@);
                },
                None => {
                    break ;
                },
            }
        }
        assert(chars@ =~= source@);
        let r = Scanner {
            source,
            ascii,
            tokens: Vec::new(),
            chars,
            start: 0,
            current: 0,
            line: 1,
            had_error: false,
            errors: Vec::new(),
        };
        assert(token_views(r.tokens@) =~= Seq::<TokenView>::empty());
        r
    }

    /// Scans the rest of the text and appends the end-of-input token.
    /// Returns all tokens emitted so far.
    pub fn scan_tokens(&mut self) -> (r: &Vec<Token>)
        requires
            old(self).well_formed(),
        ensures
            final(self).well_formed(),
            final(self).text() == old(self).text(),
            final(self).cursor() == old(self).text().len(),
            final(self).emitted() == old(self).emitted() + lex_tokens(
                old(self).text(),
                old(self).cursor(),
                old(self).line_number(),
            ),
            final(self).reported() == old(self).reported() + lex_errors(
                old(self).text(),
                old(self).cursor(),
                old(self).line_number(),
            ),
            final(self).line_number() == final(self).emitted().last().line,
            token_views(r@) == final(self).emitted(),
    {
        let ghost s = self.chars@;
        let ghost all_tokens = token_views(self.tokens@) + lex_tokens(
            s,
            self.current as int,
            self.line as int,
        );
        let ghost all_errors = self.errors@ + lex_errors(s, self.current as int, self.line as int);
        while !self.is_at_end()
            invariant
                self.well_formed(),
                self.chars@ == s,
                all_tokens == token_views(self.tokens@) + lex_tokens(
                    s,
                    self.current as int,
                    self.line as int,
                ),
                all_errors == self.errors@ + lex_errors(s, self.current as int, self.line as int),
            decreases self.chars.len() - self.current,
        {
            self.start = self.current;
            let ghost pre = *self;
            proof {
                lemma_step_advances(s, self.current as int, self.line as int);
            }
            self.scan_token();
            proof {
                let st = lex_step(s, pre.current as int, pre.line as int);
                assert(all_tokens =~= token_views(self.tokens@) + lex_tokens(
                    s,
                    st.next,
                    st.line,
                ));
                assert(all_errors =~= self.errors@ + lex_errors(s, st.next, st.line));
            }
        }
        let ghost before = self.tokens@;
        let line = self.line;
        self.tokens.push(Token { token_type: TokenType::Eof, lexeme: String::new(), literal: None, line });
        proof {
            assert(token_views(self.tokens@) =~= token_views(before) + seq![end_token(line as int)]);
            assert(all_errors =~= self.errors@);
        }
        &self.tokens
    }

    fn is_at_end(&self) -> (r: bool)
        ensures
            r == (self.current >= self.chars.len()),
    {
        self.current >= self.chars.len()
    }

    /// Scans one lexeme, which starts at the cursor.
    fn scan_token(&mut self)
        requires
            old(self).well_formed(),
            old(self).start == old(self).current,
            old(self).current < old(self).chars.len(),
        ensures
            Self::took_step(*old(self), *final(self)),
    {
        let c = self.advance();
        if c == '(' {
            self.add_token(TokenType::LeftParen);
        } else if c == ')' {
            self.add_token(TokenType::RightParen);
        } else if c == '{' {
            self.add_token(TokenType::LeftBrace);
        } else if c == '}' {
            self.add_token(TokenType::RightBrace);
        } else if c == ',' {
            self.add_token(TokenType::Comma);
        } else if c == '.' {
            self.add_token(TokenType::Dot);
        } else if c == '-' {
            self.add_token(TokenType::Minus);
        } else if c == '+' {
            self.add_token(TokenType::Plus);
        } else if c == ';' {
            self.add_token(TokenType::Semicolon);
        } else if c == '*' {
            self.add_token(TokenType::Star);
        } else if c == '!' {
            if self.match_char('=') {
                self.add_token(TokenType::BangEqual);
            } else {
                self.add_token(TokenType::Bang);
            }
        } else if c == '=' {
            if self.match_char('=') {
                self.add_token(TokenType::EqualEqual);
            } else {
                self.add_token(TokenType::Equal);
            }
        } else if c == '<' {
            if self.match_char('=') {
                self.add_token(TokenType::LessEqual);
            } else {
                self.add_token(TokenType::Less);
            }
        } else if c == '>' {
            if self.match_char('=') {
                self.add_token(TokenType::GreaterEqual);
            } else {
                self.add_token(TokenType::Greater);
            }
        } else if c == '/' {
            if self.match_char('/') {
                while !self.is_at_end() && self.peek() != '\n'
                    invariant
                        self.well_formed(),
                        *self == (Scanner { current: self.current, ..*old(self) }),
                        self.start + 2 <= self.current,
                        run_end(self.chars@, self.current as int, CharClass::CommentBody)
                            == run_end(self.chars@, self.start + 2, CharClass::CommentBody),
                    decreases self.chars.len() - self.current,
                {
                    self.advance();
                }
                proof {
                    lemma_append_none(token_views(self.tokens@));
                    lemma_append_none(self.errors@);
                }
            } else {
                self.add_token(TokenType::Slash);
            }
        } else if c == ' ' || c == '\r' || c == '\t' {
            proof {
                lemma_append_none(token_views(self.tokens@));
                lemma_append_none(self.errors@);
            }
        } else if c == '\n' {
            self.line += 1;
            proof {
                lemma_append_none(token_views(self.tokens@));
                lemma_append_none(self.errors@);
            }
        } else if c == '"' {
            self.scan_string();
        } else if is_ascii_digit(c) {
            self.scan_number();
        } else if is_identifier_start(c) {
            self.scan_identifier();
        } else {
            self.error(LexicalErrorKind::UnexpectedCharacter);
        }
    }

    /// Consumes the character at the cursor and returns it.
    fn advance(&mut self) -> (c: char)
        requires
            old(self).current < old(self).chars.len(),
        ensures
            c == old(self).chars@[old(self).current as int],
            *final(self) == (Scanner { current: (old(self).current + 1) as usize, ..*old(self) }),
    {
        let c = self.peek();
        self.current += 1;
        c
    }

    /// The character at the cursor, or NUL at the end of the text.
    fn peek(&self) -> (c: char)
        ensures
            c == if self.current < self.chars.len() {
                self.chars@[self.current as int]
            } else {
                '\0'
            },
    {
        if self.is_at_end() {
            '\0'
        } else {
            self.chars[self.current]
        }
    }

    /// The character after the one at the cursor, or NUL where there is none.
    fn peek_next(&self) -> (c: char)
        requires
            self.current <= self.chars.len(),
            self.chars.len() <= MAX_SOURCE_LEN,
        ensures
            c == if self.current + 1 < self.chars.len() {
                self.chars@[self.current + 1]
            } else {
                '\0'
            },
    {
        if self.current + 1 >= self.chars.len() {
            '\0'
        } else {
            self.chars[self.current + 1]
        }
    }

    /// Consumes the character at the cursor if it is `expected`.
    fn match_char(&mut self, expected: char) -> (r: bool)
        requires
            old(self).current <= old(self).chars.len(),
        ensures
            r == (old(self).current < old(self).chars.len() && old(self).chars@[old(
                self,
            ).current as int] == expected),
            r ==> *final(self) == (Scanner {
                current: (old(self).current + 1) as usize,
                ..*old(self)
            }),
            !r ==> *final(self) == *old(self),
    {
        if self.is_at_end() || self.peek() != expected {
            false
        } else {
            self.current += 1;
            true
        }
    }

    /// The source text from position `from` up to position `to`.
    fn slice(&self, from: usize, to: usize) -> (r: String)
        requires
            self.well_formed(),
            from <= to <= self.chars.len(),
        ensures
            r@ == self.chars@.subrange(from as int, to as int),
    {
        let text = self.source.as_str();
        if self.ascii {
            text.substring_ascii(from, to).to_owned()
        } else {
            text.substring_char(from, to).to_owned()
        }
    }

    /// Emits a token without a literal for the lexeme between `start` and
    /// the cursor.
    fn add_token(&mut self, token_type: TokenType)
        requires
            old(self).well_formed(),
        ensures
            final(self).well_formed(),
            *final(self) == (Scanner { tokens: final(self).tokens, ..*old(self) }),
            token_views(final(self).tokens@) == token_views(old(self).tokens@) + opt_seq(
                Some(
                    TokenView {
                        token_type,
                        lexeme: old(self).chars@.subrange(
                            old(self).start as int,
                            old(self).current as int,
                        ),
                        literal: None,
                        line: old(self).line as int,
                    },
                ),
            ),
    {
        self.add_token_literal(token_type, None);
    }

    /// Emits a token for the lexeme between `start` and the cursor.
    fn add_token_literal(&mut self, token_type: TokenType, literal: Option<String>)
        requires
            old(self).well_formed(),
        ensures
            final(self).well_formed(),
            *final(self) == (Scanner { tokens: final(self).tokens, ..*old(self) }),
            token_views(final(self).tokens@) == token_views(old(self).tokens@) + opt_seq(
                Some(
                    TokenView {
                        token_type,
                        lexeme: old(self).chars@.subrange(
                            old(self).start as int,
                            old(self).current as int,
                        ),
                        literal: match literal {
                            Some(t) => Some(t@),
                            None => None,
                        },
                        line: old(self).line as int,
                    },
                ),
            ),
    {
        let lexeme = self.slice(self.start, self.current);
        let token = Token { token_type, lexeme, literal, line: self.line };
        let ghost before = self.tokens@;
        self.tokens.push(token);
        assert(token_views(self.tokens@) =~= token_views(before) + opt_seq(Some(token@)));
    }

    /// Scans a string literal, whose opening quote was just consumed.
    fn scan_string(&mut self)
        requires
            old(self).well_formed(),
            old(self).current == old(self).start + 1,
            old(self).line <= old(self).current,
            old(self).chars@[old(self).start as int] == '"',
        ensures
            Self::took_step(*old(self), *final(self)),
    {
        proof {
            lemma_run_end_bounds(self.chars@, self.start + 1, CharClass::StringBody);
        }
        while !self.is_at_end() && self.peek() != '"'
            invariant
                self.well_formed(),
                *self == (Scanner { current: self.current, line: self.line, ..*old(self) }),
                self.start + 1 <= self.current <= self.chars.len(),
                1 <= self.line <= self.current,
                self.line == old(self).line + newlines(
                    self.chars@,
                    self.start + 1,
                    self.current as int,
                ),
                run_end(self.chars@, self.current as int, CharClass::StringBody) == run_end(
                    self.chars@,
                    self.start + 1,
                    CharClass::StringBody,
                ),
            decreases self.chars.len() - self.current,
        {
            if self.peek() == '\n' {
                self.line += 1;
            }
            self.advance();
        }

        if self.is_at_end() {
            self.error(LexicalErrorKind::UnterminatedString);
            proof {
                lemma_append_none(token_views(self.tokens@));
            }
            return ;
        }
        self.advance();
        let value = self.slice(self.start + 1, self.current - 1);
        self.add_token_literal(TokenType::String, Some(value));
        proof {
            lemma_append_none(self.errors@);
        }
    }

    /// Scans a number, whose first digit was just consumed.
    fn scan_number(&mut self)
        requires
            old(self).well_formed(),
            old(self).current == old(self).start + 1,
            is_digit(old(self).chars@[old(self).start as int]),
        ensures
            Self::took_step(*old(self), *final(self)),
    {
        while is_ascii_digit(self.peek())
            invariant
                self.well_formed(),
                *self == (Scanner { current: self.current, ..*old(self) }),
                self.start + 1 <= self.current,
                run_end(self.chars@, self.current as int, CharClass::Digit) == run_end(
                    self.chars@,
                    self.start + 1,
                    CharClass::Digit,
                ),
            decreases self.chars.len() - self.current,
        {
            self.advance();
        }

        if self.peek() == '.' && is_ascii_digit(self.peek_next()) {
            self.advance();

            while is_ascii_digit(self.peek())
                invariant
                    self.well_formed(),
                    *self == (Scanner { current: self.current, ..*old(self) }),
                    self.start + 1 <= self.current,
                    run_end(self.chars@, self.current as int, CharClass::Digit) == number_end(
                        self.chars@,
                        self.start as int,
                    ),
                decreases self.chars.len() - self.current,
            {
                self.advance();
            }
        }
        let value = self.slice(self.start, self.current);
        self.add_token_literal(TokenType::Number, Some(value));
        proof {
            lemma_append_none(self.errors@);
        }
    }

    /// Scans an identifier or keyword, whose first character was just
    /// consumed.
    fn scan_identifier(&mut self)
        requires
            old(self).well_formed(),
            old(self).current == old(self).start + 1,
            is_word_start(old(self).chars@[old(self).start as int]),
        ensures
            Self::took_step(*old(self), *final(self)),
    {
        while !self.is_at_end() && is_identifier_part(self.peek())
            invariant
                self.well_formed(),
                *self == (Scanner { current: self.current, ..*old(self) }),
                self.start + 1 <= self.current,
                run_end(self.chars@, self.current as int, CharClass::Word) == run_end(
                    self.chars@,
                    self.start + 1,
                    CharClass::Word,
                ),
            decreases self.chars.len() - self.current,
        {
            self.advance();
        }

        let token_type = match keyword_type(&self.chars, self.start, self.current) {
            Some(t) => t,
            None => TokenType::Identifier,
        };
        self.add_token(token_type);
        proof {
            lemma_append_none(self.errors@);
        }
    }

    /// Records a lexical error on the current line and raises the flag.
    fn error(&mut self, kind: LexicalErrorKind)
        ensures
            *final(self) == (Scanner {
                errors: final(self).errors,
                had_error: true,
                ..*old(self)
            }),
            final(self).errors@ == old(self).errors@ + opt_seq(
                Some(LexicalError { line: old(self).line, kind }),
            ),
    {
        self.errors.push(LexicalError { line: self.line, kind });
        self.had_error = true;
        assert(self.errors@ =~= old(self).errors@ + opt_seq(
            Some(LexicalError { line: old(self).line, kind }),
        ));
    }

    /// Whether a lexical error was met.
    pub fn had_error(&self) -> (r: bool)
        requires
            self.well_formed(),
        ensures
            r == (self.reported().len() > 0),
    {
        self.had_error
    }

    /// The lexical errors met so far, in order.
    pub fn errors(&self) -> (r: &Vec<LexicalError>)
        ensures
            r@ == self.reported(),
    {
        &self.errors
    }

    /// Gives up the scanner for the tokens emitted and the errors met.
    pub fn into_parts(self) -> (r: (Vec<Token>, Vec<LexicalError>))
        ensures
            token_views(r.0@) == self.emitted(),
            r.1@ == self.reported(),
    {
        (self.tokens, self.errors)
    }
}

} // verus!
