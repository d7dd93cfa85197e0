//! The pipeline from source text to an expression, with its error flag.

use vstd::prelude::*;
use crate::expr::Expr;
use crate::grammar::{parse_expression, Parsed};
use crate::laws::lemma_tokens_end_with_eof;
use crate::lexical::{lex_errors, lex_tokens, LexicalError};
use crate::parser::{error_view, Parser, ParserError};
use crate::scanner::{Scanner, MAX_SOURCE_LEN};
use crate::token::TokenView;

verus! {

/// What one run of the pipeline gives: the expression, or the errors that
/// the scanner met, or the error at which the parser stopped.
pub enum Outcome {
    Tree(Expr),
    Lexical(Vec<LexicalError>),
    Syntax(ParserError),
}

/// What running `source` gives, as a function of the text: the lexical
/// errors if there are any, else what the grammar makes of its tokens.
pub open spec fn run_result(source: Seq<char>) -> Parsed {
    parse_expression(lex_tokens(source, 0, 1), 0)
}

/// The driver's state: whether an error was met since the flag was last
/// cleared.
pub struct Jlox {
    had_error: bool,
}

impl Jlox {
    /// Whether an error was met.
    pub closed spec fn flagged(&self) -> bool {
        self.had_error
    }

    pub fn new() -> (r: Self)
        ensures
            !r.flagged(),
    {
        Self { had_error: false }
    }

    /// Whether an error was met since the flag was last cleared.
    pub fn had_error(&self) -> (r: bool)
        ensures
            r == self.flagged(),
    {
        self.had_error
    }

    /// Clears the flag, as between two lines of a session.
    pub fn reset(&mut self)
        ensures
            !final(self).flagged(),
    {
        self.had_error = false;
    }

    /// Notes an error on `line`.
    pub fn error(&mut self, line: i32, message: &str)
        ensures
            final(self).flagged(),
    {
        self.report(line, "", message);
    }

    /// Notes an error on `line` at `pos`.
    pub fn report(&mut self, line: i32, pos: &str, message: &str)
        ensures
            final(self).flagged(),
    {
        self.had_error = true;
    }

    /// Scans `source` and, where it has no lexical error, parses one
    /// expression from its tokens. The flag is raised on any error and left
    /// as it was otherwise.
    pub fn run(&mut self, source: String) -> (r: Outcome)
        requires
            source@.len() <= MAX_SOURCE_LEN,
        ensures
            lex_errors(source@, 0, 1).len() > 0 ==> {
                &&& r matches Outcome::Lexical(errors)
                &&& errors@ == lex_errors(source@, 0, 1)
                &&& final(self).flagged()
            },
            lex_errors(source@, 0, 1).len() == 0 ==> match run_result(source@) {
                Parsed::Tree { expr, next } => {
                    &&& r matches Outcome::Tree(e)
                    &&& e@ == expr
                    &&& final(self).flagged() == old(self).flagged()
                },
                Parsed::Fault { fault, at } => {
                    &&& r matches Outcome::Syntax(e)
                    &&& e@ == error_view(lex_tokens(source@, 0, 1), fault, at)
                    &&& final(self).flagged()
                },
            },
    {
        let ghost text = source@;
        let mut scanner = Scanner::new(source);
        scanner.scan_tokens();
        let failed = scanner.had_error();
        let (tokens, errors) = scanner.into_parts();
        proof {
            assert(Seq::<TokenView>::empty() + lex_tokens(text, 0, 1) =~= lex_tokens(text, 0, 1));
            assert(Seq::<LexicalError>::empty() + lex_errors(text, 0, 1) =~= lex_errors(
                text,
                0,
                1,
            ));
            lemma_tokens_end_with_eof(text, 0, 1);
        }
        if failed {
            self.had_error = true;
            return Outcome::Lexical(errors);
        }
        let mut parser = Parser::new(tokens);
        match parser.parse() {
            Ok(expr) => Outcome::Tree(expr),
            Err(e) => {
                self.error(e.token.line, e.message.as_str());
                Outcome::Syntax(e)
            },
        }
    }
}

} // verus!
