//! The parser: from tokens to one expression tree.

use vstd::prelude::*;
use crate::expr::{Expr, LiteralValue};
use crate::grammar::{
    is_decimal_text, kind_at, parse_expression, parse_level, parse_operand,
    parse_primary, parse_rest, parse_unary, terminated, Level, Parsed, SyntaxFault,
};
use crate::token::{token_views, Token, TokenView};
use crate::token_type::TokenType;

verus! {

/// A syntax error: what was expected, and the token at which it was missed
/// with its line.
#[derive(Debug, PartialEq)]
pub struct ParserError {
    pub message: String,
    pub line: usize,
    pub token: Token,
}

/// The mathematical value of a syntax error.
pub struct ParserErrorView {
    pub message: Seq<char>,
    pub line: int,
    pub token: TokenView,
}

impl View for ParserError {
    type V = ParserErrorView;

    open spec fn view(&self) -> ParserErrorView {
        ParserErrorView { message: self.message@, line: self.line as int, token: self.token@ }
    }
}

/// A token's line as an error reports it.
pub open spec fn reported_line(t: TokenView) -> int {
    ((t.line as i32) as usize) as int
}

/// The error that stands for `fault` at position `at` of `ts`.
pub open spec fn error_view(ts: Seq<TokenView>, fault: SyntaxFault, at: int) -> ParserErrorView {
    ParserErrorView { message: fault.message_text(), line: reported_line(ts[at]), token: ts[at] }
}

impl ParserError {
    pub fn new(message: &str, line: usize, token: Token) -> (r: Self)
        ensures
            r@ == (ParserErrorView { message: message@, line: line as int, token: token@ }),
    {
        Self { message: message.to_owned(), line, token }
    }
}

/// A parser over one token sequence, with a cursor that only moves forward.
pub struct Parser {
    tokens: Vec<Token>,
    current: usize,
}

impl Parser {
    /// The token sequence.
    pub closed spec fn input(&self) -> Seq<TokenView> {
        token_views(self.tokens@)
    }

    /// The position of the next token to read.
    pub closed spec fn cursor(&self) -> int {
        self.current as int
    }

    /// The parser's invariant: the sequence ends in the end-of-input token
    /// and the cursor is on one of its tokens.
    pub open spec fn well_formed(&self) -> bool {
        terminated(self.input()) && 0 <= self.cursor() < self.input().len()
    }

    /// Whether `post` and `r` are what parsing leaves of `pre` where the
    /// grammar gives `expected` at its cursor.
    pub open spec fn follows(
        pre: Parser,
        post: Parser,
        r: Result<Expr, ParserError>,
        expected: Parsed,
    ) -> bool {
        &&& post.input() == pre.input()
        &&& post.well_formed()
        &&& match expected {
            Parsed::Tree { expr, next } => {
                &&& r is Ok
                &&& r->Ok_0@ == expr
                &&& post.cursor() == next
                &&& pre.cursor() < next
            },
            Parsed::Fault { fault, at } => {
                &&& r is Err
                &&& r->Err_0@ == error_view(pre.input(), fault, at)
                &&& pre.cursor() <= at < pre.input().len()
                &&& post.cursor() == if fault == SyntaxFault::InvalidNumber {
                    at + 1
                } else {
                    at
                }
            },
        }
    }

    /// A parser at the start of `tokens`.
    pub fn new(tokens: Vec<Token>) -> (r: Self)
        ensures
            r.input() == token_views(tokens@),
            r.cursor() == 0,
    {
        Self { tokens, current: 0 }
    }

    /// Whether the parser is well formed, so that it can parse.
    pub fn is_well_formed(&self) -> (r: bool)
        ensures
            r == self.well_formed(),
    {
        let n = self.tokens.len();
        n > 0 && self.tokens[n - 1].token_type == TokenType::Eof && self.current < n
    }

    /// Parses one expression from the cursor on. On success the cursor is
    /// after the expression. On failure the error names the first token at
    /// which no production matches, no tree is returned, and the cursor is
    /// at that token, or after it where it is an invalid number.
    pub fn parse(&mut self) -> (r: Result<Expr, ParserError>)
        requires
            old(self).well_formed(),
        ensures
            Self::follows(
                *old(self),
                *final(self),
                r,
                parse_expression(old(self).input(), old(self).cursor()),
            ),
    {
        self.expression()
    }

    fn expression(&mut self) -> (r: Result<Expr, ParserError>)
        requires
            old(self).well_formed(),
        ensures
            Self::follows(
                *old(self),
                *final(self),
                r,
                parse_level(old(self).input(), old(self).cursor(), Level::Equality),
            ),
        decreases old(self).tokens.len() - old(self).current, 5nat, 0nat,
    {
        self.equality()
    }

    fn equality(&mut self) -> (r: Result<Expr, ParserError>)
        requires
            old(self).well_formed(),
        ensures
            Self::follows(
                *old(self),
                *final(self),
                r,
                parse_level(old(self).input(), old(self).cursor(), Level::Equality),
            ),
        decreases old(self).tokens.len() - old(self).current, 4nat, 1nat,
    {
        let ghost ts = self.input();
        let ghost goal = parse_level(ts, self.cursor(), Level::Equality);
        let mut expr: Expr = self.comparison()?;

        while self.match_tokens(&[TokenType::BangEqual, TokenType::EqualEqual])
            invariant
                self.input() == ts,
                self.well_formed(),
                old(self).current < self.current,
                self.tokens.len() == old(self).tokens.len(),
                ts == old(self).input(),
                goal == parse_level(ts, old(self).cursor(), Level::Equality),
                goal == parse_rest(ts, self.cursor(), Level::Equality, expr@),
            decreases self.tokens.len() - self.current,
        {
            proof {
                let p = self.cursor() - 1;
                assert(Level::Equality.has(kind_at(ts, p)));
                assert(goal == parse_rest(ts, p, Level::Equality, expr@));
                assert(parse_operand(ts, p + 1, Level::Equality) == parse_level(
                    ts,
                    p + 1,
                    Level::Comparison,
                ));
            }
            let operator = self.previous();
            let right = self.comparison()?;

            expr = Expr::Binary { left: Box::new(expr), operator, right: Box::new(right) };
        }

        Ok(expr)
    }

    fn comparison(&mut self) -> (r: Result<Expr, ParserError>)
        requires
            old(self).well_formed(),
        ensures
            Self::follows(
                *old(self),
                *final(self),
                r,
                parse_level(old(self).input(), old(self).cursor(), Level::Comparison),
            ),
        decreases old(self).tokens.len() - old(self).current, 3nat, 1nat,
    {
        let ghost ts = self.input();
        let ghost goal = parse_level(ts, self.cursor(), Level::Comparison);
        let mut expr: Expr = self.term()?;

        while self.match_tokens(
            &[
                TokenType::Greater,
                TokenType::GreaterEqual,
                TokenType::Less,
                TokenType::LessEqual,
            ],
        )
            invariant
                self.input() == ts,
                self.well_formed(),
                old(self).current < self.current,
                self.tokens.len() == old(self).tokens.len(),
                ts == old(self).input(),
                goal == parse_level(ts, old(self).cursor(), Level::Comparison),
                goal == parse_rest(ts, self.cursor(), Level::Comparison, expr@),
            decreases self.tokens.len() - self.current,
        {
            proof {
                let p = self.cursor() - 1;
                assert(Level::Comparison.has(kind_at(ts, p)));
                assert(goal == parse_rest(ts, p, Level::Comparison, expr@));
                assert(parse_operand(ts, p + 1, Level::Comparison) == parse_level(ts, p + 1, Level::Term));
            }
            let operator: Token = self.previous();
            let right: Expr = self.term()?;

            expr = Expr::Binary { left: Box::new(expr), operator, right: Box::new(right) };
        }
        Ok(expr)
    }

    fn term(&mut self) -> (r: Result<Expr, ParserError>)
        requires
            old(self).well_formed(),
        ensures
            Self::follows(
                *old(self),
                *final(self),
                r,
                parse_level(old(self).input(), old(self).cursor(), Level::Term),
            ),
        decreases old(self).tokens.len() - old(self).current, 2nat, 1nat,
    {
        let ghost ts = self.input();
        let ghost goal = parse_level(ts, self.cursor(), Level::Term);
        let mut expr: Expr = self.factor()?;

        while self.match_tokens(&[TokenType::Plus, TokenType::Minus])
            invariant
                self.input() == ts,
                self.well_formed(),
                old(self).current < self.current,
                self.tokens.len() == old(self).tokens.len(),
                ts == old(self).input(),
                goal == parse_level(ts, old(self).cursor(), Level::Term),
                goal == parse_rest(ts, self.cursor(), Level::Term, expr@),
            decreases self.tokens.len() - self.current,
        {
            proof {
                let p = self.cursor() - 1;
                assert(Level::Term.has(kind_at(ts, p)));
                assert(goal == parse_rest(ts, p, Level::Term, expr@));
                assert(parse_operand(ts, p + 1, Level::Term) == parse_level(ts, p + 1, Level::Factor));
            }
            let operator: Token = self.previous();
            let right: Expr = self.factor()?;

            expr = Expr::Binary { left: Box::new(expr), operator, right: Box::new(right) };
        }
        Ok(expr)
    }

    fn factor(&mut self) -> (r: Result<Expr, ParserError>)
        requires
            old(self).well_formed(),
        ensures
            Self::follows(
                *old(self),
                *final(self),
                r,
                parse_level(old(self).input(), old(self).cursor(), Level::Factor),
            ),
        decreases old(self).tokens.len() - old(self).current, 1nat, 1nat,
    {
        let ghost ts = self.input();
        let ghost goal = parse_level(ts, self.cursor(), Level::Factor);
        let mut expr: Expr = self.unary()?;

        while self.match_tokens(&[TokenType::Slash, TokenType::Star])
            invariant
                self.input() == ts,
                self.well_formed(),
                old(self).current < self.current,
                self.tokens.len() == old(self).tokens.len(),
                ts == old(self).input(),
                goal == parse_level(ts, old(self).cursor(), Level::Factor),
                goal == parse_rest(ts, self.cursor(), Level::Factor, expr@),
            decreases self.tokens.len() - self.current,
        {
            proof {
                let p = self.cursor() - 1;
                assert(Level::Factor.has(kind_at(ts, p)));
                assert(goal == parse_rest(ts, p, Level::Factor, expr@));
                assert(parse_operand(ts, p + 1, Level::Factor) == parse_unary(ts, p + 1));
            }
            let operator: Token = self.previous();
            let right: Expr = self.unary()?;

            expr = Expr::Binary { left: Box::new(expr), operator, right: Box::new(right) };
        }
        Ok(expr)
    }

    fn unary(&mut self) -> (r: Result<Expr, ParserError>)
        requires
            old(self).well_formed(),
        ensures
            Self::follows(
                *old(self),
                *final(self),
                r,
                parse_unary(old(self).input(), old(self).cursor()),
            ),
        decreases old(self).tokens.len() - old(self).current, 0nat, 1nat,
    {
        if self.match_tokens(&[TokenType::Bang, TokenType::Minus]) {
            let operator: Token = self.previous();
            let right: Expr = self.unary()?;

            return Ok(Expr::Unary { operator, right: Box::new(right) });
        }
        self.primary()
    }

    fn primary(&mut self) -> (r: Result<Expr, ParserError>)
        requires
            old(self).well_formed(),
        ensures
            Self::follows(
                *old(self),
                *final(self),
                r,
                parse_primary(old(self).input(), old(self).cursor()),
            ),
        decreases old(self).tokens.len() - old(self).current, 0nat, 0nat,
    {
        let kind = self.peek().token_type;

        match kind {
            TokenType::False => {
                self.advance();
                Ok(Expr::Literal(LiteralValue::Boolean(false)))
            },
            TokenType::True => {
                self.advance();
                Ok(Expr::Literal(LiteralValue::Boolean(true)))
            },
            TokenType::Nil => {
                self.advance();
                Ok(Expr::Literal(LiteralValue::Nil))
            },
            TokenType::Number => {
                let token = self.advance();
                if !is_decimal_text(token.lexeme.as_str()) {
                    return Err(Self::fault_at(SyntaxFault::InvalidNumber, token));
                }
                Ok(Expr::Literal(LiteralValue::Number(token.lexeme)))
            },
            TokenType::String => {
                let token = self.advance();
                let text = match token.literal {
                    Some(s) => s,
                    None => token.lexeme,
                };
                Ok(Expr::Literal(LiteralValue::String(text)))
            },
            TokenType::LeftParen => {
                self.advance();
                let expr = self.expression()?;

                if self.peek().token_type != TokenType::RightParen {
                    let token = self.peek().clone();
                    return Err(Self::fault_at(SyntaxFault::ExpectRightParen, token));
                }
                self.advance();

                Ok(Expr::Grouping(Box::new(expr)))
            },
            _ => {
                let token = self.peek().clone();
                Err(Self::fault_at(SyntaxFault::ExpectExpression, token))
            },
        }
    }

    /// The error for `fault` at `token`.
    fn fault_at(fault: SyntaxFault, token: Token) -> (r: ParserError)
        ensures
            r@ == (ParserErrorView {
                message: fault.message_text(),
                line: reported_line(token@),
                token: token@,
            }),
    {
        let line = #[verifier::truncate]
        (token.line as usize);
        ParserError::new(fault.message(), line, token)
    }

    fn is_at_end(&self) -> (r: bool)
        requires
            self.current < self.tokens.len(),
        ensures
            r == (kind_at(self.input(), self.cursor()) == TokenType::Eof),
    {
        self.tokens[self.current].token_type == TokenType::Eof
    }

    fn peek(&self) -> (r: &Token)
        requires
            self.current < self.tokens.len(),
        ensures
            r@ == self.input()[self.cursor()],
    {
        &self.tokens[self.current]
    }

    fn previous(&self) -> (r: Token)
        requires
            0 < self.current <= self.tokens.len(),
        ensures
            r@ == self.input()[self.cursor() - 1],
    {
        self.tokens[self.current - 1].clone()
    }

    /// Consumes the token at the cursor, unless it is the end of input, and
    /// returns the token before the cursor.
    fn advance(&mut self) -> (r: Token)
        requires
            old(self).well_formed(),
            old(self).current > 0 || old(self).tokens@[0].token_type != TokenType::Eof,
        ensures
            final(self).tokens == old(self).tokens,
            final(self).well_formed(),
            final(self).current == if kind_at(old(self).input(), old(self).cursor())
                == TokenType::Eof {
                old(self).current
            } else {
                (old(self).current + 1) as usize
            },
            r@ == old(self).input()[final(self).cursor() - 1],
    {
        if !self.is_at_end() {
            assert(self.current < self.tokens.len());
            self.current += 1;
        }
        self.previous()
    }

    fn check(&self, token_type: TokenType) -> (r: bool)
        requires
            self.current < self.tokens.len(),
        ensures
            r == (token_type != TokenType::Eof && kind_at(self.input(), self.cursor())
                == token_type),
    {
        if self.is_at_end() {
            return false;
        }
        self.peek().token_type == token_type
    }

    /// Consumes the token at the cursor if its category is one of `types`
    /// and not the end of input.
    fn match_tokens(&mut self, types: &[TokenType]) -> (r: bool)
        requires
            old(self).well_formed(),
        ensures
            final(self).tokens == old(self).tokens,
            final(self).well_formed(),
            r == (kind_at(old(self).input(), old(self).cursor()) != TokenType::Eof
                && types@.contains(kind_at(old(self).input(), old(self).cursor()))),
            final(self).current == if r {
                (old(self).current + 1) as usize
            } else {
                old(self).current
            },
    {
        let mut i: usize = 0;
        while i < types.len()
            invariant
                i <= types.len(),
                *self == *old(self),
                self.well_formed(),
                forall|j: int|
                    0 <= j < i ==> !(types@[j] != TokenType::Eof && types@[j] == kind_at(
                        self.input(),
                        self.cursor(),
                    )),
            decreases types.len() - i,
        {
            if self.check(types[i]) {
                self.advance();
                return true;
            }
            i += 1;
        }
        false
    }
}

} // verus!
