//! The expression grammar, stated as functions on token sequences.

use vstd::prelude::*;
use crate::expr::{ExprView, LiteralView};
use crate::lexical::{is_ascii_digit, run_end, CharClass};
use crate::token::TokenView;
use crate::token_type::TokenType;
use vstd::string::StrSliceExecFns;

verus! {

/// The three ways in which a token sequence can fail to be an expression.
#[derive(Debug, Clone, Copy, PartialEq, Eq, Structural)]
pub enum SyntaxFault {
    ExpectExpression,
    ExpectRightParen,
    InvalidNumber,
}

impl SyntaxFault {
    pub open spec fn message_text(self) -> Seq<char> {
        match self {
            SyntaxFault::ExpectExpression => "Expect expression"@,
            SyntaxFault::ExpectRightParen => "Expect ')' after expression"@,
            SyntaxFault::InvalidNumber => "Invalid number"@,
        }
    }

    /// The message shown for this fault.
    pub fn message(self) -> (r: &'static str)
        ensures
            r@ == self.message_text(),
    {
        match self {
            SyntaxFault::ExpectExpression => "Expect expression",
            SyntaxFault::ExpectRightParen => "Expect ')' after expression",
            SyntaxFault::InvalidNumber => "Invalid number",
        }
    }
}

/// The binary levels of the grammar, from the loosest to the tightest.
pub enum Level {
    Equality,
    Comparison,
    Term,
    Factor,
}

impl Level {
    pub open spec fn rank(self) -> nat {
        match self {
            Level::Equality => 4,
            Level::Comparison => 3,
            Level::Term => 2,
            Level::Factor => 1,
        }
    }

    /// Whether `t` is an operator of this level.
    pub open spec fn has(self, t: TokenType) -> bool {
        match self {
            Level::Equality => t == TokenType::BangEqual || t == TokenType::EqualEqual,
            Level::Comparison => t == TokenType::Greater || t == TokenType::GreaterEqual || t
                == TokenType::Less || t == TokenType::LessEqual,
            Level::Term => t == TokenType::Plus || t == TokenType::Minus,
            Level::Factor => t == TokenType::Slash || t == TokenType::Star,
        }
    }
}

/// Whether `t` is a prefix operator.
pub open spec fn is_prefix(t: TokenType) -> bool {
    t == TokenType::Bang || t == TokenType::Minus
}

/// A token sequence that a parser accepts: it ends in the end-of-input
/// token.
pub open spec fn terminated(ts: Seq<TokenView>) -> bool {
    ts.len() > 0 && ts.last().token_type == TokenType::Eof
}

/// The category of the token at `pos`. Past the sequence it reads as the
/// end of input.
pub open spec fn kind_at(ts: Seq<TokenView>, pos: int) -> TokenType {
    if 0 <= pos < ts.len() {
        ts[pos].token_type
    } else {
        TokenType::Eof
    }
}

/// Whether `t` is a decimal numeral: digits, and optionally a dot and
/// more digits.
pub open spec fn is_decimal(t: Seq<char>) -> bool {
    let whole = run_end(t, 0, CharClass::Digit);
    whole > 0 && (whole == t.len() || (t[whole] == '.' && whole + 1 < t.len() && run_end(
        t,
        whole + 1,
        CharClass::Digit,
    ) == t.len()))
}

/// Whether `text` is a decimal numeral.
pub fn is_decimal_text(text: &str) -> (r: bool)
    ensures
        r == is_decimal(text@),
{
    let n = text.unicode_len();
    let mut i: usize = 0;
    while i < n && is_ascii_digit(text.get_char(i))
        invariant
            i <= n,
            n == text@.len(),
            run_end(text@, 0, CharClass::Digit) == run_end(text@, i as int, CharClass::Digit),
        decreases n - i,
    {
        i += 1;
    }
    if i == 0 {
        return false;
    }
    if i == n {
        return true;
    }
    if text.get_char(i) != '.' || i + 1 >= n {
        return false;
    }
    let mut j: usize = i + 1;
    while j < n && is_ascii_digit(text.get_char(j))
        invariant
            i < j <= n,
            n == text@.len(),
            run_end(text@, i + 1, CharClass::Digit) == run_end(text@, j as int, CharClass::Digit),
        decreases n - j,
    {
        j += 1;
    }
    j == n
}

/// The outcome of parsing from a position: a tree and the position after
/// it, or a fault and the position of the offending token.
pub enum Parsed {
    Tree { expr: ExprView, next: int },
    Fault { fault: SyntaxFault, at: int },
}

/// The text that a string token stands for: its literal, or its lexeme
/// where it carries none.
pub open spec fn string_payload(t: TokenView) -> Seq<char> {
    match t.literal {
        Some(s) => s,
        None => t.lexeme,
    }
}

/// `primary`: a constant or a parenthesized expression.
pub open spec fn parse_primary(ts: Seq<TokenView>, pos: int) -> Parsed
    decreases ts.len() - pos, 0nat, 0nat,
{
    let kind = kind_at(ts, pos);
    if kind == TokenType::False {
        Parsed::Tree { expr: ExprView::Literal(LiteralView::Boolean(false)), next: pos + 1 }
    } else if kind == TokenType::True {
        Parsed::Tree { expr: ExprView::Literal(LiteralView::Boolean(true)), next: pos + 1 }
    } else if kind == TokenType::Nil {
        Parsed::Tree { expr: ExprView::Literal(LiteralView::Nil), next: pos + 1 }
    } else if kind == TokenType::Number {
        if is_decimal(ts[pos].lexeme) {
            Parsed::Tree {
                expr: ExprView::Literal(LiteralView::Number(ts[pos].lexeme)),
                next: pos + 1,
            }
        } else {
            Parsed::Fault { fault: SyntaxFault::InvalidNumber, at: pos }
        }
    } else if kind == TokenType::String {
        Parsed::Tree {
            expr: ExprView::Literal(LiteralView::Text(string_payload(ts[pos]))),
            next: pos + 1,
        }
    } else if kind == TokenType::LeftParen {
        match parse_level(ts, pos + 1, Level::Equality) {
            Parsed::Tree { expr, next } => if kind_at(ts, next) == TokenType::RightParen {
                Parsed::Tree { expr: ExprView::Grouping(Box::new(expr)), next: next + 1 }
            } else {
                Parsed::Fault { fault: SyntaxFault::ExpectRightParen, at: next }
            },
            Parsed::Fault { fault, at } => Parsed::Fault { fault, at },
        }
    } else {
        Parsed::Fault { fault: SyntaxFault::ExpectExpression, at: pos }
    }
}

/// `unary`: any number of prefix operators before a primary.
pub open spec fn parse_unary(ts: Seq<TokenView>, pos: int) -> Parsed
    decreases ts.len() - pos, 0nat, 1nat,
{
    if is_prefix(kind_at(ts, pos)) {
        match parse_unary(ts, pos + 1) {
            Parsed::Tree { expr, next } => Parsed::Tree {
                expr: ExprView::Unary(ts[pos], Box::new(expr)),
                next,
            },
            Parsed::Fault { fault, at } => Parsed::Fault { fault, at },
        }
    } else {
        parse_primary(ts, pos)
    }
}

/// An operand of `level`: an expression of the next tighter level.
pub open spec fn parse_operand(ts: Seq<TokenView>, pos: int, level: Level) -> Parsed
    decreases ts.len() - pos, level.rank(), 1nat,
{
    match level {
        Level::Equality => parse_level(ts, pos, Level::Comparison),
        Level::Comparison => parse_level(ts, pos, Level::Term),
        Level::Term => parse_level(ts, pos, Level::Factor),
        Level::Factor => parse_unary(ts, pos),
    }
}

/// The rest of a binary expression of `level` whose left operand `left`
/// ends before `pos`: while an operator of the level follows, it and the
/// next operand are folded into the left operand. An operand always ends
/// after the operator before it and within the sequence, so the test on
/// `next` never fails.
pub open spec fn parse_rest(ts: Seq<TokenView>, pos: int, level: Level, left: ExprView) -> Parsed
    decreases ts.len() - pos, level.rank(), 0nat,
{
    if level.has(kind_at(ts, pos)) {
        match parse_operand(ts, pos + 1, level) {
            Parsed::Tree { expr, next } => if pos < next <= ts.len() {
                parse_rest(ts, next, level, ExprView::Binary(Box::new(left), ts[pos], Box::new(expr)))
            } else {
                Parsed::Fault { fault: SyntaxFault::ExpectExpression, at: pos }
            },
            Parsed::Fault { fault, at } => Parsed::Fault { fault, at },
        }
    } else {
        Parsed::Tree { expr: left, next: pos }
    }
}

/// A binary expression of `level`: an operand, then the rest. An operand
/// ends after its start and within the sequence, so the test on `next`
/// never fails.
pub open spec fn parse_level(ts: Seq<TokenView>, pos: int, level: Level) -> Parsed
    decreases ts.len() - pos, level.rank(), 2nat,
{
    match parse_operand(ts, pos, level) {
        Parsed::Tree { expr, next } => if pos <= next <= ts.len() {
            parse_rest(ts, next, level, expr)
        } else {
            Parsed::Fault { fault: SyntaxFault::ExpectExpression, at: pos }
        },
        Parsed::Fault { fault, at } => Parsed::Fault { fault, at },
    }
}

/// `expression`: the loosest level.
pub open spec fn parse_expression(ts: Seq<TokenView>, pos: int) -> Parsed {
    parse_level(ts, pos, Level::Equality)
}

} // verus!
