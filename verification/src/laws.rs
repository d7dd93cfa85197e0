//! Laws of the lexical grammar and of the expression grammar.

use vstd::prelude::*;
use crate::expr::ExprView;
use crate::grammar::{
    is_decimal, is_prefix, kind_at, parse_level, parse_operand, parse_primary, parse_rest,
    parse_unary, terminated, Level, Parsed, SyntaxFault,
};
use crate::lexical::{
    end_token, in_class, is_digit, is_word_start, keyword_of, lemma_run_end_bounds,
    lemma_step_advances, lex_errors, lex_step, lex_tokens, newlines, number_end, opt_seq,
    operator_pair, punctuation, run_end, word_type, CharClass, LexicalError, LexicalErrorKind,
    Step,
};
use crate::token::TokenView;
use crate::token_type::TokenType;

verus! {

/// A run holds only characters of its class, and ends at the end of the
/// text or before a character that is not of the class.
pub proof fn lemma_run_end_is_first_stop(s: Seq<char>, from: int, k: CharClass)
    requires
        0 <= from <= s.len(),
    ensures
        from <= run_end(s, from, k) <= s.len(),
        forall|i: int| from <= i < run_end(s, from, k) ==> in_class(k, #[trigger] s[i]),
        run_end(s, from, k) < s.len() ==> !in_class(k, s[run_end(s, from, k)]),
    decreases s.len() - from,
{
    if from < s.len() && in_class(k, s[from]) {
        lemma_run_end_is_first_stop(s, from + 1, k);
    }
}

/// The token sequence of any text is not empty and ends in the
/// end-of-input token, and that token is the only one of its category.
pub proof fn lemma_tokens_end_with_eof(s: Seq<char>, pos: int, line: int)
    ensures
        lex_tokens(s, pos, line).len() > 0,
        lex_tokens(s, pos, line).last().token_type == TokenType::Eof,
        lex_tokens(s, pos, line).last().lexeme == Seq::<char>::empty(),
        lex_tokens(s, pos, line).last().literal is None,
        forall|i: int|
            0 <= i < lex_tokens(s, pos, line).len() - 1 ==> (#[trigger] lex_tokens(
                s,
                pos,
                line,
            )[i]).token_type != TokenType::Eof,
    decreases s.len() - pos,
{
    if 0 <= pos < s.len() {
        let st = lex_step(s, pos, line);
        lemma_step_advances(s, pos, line);
        lemma_tokens_end_with_eof(s, st.next, st.line);
        lemma_keyword_is_not_eof(s.subrange(pos, st.next));
    }
}

/// No lexeme spells the end of input.
pub proof fn lemma_keyword_is_not_eof(text: Seq<char>)
    ensures
        word_type(text) != TokenType::Eof,
{
}

/// A text of punctuation characters alone gives one token for each
/// character, in order, each with that character as its lexeme and on the
/// line where scanning began, then the end-of-input token, and no error.
pub proof fn lemma_punctuation_only(s: Seq<char>, pos: int, line: int)
    requires
        0 <= pos <= s.len(),
        forall|i: int| 0 <= i < s.len() ==> punctuation(#[trigger] s[i]) is Some,
    ensures
        lex_tokens(s, pos, line).len() == s.len() - pos + 1,
        forall|i: int|
            pos <= i < s.len() ==> #[trigger] lex_tokens(s, pos, line)[i - pos] == (TokenView {
                token_type: punctuation(s[i])->Some_0,
                lexeme: seq![s[i]],
                literal: None,
                line,
            }),
        lex_tokens(s, pos, line)[s.len() - pos] == end_token(line),
        lex_errors(s, pos, line) == Seq::<LexicalError>::empty(),
    decreases s.len() - pos,
{
    if pos < s.len() {
        lemma_punctuation_only(s, pos + 1, line);
        assert(punctuation(s[pos]) is Some);
        assert(s.subrange(pos, pos + 1) =~= seq![s[pos]]);
        let rest = lex_tokens(s, pos + 1, line);
        let all = lex_tokens(s, pos, line);
        assert(all == opt_seq(lex_step(s, pos, line).token) + rest);
        assert forall|i: int| pos <= i < s.len() implies #[trigger] all[i - pos] == (TokenView {
            token_type: punctuation(s[i])->Some_0,
            lexeme: seq![s[i]],
            literal: None,
            line,
        }) by {
            if i > pos {
                assert(all[i - pos] == rest[i - (pos + 1)]);
            }
        }
        assert(lex_errors(s, pos, line) =~= Seq::<LexicalError>::empty());
    }
}

/// Maximal munch: where `=` follows one of `!`, `=`, `<`, `>`, the two
/// characters are one token of the long category, and scanning goes on
/// after both. Where it does not follow, the character alone is a token of
/// the short category.
pub proof fn lemma_maximal_munch(s: Seq<char>, pos: int, line: int)
    requires
        0 <= pos < s.len(),
        operator_pair(s[pos]) is Some,
    ensures
        pos + 1 < s.len() && s[pos + 1] == '=' ==> lex_step(s, pos, line) == (Step {
            next: pos + 2,
            line,
            token: Some(
                TokenView {
                    token_type: operator_pair(s[pos])->Some_0.1,
                    lexeme: seq![s[pos], '='],
                    literal: None,
                    line,
                },
            ),
            error: None,
        }),
        !(pos + 1 < s.len() && s[pos + 1] == '=') ==> lex_step(s, pos, line)
            == (Step {
            next: pos + 1,
            line,
            token: Some(
                TokenView {
                    token_type: operator_pair(s[pos])->Some_0.0,
                    lexeme: seq![s[pos]],
                    literal: None,
                    line,
                },
            ),
            error: None,
        }),
{
    if pos + 1 < s.len() && s[pos + 1] == '=' {
        assert(s.subrange(pos, pos + 2) =~= seq![s[pos], '=']);
    } else {
        assert(s.subrange(pos, pos + 1) =~= seq![s[pos]]);
    }
}

/// Two slashes begin a comment: it leaves no token and no error, keeps the
/// line, and ends at the first newline after the slashes, which it does
/// not consume, or at the end of the text.
pub proof fn lemma_comment(s: Seq<char>, pos: int, line: int)
    requires
        0 <= pos,
        pos + 1 < s.len(),
        s[pos] == '/',
        s[pos + 1] == '/',
    ensures
        lex_step(s, pos, line).token is None,
        lex_step(s, pos, line).error is None,
        lex_step(s, pos, line).line == line,
        pos + 2 <= lex_step(s, pos, line).next <= s.len(),
        forall|i: int| pos + 2 <= i < lex_step(s, pos, line).next ==> #[trigger] s[i] != '\n',
        lex_step(s, pos, line).next < s.len() ==> s[lex_step(s, pos, line).next] == '\n',
{
    lemma_run_end_is_first_stop(s, pos + 2, CharClass::CommentBody);
}

/// A slash that no second slash follows is a slash token.
pub proof fn lemma_lone_slash(s: Seq<char>, pos: int, line: int)
    requires
        0 <= pos < s.len(),
        s[pos] == '/',
        !(pos + 1 < s.len() && s[pos + 1] == '/'),
    ensures
        lex_step(s, pos, line) == (Step {
            next: pos + 1,
            line,
            token: Some(
                TokenView {
                    token_type: TokenType::Slash,
                    lexeme: seq!['/'],
                    literal: None,
                    line,
                },
            ),
            error: None,
        }),
{
    assert(s.subrange(pos, pos + 1) =~= seq!['/']);
}

/// A string literal that is closed at `close`: no quote stands between its
/// quotes, its token's literal is the text between them and its lexeme the
/// text with them, and the token's line, which is also the line that
/// scanning goes on with, is the line of the closing quote.
pub proof fn lemma_closed_string(s: Seq<char>, pos: int, close: int, line: int)
    requires
        0 <= pos < close < s.len(),
        s[pos] == '"',
        s[close] == '"',
        forall|i: int| pos < i < close ==> #[trigger] s[i] != '"',
    ensures
        lex_step(s, pos, line) == (Step {
            next: close + 1,
            line: line + newlines(s, pos + 1, close),
            token: Some(
                TokenView {
                    token_type: TokenType::String,
                    lexeme: s.subrange(pos, close + 1),
                    literal: Some(s.subrange(pos + 1, close)),
                    line: line + newlines(s, pos + 1, close),
                },
            ),
            error: None,
        }),
{
    lemma_run_end_is_first_stop(s, pos + 1, CharClass::StringBody);
    let end = run_end(s, pos + 1, CharClass::StringBody);
    if end < close {
        assert(s[end] != '"');
    }
    if end > close {
        assert(in_class(CharClass::StringBody, s[close]));
    }
}

/// A string literal that the text ends in: it leaves no token, and one
/// error on the last line of the text; scanning is then at the end.
pub proof fn lemma_open_string(s: Seq<char>, pos: int, line: int)
    requires
        0 <= pos < s.len(),
        s[pos] == '"',
        forall|i: int| pos < i < s.len() ==> #[trigger] s[i] != '"',
    ensures
        lex_step(s, pos, line).token is None,
        lex_step(s, pos, line).next == s.len(),
        lex_step(s, pos, line).line == line + newlines(s, pos + 1, s.len() as int),
        lex_step(s, pos, line).error == Some(
            LexicalError {
                line: (line + newlines(s, pos + 1, s.len() as int)) as i32,
                kind: LexicalErrorKind::UnterminatedString,
            },
        ),
{
    lemma_run_end_is_first_stop(s, pos + 1, CharClass::StringBody);
    let end = run_end(s, pos + 1, CharClass::StringBody);
    if end < s.len() {
        assert(s[end] != '"');
    }
}

/// An identifier-shaped lexeme is one token: a keyword's where it spells
/// one, an identifier otherwise. It has no literal.
pub proof fn lemma_word(s: Seq<char>, pos: int, line: int)
    requires
        0 <= pos < s.len(),
        is_word_start(s[pos]),
    ensures
        lex_step(s, pos, line).error is None,
        lex_step(s, pos, line).line == line,
        lex_step(s, pos, line).next == run_end(s, pos + 1, CharClass::Word),
        lex_step(s, pos, line).token == Some(
            TokenView {
                token_type: match keyword_of(s.subrange(pos, lex_step(s, pos, line).next)) {
                    Some(k) => k,
                    None => TokenType::Identifier,
                },
                lexeme: s.subrange(pos, lex_step(s, pos, line).next),
                literal: None,
                line,
            },
        ),
{
}

/// The sixteen keywords and their categories.
pub proof fn lemma_keywords()
    ensures
        keyword_of("and"@) == Some(TokenType::And),
        keyword_of("class"@) == Some(TokenType::Class),
        keyword_of("else"@) == Some(TokenType::Else),
        keyword_of("false"@) == Some(TokenType::False),
        keyword_of("for"@) == Some(TokenType::For),
        keyword_of("fun"@) == Some(TokenType::Fun),
        keyword_of("if"@) == Some(TokenType::If),
        keyword_of("nil"@) == Some(TokenType::Nil),
        keyword_of("or"@) == Some(TokenType::Or),
        keyword_of("print"@) == Some(TokenType::Print),
        keyword_of("return"@) == Some(TokenType::Return),
        keyword_of("super"@) == Some(TokenType::Super),
        keyword_of("this"@) == Some(TokenType::This),
        keyword_of("true"@) == Some(TokenType::True),
        keyword_of("var"@) == Some(TokenType::Var),
        keyword_of("while"@) == Some(TokenType::While),
{
    reveal_strlit("and");
    reveal_strlit("class");
    reveal_strlit("else");
    reveal_strlit("false");
    reveal_strlit("for");
    reveal_strlit("fun");
    reveal_strlit("if");
    reveal_strlit("nil");
    reveal_strlit("or");
    reveal_strlit("print");
    reveal_strlit("return");
    reveal_strlit("super");
    reveal_strlit("this");
    reveal_strlit("true");
    reveal_strlit("var");
    reveal_strlit("while");
    assert("and"@.len() == 3);
    assert("class"@.len() == 5);
    assert("else"@.len() == 4);
    assert("false"@.len() == 5);
    assert("for"@.len() == 3);
    assert("fun"@.len() == 3);
    assert("if"@.len() == 2);
    assert("nil"@.len() == 3);
    assert("or"@.len() == 2);
    assert("print"@.len() == 5);
    assert("return"@.len() == 6);
    assert("super"@.len() == 5);
    assert("this"@.len() == 4);
    assert("true"@.len() == 4);
    assert("var"@.len() == 3);
    assert("while"@.len() == 5);
    assert("and"@[0] != "for"@[0]);
    assert("and"@[0] != "fun"@[0]);
    assert("and"@[0] != "nil"@[0]);
    assert("and"@[0] != "var"@[0]);
    assert("class"@[0] != "false"@[0]);
    assert("class"@[0] != "print"@[0]);
    assert("class"@[0] != "super"@[0]);
    assert("class"@[0] != "while"@[0]);
    assert("else"@[0] != "this"@[0]);
    assert("else"@[0] != "true"@[0]);
    assert("false"@[0] != "print"@[0]);
    assert("false"@[0] != "super"@[0]);
    assert("false"@[0] != "while"@[0]);
    assert("for"@[1] != "fun"@[1]);
    assert("for"@[0] != "nil"@[0]);
    assert("for"@[0] != "var"@[0]);
    assert("fun"@[0] != "nil"@[0]);
    assert("fun"@[0] != "var"@[0]);
    assert("if"@[0] != "or"@[0]);
    assert("nil"@[0] != "var"@[0]);
    assert("print"@[0] != "super"@[0]);
    assert("print"@[0] != "while"@[0]);
    assert("super"@[0] != "while"@[0]);
    assert("this"@[1] != "true"@[1]);
}

/// Whether outcome `r` of parsing from `pos` lies ahead of `pos` and
/// within `ts`: a tree ends after `pos` (at `pos` or after it where
/// `strict` is false) and within the sequence, a fault is at `pos` or after
/// it; and where `ts` ends in the end-of-input token and `pos` is on a
/// token, a tree ends on a token, so that the end of input is never
/// consumed, and a fault is at a token.
pub open spec fn lies_ahead(ts: Seq<TokenView>, pos: int, r: Parsed, strict: bool) -> bool {
    match r {
        Parsed::Tree { expr, next } => {
            &&& if strict {
                pos < next
            } else {
                pos <= next
            }
            &&& next <= ts.len()
            &&& terminated(ts) && pos < ts.len() ==> next < ts.len()
        },
        Parsed::Fault { fault, at } => {
            &&& pos <= at
            &&& terminated(ts) && pos < ts.len() ==> at < ts.len()
        },
    }
}

/// A primary consumes at least one token and never the end of input.
pub proof fn lemma_primary_progress(ts: Seq<TokenView>, pos: int)
    ensures
        lies_ahead(ts, pos, parse_primary(ts, pos), true),
    decreases ts.len() - pos, 0nat, 0nat,
{
    if kind_at(ts, pos) == TokenType::LeftParen {
        lemma_level_progress(ts, pos + 1, Level::Equality);
    }
}

/// A unary expression consumes at least one token and never the end of
/// input.
pub proof fn lemma_unary_progress(ts: Seq<TokenView>, pos: int)
    ensures
        lies_ahead(ts, pos, parse_unary(ts, pos), true),
    decreases ts.len() - pos, 0nat, 1nat,
{
    if is_prefix(kind_at(ts, pos)) {
        lemma_unary_progress(ts, pos + 1);
    } else {
        lemma_primary_progress(ts, pos);
    }
}

/// An operand consumes at least one token and never the end of input.
pub proof fn lemma_operand_progress(ts: Seq<TokenView>, pos: int, level: Level)
    ensures
        lies_ahead(ts, pos, parse_operand(ts, pos, level), true),
    decreases ts.len() - pos, level.rank(), 1nat,
{
    match level {
        Level::Equality => lemma_level_progress(ts, pos, Level::Comparison),
        Level::Comparison => lemma_level_progress(ts, pos, Level::Term),
        Level::Term => lemma_level_progress(ts, pos, Level::Factor),
        Level::Factor => lemma_unary_progress(ts, pos),
    }
}

/// The rest of a binary expression never goes back and never consumes the
/// end of input, and the operand after each operator ends after it: the
/// test on the operand's end in `parse_rest` holds.
pub proof fn lemma_rest_progress(ts: Seq<TokenView>, pos: int, level: Level, left: ExprView)
    requires
        pos <= ts.len(),
    ensures
        lies_ahead(ts, pos, parse_rest(ts, pos, level, left), false),
        level.has(kind_at(ts, pos)) ==> lies_ahead(
            ts,
            pos + 1,
            parse_operand(ts, pos + 1, level),
            true,
        ),
    decreases ts.len() - pos, level.rank(), 0nat,
{
    if level.has(kind_at(ts, pos)) {
        lemma_operand_progress(ts, pos + 1, level);
        match parse_operand(ts, pos + 1, level) {
            Parsed::Tree { expr, next } => {
                lemma_rest_progress(
                    ts,
                    next,
                    level,
                    ExprView::Binary(Box::new(left), ts[pos], Box::new(expr)),
                );
            },
            Parsed::Fault { fault, at } => {},
        }
    }
}

/// A binary expression consumes at least one token and never the end of
/// input.
pub proof fn lemma_level_progress(ts: Seq<TokenView>, pos: int, level: Level)
    ensures
        lies_ahead(ts, pos, parse_level(ts, pos, level), true),
    decreases ts.len() - pos, level.rank(), 2nat,
{
    lemma_operand_progress(ts, pos, level);
    match parse_operand(ts, pos, level) {
        Parsed::Tree { expr, next } => {
            lemma_rest_progress(ts, next, level, expr);
        },
        Parsed::Fault { fault, at } => {},
    }
}

/// A binary level is left-associative: after a left operand, an operator
/// of the level and a right operand, the rest is parsed with the binary
/// node of the three as its left operand.
pub proof fn lemma_left_associative(ts: Seq<TokenView>, pos: int, level: Level, left: ExprView)
    requires
        0 <= pos < ts.len(),
        level.has(kind_at(ts, pos)),
        parse_operand(ts, pos + 1, level) is Tree,
    ensures
        parse_rest(ts, pos, level, left) == parse_rest(
            ts,
            parse_operand(ts, pos + 1, level)->next,
            level,
            ExprView::Binary(
                Box::new(left),
                ts[pos],
                Box::new(parse_operand(ts, pos + 1, level)->expr),
            ),
        ),
{
    lemma_operand_progress(ts, pos + 1, level);
}

/// A prefix operator applies to the whole unary expression after it.
pub proof fn lemma_prefix_nests(ts: Seq<TokenView>, pos: int)
    requires
        is_prefix(kind_at(ts, pos)),
    ensures
        parse_unary(ts, pos) == match parse_unary(ts, pos + 1) {
            Parsed::Tree { expr, next } => Parsed::Tree {
                expr: ExprView::Unary(ts[pos], Box::new(expr)),
                next,
            },
            Parsed::Fault { fault, at } => Parsed::Fault { fault, at },
        },
{
}

/// A run within a slice of the text is the run within the text, cut off at
/// the end of the slice.
pub proof fn lemma_run_end_in_slice(s: Seq<char>, a: int, b: int, from: int, k: CharClass)
    requires
        0 <= a <= from <= b <= s.len(),
    ensures
        run_end(s.subrange(a, b), from - a, k) == if run_end(s, from, k) < b {
            run_end(s, from, k) - a
        } else {
            b - a
        },
    decreases b - from,
{
    lemma_run_end_bounds(s, from, k);
    if from < b {
        assert(s.subrange(a, b)[from - a] == s[from]);
        if in_class(k, s[from]) {
            lemma_run_end_in_slice(s, a, b, from + 1, k);
        }
    }
}

/// A digit begins a number token: its lexeme runs to the end of the
/// number, its literal is its lexeme, and the lexeme is a decimal numeral,
/// so that a parser never finds such a token invalid.
pub proof fn lemma_number(s: Seq<char>, pos: int, line: int)
    requires
        0 <= pos < s.len(),
        is_digit(s[pos]),
    ensures
        lex_step(s, pos, line) == (Step {
            next: number_end(s, pos),
            line,
            token: Some(
                TokenView {
                    token_type: TokenType::Number,
                    lexeme: s.subrange(pos, number_end(s, pos)),
                    literal: Some(s.subrange(pos, number_end(s, pos))),
                    line,
                },
            ),
            error: None,
        }),
        is_decimal(s.subrange(pos, number_end(s, pos))),
{
    let whole = run_end(s, pos + 1, CharClass::Digit);
    let end = number_end(s, pos);
    let t = s.subrange(pos, end);
    lemma_run_end_bounds(s, pos + 1, CharClass::Digit);
    lemma_run_end_bounds(s, whole + 2, CharClass::Digit);
    assert(run_end(s, pos, CharClass::Digit) == whole);
    lemma_run_end_in_slice(s, pos, end, pos, CharClass::Digit);
    if end != whole {
        assert(run_end(s, whole + 1, CharClass::Digit) == end);
        lemma_run_end_in_slice(s, pos, end, whole + 1, CharClass::Digit);
        assert(t[whole - pos] == s[whole]);
    }
}

/// A number that a dot follows with no digit after it ends before the
/// dot, and the dot is a token of its own.
pub proof fn lemma_trailing_dot(s: Seq<char>, pos: int, line: int)
    requires
        0 <= pos < s.len(),
        is_digit(s[pos]),
        run_end(s, pos + 1, CharClass::Digit) < s.len(),
        s[run_end(s, pos + 1, CharClass::Digit)] == '.',
        !(run_end(s, pos + 1, CharClass::Digit) + 1 < s.len() && is_digit(
            s[run_end(s, pos + 1, CharClass::Digit) + 1],
        )),
    ensures
        lex_step(s, pos, line).next == run_end(s, pos + 1, CharClass::Digit),
        lex_step(s, lex_step(s, pos, line).next, line).token == Some(
            TokenView { token_type: TokenType::Dot, lexeme: seq!['.'], literal: None, line },
        ),
{
    let dot = run_end(s, pos + 1, CharClass::Digit);
    lemma_run_end_bounds(s, pos + 1, CharClass::Digit);
    assert(s.subrange(dot, dot + 1) =~= seq!['.']);
}

/// Whether every number token of `ts` has a decimal numeral as its lexeme.
pub open spec fn numbers_are_decimal(ts: Seq<TokenView>) -> bool {
    forall|i: int|
        0 <= i < ts.len() && (#[trigger] ts[i]).token_type == TokenType::Number ==> is_decimal(
            ts[i].lexeme,
        )
}

/// Every number token that scanning emits has a decimal numeral as its
/// lexeme.
pub proof fn lemma_scanned_numbers_are_decimal(s: Seq<char>, pos: int, line: int)
    ensures
        numbers_are_decimal(lex_tokens(s, pos, line)),
    decreases s.len() - pos,
{
    if 0 <= pos < s.len() {
        let st = lex_step(s, pos, line);
        lemma_step_advances(s, pos, line);
        lemma_scanned_numbers_are_decimal(s, st.next, st.line);
        if is_digit(s[pos]) {
            lemma_number(s, pos, line);
        }
        let rest = lex_tokens(s, st.next, st.line);
        let all = lex_tokens(s, pos, line);
        assert(all == opt_seq(st.token) + rest);
        assert forall|i: int|
            0 <= i < all.len() && (#[trigger] all[i]).token_type
                == TokenType::Number implies is_decimal(all[i].lexeme) by {
            if st.token is Some {
                if i > 0 {
                    assert(all[i] == rest[i - 1]);
                }
            } else {
                assert(all[i] == rest[i]);
            }
        }
    }
}

/// Whether `r` is anything but the fault of an invalid number.
pub open spec fn is_not_invalid_number(r: Parsed) -> bool {
    match r {
        Parsed::Tree { expr, next } => true,
        Parsed::Fault { fault, at } => fault != SyntaxFault::InvalidNumber,
    }
}

/// Where every number token is a decimal numeral, a primary is never
/// found to be an invalid number.
pub proof fn lemma_primary_numbers_valid(ts: Seq<TokenView>, pos: int)
    requires
        numbers_are_decimal(ts),
    ensures
        is_not_invalid_number(parse_primary(ts, pos)),
    decreases ts.len() - pos, 0nat, 0nat,
{
    if kind_at(ts, pos) == TokenType::LeftParen {
        lemma_level_numbers_valid(ts, pos + 1, Level::Equality);
    }
}

/// The same of a unary expression.
pub proof fn lemma_unary_numbers_valid(ts: Seq<TokenView>, pos: int)
    requires
        numbers_are_decimal(ts),
    ensures
        is_not_invalid_number(parse_unary(ts, pos)),
    decreases ts.len() - pos, 0nat, 1nat,
{
    if is_prefix(kind_at(ts, pos)) {
        lemma_unary_numbers_valid(ts, pos + 1);
    } else {
        lemma_primary_numbers_valid(ts, pos);
    }
}

/// The same of an operand.
pub proof fn lemma_operand_numbers_valid(ts: Seq<TokenView>, pos: int, level: Level)
    requires
        numbers_are_decimal(ts),
    ensures
        is_not_invalid_number(parse_operand(ts, pos, level)),
    decreases ts.len() - pos, level.rank(), 1nat,
{
    match level {
        Level::Equality => lemma_level_numbers_valid(ts, pos, Level::Comparison),
        Level::Comparison => lemma_level_numbers_valid(ts, pos, Level::Term),
        Level::Term => lemma_level_numbers_valid(ts, pos, Level::Factor),
        Level::Factor => lemma_unary_numbers_valid(ts, pos),
    }
}

/// The same of the rest of a binary expression.
pub proof fn lemma_rest_numbers_valid(ts: Seq<TokenView>, pos: int, level: Level, left: ExprView)
    requires
        numbers_are_decimal(ts),
    ensures
        is_not_invalid_number(parse_rest(ts, pos, level, left)),
    decreases ts.len() - pos, level.rank(), 0nat,
{
    if level.has(kind_at(ts, pos)) {
        lemma_operand_numbers_valid(ts, pos + 1, level);
        match parse_operand(ts, pos + 1, level) {
            Parsed::Tree { expr, next } => {
                if pos < next <= ts.len() {
                    lemma_rest_numbers_valid(
                        ts,
                        next,
                        level,
                        ExprView::Binary(Box::new(left), ts[pos], Box::new(expr)),
                    );
                }
            },
            Parsed::Fault { fault, at } => {},
        }
    }
}

/// The same of a binary expression.
pub proof fn lemma_level_numbers_valid(ts: Seq<TokenView>, pos: int, level: Level)
    requires
        numbers_are_decimal(ts),
    ensures
        is_not_invalid_number(parse_level(ts, pos, level)),
    decreases ts.len() - pos, level.rank(), 2nat,
{
    lemma_operand_numbers_valid(ts, pos, level);
    match parse_operand(ts, pos, level) {
        Parsed::Tree { expr, next } => {
            if pos <= next <= ts.len() {
                lemma_rest_numbers_valid(ts, next, level, expr);
            }
        },
        Parsed::Fault { fault, at } => {},
    }
}

/// Parsing the tokens of any text never finds an invalid number.
pub proof fn lemma_scanned_text_has_valid_numbers(s: Seq<char>)
    ensures
        is_not_invalid_number(parse_level(lex_tokens(s, 0, 1), 0, Level::Equality)),
{
    lemma_scanned_numbers_are_decimal(s, 0, 1);
    lemma_level_numbers_valid(lex_tokens(s, 0, 1), 0, Level::Equality);
}

/// A run that meets only characters of its class reaches the end of the
/// text.
pub proof fn lemma_run_to_end(s: Seq<char>, from: int, k: CharClass)
    requires
        0 <= from <= s.len(),
        forall|i: int| from <= i < s.len() ==> in_class(k, #[trigger] s[i]),
    ensures
        run_end(s, from, k) == s.len(),
    decreases s.len() - from,
{
    if from < s.len() {
        lemma_run_to_end(s, from + 1, k);
    }
}

/// A text that is one ASCII word, a letter or an underscore and then
/// letters, digits and underscores, gives one token with the whole text as
/// its lexeme, a keyword's where the text spells one and an identifier
/// otherwise, then the end-of-input token, and no error.
pub proof fn lemma_ascii_word(s: Seq<char>, line: int)
    requires
        s.len() > 0,
        is_word_start(s[0]),
        forall|i: int| 0 <= i < s.len() ==> is_word_start(#[trigger] s[i]) || is_digit(s[i]),
    ensures
        lex_tokens(s, 0, line) == seq![
            TokenView { token_type: word_type(s), lexeme: s, literal: None, line },
            end_token(line),
        ],
        lex_errors(s, 0, line) == Seq::<LexicalError>::empty(),
{
    assert forall|i: int| 1 <= i < s.len() implies in_class(CharClass::Word, #[trigger] s[i]) by {
        assert(is_word_start(s[i]) || is_digit(s[i]));
    }
    lemma_run_to_end(s, 1, CharClass::Word);
    assert(s.subrange(0, s.len() as int) =~= s);
    let st = lex_step(s, 0, line);
    assert(st.next == s.len());
    assert(lex_tokens(s, s.len() as int, line) == seq![end_token(line)]);
    assert(lex_tokens(s, 0, line) =~= opt_seq(st.token) + seq![end_token(line)]);
    assert(lex_tokens(s, 0, line) =~= seq![
        TokenView { token_type: word_type(s), lexeme: s, literal: None, line },
        end_token(line),
    ]);
    assert(lex_errors(s, s.len() as int, line) == Seq::<LexicalError>::empty());
    assert(lex_errors(s, 0, line) =~= Seq::<LexicalError>::empty());
}

} // verus!
