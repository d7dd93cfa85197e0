use vstd::prelude::*;
use vstd::string::StringExecFns;
use crate::token_type::TokenType;

verus! {

/// The mathematical value of a token: its texts as character sequences.
pub struct TokenView {
    pub token_type: TokenType,
    pub lexeme: Seq<char>,
    pub literal: Option<Seq<char>>,
    pub line: int,
}

/// One lexical unit: its category, the exact source text it was read from,
/// the literal payload of a string or number, and its source line.
#[derive(Debug, PartialEq)]
pub struct Token {
    pub token_type: TokenType,
    pub lexeme: String,
    pub literal: Option<String>,
    pub line: i32,
}

impl View for Token {
    type V = TokenView;

    open spec fn view(&self) -> TokenView {
        TokenView {
            token_type: self.token_type,
            lexeme: self.lexeme@,
            literal: match self.literal {
                Some(s) => Some(s@),
                None => None,
            },
            line: self.line as int,
        }
    }
}

impl Clone for Token {
    fn clone(&self) -> (r: Self)
        ensures
            r@ == self@,
    {
        let literal = match &self.literal {
            Some(s) => Some(s.clone()),
            None => None,
        };
        Token { token_type: self.token_type, lexeme: self.lexeme.clone(), literal, line: self.line }
    }
}

/// The views of a run of tokens, in order.
pub open spec fn token_views(ts: Seq<Token>) -> Seq<TokenView> {
    Seq::new(ts.len(), |i: int| ts[i]@)
}

/// What a token shows where it has no literal.
pub open spec fn absent_literal_text() -> Seq<char> {
    "null"@
}

/// The display form of a token: category, lexeme and literal, separated by
/// single spaces.
pub open spec fn display_text(t: TokenView) -> Seq<char> {
    t.token_type.name_text() + " "@ + t.lexeme + " "@ + match t.literal {
        Some(s) => s,
        None => absent_literal_text(),
    }
}

impl Token {
    /// A token without a literal.
    pub fn new(token_type: TokenType, lexeme: String, line: i32) -> (r: Self)
        ensures
            r@ == (TokenView { token_type, lexeme: lexeme@, literal: None, line: line as int }),
    {
        Self { token_type, lexeme, literal: None, line }
    }

    /// The token as text: `<category> <lexeme> <literal>`, with `null` for
    /// a missing literal.
    pub fn to_text(&self) -> (r: String)
        ensures
            r@ == display_text(self@),
    {
        let mut out = String::from_str(self.token_type.name());
        out.append(" ");
        out.append(self.lexeme.as_str());
        out.append(" ");
        match &self.literal {
            Some(s) => out.append(s.as_str()),
            None => out.append("null"),
        }
        out
    }
}

} // verus!
