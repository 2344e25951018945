//! Tokens: a lexical kind together with a decoded literal payload.

use vstd::prelude::*;

use crate::literal::LitV;
use crate::literal::Literal;
use crate::token_type::TokenType;

verus! {

/// One lexical unit. Punctuation and operator tokens carry `Literal::Nil`;
/// number, string and identifier tokens carry their decoded value.
#[derive(Debug)]
pub struct Token {
    pub kind: TokenType,
    pub literal: Literal,
}

/// The mathematical shape of a token.
pub struct TokenV {
    pub kind: TokenType,
    pub literal: LitV,
}

impl View for Token {
    type V = TokenV;

    open spec fn view(&self) -> TokenV {
        TokenV { kind: self.kind, literal: self.literal@ }
    }
}

impl Clone for Token {
    fn clone(&self) -> (r: Self)
        ensures
            r@ == self@,
    {
        Token { kind: self.kind, literal: self.literal.clone() }
    }
}

impl Token {
    /// A token of the given kind; a missing payload becomes `Literal::Nil`.
    pub fn new(kind: TokenType, literal: Option<Literal>) -> (r: Self)
        ensures
            r.kind == kind,
            r@.literal == (match literal {
                Some(l) => l@,
                None => LitV::Nil,
            }),
    {
        Token {
            kind,
            literal: match literal {
                Some(l) => l,
                None => Literal::Nil,
            },
        }
    }
}

} // verus!
