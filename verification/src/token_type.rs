//! The lexical categories the scanner produces and the parser consumes.

use vstd::prelude::*;
use vstd::string::*;

verus! {

/// The kind of a token. `Str` is a string literal; `End` is the synthetic
/// terminator the scanner appends after the last real token.
#[derive(Clone, Copy, Debug, PartialEq, Eq, Structural)]
pub enum TokenType {
    Semicolon,
    LeftParen,
    RightParen,
    LeftBrace,
    RightBrace,
    Plus,
    Minus,
    Slash,
    Equal,
    EqualEqual,
    Bang,
    BangEqual,
    Less,
    LessEqual,
    Greater,
    GreaterEqual,
    Star,
    StarStar,
    Var,
    Print,
    While,
    True,
    False,
    Number,
    Identifier,
    Str,
    End,
}

/// The token kind of a scanned word: one of the five keywords, or a plain
/// identifier.
pub open spec fn spec_keyword(s: Seq<char>) -> TokenType {
    if s == seq!['t', 'r', 'u', 'e'] {
        TokenType::True
    } else if s == seq!['f', 'a', 'l', 's', 'e'] {
        TokenType::False
    } else if s == seq!['v', 'a', 'r'] {
        TokenType::Var
    } else if s == seq!['p', 'r', 'i', 'n', 't'] {
        TokenType::Print
    } else if s == seq!['w', 'h', 'i', 'l', 'e'] {
        TokenType::While
    } else {
        TokenType::Identifier
    }
}

/// Decides `spec_keyword` on the characters of an executable word.
pub fn keyword_kind(chars: &Vec<char>) -> (kind: TokenType)
    ensures
        kind == spec_keyword(chars@),
{
    if chars.len() == 4 && chars[0] == 't' && chars[1] == 'r' && chars[2] == 'u' && chars[3]
        == 'e' {
        proof {
            assert(chars@ =~= seq!['t', 'r', 'u', 'e']);
        }
        TokenType::True
    } else if chars.len() == 5 && chars[0] == 'f' && chars[1] == 'a' && chars[2] == 'l'
        && chars[3] == 's' && chars[4] == 'e' {
        proof {
            assert(chars@ =~= seq!['f', 'a', 'l', 's', 'e']);
        }
        TokenType::False
    } else if chars.len() == 3 && chars[0] == 'v' && chars[1] == 'a' && chars[2] == 'r' {
        proof {
            assert(chars@ =~= seq!['v', 'a', 'r']);
        }
        TokenType::Var
    } else if chars.len() == 5 && chars[0] == 'p' && chars[1] == 'r' && chars[2] == 'i'
        && chars[3] == 'n' && chars[4] == 't' {
        proof {
            assert(chars@ =~= seq!['p', 'r', 'i', 'n', 't']);
        }
        TokenType::Print
    } else if chars.len() == 5 && chars[0] == 'w' && chars[1] == 'h' && chars[2] == 'i'
        && chars[3] == 'l' && chars[4] == 'e' {
        proof {
            assert(chars@ =~= seq!['w', 'h', 'i', 'l', 'e']);
        }
        TokenType::While
    } else {
        proof {
            assert(chars@ != seq!['t', 'r', 'u', 'e']);
            assert(chars@ != seq!['f', 'a', 'l', 's', 'e']);
            assert(chars@ != seq!['v', 'a', 'r']);
            assert(chars@ != seq!['p', 'r', 'i', 'n', 't']);
            assert(chars@ != seq!['w', 'h', 'i', 'l', 'e']);
        }
        TokenType::Identifier
    }
}

impl From<String> for TokenType {
    /// Classifies a scanned word by its text.
    fn from(value: String) -> (r: TokenType) {
        let s = value.as_str();
        let n = s.unicode_len();
        let mut chars: Vec<char> = Vec::new();
        let mut i: usize = 0;
        while i < n
            invariant
                i <= n,
                n == s@.len(),
                s@ == value@,
                chars@ == value@.take(i as int),
            decreases n - i,
        {
            chars.push(s.get_char(i));
            proof {
                assert(value@.take(i as int).push(value@[i as int]) =~= value@.take(i + 1));
            }
            i = i + 1;
        }
        proof {
            assert(value@.take(value@.len() as int) =~= value@);
        }
        keyword_kind(&chars)
    }
}

impl vstd::std_specs::convert::FromSpecImpl<String> for TokenType {
    open spec fn obeys_from_spec() -> bool {
        true
    }

    open spec fn from_spec(t: String) -> TokenType {
        spec_keyword(t@)
    }
}

} // verus!
