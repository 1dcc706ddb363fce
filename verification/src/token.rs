//! The lexical model of a chain expression.
//!
//! A chain expression is a flat sequence of opaque lexical units: identifiers,
//! literals, single punctuation characters, and the opening and closing
//! delimiters of grouped sub-expressions (call arguments and the like).  The
//! compiler never interprets what a token means in the host language; it only
//! recognizes the short-circuit marker punctuation and the two branch
//! keywords among them.

use vstd::prelude::*;

verus! {

/// The delimiter shape of a grouped sub-expression.
#[derive(Clone, Copy, Debug, PartialEq, Eq, Structural)]
pub enum Delim {
    Paren,
    Brace,
    Bracket,
}

/// One opaque lexical unit of a chain expression.
#[derive(Debug, PartialEq, Eq)]
pub enum Token {
    /// An identifier: a field or method name, or a keyword of the host language.
    Ident(String),
    /// A literal, carried as its spelling: a number, a quoted string.
    Literal(String),
    /// A single punctuation character.
    Punct(char),
    /// The opening delimiter of a grouped sub-expression.
    Open(Delim),
    /// The closing delimiter of a grouped sub-expression.
    Close(Delim),
}

/// The mathematical value of a token: identifier and literal spellings are
/// character sequences, everything else is carried as it stands.
#[verifier::ext_equal]
pub ghost enum TokenV {
    Ident(Seq<char>),
    Literal(Seq<char>),
    Punct(char),
    Open(Delim),
    Close(Delim),
}

impl DeepView for Token {
    type V = TokenV;

    open spec fn deep_view(&self) -> TokenV {
        match self {
            Token::Ident(s) => TokenV::Ident(s@),
            Token::Literal(s) => TokenV::Literal(s@),
            Token::Punct(c) => TokenV::Punct(*c),
            Token::Open(d) => TokenV::Open(*d),
            Token::Close(d) => TokenV::Close(*d),
        }
    }
}

impl Clone for Token {
    fn clone(&self) -> (r: Token)
        ensures
            r == *self,
    {
        match self {
            Token::Ident(s) => Token::Ident(s.clone()),
            Token::Literal(s) => Token::Literal(s.clone()),
            Token::Punct(c) => Token::Punct(*c),
            Token::Open(d) => Token::Open(*d),
            Token::Close(d) => Token::Close(*d),
        }
    }
}

} // verus!
