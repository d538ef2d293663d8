//! The lexical tokens a state-machine block is made of: identifiers,
//! punctuation characters, literals, and delimited groups of tokens.

use vstd::prelude::*;

verus! {

/// The brackets around a group of tokens.
#[derive(Clone, Copy, Debug, PartialEq, Eq)]
pub enum Delimiter {
    /// `( ... )`
    Parenthesis,
    /// `{ ... }`
    Brace,
    /// `[ ... ]`
    Bracket,
    /// A group without visible brackets.
    Invisible,
}

/// Whether a punctuation character is glued to the one after it.
#[derive(Clone, Copy, Debug, PartialEq, Eq)]
pub enum Spacing {
    /// Followed by something else, as the `>` in `=> x`.
    Alone,
    /// Immediately followed by another punctuation character, as the `=`
    /// in `=>`.
    Joint,
}

/// One lexical token.
#[derive(Debug, PartialEq, Eq)]
pub enum Token {
    /// A delimited group and the tokens inside it.
    Group(Delimiter, Vec<Token>),
    /// An identifier.
    Ident(String),
    /// A single punctuation character.
    Punct(char, Spacing),
    /// A literal, as written.
    Literal(String),
}

} // verus!
