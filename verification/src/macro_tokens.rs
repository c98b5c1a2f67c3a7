//! The tokens that the crate's macro grammars read, as plain values.

use vstd::prelude::*;

verus! {

/// How a group of tokens is delimited.
#[derive(Debug, Clone, Copy, PartialEq, Eq, Structural)]
pub enum Delimiter {
    Parenthesis,
    Brace,
    Bracket,
    Invisible,
}

/// A token of a macro's input, as plain values: an identifier that is no
/// keyword, a punctuation character (alone, or joined to the punctuation
/// that follows, as the first `=` of `=>`), a string literal's value, an
/// integer literal's decimal digits (without `_` or suffix), any other
/// token, or a delimited group.
#[derive(Debug)]
pub enum AttrToken {
    Ident(String),
    Punct(char),
    JointPunct(char),
    Str(String),
    Int(String),
    Other,
    Group(Delimiter, Vec<AttrToken>),
}

/// What a macro grammar expected where it failed.
#[derive(Debug, Clone, Copy, PartialEq, Eq, Structural)]
pub enum AttrSyntaxError {
    ExpectedIdent,
    ExpectedEq,
    ExpectedBrackets,
    ExpectedString,
    ExpectedComma,
    ExpectedBraces,
    ExpectedColon,
    ExpectedArrow,
    ExpectedInt,
    /// An integer too large for its type.
    IntOverflow,
    /// Tokens left over after the input.
    UnexpectedToken,
}

/// `t` is the punctuation `c`, joined to what follows or not.
pub open spec fn is_punct(t: AttrToken, c: char) -> bool {
    ||| t matches AttrToken::Punct(x) && x == c
    ||| t matches AttrToken::JointPunct(x) && x == c
}

pub fn token_is_punct(t: &AttrToken, c: char) -> (r: bool)
    ensures
        r == is_punct(*t, c),
{
    match t {
        AttrToken::Punct(x) => *x == c,
        AttrToken::JointPunct(x) => *x == c,
        _ => false,
    }
}

/// `t` is the punctuation `c` joined to the punctuation that follows.
pub open spec fn is_joint_punct(t: AttrToken, c: char) -> bool {
    t matches AttrToken::JointPunct(x) && x == c
}

pub fn token_is_joint_punct(t: &AttrToken, c: char) -> (r: bool)
    ensures
        r == is_joint_punct(*t, c),
{
    match t {
        AttrToken::JointPunct(x) => *x == c,
        _ => false,
    }
}

} // verus!
