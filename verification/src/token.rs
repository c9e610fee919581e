//! The token model: a closed enumeration of lexical kinds and a token value
//! carrying the matched source text.

use vstd::prelude::*;

verus! {

/// The closed set of lexical categories.
#[derive(Debug, PartialEq, Eq, Structural, Clone, Copy, Hash)]
pub enum TokenKind {
    Illegal,
    EOF,
    /// `=`
    Assign,
    /// `+`
    Plus,
    /// `-`
    Minus,
    /// `*`
    Asterisk,
    /// `/`
    Slash,
    /// `!`
    Band,
    /// `<`
    LT,
    /// `>`
    GT,
    /// `==`
    EQ,
    /// `!=`
    NE,
    /// `===`
    SEQ,
    /// `!==`
    SNE,
    /// `,`
    Commas,
    /// `;`
    Semicolon,
    /// `.`
    Dot,
    /// `(`
    LParen,
    /// `)`
    RParen,
    /// `{`
    LBrace,
    /// `}`
    RBrace,
    If,
    Else,
    True,
    False,
    Function,
    Let,
    Return,
    Identifier,
    Number,
}

/// A lexical unit: its kind, plus the literal text that was matched.
/// Punctuation, keyword and end-of-input tokens carry an empty literal.
#[derive(Debug, PartialEq)]
pub struct Token {
    pub kind: TokenKind,
    pub literal: String,
}

impl Clone for Token {
    /// A clone carries the same kind and the same literal text.
    fn clone(&self) -> (t: Token)
        ensures
            t.kind == self.kind,
            t.literal@ == self.literal@,
    {
        Token { kind: self.kind, literal: self.literal.clone() }
    }
}

impl Token {
    pub fn new(kind: TokenKind, literal: &str) -> (t: Token)
        ensures
            t.kind == kind,
            t.literal@ == literal@,
    {
        Token { kind, literal: literal.to_owned() }
    }

    pub fn new_id(id: &str) -> (t: Token)
        ensures
            t.kind == TokenKind::Identifier,
            t.literal@ == id@,
    {
        Token { kind: TokenKind::Identifier, literal: id.to_owned() }
    }

    pub fn new_number(literal: &str) -> (t: Token)
        ensures
            t.kind == TokenKind::Number,
            t.literal@ == literal@,
    {
        Token { kind: TokenKind::Number, literal: literal.to_owned() }
    }

    /// An operator, keyword or end-of-input token: the kind alone, with an
    /// empty literal.
    pub fn of_kind(kind: TokenKind) -> (t: Token)
        ensures
            t.kind == kind,
            t.literal@ == Seq::<char>::empty(),
    {
        Token { kind, literal: String::new() }
    }
}

/// The values of a `String` field cannot be pinned down in specifications
/// (two strings with equal contents need not be one spec value), so `from`
/// carries its contract directly and the vstd extension point is left unused.
impl vstd::std_specs::convert::FromSpecImpl<TokenKind> for Token {
    open spec fn obeys_from_spec() -> bool {
        false
    }

    open spec fn from_spec(kind: TokenKind) -> Token {
        arbitrary()
    }
}

impl From<TokenKind> for Token {
    fn from(kind: TokenKind) -> (t: Token)
        ensures
            t.kind == kind,
            t.literal@ == Seq::<char>::empty(),
    {
        Token::of_kind(kind)
    }
}

} // verus!
