use vstd::prelude::*;

verus! {

/// The closed set of token categories.
#[derive(Debug, Clone, Copy, PartialEq, Eq, Structural)]
pub enum TokenKind {
    Illegal,
    EndOfInput,
    Identifier,
    Integer,
    Assign,
    Plus,
    Comma,
    Semicolon,
    LParen,
    RParen,
    LBrace,
    RBrace,
    Function,
    Let,
}

/// A classified piece of source text: its kind and the text it was made from.
#[derive(Debug)]
pub struct Token {
    pub token_type: TokenKind,
    pub literal: String,
}

impl Token {
    /// Pairs a kind with its literal; no check is made that the two agree.
    pub fn new(token_type: TokenKind, literal: String) -> (r: Token)
        ensures
            r.token_type == token_type,
            r.literal@ == literal@,
    {
        Token { token_type, literal }
    }
}

impl PartialEq for Token {
    fn eq(&self, other: &Token) -> (r: bool)
        ensures
            r == (self.token_type == other.token_type && self.literal@ == other.literal@),
    {
        self.token_type == other.token_type && self.literal == other.literal
    }
}

impl vstd::std_specs::cmp::PartialEqSpecImpl for Token {
    open spec fn obeys_eq_spec() -> bool {
        true
    }

    open spec fn eq_spec(&self, other: &Token) -> bool {
        self.token_type == other.token_type && self.literal@ == other.literal@
    }
}

} // verus!
