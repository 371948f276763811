//! Tokens handed over by the lexer.
use vstd::prelude::*;

verus! {

/// The kind of a lexical unit.
#[derive(Clone, Copy, Debug, PartialEq, Eq, Structural)]
pub enum TokenKind {
    Word,
    Operator,
    Number,
    Newline,
}

/// One lexical unit: its kind, its raw text and its position in the source.
#[derive(Debug)]
pub struct Token {
    pub kind: TokenKind,
    pub text: String,
    pub position: usize,
}

/// The mathematical value of a token.
pub struct TokenView {
    pub kind: TokenKind,
    pub text: Seq<char>,
    pub position: usize,
}

impl View for Token {
    type V = TokenView;

    open spec fn view(&self) -> TokenView {
        TokenView { kind: self.kind, text: self.text@, position: self.position }
    }
}

impl TokenView {
    /// Whether this token ends a logical line.
    pub open spec fn ends_line(self) -> bool {
        self.kind == TokenKind::Newline
    }
}

impl Token {
    pub fn new(kind: TokenKind, text: String, position: usize) -> (r: Token)
        ensures
            r@ == (TokenView { kind, text: text@, position }),
    {
        Token { kind, text, position }
    }

    /// A copy of this token.
    pub fn duplicate(&self) -> (r: Token)
        ensures
            r@ == self@,
    {
        Token { kind: self.kind, text: self.text.clone(), position: self.position }
    }

    /// Whether this token ends a logical line.
    pub fn ends_line(&self) -> (r: bool)
        ensures
            r == self@.ends_line(),
    {
        self.kind == TokenKind::Newline
    }
}

/// The views of a sequence of tokens.
pub open spec fn tokens_view(s: Seq<Token>) -> Seq<TokenView> {
    s.map_values(|t: Token| t@)
}

} // verus!
