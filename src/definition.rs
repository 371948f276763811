//! Macro grammars: literals, sections and definitions.
use vstd::prelude::*;
use crate::token::{Token, TokenView};

verus! {

/// A pattern element: exact keyword text, or a variable that captures freely.
#[derive(Debug)]
pub enum Literal {
    Keyword(String),
    Variable(String),
}

impl Literal {
    pub fn keyword(text: String) -> (r: Literal)
        ensures
            r matches Literal::Keyword(k) && k@ == text@,
    {
        Literal::Keyword(text)
    }

    pub fn variable(name: String) -> (r: Literal)
        ensures
            r matches Literal::Variable(v) && v@ == name@,
    {
        Literal::Variable(name)
    }

    pub open spec fn is_keyword(self) -> bool {
        self is Keyword
    }

    /// Whether this literal accepts the token: a keyword its exact text, a variable any token.
    pub open spec fn accepts(self, t: TokenView) -> bool {
        match self {
            Literal::Keyword(k) => t.text == k@,
            Literal::Variable(_) => true,
        }
    }

    pub fn is_keyword_exec(&self) -> (r: bool)
        ensures
            r == self.is_keyword(),
    {
        match self {
            Literal::Keyword(_) => true,
            Literal::Variable(_) => false,
        }
    }

    pub fn accepts_token(&self, t: &Token) -> (r: bool)
        ensures
            r == self.accepts(t@),
    {
        match self {
            Literal::Keyword(k) => str_eq(k.as_str(), t.text.as_str()),
            Literal::Variable(_) => true,
        }
    }
}

/// Character-wise equality of two strings.
pub fn str_eq(a: &str, b: &str) -> (r: bool)
    ensures
        r == (a@ == b@),
{
    let n = a.unicode_len();
    if n != b.unicode_len() {
        return false;
    }
    let mut i: usize = 0;
    while i < n
        invariant
            n == a@.len(),
            n == b@.len(),
            i <= n,
            forall|j: int| 0 <= j < i ==> a@[j] == b@[j],
        decreases n - i,
    {
        if a.get_char(i) != b.get_char(i) {
            return false;
        }
        i = i + 1;
    }
    assert(a@ =~= b@);
    true
}

/// One required slot of a macro's grammar.
#[derive(Debug)]
pub struct Section {
    pub literal: Literal,
}

impl Section {
    pub fn new(literal: Literal) -> (r: Section)
        ensures
            r.literal == literal,
    {
        Section { literal }
    }
}

/// A named macro grammar: an ordered, non-empty sequence of sections. A definition
/// marked line-start-only triggers only at the start of a logical line.
#[derive(Debug)]
pub struct Definition {
    pub name: String,
    pub sections: Vec<Section>,
    pub line_start_only: bool,
}

impl Definition {
    /// A definition that may trigger anywhere.
    pub fn new(name: String, sections: Vec<Section>) -> (r: Definition)
        requires
            sections@.len() >= 1,
        ensures
            r.wf(),
            r.name@ == name@,
            r.sections@ == sections@,
            !r.line_start_only,
    {
        Definition { name, sections, line_start_only: false }
    }

    /// A definition that triggers only at the start of a logical line.
    pub fn new_line_start(name: String, sections: Vec<Section>) -> (r: Definition)
        requires
            sections@.len() >= 1,
        ensures
            r.wf(),
            r.name@ == name@,
            r.sections@ == sections@,
            r.line_start_only,
    {
        Definition { name, sections, line_start_only: true }
    }

    /// Every definition has at least one section.
    pub open spec fn wf(self) -> bool {
        self.sections@.len() >= 1
    }

    pub open spec fn len(self) -> nat {
        self.sections@.len()
    }

    pub open spec fn literal(self, i: int) -> Literal {
        self.sections@[i].literal
    }

    /// Whether the definition's first section is a keyword.
    pub open spec fn keyword_first(self) -> bool {
        self.literal(0).is_keyword()
    }

    /// Whether the definition may start on this token, given the line-start flag.
    pub open spec fn triggers_on(self, t: TokenView, at_line_start: bool) -> bool {
        &&& self.literal(0).accepts(t)
        &&& (!self.line_start_only || at_line_start)
    }
}

} // verus!
