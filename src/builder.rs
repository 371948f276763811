//! The state of one in-progress match against a definition.
use vstd::prelude::*;
use crate::chunk::{Chunk, ChunkView, Item, ItemView, captures_view, items_view};
use crate::definition::Literal;
use crate::registry::Registry;
use crate::token::{Token, TokenView};

verus! {

/// An in-progress match: the index of its definition in the registry, the cursor
/// (how many sections are matched), the finished captures of the variable sections
/// passed, and the capture open on the current variable section.
#[derive(Debug)]
pub struct Builder {
    pub definition: usize,
    pub cursor: usize,
    pub captures: Vec<Vec<Item>>,
    pub open: Vec<Item>,
}

/// The mathematical value of a builder.
pub struct BuilderView {
    pub definition: int,
    pub cursor: int,
    pub captures: Seq<Seq<ItemView>>,
    pub open: Seq<ItemView>,
}

impl View for Builder {
    type V = BuilderView;

    open spec fn view(&self) -> BuilderView {
        BuilderView {
            definition: self.definition as int,
            cursor: self.cursor as int,
            captures: captures_view(self.captures@),
            open: items_view(self.open@),
        }
    }
}

/// `open` with one more item at its end.
pub proof fn lemma_items_push(s: Seq<Item>, x: Item)
    ensures
        items_view(s.push(x)) == items_view(s).push(crate::chunk::item_view(x)),
{
    assert(s.push(x).drop_last() =~= s);
}

/// The captures with one more capture at their end.
pub proof fn lemma_captures_push(s: Seq<Vec<Item>>, x: Vec<Item>)
    ensures
        captures_view(s.push(x)) == captures_view(s).push(items_view(x@)),
{
    assert(s.push(x).drop_last() =~= s);
}

impl BuilderView {
    /// The builder names a registered definition and has not passed its last section.
    pub open spec fn fits(self, defs: Seq<crate::definition::Definition>) -> bool {
        &&& 0 <= self.definition < defs.len()
        &&& 0 <= self.cursor < defs[self.definition].len()
    }

    /// The cursor sits on a variable section.
    pub open spec fn mid_capture(self, defs: Seq<crate::definition::Definition>) -> bool {
        !defs[self.definition].literal(self.cursor).is_keyword()
    }

    /// Every section is matched.
    pub open spec fn complete(self, defs: Seq<crate::definition::Definition>) -> bool {
        self.cursor == defs[self.definition].len()
    }

    /// The index of the first section not yet matched: an open variable counts as matched.
    pub open spec fn first_unmatched(self, defs: Seq<crate::definition::Definition>) -> int {
        if self.mid_capture(defs) {
            self.cursor + 1
        } else {
            self.cursor
        }
    }

    /// The chunk that a completed builder yields.
    pub open spec fn finish(self, defs: Seq<crate::definition::Definition>) -> ChunkView {
        ChunkView { name: Some(defs[self.definition].name@), captures: self.captures }
    }

    /// Closes the open capture and passes the variable section it belongs to.
    pub open spec fn close(self) -> BuilderView {
        BuilderView {
            cursor: self.cursor + 1,
            captures: self.captures.push(self.open),
            open: Seq::empty(),
            ..self
        }
    }

    /// Feeds `t`. On a keyword section the token must be that keyword (else `None`: the
    /// match is broken). On a variable section a token equal to the next section's
    /// keyword closes the capture and passes both sections; any other token joins the
    /// open capture.
    pub open spec fn feed(self, defs: Seq<crate::definition::Definition>, t: TokenView) -> Option<
        BuilderView,
    > {
        let d = defs[self.definition];
        let c = self.cursor;
        match d.literal(c) {
            Literal::Keyword(k) => if t.text == k@ {
                Some(BuilderView { cursor: c + 1, ..self })
            } else {
                None
            },
            Literal::Variable(_) => if c + 1 < d.len() && d.literal(c + 1).is_keyword()
                && d.literal(c + 1).accepts(t) {
                Some(BuilderView { cursor: c + 2, ..self.close() })
            } else {
                Some(BuilderView { open: self.open.push(ItemView::Tok(t)), ..self })
            },
        }
    }
}

/// The builder that definition `i` starts on its trigger token `t`: past a keyword
/// first section, or with `t` as the first item of its first capture.
pub open spec fn start_spec(defs: Seq<crate::definition::Definition>, i: int, t: TokenView) -> BuilderView {
    if defs[i].keyword_first() {
        BuilderView { definition: i, cursor: 1, captures: Seq::empty(), open: Seq::empty() }
    } else {
        BuilderView { definition: i, cursor: 0, captures: Seq::empty(), open: seq![ItemView::Tok(t)] }
    }
}

impl Builder {
    /// The builder that definition `i` starts on its trigger token `t`.
    pub fn start(reg: &Registry, i: usize, t: Token) -> (r: Builder)
        requires
            reg.wf(),
            i < reg.defs().len(),
        ensures
            r@ == start_spec(reg.defs(), i as int, t@),
    {
        let ghost tv = t@;
        if reg.definitions[i].sections[0].literal.is_keyword_exec() {
            let r = Builder { definition: i, cursor: 1, captures: Vec::new(), open: Vec::new() };
            assert(r@.captures =~= Seq::empty());
            assert(r@.open =~= Seq::empty());
            r
        } else {
            let mut open = Vec::new();
            open.push(Item::Tok(t));
            proof {
                lemma_items_push(Seq::empty(), Item::Tok(t));
                assert(open@ =~= Seq::empty().push(Item::Tok(t)));
            }
            let r = Builder { definition: i, cursor: 0, captures: Vec::new(), open };
            assert(r@.captures =~= Seq::empty());
            assert(r@.open =~= seq![ItemView::Tok(tv)]);
            r
        }
    }

    /// Whether the cursor sits on a variable section.
    pub fn is_mid_capture(&self, reg: &Registry) -> (r: bool)
        requires
            reg.wf(),
            self@.fits(reg.defs()),
        ensures
            r == self@.mid_capture(reg.defs()),
    {
        !reg.definitions[self.definition].sections[self.cursor].literal.is_keyword_exec()
    }

    /// Whether every section is matched.
    pub fn is_complete(&self, reg: &Registry) -> (r: bool)
        requires
            reg.wf(),
            0 <= self.definition < reg.defs().len(),
        ensures
            r == self@.complete(reg.defs()),
    {
        self.cursor == reg.definitions[self.definition].sections.len()
    }

    /// Feeds `t`; `None` where the token breaks the keyword sequence.
    pub fn feed(self, reg: &Registry, t: Token) -> (r: Option<Builder>)
        requires
            reg.wf(),
            self@.fits(reg.defs()),
        ensures
            match r {
                Some(b) => self@.feed(reg.defs(), t@) == Some(b@),
                None => self@.feed(reg.defs(), t@) is None,
            },
    {
        let d = &reg.definitions[self.definition];
        let c = self.cursor;
        let n = d.sections.len();
        match &d.sections[c].literal {
            Literal::Keyword(k) => {
                if crate::definition::str_eq(k.as_str(), t.text.as_str()) {
                    Some(Builder { cursor: c + 1, ..self })
                } else {
                    None
                }
            },
            Literal::Variable(_) => {
                if c + 1 < n && d.sections[c + 1].literal.is_keyword_exec()
                    && d.sections[c + 1].literal.accepts_token(&t) {
                    let Builder { definition, cursor, mut captures, open } = self;
                    proof {
                        lemma_captures_push(captures@, open);
                    }
                    captures.push(open);
                    let r = Builder { definition, cursor: c + 2, captures, open: Vec::new() };
                    assert(r@.open =~= Seq::empty());
                    Some(r)
                } else {
                    let Builder { definition, cursor, captures, mut open } = self;
                    proof {
                        lemma_items_push(open@, Item::Tok(t));
                    }
                    open.push(Item::Tok(t));
                    Some(Builder { definition, cursor, captures, open })
                }
            },
        }
    }

    /// Closes the open capture and passes its variable section.
    pub fn close(self) -> (r: Builder)
        requires
            self.cursor < usize::MAX,
        ensures
            r@ == self@.close(),
    {
        let Builder { definition, cursor, mut captures, open } = self;
        proof {
            lemma_captures_push(captures@, open);
        }
        captures.push(open);
        let r = Builder { definition, cursor: cursor + 1, captures, open: Vec::new() };
        assert(r@.open =~= Seq::empty());
        r
    }

    /// The chunk of a completed builder: its definition's name and its captures.
    pub fn finish(self, reg: &Registry) -> (r: Chunk)
        requires
            0 <= self.definition < reg.defs().len(),
        ensures
            crate::chunk::chunk_view(r) == self@.finish(reg.defs()),
    {
        Chunk { name: Some(reg.definitions[self.definition].name.clone()), captures: self.captures }
    }
}

} // verus!
