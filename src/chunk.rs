//! Chunks: the resolver's output.
use vstd::prelude::*;
use crate::token::{Token, TokenView};

verus! {

/// One element of a capture: a raw token or a nested, resolved chunk.
#[derive(Debug)]
pub enum Item {
    Tok(Token),
    Nested(Chunk),
}

/// A resolved macro invocation (named after its definition, with one capture for
/// each of its variable sections), or a run of plain tokens (no name, one capture).
#[derive(Debug)]
pub struct Chunk {
    pub name: Option<String>,
    pub captures: Vec<Vec<Item>>,
}

impl Chunk {
    /// The plain chunk of a token run: no name, the tokens as its one capture.
    pub fn plain(tokens: Vec<Token>) -> (r: Chunk)
        ensures
            chunk_view(r) == (ChunkView {
                name: None,
                captures: seq![token_items(crate::token::tokens_view(tokens@))],
            }),
    {
        let ghost tv = crate::token::tokens_view(tokens@);
        let mut items: Vec<Item> = Vec::new();
        let mut rest = tokens;
        let ghost n = tv.len();
        assert(items_view(items@) =~= token_items(tv.take(0)));
        assert(crate::token::tokens_view(rest@) =~= tv.subrange(0, n as int));
        while rest.len() > 0
            invariant
                n == tv.len(),
                rest@.len() <= n,
                crate::token::tokens_view(rest@) == tv.subrange(n - rest@.len(), n as int),
                items_view(items@) == token_items(tv.take(n - rest@.len())),
            decreases rest@.len(),
        {
            let ghost k = n - rest@.len();
            let ghost before = rest@;
            assert(crate::token::tokens_view(before)[0] == tv[k]);
            let t = rest.remove(0);
            assert(rest@ =~= before.subrange(1, before.len() as int));
            assert(t@ == tv[k]);
            assert forall|i: int| 0 <= i < rest@.len() implies #[trigger] crate::token::tokens_view(
                rest@,
            )[i] == tv.subrange(k + 1, n as int)[i] by {
                assert(crate::token::tokens_view(before)[i + 1] == tv.subrange(k, n as int)[i + 1]);
            }
            assert(crate::token::tokens_view(rest@) =~= tv.subrange(n - rest@.len(), n as int));
            proof {
                crate::builder::lemma_items_push(items@, Item::Tok(t));
            }
            assert(token_items(tv.take(k + 1)) =~= token_items(tv.take(k)).push(ItemView::Tok(t@)));
            items.push(Item::Tok(t));
        }
        assert(tv.take(n as int) =~= tv);
        let mut captures: Vec<Vec<Item>> = Vec::new();
        assert(captures@.push(items).drop_last() =~= captures@);
        captures.push(items);
        let r = Chunk { name: None, captures };
        assert(chunk_view(r).captures =~= seq![token_items(tv)]);
        r
    }
}

/// The mathematical value of an item.
pub enum ItemView {
    Tok(TokenView),
    Nested(ChunkView),
}

/// The mathematical value of a chunk.
pub struct ChunkView {
    pub name: Option<Seq<char>>,
    pub captures: Seq<Seq<ItemView>>,
}

pub open spec fn name_view(n: Option<String>) -> Option<Seq<char>> {
    match n {
        Some(s) => Some(s@),
        None => None,
    }
}

pub open spec fn item_view(i: Item) -> ItemView
    decreases i,
{
    match i {
        Item::Tok(t) => ItemView::Tok(t@),
        Item::Nested(c) => ItemView::Nested(chunk_view(c)),
    }
}

pub open spec fn chunk_view(c: Chunk) -> ChunkView
    decreases c,
{
    proof {
        broadcast use vstd::std_specs::vec::axiom_vec_decreases_to_view;
    }
    ChunkView { name: name_view(c.name), captures: captures_view(c.captures@) }
}

pub open spec fn items_view(s: Seq<Item>) -> Seq<ItemView>
    decreases s,
{
    if s.len() == 0 {
        Seq::empty()
    } else {
        items_view(s.drop_last()).push(item_view(s.last()))
    }
}

pub open spec fn captures_view(s: Seq<Vec<Item>>) -> Seq<Seq<ItemView>>
    decreases s,
{
    proof {
        broadcast use vstd::std_specs::vec::axiom_vec_decreases_to_view;
    }
    if s.len() == 0 {
        Seq::empty()
    } else {
        captures_view(s.drop_last()).push(items_view(s.last()@))
    }
}

} // verus!

verus! {

/// The tokens that an item holds, in order. Keyword tokens matched by sections are
/// not held by chunks.
pub open spec fn item_tokens(i: ItemView) -> Seq<TokenView>
    decreases i,
{
    match i {
        ItemView::Tok(t) => seq![t],
        ItemView::Nested(c) => captures_tokens(c.captures),
    }
}

/// The tokens that a sequence of items holds, in order.
pub open spec fn items_tokens(s: Seq<ItemView>) -> Seq<TokenView>
    decreases s,
{
    if s.len() == 0 {
        Seq::empty()
    } else {
        items_tokens(s.drop_last()) + item_tokens(s.last())
    }
}

/// The tokens that a chunk's captures hold, in order.
pub open spec fn captures_tokens(s: Seq<Seq<ItemView>>) -> Seq<TokenView>
    decreases s,
{
    if s.len() == 0 {
        Seq::empty()
    } else {
        captures_tokens(s.drop_last()) + items_tokens(s.last())
    }
}

/// The flattened token form of a chunk sequence.
pub open spec fn chunks_tokens(s: Seq<ChunkView>) -> Seq<TokenView>
    decreases s.len(),
{
    if s.len() == 0 {
        Seq::empty()
    } else {
        chunks_tokens(s.drop_last()) + captures_tokens(s.last().captures)
    }
}

/// Raw tokens as items.
pub open spec fn token_items(s: Seq<TokenView>) -> Seq<ItemView> {
    s.map_values(|t: TokenView| ItemView::Tok(t))
}

} // verus!
