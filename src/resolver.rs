//! The resolver: a single left-to-right pass over the tokens that drives a stack
//! of builders and emits chunks.
use vstd::prelude::*;
use crate::builder::{Builder, BuilderView, start_spec, lemma_items_push};
use crate::chunk::{Chunk, ChunkView, Item, ItemView, chunk_view, items_view};
use crate::definition::Definition;
use crate::error::{Error, ErrorView};
use crate::registry::{Registry, find_from, lookup_spec};
use crate::token::{Token, TokenView, tokens_view};

verus! {

/// The state of a run between two tokens: the builder stack (innermost last), the
/// chunks emitted at top level, the run of plain tokens not yet emitted, and whether
/// the next token stands at the start of a logical line.
pub struct RunState {
    pub stack: Seq<BuilderView>,
    pub out: Seq<ChunkView>,
    pub plain: Seq<ItemView>,
    pub at_line_start: bool,
}

/// The state before the first token.
pub open spec fn initial_state() -> RunState {
    RunState { stack: Seq::empty(), out: Seq::empty(), plain: Seq::empty(), at_line_start: true }
}

/// The plain chunk of a token run.
pub open spec fn plain_chunk(plain: Seq<ItemView>) -> ChunkView {
    ChunkView { name: None, captures: seq![plain] }
}

/// `out` followed by the pending plain run, if there is one.
pub open spec fn flush(out: Seq<ChunkView>, plain: Seq<ItemView>) -> Seq<ChunkView> {
    if plain.len() == 0 {
        out
    } else {
        out.push(plain_chunk(plain))
    }
}

/// Routes a finished chunk into the open capture of the innermost builder left on
/// the stack, or to the top-level output where the stack is empty.
pub open spec fn place(s: RunState, c: ChunkView) -> RunState {
    if s.stack.len() == 0 {
        RunState { out: s.out.push(c), ..s }
    } else {
        let top = s.stack.last();
        RunState {
            stack: s.stack.update(
                s.stack.len() - 1,
                BuilderView { open: top.open.push(ItemView::Nested(c)), ..top },
            ),
            ..s
        }
    }
}

/// Pushes builder `b`, or places its chunk at once where it is already complete.
pub open spec fn open_builder(defs: Seq<Definition>, s: RunState, b: BuilderView) -> RunState {
    if b.complete(defs) {
        place(s, b.finish(defs))
    } else {
        RunState { stack: s.stack.push(b), ..s }
    }
}

/// One step of the resolver on token `t`. With no open builder, a token that
/// triggers a definition starts a builder (after the pending plain run is emitted),
/// any other joins the plain run. Within a builder's open capture, a token on which
/// a definition opening with a keyword may start begins a nested builder (the first
/// such definition registered; one opening with a variable would accept every
/// captured token, so it never nests); otherwise the token is fed to the innermost
/// builder, which is popped and its chunk placed once complete.
pub open spec fn step_spec(defs: Seq<Definition>, s: RunState, t: TokenView) -> Result<RunState, ErrorView> {
    let als = s.at_line_start;
    if s.stack.len() == 0 {
        match lookup_spec(defs, t, als) {
            Some(i) => Ok(
                RunState {
                    at_line_start: t.ends_line(),
                    ..open_builder(
                        defs,
                        RunState { out: flush(s.out, s.plain), plain: Seq::empty(), ..s },
                        start_spec(defs, i, t),
                    )
                },
            ),
            None => Ok(RunState { plain: s.plain.push(ItemView::Tok(t)), at_line_start: t.ends_line(), ..s }),
        }
    } else {
        let top = s.stack.last();
        let nested = if top.mid_capture(defs) {
            find_from(defs, t, als, true, 0)
        } else {
            None
        };
        match nested {
            Some(i) => Ok(
                RunState { at_line_start: t.ends_line(), ..open_builder(defs, s, start_spec(defs, i, t)) },
            ),
            None => match top.feed(defs, t) {
                None => Err(
                    ErrorView::UnterminatedMacro {
                        name: defs[top.definition].name@,
                        section: top.cursor as nat,
                        position: t.position,
                    },
                ),
                Some(b) => Ok(
                    RunState {
                        at_line_start: t.ends_line(),
                        ..open_builder(defs, RunState { stack: s.stack.drop_last(), ..s }, b)
                    },
                ),
            },
        }
    }
}

/// The state after the tokens `toks`, or the first failure.
pub open spec fn steps_spec(defs: Seq<Definition>, toks: Seq<TokenView>) -> Result<RunState, ErrorView>
    decreases toks.len(),
{
    if toks.len() == 0 {
        Ok(initial_state())
    } else {
        match steps_spec(defs, toks.drop_last()) {
            Ok(s) => step_spec(defs, s, toks.last()),
            Err(e) => Err(e),
        }
    }
}

/// The end of the input: each open builder whose only unmatched section is a final
/// variable closes it and completes, innermost first; any other open builder fails
/// with `UnterminatedMacro` at `last_position`. Then the pending plain run is emitted.
pub open spec fn end_spec(defs: Seq<Definition>, s: RunState, last_position: usize) -> Result<
    Seq<ChunkView>,
    ErrorView,
>
    decreases s.stack.len(),
{
    if s.stack.len() == 0 {
        Ok(flush(s.out, s.plain))
    } else {
        let top = s.stack.last();
        if top.mid_capture(defs) && top.cursor + 1 == defs[top.definition].len() {
            end_spec(
                defs,
                place(RunState { stack: s.stack.drop_last(), ..s }, top.close().finish(defs)),
                last_position,
            )
        } else {
            Err(
                ErrorView::UnterminatedMacro {
                    name: defs[top.definition].name@,
                    section: top.first_unmatched(defs) as nat,
                    position: last_position,
                },
            )
        }
    }
}

/// The position of the last token, or 0 where there is none.
pub open spec fn last_position(toks: Seq<TokenView>) -> usize {
    if toks.len() == 0 {
        0
    } else {
        toks.last().position
    }
}

/// The result of resolving `toks` against the definitions `defs`.
pub open spec fn resolve_spec(defs: Seq<Definition>, toks: Seq<TokenView>) -> Result<Seq<ChunkView>, ErrorView> {
    match steps_spec(defs, toks) {
        Ok(s) => end_spec(defs, s, last_position(toks)),
        Err(e) => Err(e),
    }
}

/// A failure after a prefix of the tokens is the failure of the whole sequence.
pub proof fn lemma_steps_error_stays(defs: Seq<Definition>, toks: Seq<TokenView>, i: int)
    requires
        0 <= i <= toks.len(),
        steps_spec(defs, toks.take(i)) is Err,
    ensures
        steps_spec(defs, toks) == steps_spec(defs, toks.take(i)),
    decreases toks.len() - i,
{
    if i < toks.len() {
        assert(toks.take(i + 1).drop_last() =~= toks.take(i));
        lemma_steps_error_stays(defs, toks, i + 1);
    } else {
        assert(toks.take(i) =~= toks);
    }
}

/// The views of a sequence of chunks.
pub open spec fn chunks_view(s: Seq<Chunk>) -> Seq<ChunkView> {
    s.map_values(|c: Chunk| chunk_view(c))
}

/// The view of a run's result.
pub open spec fn result_view(r: Result<Vec<Chunk>, Error>) -> Result<Seq<ChunkView>, ErrorView> {
    match r {
        Ok(v) => Ok(chunks_view(v@)),
        Err(e) => Err(e@),
    }
}

/// The views of a builder stack.
pub open spec fn stack_view(s: Seq<Builder>) -> Seq<BuilderView> {
    s.map_values(|b: Builder| b@)
}

/// Every builder of the stack fits the definitions, and every builder below the
/// top sits in an open capture.
pub open spec fn stack_wf(defs: Seq<Definition>, s: Seq<BuilderView>) -> bool {
    &&& forall|i: int| 0 <= i < s.len() ==> (#[trigger] s[i]).fits(defs)
    &&& forall|i: int| 0 <= i < s.len() - 1 ==> (#[trigger] s[i]).mid_capture(defs)
}

} // verus!

verus! {

/// The macro resolver: the registry of definitions, the stack of open builders
/// (innermost last) and the line-start flag.
#[derive(Debug)]
pub struct Resolver {
    pub registry: Registry,
    pub builder_stack: Vec<Builder>,
    pub at_line_start: bool,
}

/// The views of `out` with one more chunk.
proof fn lemma_chunks_push(s: Seq<Chunk>, c: Chunk)
    ensures
        chunks_view(s.push(c)) == chunks_view(s).push(chunk_view(c)),
{
    assert(chunks_view(s.push(c)) =~= chunks_view(s).push(chunk_view(c)));
}

/// Emits the pending plain run, if there is one, and empties it.
fn flush_plain(out: &mut Vec<Chunk>, plain: &mut Vec<Item>)
    ensures
        chunks_view(final(out)@) == flush(chunks_view(old(out)@), items_view(old(plain)@)),
        final(plain)@.len() == 0,
{
    if plain.len() > 0 {
        let mut run: Vec<Item> = Vec::new();
        core::mem::swap(plain, &mut run);
        let mut captures: Vec<Vec<Item>> = Vec::new();
        proof {
            crate::builder::lemma_captures_push(captures@, run);
        }
        captures.push(run);
        let c = Chunk { name: None, captures };
        proof {
            lemma_chunks_push(out@, c);
            assert(captures@ =~= Seq::empty().push(run));
            assert(chunk_view(c).captures =~= seq![items_view(run@)]);
        }
        out.push(c);
    } else {
        assert(items_view(plain@) =~= Seq::empty());
    }
}

impl Resolver {
    /// The registry's definitions.
    pub open spec fn defs(self) -> Seq<Definition> {
        self.registry.defs()
    }

    /// The run state that this resolver holds together with `out` and `plain`.
    pub open spec fn state(self, out: Seq<Chunk>, plain: Seq<Item>) -> RunState {
        RunState {
            stack: stack_view(self.builder_stack@),
            out: chunks_view(out),
            plain: items_view(plain),
            at_line_start: self.at_line_start,
        }
    }

    /// The registry is well formed and every open builder fits it.
    pub open spec fn wf(self) -> bool {
        &&& self.registry.wf()
        &&& stack_wf(self.defs(), stack_view(self.builder_stack@))
    }

    /// A resolver whose registry holds `macros` (a later definition whose name is
    /// taken is left out), with no open builder, at the start of a line.
    pub fn new(macros: Vec<Definition>) -> (r: Resolver)
        requires
            forall|i: int| 0 <= i < macros@.len() ==> (#[trigger] macros@[i]).wf(),
        ensures
            r.wf(),
            r.defs() == crate::registry::first_of_each_name(macros@),
            r.builder_stack@.len() == 0,
            r.at_line_start,
    {
        let registry = Registry::from_definitions(macros);
        let r = Resolver { registry, builder_stack: Vec::new(), at_line_start: true };
        assert(stack_view(r.builder_stack@) =~= Seq::empty());
        r
    }

    /// Registers `definition`; a taken name is refused with `DuplicateMacroName` and
    /// leaves the registry as it was.
    pub fn define_macro(&mut self, definition: Definition) -> (r: Result<(), Error>)
        requires
            old(self).wf(),
            definition.wf(),
        ensures
            final(self).wf(),
            final(self).builder_stack == old(self).builder_stack,
            final(self).at_line_start == old(self).at_line_start,
            crate::registry::has_name(old(self).defs(), definition.name@) ==> {
                &&& r matches Err(e) && e@ == ErrorView::DuplicateMacroName { name: definition.name@ }
                &&& final(self).defs() == old(self).defs()
            },
            !crate::registry::has_name(old(self).defs(), definition.name@) ==> {
                &&& r is Ok
                &&& final(self).defs() == old(self).defs().push(definition)
            },
    {
        let r = self.registry.insert(definition);
        proof {
            let s = stack_view(self.builder_stack@);
            assert forall|i: int| 0 <= i < s.len() implies (#[trigger] s[i]).fits(self.defs()) by {
                assert(old(self).defs()[s[i].definition] == self.defs()[s[i].definition]);
            }
            assert forall|i: int| 0 <= i < s.len() - 1 implies (#[trigger] s[i]).mid_capture(self.defs()) by {
                assert(old(self).defs()[s[i].definition] == self.defs()[s[i].definition]);
            }
        }
        r
    }

    /// Routes a finished chunk into the innermost open capture, or to `out`.
    fn place_chunk(&mut self, out: &mut Vec<Chunk>, c: Chunk)
        ensures
            final(self).registry == old(self).registry,
            final(self).at_line_start == old(self).at_line_start,
            final(self).state(final(out)@, Seq::empty()) == place(
                old(self).state(old(out)@, Seq::empty()),
                chunk_view(c),
            ),
    {
        if self.builder_stack.len() == 0 {
            proof {
                lemma_chunks_push(out@, c);
            }
            out.push(c);
        } else {
            let ghost old_stack = self.builder_stack@;
            let mut top = self.builder_stack.pop().unwrap();
            proof {
                lemma_items_push(top.open@, Item::Nested(c));
            }
            top.open.push(Item::Nested(c));
            self.builder_stack.push(top);
            assert(stack_view(self.builder_stack@) =~= place(
                old(self).state(old(out)@, Seq::empty()),
                chunk_view(c),
            ).stack);
        }
    }

    /// Pushes builder `b`, or places its chunk at once where it is already complete.
    fn open_builder(&mut self, out: &mut Vec<Chunk>, b: Builder)
        requires
            old(self).registry.wf(),
            0 <= b.definition < old(self).defs().len(),
        ensures
            final(self).registry == old(self).registry,
            final(self).at_line_start == old(self).at_line_start,
            final(self).state(final(out)@, Seq::empty()) == open_builder(
                old(self).defs(),
                old(self).state(old(out)@, Seq::empty()),
                b@,
            ),
    {
        if b.is_complete(&self.registry) {
            let c = b.finish(&self.registry);
            self.place_chunk(out, c);
        } else {
            self.builder_stack.push(b);
            assert(stack_view(self.builder_stack@) =~= stack_view(old(self).builder_stack@).push(b@));
        }
    }

    /// One step of the resolver on token `t`.
    fn step(&mut self, out: &mut Vec<Chunk>, plain: &mut Vec<Item>, t: Token) -> (r: Result<(), Error>)
        requires
            old(self).wf(),
            old(self).builder_stack@.len() > 0 ==> old(plain)@.len() == 0,
        ensures
            final(self).wf(),
            final(self).registry == old(self).registry,
            final(self).builder_stack@.len() > 0 ==> final(plain)@.len() == 0,
            match r {
                Ok(()) => step_spec(old(self).defs(), old(self).state(old(out)@, old(plain)@), t@) == Ok::<RunState, ErrorView>(
                    final(self).state(final(out)@, final(plain)@),
                ),
                Err(e) => step_spec(old(self).defs(), old(self).state(old(out)@, old(plain)@), t@)
                    == Err::<RunState, ErrorView>(e@),
            },
    {
        let ghost defs = self.defs();
        let ghost s0 = self.state(out@, plain@);
        let ghost tv = t@;
        let ends = t.ends_line();
        let als = self.at_line_start;
        if self.builder_stack.len() == 0 {
            match self.registry.lookup(&t, als) {
                Some(i) => {
                    flush_plain(out, plain);
                    let b = Builder::start(&self.registry, i, t);
                    assert(stack_view(self.builder_stack@) =~= Seq::empty());
                    self.open_builder(out, b);
                },
                None => {
                    proof {
                        lemma_items_push(plain@, Item::Tok(t));
                    }
                    plain.push(Item::Tok(t));
                },
            }
        } else {
            let ghost top = s0.stack.last();
            let mid = self.builder_stack[self.builder_stack.len() - 1].is_mid_capture(&self.registry);
            let nested = if mid {
                self.registry.find(&t, als, true)
            } else {
                None
            };
            match nested {
                Some(i) => {
                    let b = Builder::start(&self.registry, i, t);
                    self.open_builder(out, b);
                },
                None => {
                    let b = self.builder_stack.pop().unwrap();
                    assert(stack_view(self.builder_stack@) =~= s0.stack.drop_last());
                    let d = b.definition;
                    let cursor = b.cursor;
                    let position = t.position;
                    match b.feed(&self.registry, t) {
                        None => {
                            let name = self.registry.definitions[d].name.clone();
                            return Err(Error::UnterminatedMacro { name, section: cursor, position });
                        },
                        Some(nb) => {
                            self.open_builder(out, nb);
                        },
                    }
                },
            }
        }
        self.at_line_start = ends;
        Ok(())
    }

    /// The end of the input: closes what can close, innermost first, then emits the
    /// pending plain run.
    fn end(&mut self, out: &mut Vec<Chunk>, plain: &mut Vec<Item>, last_position: usize) -> (r: Result<(), Error>)
        requires
            old(self).wf(),
            old(self).builder_stack@.len() > 0 ==> old(plain)@.len() == 0,
        ensures
            final(self).wf(),
            final(self).registry == old(self).registry,
            r is Ok ==> final(self).builder_stack@.len() == 0,
            match r {
                Ok(()) => end_spec(old(self).defs(), old(self).state(old(out)@, old(plain)@), last_position)
                    == Ok::<Seq<ChunkView>, ErrorView>(chunks_view(final(out)@)),
                Err(e) => end_spec(old(self).defs(), old(self).state(old(out)@, old(plain)@), last_position)
                    == Err::<Seq<ChunkView>, ErrorView>(e@),
            },
    {
        let ghost defs = self.defs();
        let ghost goal = end_spec(defs, self.state(out@, plain@), last_position);
        while self.builder_stack.len() > 0
            invariant
                self.wf(),
                self.registry == old(self).registry,
                defs == self.defs(),
                self.builder_stack@.len() > 0 ==> plain@.len() == 0,
                end_spec(defs, self.state(out@, plain@), last_position) == goal,
                goal == end_spec(old(self).defs(), old(self).state(old(out)@, old(plain)@), last_position),
            decreases self.builder_stack@.len(),
        {
            let ghost s = self.state(out@, plain@);
            assert(items_view(plain@) =~= Seq::empty());
            let top = self.builder_stack.pop().unwrap();
            assert(stack_view(self.builder_stack@) =~= s.stack.drop_last());
            assert(s.stack.last() == top@);
            let mid = top.is_mid_capture(&self.registry);
            let n = self.registry.definitions[top.definition].sections.len();
            if mid && top.cursor + 1 == n {
                let c = top.close().finish(&self.registry);
                self.place_chunk(out, c);
            } else {
                let name = self.registry.definitions[top.definition].name.clone();
                let section = if mid {
                    top.cursor + 1
                } else {
                    top.cursor
                };
                self.builder_stack = Vec::new();
                assert(stack_view(self.builder_stack@) =~= Seq::empty());
                let e = Error::UnterminatedMacro { name, section, position: last_position };
                return Err(e);
            }
        }
        flush_plain(out, plain);
        Ok(())
    }

    /// Resolves `tokens` against the registered definitions: the chunks in order
    /// (resolved macros between runs of plain tokens), or the first failure. Every
    /// run starts with no open builder, at the start of a line, and ends with no
    /// open builder.
    pub fn run(&mut self, tokens: Vec<Token>) -> (r: Result<Vec<Chunk>, Error>)
        requires
            old(self).wf(),
        ensures
            final(self).wf(),
            final(self).registry == old(self).registry,
            final(self).builder_stack@.len() == 0,
            result_view(r) == resolve_spec(old(self).defs(), tokens_view(tokens@)),
    {
        let ghost defs = self.defs();
        let ghost toks = tokens_view(tokens@);
        self.builder_stack = Vec::new();
        self.at_line_start = true;
        let mut out: Vec<Chunk> = Vec::new();
        let mut plain: Vec<Item> = Vec::new();
        proof {
            assert(stack_view(self.builder_stack@) =~= Seq::empty());
            assert(chunks_view(out@) =~= Seq::empty());
            assert(items_view(plain@) =~= Seq::empty());
            assert(toks.take(0) =~= Seq::empty());
        }
        let mut i: usize = 0;
        while i < tokens.len()
            invariant
                self.wf(),
                self.registry == old(self).registry,
                defs == self.defs(),
                toks == tokens_view(tokens@),
                i <= tokens@.len(),
                self.builder_stack@.len() > 0 ==> plain@.len() == 0,
                steps_spec(defs, toks.take(i as int)) == Ok::<RunState, ErrorView>(
                    self.state(out@, plain@),
                ),
            decreases tokens@.len() - i,
        {
            let t = tokens[i].duplicate();
            assert(toks.take(i + 1).drop_last() =~= toks.take(i as int));
            match self.step(&mut out, &mut plain, t) {
                Ok(()) => {},
                Err(e) => {
                    proof {
                        lemma_steps_error_stays(defs, toks, i + 1);
                    }
                    self.builder_stack = Vec::new();
                    assert(stack_view(self.builder_stack@) =~= Seq::empty());
                    return Err(e);
                },
            }
            i = i + 1;
        }
        assert(toks.take(i as int) =~= toks);
        let last = if tokens.len() == 0 {
            0
        } else {
            tokens[tokens.len() - 1].position
        };
        match self.end(&mut out, &mut plain, last) {
            Ok(()) => {
                proof {
                    assert(stack_view(self.builder_stack@) =~= Seq::empty()) by {
                        assert(self.builder_stack@.len() == 0);
                    }
                }
                Ok(out)
            },
            Err(e) => {
                self.builder_stack = Vec::new();
                assert(stack_view(self.builder_stack@) =~= Seq::empty());
                Err(e)
            },
        }
    }

    /// The innermost open builder, if any.
    pub fn current_builder(&self) -> (r: Option<&Builder>)
        ensures
            self.builder_stack@.len() == 0 ==> r is None,
            self.builder_stack@.len() > 0 ==> r == Some(&self.builder_stack@.last()),
    {
        self.builder_stack.as_slice().last()
    }

    /// The innermost open builder, if any, for changing in place.
    pub fn current_builder_mut(&mut self) -> (r: Option<&mut Builder>)
        ensures
            final(self).registry == old(self).registry,
            final(self).at_line_start == old(self).at_line_start,
            old(self).builder_stack@.len() == 0 ==> r is None && final(self).builder_stack@
                == old(self).builder_stack@,
            old(self).builder_stack@.len() > 0 ==> r is Some && *r->0 == old(self).builder_stack@.last()
                && final(self).builder_stack@ == old(self).builder_stack@.update(
                old(self).builder_stack@.len() - 1,
                *final(r->0),
            ),
    {
        let n = self.builder_stack.len();
        if n == 0 {
            None
        } else {
            Some(&mut self.builder_stack[n - 1])
        }
    }

    /// Pushes `builder` as the innermost open builder. It must name a registered
    /// definition, not be complete, and the builder below it must sit in an open capture.
    pub fn push_builder(&mut self, builder: Builder)
        requires
            old(self).wf(),
            builder@.fits(old(self).defs()),
            old(self).builder_stack@.len() > 0 ==> old(self).builder_stack@.last()@.mid_capture(
                old(self).defs(),
            ),
        ensures
            final(self).wf(),
            final(self).registry == old(self).registry,
            final(self).at_line_start == old(self).at_line_start,
            final(self).builder_stack@ == old(self).builder_stack@.push(builder),
    {
        self.builder_stack.push(builder);
        assert(stack_view(self.builder_stack@) =~= stack_view(old(self).builder_stack@).push(builder@));
    }

    /// Pops the innermost open builder, if any.
    pub fn pop_builder(&mut self) -> (r: Option<Builder>)
        requires
            old(self).wf(),
        ensures
            final(self).wf(),
            final(self).registry == old(self).registry,
            final(self).at_line_start == old(self).at_line_start,
            old(self).builder_stack@.len() == 0 ==> r is None && final(self).builder_stack@
                == old(self).builder_stack@,
            old(self).builder_stack@.len() > 0 ==> r == Some(old(self).builder_stack@.last())
                && final(self).builder_stack@ == old(self).builder_stack@.drop_last(),
    {
        let r = self.builder_stack.pop();
        if r.is_some() {
            assert(stack_view(self.builder_stack@) =~= stack_view(old(self).builder_stack@).drop_last());
        }
        r
    }
}

} // verus!
