//! General properties of resolution.
use vstd::prelude::*;
use crate::chunk::{ChunkView, ItemView, item_tokens, captures_tokens, chunks_tokens, items_tokens, token_items};
use crate::definition::Definition;
use crate::error::ErrorView;
use crate::registry::{candidate, find_from, lookup_spec};
use crate::builder::BuilderView;
use crate::resolver::{RunState, place, end_spec, plain_chunk, resolve_spec, step_spec, steps_spec, flush};
use crate::token::TokenView;

verus! {

/// No definition triggers on any of the tokens, whatever the line-start flag.
pub open spec fn triggers_nothing(defs: Seq<Definition>, toks: Seq<TokenView>) -> bool {
    forall|i: int, als: bool| 0 <= i < toks.len() ==> #[trigger] lookup_spec(defs, toks[i], als) is None
}

/// The output for input that triggers nothing: one plain chunk of all the tokens, or
/// nothing for no tokens.
pub open spec fn plain_output(toks: Seq<TokenView>) -> Seq<ChunkView> {
    flush(Seq::empty(), token_items(toks))
}

proof fn lemma_items_tokens_plain(toks: Seq<TokenView>)
    ensures
        items_tokens(token_items(toks)) == toks,
    decreases toks.len(),
{
    if toks.len() > 0 {
        lemma_items_tokens_plain(toks.drop_last());
        assert(token_items(toks).drop_last() =~= token_items(toks.drop_last()));
        assert(token_items(toks).last() == ItemView::Tok(toks.last()));
        assert(item_tokens(ItemView::Tok(toks.last())) == seq![toks.last()]);
        assert(toks.drop_last() + seq![toks.last()] =~= toks);
    } else {
        assert(token_items(toks) =~= Seq::empty());
    }
}

proof fn lemma_steps_plain(defs: Seq<Definition>, toks: Seq<TokenView>)
    requires
        triggers_nothing(defs, toks),
    ensures
        steps_spec(defs, toks) matches Ok(s) && s.stack.len() == 0 && s.out.len() == 0 && s.plain
            == token_items(toks),
    decreases toks.len(),
{
    if toks.len() == 0 {
        assert(token_items(toks) =~= Seq::empty());
    } else {
        let p = toks.drop_last();
        assert forall|i: int, als: bool| 0 <= i < p.len() implies #[trigger] lookup_spec(defs, p[i], als) is None by {
            assert(p[i] == toks[i]);
        }
        lemma_steps_plain(defs, p);
        let s = steps_spec(defs, p)->Ok_0;
        assert(lookup_spec(defs, toks[toks.len() - 1], s.at_line_start) is None);
        assert(token_items(toks) =~= token_items(p).push(ItemView::Tok(toks.last())));
    }
}

/// Input on which no definition triggers resolves to a single plain chunk of all its
/// tokens (nothing, for no tokens); resolution is idempotent there: flattening the
/// chunks gives back the tokens, and resolving those again gives the same chunks.
pub proof fn lemma_plain_resolution_idempotent(defs: Seq<Definition>, toks: Seq<TokenView>)
    requires
        triggers_nothing(defs, toks),
    ensures
        resolve_spec(defs, toks) == Ok::<Seq<ChunkView>, ErrorView>(plain_output(toks)),
        chunks_tokens(plain_output(toks)) == toks,
        resolve_spec(defs, chunks_tokens(plain_output(toks))) == resolve_spec(defs, toks),
{
    lemma_steps_plain(defs, toks);
    lemma_items_tokens_plain(toks);
    let s = steps_spec(defs, toks)->Ok_0;
    assert(s.out =~= Seq::empty());
    if toks.len() > 0 {
        let c = plain_chunk(token_items(toks));
        assert(plain_output(toks) =~= seq![c]);
        assert(seq![c].drop_last() =~= Seq::<ChunkView>::empty());
        assert(c.captures.drop_last() =~= Seq::<Seq<ItemView>>::empty());
        assert(captures_tokens(c.captures.drop_last()) =~= Seq::empty());
        assert(c.captures.last() == token_items(toks));
        assert(captures_tokens(c.captures) =~= toks);
        assert(chunks_tokens(seq![c].drop_last()) =~= Seq::empty());
        assert(chunks_tokens(seq![c]) =~= toks);
    } else {
        assert(token_items(toks) =~= Seq::empty());
        assert(toks =~= Seq::empty());
    }
}


/// The tokens fed from state `s` on: the state after them, or the first failure.
pub open spec fn steps_from(defs: Seq<Definition>, s: RunState, toks: Seq<TokenView>) -> Result<RunState, ErrorView>
    decreases toks.len(),
{
    if toks.len() == 0 {
        Ok(s)
    } else {
        match steps_from(defs, s, toks.drop_last()) {
            Ok(s2) => step_spec(defs, s2, toks.last()),
            Err(e) => Err(e),
        }
    }
}

/// Resolution of `x + y` goes on from the state that `x` leaves.
pub proof fn lemma_steps_append(defs: Seq<Definition>, x: Seq<TokenView>, y: Seq<TokenView>)
    requires
        steps_spec(defs, x) is Ok,
    ensures
        steps_spec(defs, x + y) == steps_from(defs, steps_spec(defs, x)->Ok_0, y),
    decreases y.len(),
{
    if y.len() == 0 {
        assert(x + y =~= x);
    } else {
        lemma_steps_append(defs, x, y.drop_last());
        assert((x + y).drop_last() =~= x + y.drop_last());
        assert((x + y).last() == y.last());
    }
}

proof fn lemma_steps_from_one(defs: Seq<Definition>, s: RunState, t: TokenView)
    ensures
        steps_from(defs, s, seq![t]) == step_spec(defs, s, t),
{
    assert(seq![t].drop_last() =~= Seq::<TokenView>::empty());
    assert(steps_from(defs, s, seq![t].drop_last()) == Ok::<RunState, ErrorView>(s));
}

/// No two variable sections of `d` stand next to each other.
pub open spec fn no_adjacent_variables(d: Definition) -> bool {
    forall|j: int|
        #![trigger d.sections@[j]]
        0 <= j < d.len() - 1 ==> d.literal(j).is_keyword() || d.literal(j + 1).is_keyword()
}

/// `runs` matches the sections of `d` one for one: a keyword section by one token of
/// its text, a variable section by a run of tokens, none of which is `d`'s opening
/// keyword or the keyword of the section after; a keyword section after a variable
/// is not `d`'s opening keyword either (each of these would start a nested match).
pub open spec fn matches_sections(d: Definition, runs: Seq<Seq<TokenView>>) -> bool {
    &&& runs.len() == d.len()
    &&& forall|j: int|
        #![trigger runs[j]]
        0 <= j < d.len() && d.literal(j).is_keyword() ==> runs[j].len() == 1 && d.literal(j).accepts(
            runs[j][0],
        )
    &&& forall|j: int, k: int|
        #![trigger runs[j][k]]
        0 <= j < d.len() && !d.literal(j).is_keyword() && 0 <= k < runs[j].len() ==> {
            &&& !d.literal(0).accepts(runs[j][k])
            &&& (j + 1 < d.len() ==> !d.literal(j + 1).accepts(runs[j][k]))
        }
    &&& forall|j: int|
        #![trigger runs[j]]
        1 <= j < d.len() && d.literal(j).is_keyword() && !d.literal(j - 1).is_keyword()
            ==> !d.literal(0).accepts(runs[j][0])
}

/// The first `j` runs, one after the other.
pub open spec fn concat_runs(runs: Seq<Seq<TokenView>>, j: int) -> Seq<TokenView>
    decreases j,
{
    if j <= 0 {
        Seq::empty()
    } else {
        concat_runs(runs, j - 1) + runs[j - 1]
    }
}

/// The runs of the variable sections among the first `j`, as captures.
pub open spec fn variable_captures(d: Definition, runs: Seq<Seq<TokenView>>, j: int) -> Seq<Seq<ItemView>>
    decreases j,
{
    if j <= 0 {
        Seq::empty()
    } else if d.literal(j - 1).is_keyword() {
        variable_captures(d, runs, j - 1)
    } else {
        variable_captures(d, runs, j - 1).push(token_items(runs[j - 1]))
    }
}

/// The chunk of a full match of `d` by `runs`.
pub open spec fn match_chunk(d: Definition, runs: Seq<Seq<TokenView>>) -> ChunkView {
    ChunkView { name: Some(d.name@), captures: variable_captures(d, runs, d.len() as int) }
}

/// The state after the first `j` runs of a match.
pub open spec fn after_runs(d: Definition, runs: Seq<Seq<TokenView>>, j: int, s: RunState) -> bool {
    &&& s.plain.len() == 0
    &&& if j == d.len() && d.literal(j - 1).is_keyword() {
        s.stack.len() == 0 && s.out == seq![match_chunk(d, runs)]
    } else if d.literal(j - 1).is_keyword() {
        &&& s.out.len() == 0
        &&& s.stack == seq![
            BuilderView {
                definition: 0,
                cursor: j,
                captures: variable_captures(d, runs, j),
                open: Seq::empty(),
            },
        ]
    } else {
        &&& s.out.len() == 0
        &&& s.stack == seq![
            BuilderView {
                definition: 0,
                cursor: j - 1,
                captures: variable_captures(d, runs, j - 1),
                open: token_items(runs[j - 1]),
            },
        ]
    }
}

/// Feeding the captured run of a variable section into its open builder.
proof fn lemma_variable_run(d: Definition, s: RunState, c: int, y: Seq<TokenView>)
    requires
        d.wf(),
        d.keyword_first(),
        0 < c < d.len(),
        !d.literal(c).is_keyword(),
        s.stack.len() == 1,
        s.stack[0].definition == 0,
        s.stack[0].cursor == c,
        s.out.len() == 0,
        s.plain.len() == 0,
        forall|k: int|
            0 <= k < y.len() ==> !d.literal(0).accepts(#[trigger] y[k]) && (c + 1 < d.len()
                ==> !d.literal(c + 1).accepts(y[k])),
    ensures
        steps_from(seq![d], s, y) matches Ok(s2) && s2.out.len() == 0 && s2.plain.len() == 0
            && s2.stack == seq![BuilderView { open: s.stack[0].open + token_items(y), ..s.stack[0] }],
    decreases y.len(),
{
    let defs = seq![d];
    if y.len() == 0 {
        assert(s.stack[0].open + token_items(y) =~= s.stack[0].open);
        assert(s.stack =~= seq![BuilderView { open: s.stack[0].open + token_items(y), ..s.stack[0] }]);
    } else {
        let p = y.drop_last();
        lemma_variable_run(d, s, c, p);
        let s2 = steps_from(defs, s, p)->Ok_0;
        let t = y.last();
        assert(t == y[y.len() - 1]);
        assert(!candidate(defs[0], t, s2.at_line_start, true));
        assert(find_from(defs, t, s2.at_line_start, true, 1) is None);
        assert(find_from(defs, t, s2.at_line_start, true, 0) is None);
        assert(s2.stack.last() == s2.stack[0]);
        assert(token_items(y) =~= token_items(p).push(ItemView::Tok(t)));
        assert(s.stack[0].open + token_items(y) =~= (s.stack[0].open + token_items(p)).push(ItemView::Tok(t)));
        let r = steps_from(defs, s, y)->Ok_0;
        assert(s2.stack.drop_last() =~= Seq::<BuilderView>::empty());
        assert(r.stack =~= seq![BuilderView { open: s.stack[0].open + token_items(y), ..s.stack[0] }]);
    }
}

/// After the first `j` runs of a match, the resolver holds the expected builder.
proof fn lemma_after_runs(d: Definition, runs: Seq<Seq<TokenView>>, j: int)
    requires
        d.wf(),
        d.keyword_first(),
        no_adjacent_variables(d),
        matches_sections(d, runs),
        1 <= j <= d.len(),
    ensures
        steps_spec(seq![d], concat_runs(runs, j)) matches Ok(s) && after_runs(d, runs, j, s),
    decreases j,
{
    let defs = seq![d];
    let n = d.len() as int;
    if j == 1 {
        let t = runs[0][0];
        assert(runs[0].len() == 1);
        assert(concat_runs(runs, 0) =~= Seq::empty());
        assert(concat_runs(runs, 1) =~= seq![t]);
        assert(seq![t].drop_last() =~= Seq::<TokenView>::empty());
        assert(candidate(defs[0], t, true, true));
        assert(lookup_spec(defs, t, true) == Some(0int));
        assert(variable_captures(d, runs, 0) =~= Seq::empty());
        assert(flush(Seq::empty(), Seq::empty()) =~= Seq::<ChunkView>::empty());
        let s = steps_spec(defs, concat_runs(runs, 1))->Ok_0;
        if n == 1 {
            assert(s.out =~= seq![match_chunk(d, runs)]);
        } else {
            assert(s.stack =~= seq![
                BuilderView {
                    definition: 0,
                    cursor: 1,
                    captures: variable_captures(d, runs, 1),
                    open: Seq::empty(),
                },
            ]);
        }
    } else {
        lemma_after_runs(d, runs, j - 1);
        let x = concat_runs(runs, j - 1);
        let y = runs[j - 1];
        let s = steps_spec(defs, x)->Ok_0;
        lemma_steps_append(defs, x, y);
        assert(d.sections@[j - 2] == d.sections@[j - 2]);
        if d.literal(j - 1).is_keyword() {
            let t = y[0];
            assert(y.len() == 1);
            assert(y =~= seq![t]);
            lemma_steps_from_one(defs, s, t);
            let r = steps_from(defs, s, y)->Ok_0;
            let b = s.stack[0];
            assert(s.stack.last() == b);
            assert(s.stack.drop_last() =~= Seq::<BuilderView>::empty());
            if d.literal(j - 2).is_keyword() {
                assert(b.cursor == j - 1);
                assert(!b.mid_capture(defs));
                assert(d.literal(j - 1).accepts(t));
                assert(defs[0] == d);
                assert(b.feed(defs, t) == Some(BuilderView { cursor: j, ..b }));

                if j == n {
                    assert(r.out =~= seq![match_chunk(d, runs)]);
                } else {
                    assert(r.stack =~= seq![
                        BuilderView {
                            definition: 0,
                            cursor: j,
                            captures: variable_captures(d, runs, j),
                            open: Seq::empty(),
                        },
                    ]);
                }
            } else {
                assert(!candidate(defs[0], t, s.at_line_start, true));
                assert(find_from(defs, t, s.at_line_start, true, 1) is None);
                assert(find_from(defs, t, s.at_line_start, true, 0) is None);
                assert(variable_captures(d, runs, j) == variable_captures(d, runs, j - 2).push(
                    token_items(runs[j - 2]),
                ));
                if j == n {
                    assert(r.out =~= seq![match_chunk(d, runs)]);
                } else {
                    assert(r.stack =~= seq![
                        BuilderView {
                            definition: 0,
                            cursor: j,
                            captures: variable_captures(d, runs, j),
                            open: Seq::empty(),
                        },
                    ]);
                }
            }
        } else {
            assert(d.literal(j - 2).is_keyword());
            assert forall|k: int|
                0 <= k < y.len() implies !d.literal(0).accepts(#[trigger] y[k]) && (j < n
                    ==> !d.literal(j).accepts(y[k])) by {
                assert(runs[j - 1][k] == y[k]);
            }
            lemma_variable_run(d, s, j - 1, y);
            let r = steps_from(defs, s, y)->Ok_0;
            assert(Seq::<ItemView>::empty() + token_items(y) =~= token_items(y));
            assert(r.stack =~= seq![
                BuilderView {
                    definition: 0,
                    cursor: j - 1,
                    captures: variable_captures(d, runs, j - 1),
                    open: token_items(runs[j - 1]),
                },
            ]);
        }
    }
}

/// A full match yields one chunk: for a definition that opens with a keyword and
/// has no two variable sections side by side, alone in the registry, tokens that
/// match its sections in order resolve to exactly one chunk, named after it, whose
/// captures are the runs of its variable sections.
pub proof fn lemma_full_match(d: Definition, runs: Seq<Seq<TokenView>>)
    requires
        d.wf(),
        d.keyword_first(),
        no_adjacent_variables(d),
        matches_sections(d, runs),
    ensures
        resolve_spec(seq![d], concat_runs(runs, d.len() as int)) == Ok::<Seq<ChunkView>, ErrorView>(
            seq![match_chunk(d, runs)],
        ),
{
    let n = d.len() as int;
    let defs = seq![d];
    lemma_after_runs(d, runs, n);
    let toks = concat_runs(runs, n);
    let s = steps_spec(defs, toks)->Ok_0;
    if d.literal(n - 1).is_keyword() {
        assert(flush(s.out, s.plain) == s.out);
    } else {
        let b = s.stack[0];
        assert(s.stack.last() == b);
        assert(s.stack.drop_last() =~= Seq::<BuilderView>::empty());
        assert(n >= 2);
        assert(variable_captures(d, runs, n) == variable_captures(d, runs, n - 1).push(
            token_items(runs[n - 1]),
        ));
        assert(b.close().finish(defs) == match_chunk(d, runs));
        let s2 = place(RunState { stack: s.stack.drop_last(), ..s }, b.close().finish(defs));
        assert(s2.out =~= seq![match_chunk(d, runs)]);
        assert(flush(s2.out, s2.plain) == s2.out);
        assert(s2.stack.len() == 0);
        let lp = crate::resolver::last_position(toks);
        assert(end_spec(defs, s2, lp) == Ok::<Seq<ChunkView>, ErrorView>(s2.out));
        assert(end_spec(defs, s, lp) == end_spec(defs, s2, lp));
    }
}

} // verus!
