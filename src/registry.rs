//! The registry of macro definitions, with its lookup priority.
use vstd::prelude::*;
use crate::definition::{Definition, str_eq};
use crate::error::{Error, ErrorView};
use crate::token::{Token, TokenView};

verus! {

/// Whether some definition in `defs` bears this name.
pub open spec fn has_name(defs: Seq<Definition>, name: Seq<char>) -> bool {
    exists|i: int| 0 <= i < defs.len() && #[trigger] defs[i].name@ == name
}

/// No two definitions share a name.
pub open spec fn names_unique(defs: Seq<Definition>) -> bool {
    forall|i: int, j: int|
        0 <= i < defs.len() && 0 <= j < defs.len() && i != j ==> #[trigger] defs[i].name@
            != #[trigger] defs[j].name@
}

/// What registering `s` in order leaves: each definition whose name was not taken
/// by an earlier one.
pub open spec fn first_of_each_name(s: Seq<Definition>) -> Seq<Definition>
    decreases s.len(),
{
    if s.len() == 0 {
        Seq::empty()
    } else {
        let prev = first_of_each_name(s.drop_last());
        if has_name(prev, s.last().name@) {
            prev
        } else {
            prev.push(s.last())
        }
    }
}

/// Whether definition `d` may start on `t` and has the asked kind of first section.
pub open spec fn candidate(d: Definition, t: TokenView, at_line_start: bool, keyword: bool) -> bool {
    d.triggers_on(t, at_line_start) && d.keyword_first() == keyword
}

/// The first index from `i` on of a candidate.
pub open spec fn find_from(
    defs: Seq<Definition>,
    t: TokenView,
    at_line_start: bool,
    keyword: bool,
    i: int,
) -> Option<int>
    decreases defs.len() - i,
{
    if i < 0 || i >= defs.len() {
        None
    } else if candidate(defs[i], t, at_line_start, keyword) {
        Some(i)
    } else {
        find_from(defs, t, at_line_start, keyword, i + 1)
    }
}

/// The definition chosen for `t`: the first registered one whose first section is
/// a keyword accepting `t`, else the first registered one opening with a variable;
/// only line-start-eligible ones count.
pub open spec fn lookup_spec(defs: Seq<Definition>, t: TokenView, at_line_start: bool) -> Option<int> {
    match find_from(defs, t, at_line_start, true, 0) {
        Some(i) => Some(i),
        None => find_from(defs, t, at_line_start, false, 0),
    }
}

/// The first candidate from `i` on is the least index from `i` on that is a candidate.
pub proof fn lemma_find_from(defs: Seq<Definition>, t: TokenView, als: bool, keyword: bool, i: int)
    requires
        0 <= i,
    ensures
        match find_from(defs, t, als, keyword, i) {
            Some(k) => i <= k < defs.len() && candidate(defs[k], t, als, keyword) && forall|j: int|
                i <= j < k ==> !candidate(#[trigger] defs[j], t, als, keyword),
            None => forall|j: int|
                i <= j < defs.len() ==> !candidate(#[trigger] defs[j], t, als, keyword),
        },
    decreases defs.len() - i,
{
    if i < defs.len() && !candidate(defs[i], t, als, keyword) {
        lemma_find_from(defs, t, als, keyword, i + 1);
    }
}

/// Lookup priority: whenever a definition opening with a keyword may start on a token,
/// the one chosen opens with a keyword, and it is the first such one registered; a
/// definition opening with a variable is chosen only when no keyword one applies, and
/// then the first registered one.
pub proof fn lemma_lookup_priority(defs: Seq<Definition>, t: TokenView, als: bool)
    ensures
        (exists|j: int| 0 <= j < defs.len() && candidate(#[trigger] defs[j], t, als, true)) ==> {
            &&& lookup_spec(defs, t, als) is Some
            &&& candidate(defs[lookup_spec(defs, t, als)->0], t, als, true)
            &&& forall|j: int|
                0 <= j < lookup_spec(defs, t, als)->0 ==> !candidate(
                    #[trigger] defs[j],
                    t,
                    als,
                    true,
                )
        },
        lookup_spec(defs, t, als) matches Some(k) ==> 0 <= k < defs.len() && defs[k].triggers_on(
            t,
            als,
        ),
        (forall|j: int| 0 <= j < defs.len() ==> !(#[trigger] defs[j]).triggers_on(t, als))
            ==> lookup_spec(defs, t, als) is None,
        lookup_spec(defs, t, als) is Some && !defs[lookup_spec(defs, t, als)->0].keyword_first()
            ==> forall|j: int|
            0 <= j < lookup_spec(defs, t, als)->0 ==> !(#[trigger] defs[j]).triggers_on(t, als),
{
    lemma_find_from(defs, t, als, true, 0);
    lemma_find_from(defs, t, als, false, 0);
    if lookup_spec(defs, t, als) is None {
        assert forall|j: int| 0 <= j < defs.len() implies !(#[trigger] defs[j]).triggers_on(t, als) by {
            if defs[j].keyword_first() {
                assert(!candidate(defs[j], t, als, true));
            } else {
                assert(!candidate(defs[j], t, als, false));
            }
        }
    }
    if lookup_spec(defs, t, als) is Some && !defs[lookup_spec(defs, t, als)->0].keyword_first() {
        let k = lookup_spec(defs, t, als)->0;
        assert forall|j: int| 0 <= j < k implies !(#[trigger] defs[j]).triggers_on(t, als) by {
            if defs[j].keyword_first() {
                assert(!candidate(defs[j], t, als, true));
            } else {
                assert(!candidate(defs[j], t, als, false));
            }
        }
    }
}

/// Duplicate registration: once a definition is registered under a free name, any
/// later definition of that name finds the name taken, so `insert` refuses it and
/// leaves the registry holding the first.
pub proof fn lemma_second_of_name_refused(defs: Seq<Definition>, first: Definition, second: Definition)
    requires
        !has_name(defs, first.name@),
        second.name@ == first.name@,
    ensures
        has_name(defs.push(first), second.name@),
        defs.push(first).last() == first,
{
    assert(defs.push(first)[defs.len() as int].name@ == second.name@);
}

/// The grammar index: definitions in registration order, names unique.
#[derive(Debug)]
pub struct Registry {
    pub definitions: Vec<Definition>,
}

impl Registry {
    pub open spec fn defs(self) -> Seq<Definition> {
        self.definitions@
    }

    pub open spec fn wf(self) -> bool {
        &&& names_unique(self.defs())
        &&& forall|i: int| 0 <= i < self.defs().len() ==> (#[trigger] self.defs()[i]).wf()
    }

    /// An empty registry.
    pub fn new() -> (r: Registry)
        ensures
            r.wf(),
            r.defs().len() == 0,
    {
        Registry { definitions: Vec::new() }
    }

    /// Whether a definition of this name is registered.
    pub fn contains_name(&self, name: &String) -> (r: bool)
        ensures
            r == has_name(self.defs(), name@),
    {
        let mut i: usize = 0;
        while i < self.definitions.len()
            invariant
                i <= self.defs().len(),
                forall|j: int| 0 <= j < i ==> self.defs()[j].name@ != name@,
            decreases self.defs().len() - i,
        {
            if str_eq(self.definitions[i].name.as_str(), name.as_str()) {
                return true;
            }
            i = i + 1;
        }
        false
    }

    /// Registers `definition`. A name already taken is refused with
    /// `DuplicateMacroName`, and the registry is left as it was: the first
    /// registration of a name stays authoritative.
    pub fn insert(&mut self, definition: Definition) -> (r: Result<(), Error>)
        requires
            old(self).wf(),
            definition.wf(),
        ensures
            final(self).wf(),
            has_name(old(self).defs(), definition.name@) ==> {
                &&& r matches Err(e) && e@ == ErrorView::DuplicateMacroName { name: definition.name@ }
                &&& final(self).defs() == old(self).defs()
            },
            !has_name(old(self).defs(), definition.name@) ==> {
                &&& r is Ok
                &&& final(self).defs() == old(self).defs().push(definition)
            },
    {
        if self.contains_name(&definition.name) {
            return Err(Error::DuplicateMacroName { name: definition.name });
        }
        self.definitions.push(definition);
        Ok(())
    }

    /// A registry holding `macros`, registered in order; a later definition whose
    /// name is already taken is left out.
    pub fn from_definitions(macros: Vec<Definition>) -> (r: Registry)
        requires
            forall|i: int| 0 <= i < macros@.len() ==> (#[trigger] macros@[i]).wf(),
        ensures
            r.wf(),
            r.defs() == first_of_each_name(macros@),
    {
        let mut reg = Registry::new();
        let mut rest = macros;
        let ghost all = macros@;
        let ghost n = macros@.len();
        while rest.len() > 0
            invariant
                reg.wf(),
                rest@.len() <= n,
                n == all.len(),
                forall|i: int| 0 <= i < all.len() ==> (#[trigger] all[i]).wf(),
                rest@ == all.subrange(n - rest@.len(), n as int),
                reg.defs() == first_of_each_name(all.take(n - rest@.len())),
            decreases rest@.len(),
        {
            let ghost k = n - rest@.len();
            assert(rest@[0] == all[k]);
            let d = rest.remove(0);
            assert(rest@ =~= all.subrange(n - rest@.len(), n as int));
            assert(all.take(k + 1).drop_last() =~= all.take(k));
            let _ = reg.insert(d);
        }
        assert(all.take(n as int) =~= all);
        reg
    }

    /// The definition chosen for `t` under the lookup priority.
    pub fn lookup(&self, t: &Token, at_line_start: bool) -> (r: Option<usize>)
        requires
            self.wf(),
        ensures
            r matches Some(k) ==> lookup_spec(self.defs(), t@, at_line_start) == Some(k as int) && k
                < self.defs().len(),
            r is None ==> lookup_spec(self.defs(), t@, at_line_start) is None,
    {
        proof {
            lemma_lookup_priority(self.defs(), t@, at_line_start);
        }
        match self.find(t, at_line_start, true) {
            Some(i) => Some(i),
            None => self.find(t, at_line_start, false),
        }
    }

    /// The first registered definition that may start on `t` and whose first section
    /// is a keyword (`keyword`) or a variable (`!keyword`).
    pub fn find(&self, t: &Token, at_line_start: bool, keyword: bool) -> (r: Option<usize>)
        requires
            self.wf(),
        ensures
            r matches Some(k) ==> find_from(self.defs(), t@, at_line_start, keyword, 0) == Some(k as int)
                && k < self.defs().len(),
            r is None ==> find_from(self.defs(), t@, at_line_start, keyword, 0) is None,
    {
        proof {
            lemma_find_from(self.defs(), t@, at_line_start, keyword, 0);
        }
        let mut i: usize = 0;
        while i < self.definitions.len()
            invariant
                self.wf(),
                i <= self.defs().len(),
                find_from(self.defs(), t@, at_line_start, keyword, 0) == find_from(
                    self.defs(),
                    t@,
                    at_line_start,
                    keyword,
                    i as int,
                ),
            decreases self.defs().len() - i,
        {
            let d = &self.definitions[i];
            let lit = &d.sections[0].literal;
            if lit.accepts_token(t) && (!d.line_start_only || at_line_start)
                && lit.is_keyword_exec() == keyword {
                return Some(i);
            }
            i = i + 1;
        }
        None
    }
}

} // verus!
