use vstd::prelude::*;
use crate::span::Span;
use crate::egraph::{EGraph, StateView, state_wf, only_base_values_changed};
use crate::atoms::{AtomTermView, CoreAtomView, CoreFact, CoreFactView, CoreQuery};
use crate::backend_rule::BackendRule;
use crate::error::Error;
use crate::names::entry_value;
use crate::rule::{QueryEntry, RuleBuilder, RulePlanView, PlanAtomView};
use crate::search::{search, empty_env, query_matches};
use crate::translate::{
    TransState, query_plan, query_size, atoms_known, atoms_calls_known, lemma_query_plan_grows,
    lemma_atoms_known_grows, lemma_query_plan_concat, lemma_query_size_concat,
};
use crate::values::BaseValues;
use crate::backend::Backend;
use crate::backend_rule::{has_room, interned_at_most};
use crate::translate::{entries_known, terms_known};
use crate::merge::{lemma_grows_refl, lemma_grows_trans};

verus! {

/// A translation that has bound nothing yet.
pub open spec fn no_bindings() -> TransState {
    TransState { entries: Seq::empty(), n_vars: 0 }
}

/// Whether the query, with subsumed rows skipped and, for functions that
/// track facts, only asserted facts, has a match in the state's tables.
pub open spec fn query_holds(v: StateView, bv: BaseValues, atoms: Seq<CoreAtomView>) -> bool {
    let (st, pa) = query_plan(v.function_names, v.functions, bv, no_bindings(), atoms, false, true);
    search(v.tables, pa, 0, empty_env(st.n_vars))
}

/// The fact is a single call of a function that tracks facts.
pub open spec fn fact_tracked(v: StateView, f: CoreFactView) -> bool {
    &&& f.head matches Some(name)
    &&& entry_value(v.function_names, name) matches Some(i)
    &&& v.functions[i as int].decl.fact_tracking
}

/// The atoms of all facts, in order.
pub open spec fn facts_atoms(facts: Seq<CoreFactView>) -> Seq<CoreAtomView>
    decreases facts.len(),
{
    if facts.len() == 0 {
        Seq::empty()
    } else {
        facts_atoms(facts.drop_last()) + facts.last().query
    }
}

/// The number of terms of all facts.
pub open spec fn facts_size(facts: Seq<CoreFactView>) -> nat {
    query_size(facts_atoms(facts))
}

/// The facts hold: each fact that is a single call of a function that
/// tracks facts matches asserted facts on its own, and all facts together
/// have a match.
pub open spec fn facts_hold(v: StateView, bv: BaseValues, facts: Seq<CoreFactView>) -> bool {
    &&& forall|i: int| 0 <= i < facts.len() ==> (fact_tracked(v, #[trigger] facts[i]) ==> query_holds(v, bv, facts[i].query))
    &&& query_holds(v, bv, facts_atoms(facts))
}

/// How the facts are written.
pub open spec fn fact_texts(facts: Seq<CoreFactView>) -> Seq<Seq<char>> {
    facts.map_values(|f: CoreFactView| f.text)
}

pub proof fn lemma_facts_size_prefix(facts: Seq<CoreFactView>, k: int)
    requires
        0 <= k <= facts.len(),
    ensures
        facts_size(facts.take(k)) <= facts_size(facts),
        k < facts.len() ==> facts_size(facts.take(k + 1)) == facts_size(facts.take(k)) + query_size(facts[k].query),
        k < facts.len() ==> facts_atoms(facts.take(k + 1)) == facts_atoms(facts.take(k)) + facts[k].query,
    decreases facts.len(),
{
    if k < facts.len() {
        assert(facts.take(k + 1).drop_last() =~= facts.take(k));
        assert(facts.take(k + 1).last() == facts[k]);
        lemma_query_size_concat(facts_atoms(facts.take(k)), facts[k].query);
        lemma_query_size_concat(facts_atoms(facts.drop_last()), facts.last().query);
        lemma_facts_size_prefix(facts.drop_last(), k);
        assert(facts.drop_last().take(k) =~= facts.take(k));
    } else {
        assert(facts.take(k) =~= facts);
    }
}

fn fact_texts_exec(facts: &Vec<CoreFact>) -> (r: Vec<String>)
    ensures
        r@.map_values(|s: String| s@) == fact_texts(facts@.map_values(|f: CoreFact| f@)),
{
    let mut r: Vec<String> = Vec::new();
    let mut i: usize = 0;
    while i < facts.len()
        invariant
            0 <= i <= facts@.len(),
            r@.len() == i,
            forall|k: int| 0 <= k < i ==> #[trigger] r@[k]@ == facts@[k]@.text,
        decreases facts@.len() - i,
    {
        r.push(facts[i].text.clone());
        i = i + 1;
    }
    assert(r@.map_values(|s: String| s@) =~= fact_texts(facts@.map_values(|f: CoreFact| f@)));
    r
}

impl EGraph {
    /// Whether one query has a match of asserted facts.
    fn check_query(&mut self, q: &CoreQuery) -> (b: bool)
        requires
            old(self).wf(),
            atoms_calls_known(old(self)@.function_names, q@),
            query_size(q@) < usize::MAX,
            old(self)@.ints.len() + query_size(q@) < u32::MAX,
            old(self)@.strings.len() + query_size(q@) < u32::MAX,
        ensures
            final(self).wf(),
            final(self).pushed_views() == old(self).pushed_views(),
            only_base_values_changed(old(self)@, final(self)@),
            final(self).bv().grows_from(&old(self).bv()),
            final(self)@.ints.len() <= old(self)@.ints.len() + query_size(q@),
            final(self)@.strings.len() <= old(self)@.strings.len() + query_size(q@),
            atoms_known(final(self).bv(), q@),
            b == query_holds(old(self)@, final(self).bv(), q@),
    {
        let rb = RuleBuilder::new(String::from_str("check_fact"), false);
        let mut tr = BackendRule::new(rb, &self.state.function_list, &self.state.functions);
        proof {
            assert(tr.state() == no_bindings());
            assert(tr.plan().atoms + query_plan(old(self)@.function_names, old(self)@.functions, self.bv(), no_bindings(), q@, false, true).1
                =~= query_plan(old(self)@.function_names, old(self)@.functions, self.bv(), no_bindings(), q@, false, true).1);
        }
        tr.query(&mut self.state.backend, q, false, true);
        let plan = tr.build();
        proof {
            self.lemma_backend_change_keeps_wf(old(self));
            let pa = query_plan(old(self)@.function_names, old(self)@.functions, self.bv(), no_bindings(), q@, false, true).1;
            assert(plan@.atoms =~= pa);
        }
        query_matches(&self.state.backend, &plan)
    }
}

/// The facts call declared functions, and their terms leave room for the
/// values they may intern.
pub open spec fn check_ok(v: StateView, facts: Seq<CoreFactView>) -> bool {
    &&& forall|i: int| 0 <= i < facts.len() ==> atoms_calls_known(v.function_names, (#[trigger] facts[i]).query)
    &&& 2 * facts_size(facts) < usize::MAX
    &&& v.ints.len() + 2 * facts_size(facts) < u32::MAX
    &&& v.strings.len() + 2 * facts_size(facts) < u32::MAX
}

/// What checking facts does: it succeeds exactly when the facts hold, fails
/// with every fact written out and the check's span otherwise, and changes
/// nothing but the interned values.
pub open spec fn check_post(v0: StateView, span: Span, facts: Seq<CoreFactView>, v1: StateView, bv1: BaseValues, r: Result<(), Error>) -> bool {
    &&& only_base_values_changed(v0, v1)
    &&& (r is Ok) == facts_hold(v0, bv1, facts)
    &&& r matches Err(e) ==> (e matches Error::CheckError(ts, sp) && ts@.map_values(|s: String| s@) == fact_texts(facts) && sp == span)
}

/// The views of the facts.
pub open spec fn facts_view(facts: Seq<CoreFact>) -> Seq<CoreFactView> {
    facts.map_values(|f: CoreFact| f@)
}

/// Adds the atoms of all facts to a translation, in order.
fn translate_facts(tr: &mut BackendRule, backend: &mut Backend, facts: &Vec<CoreFact>)
    requires
        old(tr).wf(),
        old(backend).wf(),
        old(tr).state() == no_bindings(),
        old(tr).plan().atoms == Seq::<PlanAtomView>::empty(),
        forall|i: int| 0 <= i < facts@.len() ==> atoms_calls_known(old(tr).names(), (#[trigger] facts@[i])@.query),
        facts_size(facts_view(facts@)) < usize::MAX,
        has_room(*old(backend), facts_size(facts_view(facts@))),
    ensures
        final(tr).wf(),
        final(tr).names() == old(tr).names(),
        final(tr).fns() == old(tr).fns(),
        interned_at_most(*old(backend), *final(backend), facts_size(facts_view(facts@))),
        atoms_known(final(backend).bv(), facts_atoms(facts_view(facts@))),
        ({
            let (st, pa) = query_plan(old(tr).names(), old(tr).fns(), final(backend).bv(), no_bindings(),
                facts_atoms(facts_view(facts@)), false, true);
            &&& final(tr).plan().atoms == pa
            &&& final(tr).plan().n_vars == st.n_vars
        }),
{
    let ghost fv = facts_view(facts@);
    let ghost names = old(tr).names();
    let ghost fns = old(tr).fns();
    let ghost b0 = *old(backend);
    let mut j: usize = 0;
    proof {
        lemma_grows_refl(backend.bv());
        assert(fv.take(0) =~= Seq::<CoreFactView>::empty());
        assert(facts_atoms(fv.take(0)) =~= Seq::<CoreAtomView>::empty());
    }
    while j < facts.len()
        invariant
            0 <= j <= facts@.len(),
            fv == facts_view(facts@),
            fv.len() == facts@.len(),
            names == old(tr).names(),
            fns == old(tr).fns(),
            b0 == *old(backend),
            b0.wf(),
            forall|i: int| 0 <= i < facts@.len() ==> atoms_calls_known(names, (#[trigger] facts@[i])@.query),
            facts_size(fv) < usize::MAX,
            has_room(b0, facts_size(fv)),
            tr.wf(),
            tr.names() == names,
            tr.fns() == fns,
            backend.wf(),
            interned_at_most(b0, *backend, facts_size(fv.take(j as int))),
            entries_known(backend.bv(), tr.state().entries),
            atoms_known(backend.bv(), facts_atoms(fv.take(j as int))),
            ({
                let (st, pa) = query_plan(names, fns, backend.bv(), no_bindings(), facts_atoms(fv.take(j as int)), false, true);
                &&& tr.state() == st
                &&& tr.plan().atoms == pa
                &&& tr.plan().n_vars == st.n_vars
            }),
            tr.plan().n_vars <= facts_size(fv.take(j as int)),
        decreases facts@.len() - j,
    {
        let ghost before = *backend;
        let ghost prefix = facts_atoms(fv.take(j as int));
        proof {
            lemma_facts_size_prefix(fv, j as int);
            lemma_facts_size_prefix(fv, j as int + 1);
            assert(fv[j as int] == facts@[j as int]@);
        }
        tr.query(backend, &facts[j].query, false, true);
        proof {
            before.lemma_bv_wf();
            backend.lemma_bv_wf();
            lemma_query_plan_grows(names, fns, before.bv(), backend.bv(), no_bindings(), prefix, false, true);
            lemma_atoms_known_grows(before.bv(), backend.bv(), prefix);
            lemma_grows_trans(b0.bv(), before.bv(), backend.bv());
            lemma_query_plan_concat(names, fns, backend.bv(), no_bindings(), prefix, fv[j as int].query, false, true);
            let q = fv[j as int].query;
            let whole = prefix + q;
            assert(facts_atoms(fv.take(j + 1)) == whole);
            assert forall|i: int| 0 <= i < whole.len() implies terms_known(backend.bv(), #[trigger] whole[i].args) by {
                if i < prefix.len() {
                    assert(whole[i] == prefix[i]);
                } else {
                    assert(whole[i] == q[i - prefix.len()]);
                }
            }
        }
        j = j + 1;
    }
    proof {
        assert(fv.take(j as int) =~= fv);
    }
}

impl EGraph {
    /// Whether all facts together have a match of asserted facts.
    fn check_all(&mut self, facts: &Vec<CoreFact>) -> (b: bool)
        requires
            old(self).wf(),
            forall|i: int| 0 <= i < facts@.len() ==> atoms_calls_known(old(self)@.function_names, (#[trigger] facts@[i])@.query),
            facts_size(facts_view(facts@)) < usize::MAX,
            old(self)@.ints.len() + facts_size(facts_view(facts@)) < u32::MAX,
            old(self)@.strings.len() + facts_size(facts_view(facts@)) < u32::MAX,
        ensures
            final(self).wf(),
            final(self).pushed_views() == old(self).pushed_views(),
            only_base_values_changed(old(self)@, final(self)@),
            final(self).bv().grows_from(&old(self).bv()),
            final(self)@.ints.len() <= old(self)@.ints.len() + facts_size(facts_view(facts@)),
            final(self)@.strings.len() <= old(self)@.strings.len() + facts_size(facts_view(facts@)),
            b == query_holds(old(self)@, final(self).bv(), facts_atoms(facts_view(facts@))),
    {
        let rb = RuleBuilder::new(String::from_str("check_facts"), false);
        let mut tr = BackendRule::new(rb, &self.state.function_list, &self.state.functions);
        proof {
            assert(tr.state() == no_bindings());
            assert(tr.plan().atoms =~= Seq::<PlanAtomView>::empty());
        }
        translate_facts(&mut tr, &mut self.state.backend, facts);
        let plan = tr.build();
        proof {
            self.lemma_backend_change_keeps_wf(old(self));
        }
        query_matches(&self.state.backend, &plan)
    }

    /// Checks facts: each fact that is a single call of a function that
    /// tracks facts must match asserted facts on its own, then all facts
    /// together must have a match. A failure reports every fact.
    pub fn check_facts(&mut self, span: &Span, facts: &Vec<CoreFact>) -> (r: Result<(), Error>)
        requires
            old(self).wf(),
            check_ok(old(self)@, facts_view(facts@)),
        ensures
            final(self).wf(),
            final(self).pushed_views() == old(self).pushed_views(),
            check_post(old(self)@, *span, facts_view(facts@), final(self)@, final(self).bv(), r),
    {
        let ghost fv = facts_view(facts@);
        let ghost v0 = old(self)@;
        let mut i: usize = 0;
        proof {
            assert forall|k: int| 0 <= k < facts@.len() implies atoms_calls_known(v0.function_names, (#[trigger] facts@[k])@.query) by {
                assert(fv[k] == facts@[k]@);
            }
        }
        proof {
            lemma_grows_refl(self.bv());
            assert(fv.take(0) =~= Seq::<CoreFactView>::empty());
        }
        while i < facts.len()
            invariant
                0 <= i <= facts@.len(),
                fv == facts_view(facts@),
                fv.len() == facts@.len(),
                v0 == old(self)@,
                self.wf(),
                self.pushed_views() == old(self).pushed_views(),
                only_base_values_changed(v0, self@),
                self.bv().grows_from(&old(self).bv()),
                forall|k: int| 0 <= k < facts@.len() ==> atoms_calls_known(v0.function_names, (#[trigger] facts@[k])@.query),
                2 * facts_size(fv) < usize::MAX,
                v0.ints.len() + 2 * facts_size(fv) < u32::MAX,
                v0.strings.len() + 2 * facts_size(fv) < u32::MAX,
                self@.ints.len() <= v0.ints.len() + facts_size(fv.take(i as int)),
                self@.strings.len() <= v0.strings.len() + facts_size(fv.take(i as int)),
                forall|k: int| 0 <= k < i ==> fact_tracked(v0, #[trigger] fv[k]) ==> query_holds(v0, self.bv(), fv[k].query)
                    && atoms_known(self.bv(), fv[k].query),
            decreases facts@.len() - i,
        {
            let ghost before = *self;
            proof {
                lemma_facts_size_prefix(fv, i as int);
                lemma_facts_size_prefix(fv, i as int + 1);
                assert(fv[i as int] == facts@[i as int]@);
                lemma_query_size_le(fv, i as int);
            }
            let fact = &facts[i];
            let mut tracked_fact = false;
            match &fact.head {
                Some(f) => match self.find_function(f.as_str()) {
                    Some(fi) => {
                        tracked_fact = self.state.function_list[fi].fact_tracking();
                        assert(self.state.function_list@[fi as int]@ == self@.functions[fi as int]);
                    },
                    None => {},
                },
                None => {},
            }
            assert(tracked_fact == fact_tracked(v0, fv[i as int]));
            if tracked_fact {
                let ok = self.check_query(&fact.query);
                if !ok {
                    return Err(Error::CheckError(fact_texts_exec(facts), span.clone()));
                }
                proof {
                    self.state.backend.lemma_bv_wf();
                    before.state.backend.lemma_bv_wf();
                    assert(before@.function_names == v0.function_names);
                    assert(before@.functions == v0.functions);
                    assert(before@.tables == v0.tables);
                    assert forall|k: int| 0 <= k < i + 1 && fact_tracked(v0, #[trigger] fv[k]) implies query_holds(v0, self.bv(), fv[k].query)
                        && atoms_known(self.bv(), fv[k].query) by {
                        if k < i {
                            lemma_query_plan_grows(v0.function_names, v0.functions, before.bv(), self.bv(), no_bindings(), fv[k].query, false, true);
                            lemma_atoms_known_grows(before.bv(), self.bv(), fv[k].query);
                        }
                    }
                    lemma_grows_trans(old(self).bv(), before.bv(), self.bv());
                }
            }
            i = i + 1;
        }
        proof {
            assert(fv.take(i as int) =~= fv);
        }
        let ghost mid = *self;
        let all = self.check_all(facts);
        proof {
            mid.state.backend.lemma_bv_wf();
            self.state.backend.lemma_bv_wf();
            lemma_grows_trans(old(self).bv(), mid.bv(), self.bv());
            assert forall|k: int| 0 <= k < fv.len() && fact_tracked(v0, #[trigger] fv[k]) implies query_holds(v0, self.bv(), fv[k].query) by {
                lemma_query_plan_grows(v0.function_names, v0.functions, mid.bv(), self.bv(), no_bindings(), fv[k].query, false, true);
            }
        }
        if all {
            Ok(())
        } else {
            Err(Error::CheckError(fact_texts_exec(facts), span.clone()))
        }
    }
}

/// One fact has at most as many terms as all of them.
pub proof fn lemma_query_size_le(facts: Seq<CoreFactView>, k: int)
    requires
        0 <= k < facts.len(),
    ensures
        query_size(facts[k].query) <= facts_size(facts),
{
    lemma_facts_size_prefix(facts, k);
    lemma_facts_size_prefix(facts, k + 1);
}

} // verus!
