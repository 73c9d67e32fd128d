use vstd::prelude::*;
use crate::span::Span;
use crate::egraph::{EGraph, EGraphState, Ruleset, RulesetView, StateView, state_wf, combined_refers_back, rule_ids_valid};
use crate::names::{names_unique, entry_pos, name_entries, name_map_get, name_map_insert, name_map_len, name_map_new, lemma_entry_pos_unique};
use crate::sorts::{Function, FunctionView};
use crate::atoms::{CoreActionView, CoreAtomView, CoreRule};
use crate::backend_rule::BackendRule;
use crate::error::Error;
use crate::egraph::only_base_values_changed;
use crate::rule::{QueryEntry, RuleBuilder, RulePlanView};
use crate::translate::{rule_plan, TransState, query_plan, actions_plan, query_size, actions_size, atoms_calls_known, actions_heads_ok, lemma_query_plan_grows};
use crate::atoms::AtomTermView;
use crate::values::BaseValues;

verus! {

/// A name that is new keeps the positions of the other names.
pub proof fn lemma_entry_pos_push(e: Seq<(Seq<char>, usize)>, x: (Seq<char>, usize), k: Seq<char>)
    requires
        names_unique(e.push(x)),
        k != x.0,
    ensures
        entry_pos(e.push(x), k) == entry_pos(e, k),
{
    let f = e.push(x);
    if let Some(p) = entry_pos(e, k) {
        assert(f[p] == e[p]);
        lemma_entry_pos_unique(f, k, p);
    } else {
        if exists|i: int| 0 <= i < f.len() && f[i].0 == k {
            let i = choose|i: int| 0 <= i < f.len() && f[i].0 == k;
            assert(i < e.len());
            assert(e[i].0 == k);
        }
    }
}

/// The state after a ruleset is added under a new name.
pub open spec fn with_ruleset(v: StateView, name: Seq<char>, r: RulesetView) -> StateView {
    StateView {
        ruleset_names: v.ruleset_names.push((name, v.rulesets.len() as usize)),
        rulesets: v.rulesets.push(r),
        ..v
    }
}

impl EGraph {
    proof fn lemma_with_ruleset_wf(v: StateView, name: Seq<char>, r: RulesetView)
        requires
            state_wf(v),
            entry_pos(v.ruleset_names, name) is None,
            combined_refers_back(with_ruleset(v, name, r).ruleset_names, with_ruleset(v, name, r).rulesets, v.rulesets.len() as int),
            rule_ids_valid(with_ruleset(v, name, r).rulesets, v.rules.len(), v.rulesets.len() as int),
        ensures
            state_wf(with_ruleset(v, name, r)),
    {
        let w = with_ruleset(v, name, r);
        let n = v.rulesets.len() as int;
        assert forall|i: int, j: int| 0 <= i < j < w.ruleset_names.len() implies w.ruleset_names[i].0 != w.ruleset_names[j].0 by {
            if j == n {
                assert(v.ruleset_names[i].0 != name);
            } else {
                assert(v.ruleset_names[i].0 != v.ruleset_names[j].0);
            }
        }
        assert forall|i: int| 0 <= i < w.rulesets.len() implies #[trigger] w.ruleset_names[i] == (w.ruleset_names[i].0, i as usize) by {
            if i < n {
                assert(v.ruleset_names[i] == (v.ruleset_names[i].0, i as usize));
            }
        }
        assert forall|i: int| 0 <= i < w.rulesets.len() implies #[trigger] combined_refers_back(w.ruleset_names, w.rulesets, i) by {
            if i < n {
                assert(combined_refers_back(v.ruleset_names, v.rulesets, i));
                assert(w.rulesets[i] == v.rulesets[i]);
                if let RulesetView::Combined(subs) = v.rulesets[i] {
                    assert forall|k: int| 0 <= k < subs.len() implies {
                        let p = entry_pos(w.ruleset_names, #[trigger] subs[k]);
                        p is Some && p->0 < i
                    } by {
                        let p = entry_pos(v.ruleset_names, subs[k]);
                        assert(p is Some);
                        assert(subs[k] != name);
                        lemma_entry_pos_push(v.ruleset_names, (name, n as usize), subs[k]);
                    }
                }
            }
        }
        assert forall|i: int| 0 <= i < w.rulesets.len() implies #[trigger] rule_ids_valid(w.rulesets, w.rules.len(), i) by {
            if i < n {
                assert(rule_ids_valid(v.rulesets, v.rules.len(), i));
                assert(w.rulesets[i] == v.rulesets[i]);
            }
        }
    }

    /// Adds an empty ruleset. The name must be new.
    pub fn add_ruleset(&mut self, name: String)
        requires
            old(self).wf(),
            entry_pos(old(self)@.ruleset_names, name@) is None,
        ensures
            final(self).wf(),
            final(self).pushed_views() == old(self).pushed_views(),
            final(self)@ == with_ruleset(old(self)@, name@, RulesetView::Rules(Seq::empty())),
    {
        let n = self.state.ruleset_list.len();
        let ghost v = self@;
        let _ = name_map_insert(&mut self.state.rulesets, name, n);
        self.state.ruleset_list.push(Ruleset::Rules(name_map_new()));
        proof {
            let w = with_ruleset(v, name@, RulesetView::Rules(Seq::empty()));
            assert(self@.rulesets =~= w.rulesets);
            assert(self@ == w);
            Self::lemma_with_ruleset_wf(v, name@, RulesetView::Rules(Seq::empty()));
        }
    }

    /// Adds a ruleset that runs the rules of other rulesets, named by
    /// `rulesets`. The name must be new and the others must exist.
    pub fn add_combined_ruleset(&mut self, name: String, rulesets: Vec<String>)
        requires
            old(self).wf(),
            entry_pos(old(self)@.ruleset_names, name@) is None,
            forall|k: int| 0 <= k < rulesets@.len() ==> entry_pos(old(self)@.ruleset_names, #[trigger] rulesets@[k]@) is Some,
        ensures
            final(self).wf(),
            final(self).pushed_views() == old(self).pushed_views(),
            final(self)@ == with_ruleset(old(self)@, name@, RulesetView::Combined(rulesets@.map_values(|s: String| s@))),
    {
        let n = self.state.ruleset_list.len();
        let ghost v = self@;
        let ghost subs = rulesets@.map_values(|s: String| s@);
        let _ = name_map_insert(&mut self.state.rulesets, name, n);
        self.state.ruleset_list.push(Ruleset::Combined(rulesets));
        proof {
            let r = RulesetView::Combined(subs);
            let w = with_ruleset(v, name@, r);
            assert(self@.rulesets =~= w.rulesets);
            assert(self@ == w);
            assert forall|k: int| 0 <= k < subs.len() implies {
                let p = entry_pos(w.ruleset_names, #[trigger] subs[k]);
                p is Some && p->0 < n
            } by {
                assert(subs[k] == rulesets@[k]@);
                let p = entry_pos(v.ruleset_names, subs[k]);
                assert(p is Some);
                assert(subs[k] != name@);
                lemma_entry_pos_push(v.ruleset_names, (name@, n), subs[k]);
            }
            assert(names_unique(w.ruleset_names)) by {
                assert forall|i: int, j: int| 0 <= i < j < w.ruleset_names.len() implies w.ruleset_names[i].0 != w.ruleset_names[j].0 by {
                    if j == n as int {
                        assert(v.ruleset_names[i].0 != name@);
                    } else {
                        assert(v.ruleset_names[i].0 != v.ruleset_names[j].0);
                    }
                }
            }
            assert(combined_refers_back(w.ruleset_names, w.rulesets, n as int));
            Self::lemma_with_ruleset_wf(v, name@, r);
        }
    }
}

/// The rule ids a ruleset runs: its own rules in order, or those of the
/// rulesets it combines, in order.
pub open spec fn rule_ids(names: Seq<(Seq<char>, usize)>, rulesets: Seq<RulesetView>, i: nat) -> Seq<usize>
    decreases i, 1nat, 0nat,
{
    if i < rulesets.len() {
        match rulesets[i as int] {
            RulesetView::Rules(rules) => rules.map_values(|e: (Seq<char>, usize)| e.1),
            RulesetView::Combined(subs) => subs_rule_ids(names, rulesets, i, subs),
        }
    } else {
        Seq::empty()
    }
}

pub open spec fn subs_rule_ids(names: Seq<(Seq<char>, usize)>, rulesets: Seq<RulesetView>, i: nat, subs: Seq<Seq<char>>) -> Seq<usize>
    decreases i, 0nat, subs.len(),
{
    if subs.len() == 0 {
        Seq::empty()
    } else {
        let p = entry_pos(names, subs.last());
        subs_rule_ids(names, rulesets, i, subs.drop_last()) + if p is Some && 0 <= p->0 < i {
            rule_ids(names, rulesets, p->0 as nat)
        } else {
            Seq::empty()
        }
    }
}

impl EGraph {
    fn collect_at(&self, i: usize, ids: &mut Vec<usize>)
        requires
            self.wf(),
            i < self@.rulesets.len(),
        ensures
            final(ids)@ == old(ids)@ + rule_ids(self@.ruleset_names, self@.rulesets, i as nat),
        decreases i,
    {
        let ghost names = self@.ruleset_names;
        let ghost rs = self@.rulesets;
        assert(rs[i as int] == self.state.ruleset_list@[i as int]@);
        match &self.state.ruleset_list[i] {
            Ruleset::Rules(m) => {
                let n = name_map_len(m);
                let ghost es = name_entries(*m);
                let mut k: usize = 0;
                assert(old(ids)@ + es.take(0).map_values(|e: (Seq<char>, usize)| e.1) =~= old(ids)@);
                while k < n
                    invariant
                        0 <= k <= n,
                        n == es.len(),
                        es == name_entries(*m),
                        ids@ == old(ids)@ + es.take(k as int).map_values(|e: (Seq<char>, usize)| e.1),
                    decreases n - k,
                {
                    let (_, id) = crate::names::name_map_get_index(m, k);
                    ids.push(id);
                    k = k + 1;
                    assert(es.take(k as int).map_values(|e: (Seq<char>, usize)| e.1)
                        =~= es.take(k - 1).map_values(|e: (Seq<char>, usize)| e.1).push(es[k - 1].1));
                }
                assert(es.take(k as int) =~= es);
            },
            Ruleset::Combined(subs) => {
                let ghost sv = subs@.map_values(|s: String| s@);
                assert(combined_refers_back(names, rs, i as int));
                let mut k: usize = 0;
                assert(sv.take(0) =~= Seq::<Seq<char>>::empty());
                assert(old(ids)@ + subs_rule_ids(names, rs, i as nat, sv.take(0)) =~= old(ids)@);
                while k < subs.len()
                    invariant
                        0 <= k <= subs@.len(),
                        self.wf(),
                        names == self@.ruleset_names,
                        rs == self@.rulesets,
                        i < rs.len(),
                        rs[i as int] == RulesetView::Combined(sv),
                        sv == subs@.map_values(|s: String| s@),
                        combined_refers_back(names, rs, i as int),
                        ids@ == old(ids)@ + subs_rule_ids(names, rs, i as nat, sv.take(k as int)),
                    decreases subs@.len() - k,
                {
                    assert(sv[k as int] == subs@[k as int]@);
                    let ghost p = entry_pos(names, sv[k as int]);
                    assert(p is Some && p->0 < i);
                    let j = name_map_get(&self.state.rulesets, subs[k].as_str()).unwrap();
                    assert(names[p->0] == (names[p->0].0, p->0 as usize));
                    assert(j == p->0);
                    let ghost before = ids@;
                    self.collect_at(j, ids);
                    proof {
                        assert(sv.take(k + 1).drop_last() =~= sv.take(k as int));
                        assert(sv.take(k + 1).last() == sv[k as int]);
                        assert(ids@ =~= old(ids)@ + subs_rule_ids(names, rs, i as nat, sv.take(k + 1)));
                    }
                    k = k + 1;
                }
                assert(sv.take(k as int) =~= sv);
            },
        }
    }

    /// The ids of the rules a ruleset runs, which must exist: its own rules,
    /// or, for a combined ruleset, those of the rulesets it names, in order.
    pub fn collect_rule_ids(&self, ruleset: &str) -> (r: Vec<usize>)
        requires
            self.wf(),
            entry_pos(self@.ruleset_names, ruleset@) is Some,
        ensures
            r@ == rule_ids(self@.ruleset_names, self@.rulesets, entry_pos(self@.ruleset_names, ruleset@)->0 as nat),
    {
        let i = name_map_get(&self.state.rulesets, ruleset).unwrap();
        let n = self.state.ruleset_list.len();
        let ghost p = entry_pos(self@.ruleset_names, ruleset@)->0;
        assert(0 <= p < self@.rulesets.len());
        assert(self@.rulesets.len() == n);
        assert(self@.ruleset_names[p] == (self@.ruleset_names[p].0, p as usize));
        assert(i == p);
        let mut ids: Vec<usize> = Vec::new();
        self.collect_at(i, &mut ids);
        assert(ids@ =~= rule_ids(self@.ruleset_names, self@.rulesets, p as nat));
        ids
    }
}

/// What adding a rule does once its plan is built: the plan becomes a
/// rule of the state, and the rule joins its ruleset under its name when
/// that ruleset exists and holds rules; otherwise the matching error.
pub open spec fn add_rule_post(
    v: StateView,
    plan: RulePlanView,
    name: Seq<char>,
    ruleset: Seq<char>,
    span: Span,
    after: StateView,
    r: Result<String, Error>,
) -> bool {
    let v1 = StateView { rules: v.rules.push(plan), ..v };
    match entry_pos(v.ruleset_names, ruleset) {
        None => (r matches Err(Error::NoSuchRuleset(n, sp)) && n@ == ruleset && sp == span) && after == v1,
        Some(i) => match v.rulesets[i] {
            RulesetView::Combined(_) => (r matches Err(Error::CombinedRulesetError(n, sp)) && n@ == ruleset && sp == span) && after == v1,
            RulesetView::Rules(rs) => (r matches Ok(n) && n@ == name) && after == (StateView {
                rulesets: v.rulesets.update(i, RulesetView::Rules(rs.push((name, v.rules.len() as usize)))),
                ..v1
            }),
        },
    }
}

/// A rule's name is new in its ruleset, when that holds rules.
pub open spec fn rule_name_new(v: StateView, name: Seq<char>, ruleset: Seq<char>) -> bool {
    match entry_pos(v.ruleset_names, ruleset) {
        Some(i) => match v.rulesets[i] {
            RulesetView::Rules(rs) => entry_pos(rs, name) is None,
            RulesetView::Combined(_) => true,
        },
        None => true,
    }
}

/// The rule calls declared functions, sets and changes functions only, its
/// terms leave room for the variables and values they may add, and its name
/// is new in its ruleset.
pub open spec fn add_rule_ok(
    v: StateView,
    name: Seq<char>,
    ruleset: Seq<char>,
    query: Seq<CoreAtomView>,
    acts: Seq<CoreActionView>,
) -> bool {
    &&& atoms_calls_known(v.function_names, query)
    &&& actions_heads_ok(v.function_names, acts)
    &&& query_size(query) + actions_size(acts) < usize::MAX
    &&& v.ints.len() + query_size(query) + actions_size(acts) < u32::MAX
    &&& v.strings.len() + query_size(query) + actions_size(acts) < u32::MAX
    &&& rule_name_new(v, name, ruleset)
}

/// What adding a rule does: a rule that subsumes a function that cannot be
/// subsumed fails, changing nothing but the interned values; otherwise its
/// plan is added as `add_rule_post` says.
pub open spec fn add_rule_spec(
    v0: StateView,
    name: Seq<char>,
    ruleset: Seq<char>,
    query: Seq<CoreAtomView>,
    acts: Seq<CoreActionView>,
    span: Span,
    v1: StateView,
    bv1: BaseValues,
    r: Result<String, Error>,
) -> bool {
    match rule_plan(v0.function_names, v0.functions, bv1, name, v0.seminaive, query, acts) {
        Err(f) => (r matches Err(Error::SubsumeMergeError(n, sp)) && n@ == f.0 && sp == f.1) && only_base_values_changed(v0, v1),
        Ok(plan) => add_rule_post(
            StateView { fact_refs: v1.fact_refs, ints: v1.ints, strings: v1.strings, ..v0 },
            plan, name, ruleset, span, v1, r,
        ),
    }
}

impl EGraph {
    /// Translates a rule into a backend rule plan and adds it to its
    /// ruleset under its name.
    pub fn add_rule(&mut self, rule: CoreRule) -> (r: Result<String, Error>)
        requires
            old(self).wf(),
            add_rule_ok(old(self)@, rule.name@, rule.ruleset@, rule.query@, rule.actions@),
        ensures
            final(self).wf(),
            final(self).pushed_views() == old(self).pushed_views(),
            add_rule_spec(old(self)@, rule.name@, rule.ruleset@, rule.query@, rule.actions@, rule.span, final(self)@, final(self).bv(), r),
    {
        let ghost v0 = self@;
        let ghost names = v0.function_names;
        let ghost fns = v0.functions;
        let ghost b0 = self.state.backend;
        let ghost qs = query_size(rule.query@);
        let rb = RuleBuilder::new(rule.name.clone(), self.state.seminaive);
        let mut translator = BackendRule::new(rb, &self.state.function_list, &self.state.functions);
        let ghost s0 = translator.state();
        translator.query(&mut self.state.backend, &rule.query, false, false);
        let ghost b1 = self.state.backend;
        let ghost s1 = translator.state();
        let res = translator.actions(&mut self.state.backend, &rule.actions);
        proof {
            b1.lemma_bv_wf();
            self.state.backend.lemma_bv_wf();
            assert(s0.entries =~= Seq::<(AtomTermView, QueryEntry)>::empty());
            lemma_query_plan_grows(names, fns, b1.bv(), self.state.backend.bv(), s0, rule.query@, false, false);
            crate::merge::lemma_grows_trans(b0.bv(), b1.bv(), self.state.backend.bv());
            self.lemma_backend_change_keeps_wf(old(self));
        }
        match res {
            Err(e) => {
                return Err(e);
            },
            Ok(()) => {},
        }
        let plan = translator.build();
        let rule_id = self.state.rules.len();
        let ghost v1 = self@;
        self.state.rules.push(plan);
        let ghost v2 = self@;
        proof {
            assert(self@.rules =~= v1.rules.push(plan@));
            assert(v2 == (StateView { rules: v1.rules.push(plan@), ..v1 }));
            assert(plan@.atoms =~= query_plan(names, fns, self.bv(), s0, rule.query@, false, false).1);
            assert forall|k: int| 0 <= k < v2.rulesets.len() implies #[trigger] rule_ids_valid(v2.rulesets, v2.rules.len(), k) by {
                assert(rule_ids_valid(v1.rulesets, v1.rules.len(), k));
            }
            assert(state_wf(v2));
            if let Ok((st2, ops)) = actions_plan(names, fns, self.bv(), s1, rule.actions@) {
                assert(plan@.ops =~= ops);
            }
        }
        match name_map_get(&self.state.rulesets, rule.ruleset.as_str()) {
            None => Err(Error::NoSuchRuleset(rule.ruleset, rule.span)),
            Some(i) => {
                let ghost p = entry_pos(v2.ruleset_names, rule.ruleset@)->0;
                let nrs = self.state.ruleset_list.len();
                proof {
                    assert(p < nrs);
                    assert(v2.ruleset_names[p] == (v2.ruleset_names[p].0, p as usize));
                    assert(i as int == p);
                }
                let ghost list2 = self.state.ruleset_list@;
                let rs = self.state.ruleset_list.remove(i);
                match rs {
                    Ruleset::Rules(mut m) => {
                        let ghost old_rs = name_entries(m);
                        let _ = name_map_insert(&mut m, rule.name.clone(), rule_id);
                        self.state.ruleset_list.insert(i, Ruleset::Rules(m));
                        proof {
                            let new_r = RulesetView::Rules(old_rs.push((rule.name@, rule_id)));
                            assert(v2.rulesets[p] == RulesetView::Rules(old_rs));
                            assert(self@.rulesets =~= v2.rulesets.update(p, new_r));
                            let w = self@;
                            assert forall|a: int, b: int| 0 <= a < b < old_rs.push((rule.name@, rule_id)).len()
                                implies old_rs.push((rule.name@, rule_id))[a].0 != old_rs.push((rule.name@, rule_id))[b].0 by {
                                assert(combined_refers_back(v2.ruleset_names, v2.rulesets, p));
                                if b == old_rs.len() {
                                    assert(old_rs[a].0 != rule.name@);
                                } else {
                                    assert(old_rs[a].0 != old_rs[b].0);
                                }
                            }
                            assert forall|k: int| 0 <= k < w.rulesets.len() implies #[trigger] combined_refers_back(w.ruleset_names, w.rulesets, k) by {
                                assert(combined_refers_back(v2.ruleset_names, v2.rulesets, k));
                            }
                            assert forall|k: int| 0 <= k < w.rulesets.len() implies #[trigger] rule_ids_valid(w.rulesets, w.rules.len(), k) by {
                                assert(rule_ids_valid(v2.rulesets, v2.rules.len(), k));
                                if k == p {
                                    let rr = old_rs.push((rule.name@, rule_id));
                                    assert forall|j: int| 0 <= j < rr.len() implies (#[trigger] rr[j]).1 < w.rules.len() by {
                                        if j < old_rs.len() {
                                            assert(rr[j] == old_rs[j]);
                                        }
                                    }
                                }
                            }
                            assert(state_wf(w));
                        }
                        Ok(rule.name)
                    },
                    Ruleset::Combined(c) => {
                        self.state.ruleset_list.insert(i, Ruleset::Combined(c));
                        proof {
                            assert(self.state.ruleset_list@ =~= list2);
                        }
                        Err(Error::CombinedRulesetError(rule.ruleset, rule.span))
                    },
                }
            },
        }
    }
}

} // verus!
