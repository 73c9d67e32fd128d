use vstd::prelude::*;
use indexmap::IndexMap;
use crate::atoms::{AtomTerm, AtomTermView, atom_term_eq, terms_view};
use crate::backend::Backend;
use crate::ids::{TableId, Value};
use crate::merge::{literal_value, lemma_grows_refl, lemma_grows_trans};
use crate::names::{name_entries, name_map_get, entry_pos, entry_value};
use crate::rule::{QueryEntry, RuleBuilder, RulePlan, RulePlanView};
use crate::sorts::{Function, FunctionView};
use crate::termdag::{Literal, LiteralView};
use crate::values::BaseValues;
use crate::translate::{unstable_fn_ok, prim_entries, 
    TransState, entries_unique, entries_known, term_pos, lookup_entry, term_step, terms_step, terms_known,
    lit_known, func_index, lemma_literal_rep, lemma_literal_rep_grows, lemma_terms_step_grows,
    lemma_entries_known_grows, query_plan, atom_plan, query_size, atoms_known, atoms_calls_known,
    lemma_query_plan_grows, lemma_take_last, insert_entry, action_plan, actions_plan, act_terms, act_size,
    actions_size, actions_known, action_heads_ok, actions_heads_ok, lemma_action_plan_grows,
    lemma_actions_plan_grows, lemma_actions_err_prefix, lemma_actions_size_prefix, lemma_term_step_grows,
};
use crate::atoms::{Change, CoreAction, CoreActionView, CoreActions};
use crate::error::Error;
use crate::rule::{PlanOp, PlanOpView};
use crate::atoms::{CoreAtom, CoreAtomView, CoreCall, CoreCallView, CoreQuery};
use crate::rule::{PlanAtom, PlanAtomView};
use crate::sorts::{ColumnTy, ExternalFunctionId};

verus! {

/// `after` is `before` with at most `n` more integers and `n` more strings
/// interned, and nothing else changed.
pub open spec fn interned_at_most(before: Backend, after: Backend, n: nat) -> bool {
    &&& after.wf()
    &&& after@ == before@
    &&& after.bv().grows_from(&before.bv())
    &&& after.bv().interned() == before.bv().interned()
    &&& after.bv().ints().len() <= before.bv().ints().len() + n
    &&& after.bv().strings().len() <= before.bv().strings().len() + n
}

/// There is room to intern `n` more integers and `n` more strings.
pub open spec fn has_room(b: Backend, n: nat) -> bool {
    &&& b.bv().ints().len() + n < u32::MAX
    &&& b.bv().strings().len() + n < u32::MAX
}

/// The value of a literal, interning integers and strings; booleans are
/// 0 and 1 and the unit value is 0.
pub fn literal_to_value(backend: &mut Backend, l: &Literal) -> (v: Value)
    requires
        old(backend).wf(),
        has_room(*old(backend), 1),
    ensures
        interned_at_most(*old(backend), *final(backend), 1),
        literal_value(final(backend).bv(), l@, v),
{
    match l {
        Literal::Int(x) => backend.intern_int(*x),
        Literal::String(x) => backend.intern_string(x.as_str()),
        Literal::Bool(b) => {
            proof { lemma_grows_refl(backend.bv()); }
            if *b { Value::new_const(1) } else { Value::new_const(0) }
        },
        Literal::Unit => {
            proof { lemma_grows_refl(backend.bv()); }
            Value::new_const(0)
        },
    }
}

/// The constant entry of a literal.
pub fn literal_to_entry(backend: &mut Backend, l: &Literal) -> (e: QueryEntry)
    requires
        old(backend).wf(),
        has_room(*old(backend), 1),
    ensures
        interned_at_most(*old(backend), *final(backend), 1),
        e matches QueryEntry::Const(v) && literal_value(final(backend).bv(), l@, v),
{
    QueryEntry::Const(literal_to_value(backend, l))
}

/// Translates flattened queries and actions of the e-graph into a backend
/// rule plan, giving each distinct term one entry.
pub struct BackendRule<'a> {
    rb: RuleBuilder,
    entries: Vec<(AtomTerm, QueryEntry)>,
    functions: &'a Vec<Function>,
    names: &'a IndexMap<String, usize>,
}

impl<'a> BackendRule<'a> {
    pub closed spec fn entries_view(&self) -> Seq<(AtomTermView, QueryEntry)> {
        self.entries@.map_values(|p: (AtomTerm, QueryEntry)| (p.0@, p.1))
    }

    /// The terms bound so far and the number of variables of the plan.
    pub open spec fn state(&self) -> TransState {
        TransState { entries: self.entries_view(), n_vars: self.plan().n_vars }
    }

    /// The rule planned so far.
    pub closed spec fn plan(&self) -> RulePlanView {
        self.rb@
    }

    pub closed spec fn names(&self) -> Seq<(Seq<char>, usize)> {
        name_entries(*self.names)
    }

    pub closed spec fn fns(&self) -> Seq<FunctionView> {
        self.functions@.map_values(|f: Function| f@)
    }

    pub closed spec fn wf(&self) -> bool {
        &&& entries_unique(self.entries_view())
        &&& forall|i: int| 0 <= i < self.names().len() ==> (#[trigger] self.names()[i]).1 < self.fns().len()
    }

    /// A translator into the given rule, resolving function names through
    /// `names` to positions in `functions`.
    pub fn new(rb: RuleBuilder, functions: &'a Vec<Function>, names: &'a IndexMap<String, usize>) -> (r: BackendRule<'a>)
        requires
            forall|i: int| 0 <= i < name_entries(*names).len() ==> (#[trigger] name_entries(*names)[i]).1 < functions@.len(),
        ensures
            r.wf(),
            r.plan() == rb@,
            r.state().entries == Seq::<(AtomTermView, QueryEntry)>::empty(),
            r.names() == name_entries(*names),
            r.fns() == functions@.map_values(|f: Function| f@),
    {
        let r = BackendRule { rb, entries: Vec::new(), functions, names };
        assert(r.entries_view() =~= Seq::<(AtomTermView, QueryEntry)>::empty());
        r
    }

    fn find_entry(&self, x: &AtomTerm) -> (r: Option<usize>)
        requires
            self.wf(),
        ensures
            match r {
                Some(i) => term_pos(self.entries_view(), x@) == Some(i as int) && i < self.entries@.len(),
                None => term_pos(self.entries_view(), x@) is None,
            },
    {
        let mut i: usize = 0;
        while i < self.entries.len()
            invariant
                0 <= i <= self.entries@.len(),
                self.wf(),
                forall|k: int| 0 <= k < i ==> (#[trigger] self.entries_view()[k]).0 != x@,
            decreases self.entries@.len() - i,
        {
            if atom_term_eq(&self.entries[i].0, x) {
                proof {
                    let es = self.entries_view();
                    assert(es[i as int].0 == x@);
                    let j = choose|j: int| 0 <= j < es.len() && es[j].0 == x@;
                    if j < i as int {
                        assert(es[j].0 != es[i as int].0);
                    } else if j > i as int {
                        assert(es[i as int].0 != es[j].0);
                    }
                }
                return Some(i);
            }
            i = i + 1;
        }
        proof {
            let es = self.entries_view();
            if exists|j: int| 0 <= j < es.len() && es[j].0 == x@ {
                let j = choose|j: int| 0 <= j < es.len() && es[j].0 == x@;
                assert(es[j].0 != x@);
            }
        }
        None
    }

    /// The entry of a term: its binding if it has one; otherwise a fresh
    /// variable for a variable and the constant value for a literal, which
    /// then become its binding.
    pub fn entry(&mut self, backend: &mut Backend, x: &AtomTerm) -> (e: QueryEntry)
        requires
            old(self).wf(),
            old(backend).wf(),
            old(self).plan().n_vars < usize::MAX,
            has_room(*old(backend), 1),
            entries_known(old(backend).bv(), old(self).state().entries),
        ensures
            final(self).wf(),
            final(self).names() == old(self).names(),
            final(self).fns() == old(self).fns(),
            entries_known(final(backend).bv(), final(self).state().entries),
            (final(self).state(), e) == term_step(final(backend).bv(), old(self).state(), x@),
            final(self).plan() == (RulePlanView { n_vars: final(self).plan().n_vars, ..old(self).plan() }),
            final(self).plan().n_vars <= old(self).plan().n_vars + 1,
            interned_at_most(*old(backend), *final(backend), 1),
            x@ matches AtomTermView::Literal(l) ==> lit_known(final(backend).bv(), l),
    {
        match self.find_entry(x) {
            Some(i) => {
                proof {
                    lemma_grows_refl(backend.bv());
                    assert(self.entries_view()[i as int].0 == x@);
                }
                self.entries[i].1
            },
            None => {
                let e = match x {
                    AtomTerm::Var(_, _) => {
                        proof { lemma_grows_refl(backend.bv()); }
                        self.rb.new_var()
                    },
                    AtomTerm::Literal(l) => {
                        let v = literal_to_value(backend, l);
                        proof {
                            backend.lemma_bv_wf();
                            lemma_literal_rep(backend.bv(), l@, v);
                        }
                        QueryEntry::Const(v)
                    },
                };
                let ghost old_es = self.entries_view();
                self.entries.push((x.clone(), e));
                proof {
                    old(backend).lemma_bv_wf();
                    backend.lemma_bv_wf();
                    lemma_entries_known_grows(old(backend).bv(), backend.bv(), old_es);
                    assert(self.entries_view() =~= old_es.push((x@, e)));
                    assert forall|a: int, b: int| 0 <= a < b < self.entries_view().len()
                        implies self.entries_view()[a].0 != self.entries_view()[b].0 by {
                        if b == old_es.len() {
                            assert(old_es[a].0 != x@);
                        }
                    }
                    assert(self.names() == old(self).names());
                    assert(self.fns() == old(self).fns());
                    assert(entries_unique(self.entries_view()));
                }
                e
            },
        }
    }
}

impl<'a> BackendRule<'a> {
    /// The function a declared name resolves to.
    fn function(&self, f: &str) -> (r: &Function)
        requires
            self.wf(),
            entry_pos(self.names(), f@) is Some,
        ensures
            r@ == self.fns()[func_index(self.names(), f@)],
            0 <= func_index(self.names(), f@) < self.fns().len(),
    {
        let i = name_map_get(self.names, f).unwrap();
        proof {
            let p = entry_pos(self.names(), f@)->0;
            assert(self.names()[p].1 < self.fns().len());
        }
        &self.functions[i]
    }

    /// The backend table of a declared function.
    pub fn func(&self, f: &str) -> (t: TableId)
        requires
            self.wf(),
            entry_pos(self.names(), f@) is Some,
        ensures
            t == self.fns()[func_index(self.names(), f@)].backend_id,
    {
        self.function(f).backend_id()
    }

    /// The entries of terms, taken left to right.
    pub fn args(&mut self, backend: &mut Backend, args: &[AtomTerm]) -> (r: Vec<QueryEntry>)
        requires
            old(self).wf(),
            old(backend).wf(),
            old(self).plan().n_vars + args@.len() < usize::MAX,
            has_room(*old(backend), args@.len()),
            entries_known(old(backend).bv(), old(self).state().entries),
        ensures
            final(self).wf(),
            final(self).names() == old(self).names(),
            final(self).fns() == old(self).fns(),
            entries_known(final(backend).bv(), final(self).state().entries),
            (final(self).state(), r@) == terms_step(final(backend).bv(), old(self).state(), terms_view(args@)),
            final(self).plan() == (RulePlanView { n_vars: final(self).plan().n_vars, ..old(self).plan() }),
            final(self).plan().n_vars <= old(self).plan().n_vars + args@.len(),
            interned_at_most(*old(backend), *final(backend), args@.len()),
            terms_known(final(backend).bv(), terms_view(args@)),
    {
        let ghost ts = terms_view(args@);
        let mut out: Vec<QueryEntry> = Vec::new();
        let mut k: usize = 0;
        proof {
            lemma_grows_refl(backend.bv());
            assert(ts.take(0) =~= Seq::<AtomTermView>::empty());
            assert(out@ =~= Seq::<QueryEntry>::empty());
        }
        while k < args.len()
            invariant
                0 <= k <= args@.len(),
                ts == terms_view(args@),
                ts.len() == args@.len(),
                self.wf(),
                backend.wf(),
                self.names() == old(self).names(),
                self.fns() == old(self).fns(),
                entries_known(backend.bv(), self.state().entries),
                (self.state(), out@) == terms_step(backend.bv(), old(self).state(), ts.take(k as int)),
                self.plan() == (RulePlanView { n_vars: self.plan().n_vars, ..old(self).plan() }),
                self.plan().n_vars <= old(self).plan().n_vars + k,
                old(self).plan().n_vars + args@.len() < usize::MAX,
                has_room(*old(backend), args@.len()),
                interned_at_most(*old(backend), *backend, k as nat),
                terms_known(backend.bv(), ts.take(k as int)),
            decreases args@.len() - k,
        {
            let ghost before = *backend;
            let ghost s_before = self.state();
            let e = self.entry(backend, &args[k]);
            proof {
                before.lemma_bv_wf();
                backend.lemma_bv_wf();
                lemma_take_last(ts, k as int);
                assert(ts[k as int] == args@[k as int]@);
                lemma_terms_step_grows(before.bv(), backend.bv(), old(self).state(), ts.take(k as int));
                lemma_grows_trans(old(backend).bv(), before.bv(), backend.bv());
                let tk = ts.take(k + 1);
                assert forall|i: int| 0 <= i < tk.len() implies (#[trigger] tk[i] matches AtomTermView::Literal(l) ==> lit_known(backend.bv(), l)) by {
                    if i < k {
                        assert(tk[i] == ts.take(k as int)[i]);
                        if let AtomTermView::Literal(l) = tk[i] {
                            lemma_literal_rep_grows(before.bv(), backend.bv(), l);
                        }
                    }
                }
            }
            out.push(e);
            k = k + 1;
        }
        proof {
            assert(ts.take(k as int) =~= ts);
        }
        out
    }

    /// The call of a primitive: its id, the entries of its arguments and the
    /// column type of its result. For `unstable-fn`, the first argument, a
    /// string literal naming a function, is replaced by a constant that
    /// stands for that function.
    pub fn prim(&mut self, backend: &mut Backend, name: &str, id: ExternalFunctionId, ty: ColumnTy, args: &[AtomTerm])
        -> (r: (ExternalFunctionId, Vec<QueryEntry>, ColumnTy))
        requires
            old(self).wf(),
            old(backend).wf(),
            old(self).plan().n_vars + args@.len() < usize::MAX,
            has_room(*old(backend), args@.len()),
            entries_known(old(backend).bv(), old(self).state().entries),
            unstable_fn_ok(old(self).names(), name@, terms_view(args@)),
        ensures
            final(self).wf(),
            final(self).names() == old(self).names(),
            final(self).fns() == old(self).fns(),
            entries_known(final(backend).bv(), final(self).state().entries),
            r.0 == id,
            r.2 == ty,
            final(self).state() == terms_step(final(backend).bv(), old(self).state(), terms_view(args@)).0,
            r.1@ == prim_entries(old(self).names(), name@, terms_view(args@),
                terms_step(final(backend).bv(), old(self).state(), terms_view(args@)).1),
            final(self).plan() == (RulePlanView { n_vars: final(self).plan().n_vars, ..old(self).plan() }),
            final(self).plan().n_vars <= old(self).plan().n_vars + args@.len(),
            interned_at_most(*old(backend), *final(backend), args@.len()),
            terms_known(final(backend).bv(), terms_view(args@)),
    {
        let mut qe_args = self.args(backend, args);
        proof { reveal_strlit("unstable-fn"); }
        if crate::text::str_eq(name, "unstable-fn") {
            assert(terms_view(args@)[0] == args@[0]@);
            match &args[0] {
                AtomTerm::Literal(Literal::String(f)) => {
                    let i = name_map_get(self.names, f.as_str()).unwrap();
                    qe_args.set(0, QueryEntry::Const(Value::from_usize(i)));
                },
                _ => {
                    assert(false);
                },
            }
        }
        (id, qe_args, ty)
    }

    /// Adds the atoms of a query to the plan. Rows of functions skip
    /// subsumed rows unless `include_subsumed`, and, when the function
    /// tracks facts and `require_asserted`, facts that are not asserted.
    pub fn query(&mut self, backend: &mut Backend, query: &CoreQuery, include_subsumed: bool, require_asserted: bool)
        requires
            old(self).wf(),
            old(backend).wf(),
            atoms_calls_known(old(self).names(), query@),
            old(self).plan().n_vars + query_size(query@) < usize::MAX,
            has_room(*old(backend), query_size(query@)),
            entries_known(old(backend).bv(), old(self).state().entries),
        ensures
            final(self).wf(),
            final(self).names() == old(self).names(),
            final(self).fns() == old(self).fns(),
            entries_known(final(backend).bv(), final(self).state().entries),
            ({
                let (st, atoms) = query_plan(old(self).names(), old(self).fns(), final(backend).bv(), old(self).state(),
                    query@, include_subsumed, require_asserted);
                &&& final(self).state() == st
                &&& final(self).plan() == (RulePlanView {
                    n_vars: st.n_vars,
                    atoms: old(self).plan().atoms + atoms,
                    ..old(self).plan()
                })
            }),
            interned_at_most(*old(backend), *final(backend), query_size(query@)),
            atoms_known(final(backend).bv(), query@),
            final(self).plan().n_vars <= old(self).plan().n_vars + query_size(query@),
    {
        let ghost atoms = query@;
        let ghost names = old(self).names();
        let ghost fns = old(self).fns();
        let mut k: usize = 0;
        proof {
            lemma_grows_refl(backend.bv());
            assert(atoms.take(0) =~= Seq::<CoreAtomView>::empty());
            assert(old(self).plan().atoms + Seq::<PlanAtomView>::empty() =~= old(self).plan().atoms);
        }
        while k < query.atoms.len()
            invariant
                0 <= k <= query.atoms@.len(),
                atoms == query@,
                atoms.len() == query.atoms@.len(),
                names == old(self).names(),
                fns == old(self).fns(),
                self.wf(),
                backend.wf(),
                self.names() == names,
                self.fns() == fns,
                atoms_calls_known(names, atoms),
                entries_known(backend.bv(), self.state().entries),
                ({
                    let (st, ps) = query_plan(names, fns, backend.bv(), old(self).state(), atoms.take(k as int),
                        include_subsumed, require_asserted);
                    &&& self.state() == st
                    &&& self.plan() == (RulePlanView {
                        n_vars: st.n_vars,
                        atoms: old(self).plan().atoms + ps,
                        ..old(self).plan()
                    })
                }),
                self.plan().n_vars <= old(self).plan().n_vars + query_size(atoms.take(k as int)),
                old(self).plan().n_vars + query_size(atoms) < usize::MAX,
                has_room(*old(backend), query_size(atoms)),
                interned_at_most(*old(backend), *backend, query_size(atoms.take(k as int))),
                atoms_known(backend.bv(), atoms.take(k as int)),
            decreases query.atoms@.len() - k,
        {
            let ghost before = *backend;
            let ghost s_before = self.state();
            let ghost plan_before = self.plan();
            proof {
                lemma_take_last(atoms, k as int);
                lemma_query_size_prefix(atoms, k as int + 1);
                assert(atoms[k as int] == query.atoms@[k as int]@);
            }
            let atom = &query.atoms[k];
            match &atom.head {
                CoreCall::Func(f) => {
                    proof { assert(atoms[k as int].head matches CoreCallView::Func(g) && g == f@); }
                    let func = self.function(f.as_str());
                    let table = func.backend_id();
                    let tracked_facts = func.fact_tracking();
                    let args = self.args(backend, atom.args.as_slice());
                    let is_subsumed = if include_subsumed { None } else { Some(false) };
                    let req = if tracked_facts && require_asserted { Some(true) } else { None };
                    self.rb.add_atom(PlanAtom::Table { table, args, is_subsumed, require_asserted: req });
                },
                CoreCall::Primitive(pname, id, ty) => {
                    let (p, args, ty) = self.prim(backend, pname.as_str(), *id, *ty, atom.args.as_slice());
                    self.rb.add_atom(PlanAtom::Prim { func: p, args, ty });
                },
            }
            proof {
                before.lemma_bv_wf();
                backend.lemma_bv_wf();
                lemma_query_plan_grows(names, fns, before.bv(), backend.bv(), old(self).state(), atoms.take(k as int),
                    include_subsumed, require_asserted);
                lemma_grows_trans(old(backend).bv(), before.bv(), backend.bv());
                let (st, ps) = query_plan(names, fns, backend.bv(), old(self).state(), atoms.take(k as int),
                    include_subsumed, require_asserted);
                let (st2, p) = atom_plan(names, fns, backend.bv(), st, atoms[k as int], include_subsumed, require_asserted);
                assert(self.state() == st2);
                assert(self.plan().atoms =~= old(self).plan().atoms + ps.push(p));
                let tk = atoms.take(k + 1);
                assert forall|i: int| 0 <= i < tk.len() implies terms_known(backend.bv(), #[trigger] tk[i].args) by {
                    if i < k {
                        assert(tk[i] == atoms.take(k as int)[i]);
                        assert forall|j: int| 0 <= j < tk[i].args.len() implies (#[trigger] tk[i].args[j] matches AtomTermView::Literal(l) ==> lit_known(backend.bv(), l)) by {
                            if let AtomTermView::Literal(l) = tk[i].args[j] {
                                assert(terms_known(before.bv(), atoms.take(k as int)[i].args));
                                lemma_literal_rep_grows(before.bv(), backend.bv(), l);
                            }
                        }
                    }
                }
            }
            k = k + 1;
        }
        proof {
            assert(atoms.take(k as int) =~= atoms);
        }
    }
}

/// The size of a prefix grows by the size of the atom taken.
pub proof fn lemma_query_size_prefix(atoms: Seq<CoreAtomView>, k: int)
    requires
        0 < k <= atoms.len(),
    ensures
        query_size(atoms.take(k)) == query_size(atoms.take(k - 1)) + atoms[k - 1].args.len(),
        query_size(atoms.take(k)) <= query_size(atoms),
    decreases atoms.len(),
{
    assert(atoms.take(k).drop_last() =~= atoms.take(k - 1));
    if k < atoms.len() {
        lemma_query_size_prefix(atoms.drop_last(), k);
        assert(atoms.drop_last().take(k) =~= atoms.take(k));
        assert(atoms.drop_last().take(k - 1) =~= atoms.take(k - 1));
    } else {
        assert(atoms.take(k) =~= atoms);
    }
}

impl<'a> BackendRule<'a> {
    /// Binds a term to an entry, replacing its old binding.
    fn bind(&mut self, t: AtomTerm, e: QueryEntry)
        requires
            old(self).wf(),
        ensures
            final(self).wf(),
            final(self).names() == old(self).names(),
            final(self).fns() == old(self).fns(),
            final(self).plan() == old(self).plan(),
            final(self).state().entries == insert_entry(old(self).state().entries, t@, e),
    {
        let ghost es = self.entries_view();
        let ghost tv = t@;
        match self.find_entry(&t) {
            Some(i) => {
                self.entries.set(i, (t, e));
                proof {
                    assert(self.entries_view() =~= es.update(i as int, (tv, e)));
                    assert forall|a: int, b: int| 0 <= a < b < self.entries_view().len()
                        implies self.entries_view()[a].0 != self.entries_view()[b].0 by {
                        assert(es[a].0 != es[b].0);
                    }
                }
            },
            None => {
                self.entries.push((t, e));
                proof {
                    assert(self.entries_view() =~= es.push((tv, e)));
                    assert forall|a: int, b: int| 0 <= a < b < self.entries_view().len()
                        implies self.entries_view()[a].0 != self.entries_view()[b].0 by {
                        if b == es.len() {
                            assert(es[a].0 != tv);
                        }
                    }
                }
            },
        }
        assert(self.names() == old(self).names());
        assert(self.fns() == old(self).fns());
    }

    /// Adds the operation of one action, or fails on subsuming a function
    /// that cannot be subsumed.
    fn action(&mut self, backend: &mut Backend, a: &CoreAction) -> (r: Result<(), Error>)
        requires
            old(self).wf(),
            old(backend).wf(),
            action_heads_ok(old(self).names(), a@),
            old(self).plan().n_vars + act_size(a@) < usize::MAX,
            has_room(*old(backend), act_size(a@)),
            entries_known(old(backend).bv(), old(self).state().entries),
        ensures
            final(self).wf(),
            final(self).names() == old(self).names(),
            final(self).fns() == old(self).fns(),
            entries_known(final(backend).bv(), final(self).state().entries),
            interned_at_most(*old(backend), *final(backend), act_size(a@)),
            terms_known(final(backend).bv(), act_terms(a@)),
            final(self).plan().n_vars <= old(self).plan().n_vars + act_size(a@),
            match action_plan(old(self).names(), old(self).fns(), final(backend).bv(), old(self).state(), a@) {
                Ok((st, more)) => r is Ok && final(self).state() == st && final(self).plan() == (RulePlanView {
                    n_vars: st.n_vars,
                    ops: old(self).plan().ops + more,
                    ..old(self).plan()
                }),
                Err(f) => (r matches Err(Error::SubsumeMergeError(n, sp)) && n@ == f.0 && sp == f.1)
                    && final(self).plan() == (RulePlanView { n_vars: final(self).plan().n_vars, ..old(self).plan() }),
            },
    {
        let ghost names = old(self).names();
        let ghost fns = old(self).fns();
        let ghost s0 = old(self).state();
        let ghost ops0 = old(self).plan().ops;
        match a {
            CoreAction::Let(v, ty, head, args) => {
                let ghost n_before = self.plan().n_vars;
                let y = match head {
                    CoreCall::Func(f) => {
                        let table = self.func(f.as_str());
                        let es = self.args(backend, args.as_slice());
                        self.rb.lookup(table, es)
                    },
                    CoreCall::Primitive(pname, id, oty) => {
                        let (p, es, ty) = self.prim(backend, pname.as_str(), *id, *oty, args.as_slice());
                        self.rb.call_external_func(p, es, ty)
                    },
                };
                self.bind(AtomTerm::Var(v.clone(), *ty), y);
                proof {
                    assert(self.plan().ops =~= ops0 + action_plan(names, fns, backend.bv(), s0, a@)->Ok_0.1);
                }
                Ok(())
            },
            CoreAction::LetAtomTerm(v, ty, x) => {
                let e = self.entry(backend, x);
                self.bind(AtomTerm::Var(v.clone(), *ty), e);
                proof {
                    assert(act_terms(a@)[0] == x@);
                    assert(self.plan().ops =~= ops0 + Seq::<PlanOpView>::empty());
                }
                Ok(())
            },
            CoreAction::SetOutput(head, xs, y) => {
                let f = match head {
                    CoreCall::Func(f) => f,
                    CoreCall::Primitive(..) => {
                        proof { assert(false); }
                        return Ok(());
                    },
                };
                let table = self.func(f.as_str());
                let ghost bv_mid = backend.bv();
                let ghost s_mid = self.state();
                let mut es = self.args(backend, xs.as_slice());
                let ghost b_mid2 = *backend;
                let ghost bv_mid2 = backend.bv();
                let e = self.entry(backend, y);
                proof {
                    let ts = terms_view(xs@);
                    assert(ts.push(y@).drop_last() =~= ts);
                    backend.lemma_bv_wf();
                    old(backend).lemma_bv_wf();
                    b_mid2.lemma_bv_wf();
                    lemma_terms_step_grows(bv_mid2, backend.bv(), s0, ts);
                    lemma_grows_trans(old(backend).bv(), bv_mid2, backend.bv());
                    assert forall|i: int| 0 <= i < ts.push(y@).len() implies (#[trigger] ts.push(y@)[i] matches AtomTermView::Literal(l) ==> lit_known(backend.bv(), l)) by {
                        if i < ts.len() {
                            assert(ts.push(y@)[i] == ts[i]);
                            if let AtomTermView::Literal(l) = ts[i] {
                                lemma_literal_rep_grows(bv_mid2, backend.bv(), l);
                            }
                        }
                    }
                }
                es.push(e);
                self.rb.add_op(PlanOp::SetOutput { table, args: es });
                proof {
                    assert(self.plan().ops =~= ops0 + action_plan(names, fns, backend.bv(), s0, a@)->Ok_0.1);
                }
                Ok(())
            },
            CoreAction::Change(sp, c, head, args) => {
                let f = match head {
                    CoreCall::Func(f) => f,
                    CoreCall::Primitive(..) => {
                        proof { assert(false); }
                        return Ok(());
                    },
                };
                let can_subsume = self.function(f.as_str()).can_subsume();
                let table = self.func(f.as_str());
                let es = self.args(backend, args.as_slice());
                match c {
                    Change::Delete => {
                        self.rb.add_op(PlanOp::Remove { table, args: es });
                    },
                    Change::Subsume => {
                        if can_subsume {
                            self.rb.add_op(PlanOp::Subsume { table, args: es });
                        } else {
                            return Err(Error::SubsumeMergeError(f.clone(), sp.clone()));
                        }
                    },
                }
                proof {
                    assert(self.plan().ops =~= ops0 + action_plan(names, fns, backend.bv(), s0, a@)->Ok_0.1);
                }
                Ok(())
            },
            CoreAction::Union(x, y) => {
                let ghost bv0 = backend.bv();
                let e1 = self.entry(backend, x);
                let ghost b1 = *backend;
                let ghost bv1 = backend.bv();
                let ghost s1 = self.state();
                let e2 = self.entry(backend, y);
                proof {
                    backend.lemma_bv_wf();
                    old(backend).lemma_bv_wf();
                    b1.lemma_bv_wf();
                    assert(act_terms(a@)[0] == x@);
                    assert(act_terms(a@)[1] == y@);
                    if let AtomTermView::Literal(l) = x@ {
                        lemma_literal_rep_grows(bv1, backend.bv(), l);
                    }
                    lemma_term_step_grows(bv1, backend.bv(), s0, x@);
                    lemma_grows_trans(old(backend).bv(), bv1, backend.bv());
                }
                self.rb.add_op(PlanOp::Union(e1, e2));
                proof {
                    assert(self.plan().ops =~= ops0 + action_plan(names, fns, backend.bv(), s0, a@)->Ok_0.1);
                }
                Ok(())
            },
            CoreAction::Panic(m) => {
                proof { lemma_grows_refl(backend.bv()); }
                self.rb.add_op(PlanOp::Panic(m.clone()));
                proof {
                    assert(self.plan().ops =~= ops0 + seq![PlanOpView::Panic(m@)]);
                }
                Ok(())
            },
        }
    }
}

/// The operations of the actions before the first one that fails to plan.
pub open spec fn failed_prefix_ops(
    names: Seq<(Seq<char>, usize)>,
    fns: Seq<FunctionView>,
    bv: BaseValues,
    s: TransState,
    acts: Seq<CoreActionView>,
) -> Seq<PlanOpView>
    decreases acts.len(),
{
    if acts.len() == 0 {
        Seq::empty()
    } else {
        match actions_plan(names, fns, bv, s, acts.drop_last()) {
            Err(_) => failed_prefix_ops(names, fns, bv, s, acts.drop_last()),
            Ok((_, ops)) => ops,
        }
    }
}

/// When the first `k` actions plan and the next one does not, the
/// operations before the failure are those of the first `k`.
pub proof fn lemma_failed_prefix_ops(
    names: Seq<(Seq<char>, usize)>,
    fns: Seq<FunctionView>,
    bv: BaseValues,
    s: TransState,
    acts: Seq<CoreActionView>,
    k: int,
)
    requires
        0 <= k < acts.len(),
        actions_plan(names, fns, bv, s, acts.take(k)) is Ok,
        actions_plan(names, fns, bv, s, acts.take(k + 1)) is Err,
    ensures
        failed_prefix_ops(names, fns, bv, s, acts) == actions_plan(names, fns, bv, s, acts.take(k))->Ok_0.1,
    decreases acts.len(),
{
    if k + 1 == acts.len() {
        assert(acts.drop_last() =~= acts.take(k));
    } else {
        assert(acts.drop_last().take(k) =~= acts.take(k));
        assert(acts.drop_last().take(k + 1) =~= acts.take(k + 1));
        lemma_actions_err_prefix(names, fns, bv, s, acts.drop_last(), k + 1);
        lemma_failed_prefix_ops(names, fns, bv, s, acts.drop_last(), k);
    }
}

impl<'a> BackendRule<'a> {
    /// Adds the operations of the actions, in order; fails at the first
    /// action that subsumes a function that cannot be subsumed.
    pub fn actions(&mut self, backend: &mut Backend, actions: &CoreActions) -> (r: Result<(), Error>)
        requires
            old(self).wf(),
            old(backend).wf(),
            actions_heads_ok(old(self).names(), actions@),
            old(self).plan().n_vars + actions_size(actions@) < usize::MAX,
            has_room(*old(backend), actions_size(actions@)),
            entries_known(old(backend).bv(), old(self).state().entries),
        ensures
            final(self).wf(),
            final(self).names() == old(self).names(),
            final(self).fns() == old(self).fns(),
            entries_known(final(backend).bv(), final(self).state().entries),
            interned_at_most(*old(backend), *final(backend), actions_size(actions@)),
            match actions_plan(old(self).names(), old(self).fns(), final(backend).bv(), old(self).state(), actions@) {
                Ok((st, ops)) => r is Ok && final(self).state() == st && final(self).plan() == (RulePlanView {
                    n_vars: st.n_vars,
                    ops: old(self).plan().ops + ops,
                    ..old(self).plan()
                }),
                Err(f) => (r matches Err(Error::SubsumeMergeError(n, sp)) && n@ == f.0 && sp == f.1)
                    && final(self).plan() == (RulePlanView {
                        n_vars: final(self).plan().n_vars,
                        ops: old(self).plan().ops + failed_prefix_ops(old(self).names(), old(self).fns(),
                            final(backend).bv(), old(self).state(), actions@),
                        ..old(self).plan()
                    }),
            },
    {
        let ghost acts = actions@;
        let ghost names = old(self).names();
        let ghost fns = old(self).fns();
        let mut k: usize = 0;
        proof {
            lemma_grows_refl(backend.bv());
            assert(acts.take(0) =~= Seq::<CoreActionView>::empty());
            assert(old(self).plan().ops + Seq::<PlanOpView>::empty() =~= old(self).plan().ops);
        }
        while k < actions.0.len()
            invariant
                0 <= k <= actions.0@.len(),
                acts == actions@,
                acts.len() == actions.0@.len(),
                names == old(self).names(),
                fns == old(self).fns(),
                self.wf(),
                backend.wf(),
                self.names() == names,
                self.fns() == fns,
                actions_heads_ok(names, acts),
                entries_known(backend.bv(), self.state().entries),
                actions_plan(names, fns, backend.bv(), old(self).state(), acts.take(k as int)) is Ok,
                ({
                    let (st, ops) = actions_plan(names, fns, backend.bv(), old(self).state(), acts.take(k as int))->Ok_0;
                    &&& self.state() == st
                    &&& self.plan() == (RulePlanView { n_vars: st.n_vars, ops: old(self).plan().ops + ops, ..old(self).plan() })
                }),
                self.plan().n_vars <= old(self).plan().n_vars + actions_size(acts.take(k as int)),
                old(self).plan().n_vars + actions_size(acts) < usize::MAX,
                has_room(*old(backend), actions_size(acts)),
                interned_at_most(*old(backend), *backend, actions_size(acts.take(k as int))),
                actions_known(backend.bv(), acts.take(k as int)),
            decreases actions.0@.len() - k,
        {
            let ghost before = *backend;
            let ghost plan_before = self.plan();
            proof {
                lemma_take_last(acts, k as int);
                lemma_actions_size_prefix(acts, k as int + 1);
                assert(acts[k as int] == actions.0@[k as int]@);
                assert(action_heads_ok(names, acts[k as int]));
            }
            let r = self.action(backend, &actions.0[k]);
            proof {
                before.lemma_bv_wf();
                backend.lemma_bv_wf();
                lemma_actions_plan_grows(names, fns, before.bv(), backend.bv(), old(self).state(), acts.take(k as int));
                lemma_grows_trans(old(backend).bv(), before.bv(), backend.bv());
            }
            match r {
                Err(e) => {
                    proof {
                        lemma_actions_err_prefix(names, fns, backend.bv(), old(self).state(), acts, k as int + 1);
                        lemma_actions_size_prefix(acts, k as int + 1);
                        lemma_take_last(acts, k as int);
                        lemma_failed_prefix_ops(names, fns, backend.bv(), old(self).state(), acts, k as int);
                    }
                    return Err(e);
                },
                Ok(()) => {},
            }
            proof {
                let (st, ops) = actions_plan(names, fns, backend.bv(), old(self).state(), acts.take(k as int))->Ok_0;
                let more = action_plan(names, fns, backend.bv(), st, acts[k as int])->Ok_0.1;
                assert(self.plan().ops =~= old(self).plan().ops + (ops + more));
                let tk = acts.take(k + 1);
                assert forall|i: int| 0 <= i < tk.len() implies terms_known(backend.bv(), act_terms(#[trigger] tk[i])) by {
                    if i < k {
                        assert(tk[i] == acts.take(k as int)[i]);
                        let ts = act_terms(tk[i]);
                        assert forall|j: int| 0 <= j < ts.len() implies (#[trigger] ts[j] matches AtomTermView::Literal(l) ==> lit_known(backend.bv(), l)) by {
                            if let AtomTermView::Literal(l) = ts[j] {
                                assert(terms_known(before.bv(), act_terms(acts.take(k as int)[i])));
                                lemma_literal_rep_grows(before.bv(), backend.bv(), l);
                            }
                        }
                    }
                }
            }
            k = k + 1;
        }
        proof {
            assert(acts.take(k as int) =~= acts);
        }
        Ok(())
    }

    /// Adds a call of an external function to the head and binds its result
    /// to a fresh variable, which is returned.
    pub fn call_external_func(&mut self, func: ExternalFunctionId, args: Vec<QueryEntry>, ty: ColumnTy) -> (e: QueryEntry)
        requires
            old(self).wf(),
            old(self).plan().n_vars < usize::MAX,
        ensures
            final(self).wf(),
            final(self).names() == old(self).names(),
            final(self).fns() == old(self).fns(),
            final(self).state().entries == old(self).state().entries,
            e == QueryEntry::Var(old(self).plan().n_vars as usize),
            final(self).plan() == (RulePlanView {
                n_vars: old(self).plan().n_vars + 1,
                ops: old(self).plan().ops.push(PlanOpView::Call { dst: old(self).plan().n_vars, func, args: args@, ty }),
                ..old(self).plan()
            }),
    {
        let e = self.rb.call_external_func(func, args, ty);
        assert(self.names() == old(self).names());
        assert(self.fns() == old(self).fns());
        assert(self.entries_view() == old(self).entries_view());
        e
    }

    /// The finished rule plan.
    pub fn build(self) -> (p: RulePlan)
        ensures
            p@ == self.plan(),
    {
        self.rb.build()
    }
}

} // verus!
