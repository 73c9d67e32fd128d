use vstd::prelude::*;
use crate::span::Span;
use crate::atoms::{AtomTermView, Change, CoreActionView, CoreAtomView, CoreCallView};
use crate::ids::Value;
use crate::merge::literal_value;
use crate::names::{entry_pos, entry_value};
use crate::rule::{PlanAtomView, PlanOpView, QueryEntry};
use crate::sorts::FunctionView;
use crate::termdag::LiteralView;
use crate::values::BaseValues;

verus! {

/// What a rule translation has bound so far: each term met with its entry,
/// and the number of rule variables created.
pub struct TransState {
    pub entries: Seq<(AtomTermView, QueryEntry)>,
    pub n_vars: nat,
}

/// No term is bound twice.
pub open spec fn entries_unique(es: Seq<(AtomTermView, QueryEntry)>) -> bool {
    forall|i: int, j: int| 0 <= i < j < es.len() ==> es[i].0 != es[j].0
}

/// The position of a term's binding.
pub open spec fn term_pos(es: Seq<(AtomTermView, QueryEntry)>, t: AtomTermView) -> Option<int> {
    if exists|i: int| 0 <= i < es.len() && es[i].0 == t {
        Some(choose|i: int| 0 <= i < es.len() && es[i].0 == t)
    } else {
        None
    }
}

/// The entry a term is bound to.
pub open spec fn lookup_entry(es: Seq<(AtomTermView, QueryEntry)>, t: AtomTermView) -> Option<QueryEntry> {
    match term_pos(es, t) {
        Some(i) => Some(es[i].1),
        None => None,
    }
}

/// The bindings after a term is bound to an entry, replacing its old binding.
pub open spec fn insert_entry(
    es: Seq<(AtomTermView, QueryEntry)>,
    t: AtomTermView,
    e: QueryEntry,
) -> Seq<(AtomTermView, QueryEntry)> {
    match term_pos(es, t) {
        Some(i) => es.update(i, (t, e)),
        None => es.push((t, e)),
    }
}

/// The value an interned literal has.
pub open spec fn literal_rep(bv: BaseValues, l: LiteralView) -> Value {
    match l {
        LiteralView::Int(i) => Value {
            rep: (choose|k: int| 0 <= k < bv.ints().len() && bv.ints()[k] as int == i) as u32,
        },
        LiteralView::String(s) => Value {
            rep: (choose|k: int| 0 <= k < bv.strings().len() && bv.strings()[k] == s) as u32,
        },
        LiteralView::Bool(b) => Value { rep: if b { 1u32 } else { 0u32 } },
        LiteralView::Unit => Value { rep: 0 },
    }
}

/// The literal has a value among the interned base values.
pub open spec fn lit_known(bv: BaseValues, l: LiteralView) -> bool {
    match l {
        LiteralView::Int(i) => exists|k: int| 0 <= k < bv.ints().len() && bv.ints()[k] as int == i,
        LiteralView::String(s) => exists|k: int| 0 <= k < bv.strings().len() && bv.strings()[k] == s,
        _ => true,
    }
}

/// Every term of the list is a literal.
pub open spec fn all_literals(ts: Seq<AtomTermView>) -> bool {
    forall|k: int| 0 <= k < ts.len() ==> #[trigger] ts[k] is Literal
}

/// The values of literal terms.
pub open spec fn literal_values(bv: BaseValues, ts: Seq<AtomTermView>) -> Seq<Value> {
    ts.map_values(|t: AtomTermView| literal_rep(bv, t->Literal_0))
}

/// Every literal among the terms has a value.
pub open spec fn terms_known(bv: BaseValues, ts: Seq<AtomTermView>) -> bool {
    forall|i: int| 0 <= i < ts.len() ==> (#[trigger] ts[i] matches AtomTermView::Literal(l) ==> lit_known(bv, l))
}

/// Every literal that has a binding has a value.
pub open spec fn entries_known(bv: BaseValues, es: Seq<(AtomTermView, QueryEntry)>) -> bool {
    forall|i: int| 0 <= i < es.len() ==> (#[trigger] es[i].0 matches AtomTermView::Literal(l) ==> lit_known(bv, l))
}

/// Values known stay known as more values are interned.
pub proof fn lemma_entries_known_grows(bv1: BaseValues, bv2: BaseValues, es: Seq<(AtomTermView, QueryEntry)>)
    requires
        bv1.wf(),
        bv2.wf(),
        bv2.grows_from(&bv1),
        entries_known(bv1, es),
    ensures
        entries_known(bv2, es),
{
    assert forall|i: int| 0 <= i < es.len() implies (#[trigger] es[i].0 matches AtomTermView::Literal(l) ==> lit_known(bv2, l)) by {
        if let AtomTermView::Literal(l) = es[i].0 {
            lemma_literal_rep_grows(bv1, bv2, l);
        }
    }
}

/// The entry of a term: its binding if it has one; otherwise a fresh
/// variable for a variable and the constant value for a literal, which then
/// become its binding.
pub open spec fn term_step(bv: BaseValues, s: TransState, t: AtomTermView) -> (TransState, QueryEntry) {
    match lookup_entry(s.entries, t) {
        Some(e) => (s, e),
        None => match t {
            AtomTermView::Var(_, _) => (
                TransState { entries: s.entries.push((t, QueryEntry::Var(s.n_vars as usize))), n_vars: s.n_vars + 1 },
                QueryEntry::Var(s.n_vars as usize),
            ),
            AtomTermView::Literal(l) => (
                TransState { entries: s.entries.push((t, QueryEntry::Const(literal_rep(bv, l)))), n_vars: s.n_vars },
                QueryEntry::Const(literal_rep(bv, l)),
            ),
        },
    }
}

/// The entries of terms taken left to right.
pub open spec fn terms_step(bv: BaseValues, s: TransState, ts: Seq<AtomTermView>) -> (TransState, Seq<QueryEntry>)
    decreases ts.len(),
{
    if ts.len() == 0 {
        (s, Seq::empty())
    } else {
        let (s1, es) = terms_step(bv, s, ts.drop_last());
        let (s2, e) = term_step(bv, s1, ts.last());
        (s2, es.push(e))
    }
}

/// The function position a name resolves to.
pub open spec fn func_index(names: Seq<(Seq<char>, usize)>, f: Seq<char>) -> int {
    entry_value(names, f)->0 as int
}

/// The name of the primitive that makes a function into a value.
pub open spec fn unstable_fn_name() -> Seq<char> {
    "unstable-fn"@
}

/// A call of `unstable-fn` names, by a string literal as its first argument,
/// a declared function. Choosing among primitives by their function sort
/// needs function sorts and the type checker, which this library does not
/// have, so such a call must name a function.
pub open spec fn unstable_fn_ok(names: Seq<(Seq<char>, usize)>, p: Seq<char>, args: Seq<AtomTermView>) -> bool {
    p == unstable_fn_name() ==> {
        &&& args.len() >= 1
        &&& args[0] matches AtomTermView::Literal(LiteralView::String(f))
        &&& entry_value(names, f) matches Some(i) && i < u32::MAX
    }
}

/// The entries a primitive is called with: those of its arguments, except
/// that `unstable-fn` gets, in place of its first argument, a constant that
/// stands for the function the argument names: the function's position.
pub open spec fn prim_entries(
    names: Seq<(Seq<char>, usize)>,
    p: Seq<char>,
    args: Seq<AtomTermView>,
    es: Seq<QueryEntry>,
) -> Seq<QueryEntry> {
    if p == unstable_fn_name() {
        es.update(0, QueryEntry::Const(Value { rep: entry_value(names, args[0]->Literal_0->String_0)->0 as u32 }))
    } else {
        es
    }
}

/// The planned atom of a query atom: a function reads its table, skipping
/// subsumed rows unless they are included and, when its facts are tracked
/// and assertion is required, facts that are not asserted; a primitive is
/// called.
pub open spec fn atom_plan(
    names: Seq<(Seq<char>, usize)>,
    fns: Seq<FunctionView>,
    bv: BaseValues,
    s: TransState,
    a: CoreAtomView,
    include_subsumed: bool,
    require_asserted: bool,
) -> (TransState, PlanAtomView) {
    let (s1, args) = terms_step(bv, s, a.args);
    match a.head {
        CoreCallView::Func(f) => {
            let func = fns[func_index(names, f)];
            (s1, PlanAtomView::Table {
                table: func.backend_id,
                args,
                is_subsumed: if include_subsumed { None } else { Some(false) },
                require_asserted: if func.decl.fact_tracking && require_asserted { Some(true) } else { None },
            })
        },
        CoreCallView::Primitive(p, id, ty) => (s1, PlanAtomView::Prim { func: id, args: prim_entries(names, p, a.args, args), ty }),
    }
}

pub open spec fn query_plan(
    names: Seq<(Seq<char>, usize)>,
    fns: Seq<FunctionView>,
    bv: BaseValues,
    s: TransState,
    atoms: Seq<CoreAtomView>,
    include_subsumed: bool,
    require_asserted: bool,
) -> (TransState, Seq<PlanAtomView>)
    decreases atoms.len(),
{
    if atoms.len() == 0 {
        (s, Seq::empty())
    } else {
        let (s1, ps) = query_plan(names, fns, bv, s, atoms.drop_last(), include_subsumed, require_asserted);
        let (s2, p) = atom_plan(names, fns, bv, s1, atoms.last(), include_subsumed, require_asserted);
        (s2, ps.push(p))
    }
}

/// The operations one action adds, or the name of a function that cannot be
/// subsumed: a `Let` binds its variable to a fresh variable holding the
/// lookup or call, a `LetAtomTerm` binds its variable to the term's entry,
/// and the others plan their operation on their entries.
pub open spec fn action_plan(
    names: Seq<(Seq<char>, usize)>,
    fns: Seq<FunctionView>,
    bv: BaseValues,
    s: TransState,
    a: CoreActionView,
) -> Result<(TransState, Seq<PlanOpView>), (Seq<char>, Span)> {
    match a {
        CoreActionView::Let(v, ty, head, args) => {
            let (s1, es) = terms_step(bv, s, args);
            let dst = s1.n_vars;
            let s2 = TransState {
                entries: insert_entry(s1.entries, AtomTermView::Var(v, ty), QueryEntry::Var(dst as usize)),
                n_vars: dst + 1,
            };
            match head {
                CoreCallView::Func(f) => Ok((s2, seq![PlanOpView::Lookup {
                    dst,
                    table: fns[func_index(names, f)].backend_id,
                    args: es,
                }])),
                CoreCallView::Primitive(p, id, oty) => Ok((s2, seq![PlanOpView::Call { dst, func: id, args: prim_entries(names, p, args, es), ty: oty }])),
            }
        },
        CoreActionView::LetAtomTerm(v, ty, x) => {
            let (s1, e) = term_step(bv, s, x);
            Ok((TransState { entries: insert_entry(s1.entries, AtomTermView::Var(v, ty), e), n_vars: s1.n_vars }, Seq::empty()))
        },
        CoreActionView::SetOutput(head, xs, y) => {
            let (s1, es) = terms_step(bv, s, xs.push(y));
            Ok((s1, seq![PlanOpView::SetOutput { table: fns[func_index(names, head->Func_0)].backend_id, args: es }]))
        },
        CoreActionView::Change(sp, c, head, args) => {
            let (s1, es) = terms_step(bv, s, args);
            let func = fns[func_index(names, head->Func_0)];
            match c {
                Change::Delete => Ok((s1, seq![PlanOpView::Remove { table: func.backend_id, args: es }])),
                Change::Subsume => if func.can_subsume {
                    Ok((s1, seq![PlanOpView::Subsume { table: func.backend_id, args: es }]))
                } else {
                    Err((head->Func_0, sp))
                },
            }
        },
        CoreActionView::Union(x, y) => {
            let (s1, e1) = term_step(bv, s, x);
            let (s2, e2) = term_step(bv, s1, y);
            Ok((s2, seq![PlanOpView::Union(e1, e2)]))
        },
        CoreActionView::Panic(m) => Ok((s, seq![PlanOpView::Panic(m)])),
    }
}

pub open spec fn actions_plan(
    names: Seq<(Seq<char>, usize)>,
    fns: Seq<FunctionView>,
    bv: BaseValues,
    s: TransState,
    acts: Seq<CoreActionView>,
) -> Result<(TransState, Seq<PlanOpView>), (Seq<char>, Span)>
    decreases acts.len(),
{
    if acts.len() == 0 {
        Ok((s, Seq::empty()))
    } else {
        match actions_plan(names, fns, bv, s, acts.drop_last()) {
            Err(f) => Err(f),
            Ok((s1, ops)) => match action_plan(names, fns, bv, s1, acts.last()) {
                Err(f) => Err(f),
                Ok((s2, more)) => Ok((s2, ops + more)),
            },
        }
    }
}

/// The number of terms in the atoms.
pub open spec fn query_size(atoms: Seq<CoreAtomView>) -> nat
    decreases atoms.len(),
{
    if atoms.len() == 0 {
        0
    } else {
        query_size(atoms.drop_last()) + atoms.last().args.len()
    }
}

/// Every literal in the atoms has a value.
pub open spec fn atoms_known(bv: BaseValues, atoms: Seq<CoreAtomView>) -> bool {
    forall|i: int| 0 <= i < atoms.len() ==> terms_known(bv, #[trigger] atoms[i].args)
}

/// Every function the atoms read is declared.
pub open spec fn atoms_calls_known(names: Seq<(Seq<char>, usize)>, atoms: Seq<CoreAtomView>) -> bool {
    forall|i: int| 0 <= i < atoms.len() ==> {
        &&& (#[trigger] atoms[i].head matches CoreCallView::Func(f) ==> entry_pos(names, f) is Some)
        &&& (atoms[i].head matches CoreCallView::Primitive(p, _, _) ==> unstable_fn_ok(names, p, atoms[i].args))
    }
}

/// A literal's value is the one it has among the interned base values.
pub proof fn lemma_literal_rep(bv: BaseValues, l: LiteralView, v: Value)
    requires
        bv.wf(),
        literal_value(bv, l, v),
    ensures
        v == literal_rep(bv, l),
        lit_known(bv, l),
{
    bv.lemma_unique();
    match l {
        LiteralView::Int(i) => {
            assert(bv.ints()[v.rep as int] as int == i);
            let k = choose|k: int| 0 <= k < bv.ints().len() && bv.ints()[k] as int == i;
            if k != v.rep as int {
                if k < v.rep as int {
                    assert(bv.ints()[k] != bv.ints()[v.rep as int]);
                } else {
                    assert(bv.ints()[v.rep as int] != bv.ints()[k]);
                }
            }
        },
        LiteralView::String(s) => {
            assert(bv.strings()[v.rep as int] == s);
            let k = choose|k: int| 0 <= k < bv.strings().len() && bv.strings()[k] == s;
            if k != v.rep as int {
                if k < v.rep as int {
                    assert(bv.strings()[k] != bv.strings()[v.rep as int]);
                } else {
                    assert(bv.strings()[v.rep as int] != bv.strings()[k]);
                }
            }
        },
        _ => {},
    }
}

/// A literal that has a value keeps it as more values are interned.
pub proof fn lemma_literal_rep_grows(bv1: BaseValues, bv2: BaseValues, l: LiteralView)
    requires
        bv1.wf(),
        bv2.wf(),
        bv2.grows_from(&bv1),
        lit_known(bv1, l),
    ensures
        literal_rep(bv1, l) == literal_rep(bv2, l),
        lit_known(bv2, l),
{
    bv1.lemma_unique();
    bv2.lemma_unique();
    match l {
        LiteralView::Int(i) => {
            let k = choose|k: int| 0 <= k < bv1.ints().len() && bv1.ints()[k] as int == i;
            assert(bv1.ints()[k] == bv2.ints().subrange(0, bv1.ints().len() as int)[k]);
            assert(bv2.ints()[k] as int == i);
            let k2 = choose|k2: int| 0 <= k2 < bv2.ints().len() && bv2.ints()[k2] as int == i;
            if k2 != k {
                if k2 < k {
                    assert(bv2.ints()[k2] != bv2.ints()[k]);
                } else {
                    assert(bv2.ints()[k] != bv2.ints()[k2]);
                }
            }
        },
        LiteralView::String(s) => {
            let k = choose|k: int| 0 <= k < bv1.strings().len() && bv1.strings()[k] == s;
            assert(bv1.strings()[k] == bv2.strings().subrange(0, bv1.strings().len() as int)[k]);
            assert(bv2.strings()[k] == s);
            let k2 = choose|k2: int| 0 <= k2 < bv2.strings().len() && bv2.strings()[k2] == s;
            if k2 != k {
                if k2 < k {
                    assert(bv2.strings()[k2] != bv2.strings()[k]);
                } else {
                    assert(bv2.strings()[k] != bv2.strings()[k2]);
                }
            }
        },
        _ => {},
    }
}

pub proof fn lemma_term_step_grows(bv1: BaseValues, bv2: BaseValues, s: TransState, t: AtomTermView)
    requires
        bv1.wf(),
        bv2.wf(),
        bv2.grows_from(&bv1),
        t matches AtomTermView::Literal(l) ==> lit_known(bv1, l),
    ensures
        term_step(bv1, s, t) == term_step(bv2, s, t),
{
    if let AtomTermView::Literal(l) = t {
        lemma_literal_rep_grows(bv1, bv2, l);
    }
}

pub proof fn lemma_terms_step_grows(bv1: BaseValues, bv2: BaseValues, s: TransState, ts: Seq<AtomTermView>)
    requires
        bv1.wf(),
        bv2.wf(),
        bv2.grows_from(&bv1),
        terms_known(bv1, ts),
    ensures
        terms_step(bv1, s, ts) == terms_step(bv2, s, ts),
    decreases ts.len(),
{
    if ts.len() > 0 {
        let init = ts.drop_last();
        assert forall|i: int| 0 <= i < init.len() implies (#[trigger] init[i] matches AtomTermView::Literal(l) ==> lit_known(bv1, l)) by {
            assert(init[i] == ts[i]);
        }
        lemma_terms_step_grows(bv1, bv2, s, init);
        let s1 = terms_step(bv1, s, init).0;
        assert(ts[ts.len() - 1] == ts.last());
        lemma_term_step_grows(bv1, bv2, s1, ts.last());
    }
}

pub proof fn lemma_query_plan_grows(
    names: Seq<(Seq<char>, usize)>,
    fns: Seq<FunctionView>,
    bv1: BaseValues,
    bv2: BaseValues,
    s: TransState,
    atoms: Seq<CoreAtomView>,
    include_subsumed: bool,
    require_asserted: bool,
)
    requires
        bv1.wf(),
        bv2.wf(),
        bv2.grows_from(&bv1),
        atoms_known(bv1, atoms),
    ensures
        query_plan(names, fns, bv1, s, atoms, include_subsumed, require_asserted)
            == query_plan(names, fns, bv2, s, atoms, include_subsumed, require_asserted),
    decreases atoms.len(),
{
    if atoms.len() > 0 {
        let init = atoms.drop_last();
        assert forall|i: int| 0 <= i < init.len() implies terms_known(bv1, #[trigger] init[i].args) by {
            assert(init[i] == atoms[i]);
        }
        lemma_query_plan_grows(names, fns, bv1, bv2, s, init, include_subsumed, require_asserted);
        let s1 = query_plan(names, fns, bv1, s, init, include_subsumed, require_asserted).0;
        assert(atoms[atoms.len() - 1] == atoms.last());
        lemma_terms_step_grows(bv1, bv2, s1, atoms.last().args);
    }
}

/// Takes one more element into a prefix.
pub proof fn lemma_take_last<T>(s: Seq<T>, k: int)
    requires
        0 <= k < s.len(),
    ensures
        s.take(k + 1).drop_last() == s.take(k),
        s.take(k + 1).last() == s[k],
        s.take(k + 1).len() == k + 1,
{
    assert(s.take(k + 1).drop_last() =~= s.take(k));
}

/// The terms an action reads, in the order it reads them.
pub open spec fn act_terms(a: CoreActionView) -> Seq<AtomTermView> {
    match a {
        CoreActionView::Let(_, _, _, args) => args,
        CoreActionView::LetAtomTerm(_, _, x) => seq![x],
        CoreActionView::SetOutput(_, xs, y) => xs.push(y),
        CoreActionView::Change(_, _, _, args) => args,
        CoreActionView::Union(x, y) => seq![x, y],
        CoreActionView::Panic(_) => Seq::empty(),
    }
}

/// A bound on the variables and values an action adds.
pub open spec fn act_size(a: CoreActionView) -> nat {
    act_terms(a).len() + 1
}

pub open spec fn actions_size(acts: Seq<CoreActionView>) -> nat
    decreases acts.len(),
{
    if acts.len() == 0 {
        0
    } else {
        actions_size(acts.drop_last()) + act_size(acts.last())
    }
}

/// Every literal the actions read has a value.
pub open spec fn actions_known(bv: BaseValues, acts: Seq<CoreActionView>) -> bool {
    forall|i: int| 0 <= i < acts.len() ==> terms_known(bv, act_terms(#[trigger] acts[i]))
}

/// The functions an action calls are declared, and it sets or changes
/// functions only, never primitives.
pub open spec fn action_heads_ok(names: Seq<(Seq<char>, usize)>, a: CoreActionView) -> bool {
    match a {
        CoreActionView::Let(_, _, head, args) => match head {
            CoreCallView::Func(f) => entry_pos(names, f) is Some,
            CoreCallView::Primitive(p, _, _) => unstable_fn_ok(names, p, args),
        },
        CoreActionView::SetOutput(head, _, _) => head matches CoreCallView::Func(f) && entry_pos(names, f) is Some,
        CoreActionView::Change(_, _, head, _) => head matches CoreCallView::Func(f) && entry_pos(names, f) is Some,
        _ => true,
    }
}

pub open spec fn actions_heads_ok(names: Seq<(Seq<char>, usize)>, acts: Seq<CoreActionView>) -> bool {
    forall|i: int| 0 <= i < acts.len() ==> action_heads_ok(names, #[trigger] acts[i])
}

pub proof fn lemma_action_plan_grows(
    names: Seq<(Seq<char>, usize)>,
    fns: Seq<FunctionView>,
    bv1: BaseValues,
    bv2: BaseValues,
    s: TransState,
    a: CoreActionView,
)
    requires
        bv1.wf(),
        bv2.wf(),
        bv2.grows_from(&bv1),
        terms_known(bv1, act_terms(a)),
    ensures
        action_plan(names, fns, bv1, s, a) == action_plan(names, fns, bv2, s, a),
{
    let ts = act_terms(a);
    match a {
        CoreActionView::Let(_, _, _, args) => {
            lemma_terms_step_grows(bv1, bv2, s, args);
        },
        CoreActionView::LetAtomTerm(_, _, x) => {
            assert(ts[0] == x);
            lemma_term_step_grows(bv1, bv2, s, x);
        },
        CoreActionView::SetOutput(_, xs, y) => {
            lemma_terms_step_grows(bv1, bv2, s, xs.push(y));
        },
        CoreActionView::Change(_, _, _, args) => {
            lemma_terms_step_grows(bv1, bv2, s, args);
        },
        CoreActionView::Union(x, y) => {
            assert(ts[0] == x);
            assert(ts[1] == y);
            lemma_term_step_grows(bv1, bv2, s, x);
            let s1 = term_step(bv1, s, x).0;
            lemma_term_step_grows(bv1, bv2, s1, y);
        },
        CoreActionView::Panic(_) => {},
    }
}

pub proof fn lemma_actions_plan_grows(
    names: Seq<(Seq<char>, usize)>,
    fns: Seq<FunctionView>,
    bv1: BaseValues,
    bv2: BaseValues,
    s: TransState,
    acts: Seq<CoreActionView>,
)
    requires
        bv1.wf(),
        bv2.wf(),
        bv2.grows_from(&bv1),
        actions_known(bv1, acts),
    ensures
        actions_plan(names, fns, bv1, s, acts) == actions_plan(names, fns, bv2, s, acts),
    decreases acts.len(),
{
    if acts.len() > 0 {
        let init = acts.drop_last();
        assert forall|i: int| 0 <= i < init.len() implies terms_known(bv1, act_terms(#[trigger] init[i])) by {
            assert(init[i] == acts[i]);
        }
        lemma_actions_plan_grows(names, fns, bv1, bv2, s, init);
        assert(acts[acts.len() - 1] == acts.last());
        if let Ok((s1, _)) = actions_plan(names, fns, bv1, s, init) {
            lemma_action_plan_grows(names, fns, bv1, bv2, s1, acts.last());
        }
    }
}

/// Once a prefix of the actions fails, all of them fail the same way.
pub proof fn lemma_actions_err_prefix(
    names: Seq<(Seq<char>, usize)>,
    fns: Seq<FunctionView>,
    bv: BaseValues,
    s: TransState,
    acts: Seq<CoreActionView>,
    k: int,
)
    requires
        0 <= k <= acts.len(),
        actions_plan(names, fns, bv, s, acts.take(k)) is Err,
    ensures
        actions_plan(names, fns, bv, s, acts) == actions_plan(names, fns, bv, s, acts.take(k)),
    decreases acts.len(),
{
    if k < acts.len() {
        assert(acts.drop_last().take(k) =~= acts.take(k));
        lemma_actions_err_prefix(names, fns, bv, s, acts.drop_last(), k);
    } else {
        assert(acts.take(k) =~= acts);
    }
}

/// The size of a prefix grows by the size of the action taken.
pub proof fn lemma_actions_size_prefix(acts: Seq<CoreActionView>, k: int)
    requires
        0 < k <= acts.len(),
    ensures
        actions_size(acts.take(k)) == actions_size(acts.take(k - 1)) + act_size(acts[k - 1]),
        actions_size(acts.take(k)) <= actions_size(acts),
    decreases acts.len(),
{
    assert(acts.take(k).drop_last() =~= acts.take(k - 1));
    if k < acts.len() {
        lemma_actions_size_prefix(acts.drop_last(), k);
        assert(acts.drop_last().take(k) =~= acts.take(k));
        assert(acts.drop_last().take(k - 1) =~= acts.take(k - 1));
    } else {
        assert(acts.take(k) =~= acts);
    }
}

/// The plan of a rule: its query, skipping subsumed rows and requiring
/// no assertion, then its actions, starting with nothing bound; or the
/// name of a function an action cannot subsume.
pub open spec fn rule_plan(
    names: Seq<(Seq<char>, usize)>,
    fns: Seq<FunctionView>,
    bv: BaseValues,
    name: Seq<char>,
    seminaive: bool,
    query: Seq<CoreAtomView>,
    acts: Seq<CoreActionView>,
) -> Result<crate::rule::RulePlanView, (Seq<char>, Span)> {
    let s0 = TransState { entries: Seq::empty(), n_vars: 0 };
    let (s1, atoms) = query_plan(names, fns, bv, s0, query, false, false);
    match actions_plan(names, fns, bv, s1, acts) {
        Ok((s2, ops)) => Ok(crate::rule::RulePlanView { name, seminaive, n_vars: s2.n_vars, atoms, ops }),
        Err(f) => Err(f),
    }
}

/// Literals known stay known as more values are interned.
pub proof fn lemma_atoms_known_grows(bv1: BaseValues, bv2: BaseValues, atoms: Seq<CoreAtomView>)
    requires
        bv1.wf(),
        bv2.wf(),
        bv2.grows_from(&bv1),
        atoms_known(bv1, atoms),
    ensures
        atoms_known(bv2, atoms),
{
    assert forall|i: int| 0 <= i < atoms.len() implies terms_known(bv2, #[trigger] atoms[i].args) by {
        let ts = atoms[i].args;
        assert forall|j: int| 0 <= j < ts.len() implies (#[trigger] ts[j] matches AtomTermView::Literal(l) ==> lit_known(bv2, l)) by {
            if let AtomTermView::Literal(l) = ts[j] {
                assert(terms_known(bv1, atoms[i].args));
                lemma_literal_rep_grows(bv1, bv2, l);
            }
        }
    }
}

/// Translating two lists of atoms one after the other is translating their
/// concatenation.
pub proof fn lemma_query_plan_concat(
    names: Seq<(Seq<char>, usize)>,
    fns: Seq<FunctionView>,
    bv: BaseValues,
    s: TransState,
    a: Seq<CoreAtomView>,
    b: Seq<CoreAtomView>,
    include_subsumed: bool,
    require_asserted: bool,
)
    ensures
        ({
            let (s1, p1) = query_plan(names, fns, bv, s, a, include_subsumed, require_asserted);
            let (s2, p2) = query_plan(names, fns, bv, s1, b, include_subsumed, require_asserted);
            query_plan(names, fns, bv, s, a + b, include_subsumed, require_asserted) == (s2, p1 + p2)
        }),
        query_size(a + b) == query_size(a) + query_size(b),
    decreases b.len(),
{
    if b.len() == 0 {
        assert(a + b =~= a);
        let (s1, p1) = query_plan(names, fns, bv, s, a, include_subsumed, require_asserted);
        assert(p1 + Seq::<PlanAtomView>::empty() =~= p1);
    } else {
        lemma_query_plan_concat(names, fns, bv, s, a, b.drop_last(), include_subsumed, require_asserted);
        assert((a + b).drop_last() =~= a + b.drop_last());
        assert((a + b).last() == b.last());
        let (s1, p1) = query_plan(names, fns, bv, s, a, include_subsumed, require_asserted);
        let (s2, p2) = query_plan(names, fns, bv, s1, b.drop_last(), include_subsumed, require_asserted);
        let (s3, p3) = atom_plan(names, fns, bv, s2, b.last(), include_subsumed, require_asserted);
        assert((p1 + p2).push(p3) =~= p1 + p2.push(p3));
    }
}

pub proof fn lemma_query_size_concat(a: Seq<CoreAtomView>, b: Seq<CoreAtomView>)
    ensures
        query_size(a + b) == query_size(a) + query_size(b),
    decreases b.len(),
{
    if b.len() == 0 {
        assert(a + b =~= a);
    } else {
        lemma_query_size_concat(a, b.drop_last());
        assert((a + b).drop_last() =~= a + b.drop_last());
        assert((a + b).last() == b.last());
    }
}

} // verus!
