//! Properties that hold across the operations of the library.
use vstd::prelude::*;
use crate::backend::{
    TableView, RowView, spec_validate, fact_row, set_fact_status, with_rows, insert_rows,
    referenced_rows, referenced_fact, table_wf, find_row, keys_unique,
};
use crate::egraph::factref_prim::{fact_ref_post, fact_ref_target, fact_ref_fits};
use crate::egraph::{StateView, BaseValue, push_post, pop_post, state_wf};
use crate::egraph::command::{ResolvedNCommand, command_post, pop_n};
use crate::atoms::{CoreAction, CoreCall, terms_view};
use crate::error::Error;
use crate::ids::{FactRef, Value};
use crate::output::CommandOutput;
use crate::values::BaseValues;
use crate::span::Span;
use crate::atoms::{CoreAtomView, CoreCallView};
use crate::rule::PlanAtomView;
use crate::sorts::FunctionView;
use crate::translate::{all_literals, literal_values, TransState, atom_plan, func_index, literal_rep, term_pos, term_step, terms_step, query_plan};
use crate::rule::QueryEntry;
use crate::atoms::AtomTermView;
use crate::search::{search, search_rows, row_starts_match, row_passes, row_values, unify, empty_env};
use crate::egraph::check::{query_holds, no_bindings};
use crate::names::entry_value;
use crate::egraph::load::{load_rows, input_post, parse_rows, row_sorts, row_values_of};
use crate::input::text_lines;
use crate::sorts::FunctionSubtype;
use crate::termdag::LiteralView;

verus! {

/// Asserting or retracting a valid fact and then asking for its truth
/// status gives back the status just set.
pub proof fn law_set_status_reads_back(tables: Seq<TableView>, fr: FactRef, b: bool)
    requires
        spec_validate(tables, fr) is Ok,
    ensures
        spec_validate(set_fact_status(tables, fr, b), fr) is Ok,
        fact_row(set_fact_status(tables, fr, b), fr).asserted == b,
{
}

/// Asserting or retracting a fact leaves every fact reference as valid or
/// as stale as it was, keeps the keys and output of the fact, and leaves
/// every other fact as it was.
pub proof fn law_set_status_keeps_references(tables: Seq<TableView>, fr: FactRef, b: bool, g: FactRef)
    requires
        spec_validate(tables, fr) is Ok,
    ensures
        spec_validate(set_fact_status(tables, fr, b), g) == spec_validate(tables, g),
        fact_row(set_fact_status(tables, fr, b), fr).keys == fact_row(tables, fr).keys,
        fact_row(set_fact_status(tables, fr, b), fr).out == fact_row(tables, fr).out,
        spec_validate(tables, g) is Ok && g != fr ==> fact_row(set_fact_status(tables, fr, b), g) == fact_row(tables, g),
{
    if spec_validate(tables, g) is Ok && g != fr {
        if g.table_id == fr.table_id {
            assert(g.fact_id != fr.fact_id);
        }
    }
}

/// Of two status changes to one fact, the second decides: asserting and
/// then retracting is retracting, and the other way round.
pub proof fn law_set_status_last_wins(tables: Seq<TableView>, fr: FactRef, a: bool, b: bool)
    requires
        spec_validate(tables, fr) is Ok,
    ensures
        set_fact_status(set_fact_status(tables, fr, a), fr, b) == set_fact_status(tables, fr, b),
{
    let t = fr.table_id.0 as int;
    let once = set_fact_status(tables, fr, b);
    let twice = set_fact_status(set_fact_status(tables, fr, a), fr, b);
    assert(twice[t].rows =~= once[t].rows);
    assert(twice =~= once);
}

/// Setting a fact to the status it has changes nothing; so asserting a
/// fact that was not asserted and then retracting it gives back the tables
/// it started from.
pub proof fn law_set_status_unchanged(tables: Seq<TableView>, fr: FactRef)
    requires
        spec_validate(tables, fr) is Ok,
    ensures
        set_fact_status(tables, fr, fact_row(tables, fr).asserted) == tables,
        !fact_row(tables, fr).asserted ==> set_fact_status(set_fact_status(tables, fr, true), fr, false) == tables,
{
    let t = fr.table_id.0 as int;
    assert(set_fact_status(tables, fr, fact_row(tables, fr).asserted)[t].rows =~= tables[t].rows);
    assert(set_fact_status(tables, fr, fact_row(tables, fr).asserted) =~= tables);
    law_set_status_last_wins(tables, fr, true, false);
}

/// Inserting a row never makes a fact reference stale, and a valid
/// reference keeps denoting the fact with the same keys.
pub proof fn law_insert_keeps_references(
    tables: Seq<TableView>,
    t: int,
    keys: Seq<Value>,
    out: Value,
    g: FactRef,
)
    requires
        0 <= t < tables.len(),
        spec_validate(tables, g) is Ok,
    ensures
        spec_validate(with_rows(tables, t, insert_rows(tables[t].rows, keys, out)), g) is Ok,
        fact_row(with_rows(tables, t, insert_rows(tables[t].rows, keys, out)), g).keys == fact_row(tables, g).keys,
{
    if let Some(i) = find_row(tables[t].rows, keys) {
        assert(tables[t].rows[i].keys == keys);
    }
}

/// Taking a reference to the fact that holds some keys gives a valid
/// reference to a fact with those keys, and every reference that was valid
/// stays valid and denotes the same fact.
pub proof fn law_reference_is_valid(
    tables: Seq<TableView>,
    t: int,
    keys: Seq<Value>,
    default_out: Value,
    g: FactRef,
)
    requires
        0 <= t < tables.len() < u32::MAX,
        tables[t].truth_tracking,
        tables[t].rows.len() < u32::MAX,
    ensures
        ({
            let after = with_rows(tables, t, referenced_rows(tables[t].rows, keys, default_out));
            let fr = referenced_fact(tables[t].rows, t, keys);
            &&& spec_validate(after, fr) is Ok
            &&& fact_row(after, fr).keys == keys
            &&& spec_validate(tables, g) is Ok ==> spec_validate(after, g) is Ok && fact_row(after, g) == fact_row(tables, g)
        }),
{
    if let Some(i) = find_row(tables[t].rows, keys) {
        assert(tables[t].rows[i].keys == keys);
    } else {
        if spec_validate(tables, g) is Ok && g.table_id.0 == t {
            assert(g.fact_id.0 < tables[t].rows.len());
        }
    }
}

/// A fact that is only referenced becomes asserted when its keys are
/// inserted, with the inserted output, and no second row is added for it:
/// the reference taken before the insertion denotes the asserted fact.
pub proof fn law_insert_asserts_referenced_fact(
    tables: Seq<TableView>,
    t: int,
    keys: Seq<Value>,
    default_out: Value,
    out: Value,
)
    requires
        0 <= t < tables.len() < u32::MAX,
        tables[t].truth_tracking,
        tables[t].rows.len() < u32::MAX,
        table_wf(tables[t]),
    ensures
        ({
            let referenced = with_rows(tables, t, referenced_rows(tables[t].rows, keys, default_out));
            let fr = referenced_fact(tables[t].rows, t, keys);
            let inserted = with_rows(referenced, t, insert_rows(referenced[t].rows, keys, out));
            &&& spec_validate(inserted, fr) is Ok
            &&& fact_row(inserted, fr) == (RowView { keys, out, asserted: true })
            &&& inserted[t].rows.len() == referenced[t].rows.len()
        }),
{
    lemma_referenced_found(tables[t].rows, t, keys, default_out);
}

/// After a reference to the fact holding some keys is taken, the keys are
/// found at the referenced fact, and taking the reference again changes
/// nothing.
proof fn lemma_referenced_found(rows: Seq<RowView>, t: int, keys: Seq<Value>, default_out: Value)
    requires
        0 <= t < u32::MAX,
        rows.len() <= u32::MAX,
        find_row(rows, keys) is None ==> rows.len() < u32::MAX,
        keys_unique(rows),
    ensures
        ({
            let rrows = referenced_rows(rows, keys, default_out);
            let fr = referenced_fact(rows, t, keys);
            &&& fr.table_id.0 == t
            &&& find_row(rrows, keys) == Some(fr.fact_id.0 as int)
            &&& referenced_fact(rrows, t, keys) == fr
            &&& referenced_rows(rrows, keys, default_out) == rrows
        }),
{
    let rrows = referenced_rows(rows, keys, default_out);
    let fr = referenced_fact(rows, t, keys);
    let i = fr.fact_id.0 as int;
    if let Some(j) = find_row(rows, keys) {
        assert(rows[j].keys == keys);
        assert(rrows == rows);
    } else {
        assert(rrows == rows.push(RowView { keys, out: default_out, asserted: false }));
        assert(rrows[rows.len() as int].keys == keys);
    }
    assert(i < rrows.len() && rrows[i].keys == keys);
    assert(find_row(rrows, keys) == Some(i)) by {
        let k = choose|k: int| 0 <= k < rrows.len() && rrows[k].keys == keys;
        if k != i {
            if let Some(j) = find_row(rows, keys) {
                assert(rows[j].keys == rows[k].keys);
                if k < j {
                    assert(rows[k].keys != rows[j].keys);
                } else {
                    assert(rows[j].keys != rows[k].keys);
                }
            } else {
                assert(rows[k].keys == keys);
            }
        }
    }
}

/// Making a fact reference twice with the same arguments gives the same
/// value, and the second time changes nothing.
pub proof fn law_fact_ref_idempotent(
    v0: StateView,
    args: Seq<Value>,
    v1: StateView,
    r1: Option<Value>,
    v2: StateView,
    r2: Option<Value>,
)
    requires
        state_wf(v0),
        forall|t: int| 0 <= t < v0.tables.len() ==> #[trigger] table_wf(v0.tables[t]),
        forall|i: int, j: int| 0 <= i < j < v0.fact_refs.len() ==> v0.fact_refs[i] != v0.fact_refs[j],
        fact_ref_fits(v0, args),
        fact_ref_post(v0, args, v1, r1),
        fact_ref_post(v1, args, v2, r2),
    ensures
        r2 == r1,
        v2 == v1,
{
    assert(fact_ref_target(v1, args) == fact_ref_target(v0, args));
    if let Some(t) = fact_ref_target(v0, args) {
        let ti = t as int;
        let keys = args.drop_first();
        crate::egraph::lemma_function_entry(v0, v0.strings[args[0].rep as int]);
        if v0.tables[ti].truth_tracking {
            let rows0 = v0.tables[ti].rows;
            assert(table_wf(v0.tables[ti]));
            lemma_referenced_found(rows0, ti, keys, Value { rep: 0 });
            let fr = referenced_fact(rows0, ti, keys);
            assert(v1.tables[ti].rows == referenced_rows(rows0, keys, Value { rep: 0 }));
            assert(v1.fact_refs.contains(fr)) by {
                assert(v1.fact_refs[r1->0.rep as int] == fr);
            }
            assert(v2.tables =~= v1.tables);
            assert(v2 == v1);
            let a = r1->0.rep as int;
            let b = r2->0.rep as int;
            assert(forall|i: int, j: int| 0 <= i < j < v1.fact_refs.len() ==> v1.fact_refs[i] != v1.fact_refs[j]);
            if a < b {
                assert(v1.fact_refs[a] != v1.fact_refs[b]);
            } else if b < a {
                assert(v1.fact_refs[b] != v1.fact_refs[a]);
            }
        }
    }
}

/// After a fact reference is made, there is room to make it again: the
/// fact and its reference are there, so a second call adds nothing.
pub proof fn law_fact_ref_room_again(v0: StateView, args: Seq<Value>, v1: StateView, r1: Option<Value>)
    requires
        state_wf(v0),
        forall|t: int| 0 <= t < v0.tables.len() ==> #[trigger] table_wf(v0.tables[t]),
        fact_ref_fits(v0, args),
        fact_ref_post(v0, args, v1, r1),
    ensures
        fact_ref_fits(v1, args),
{
    assert(fact_ref_target(v1, args) == fact_ref_target(v0, args));
    if let Some(t) = fact_ref_target(v0, args) {
        let ti = t as int;
        let keys = args.drop_first();
        crate::egraph::lemma_function_entry(v0, v0.strings[args[0].rep as int]);
        assert(table_wf(v0.tables[ti]));
        if v0.tables[ti].truth_tracking {
            let rows0 = v0.tables[ti].rows;
            lemma_referenced_found(rows0, ti, keys, Value { rep: 0 });
            let fr = referenced_fact(rows0, ti, keys);
            assert(v1.tables[ti].rows == referenced_rows(rows0, keys, Value { rep: 0 }));
            assert(v1.fact_refs.contains(fr)) by {
                assert(v1.fact_refs[r1->0.rep as int] == fr);
            }
        }
    }
}

/// A value made from a Rust value gives that Rust value back, also after
/// more values are interned.
pub proof fn law_base_value_round_trip<T: BaseValue>(bv0: BaseValues, bv1: BaseValues, v: Value, x: T)
    requires
        T::valid(bv0, v),
        T::decode(bv0, v) == x,
        bv1.grows_from(&bv0),
    ensures
        T::valid(bv1, v),
        T::decode(bv1, v) == x,
{
    T::lemma_decode_stable(bv0, bv1, v);
}

/// Interning one Rust value twice gives one value, and different Rust
/// values give different values.
pub proof fn law_base_value_injective<T: BaseValue>(bv: BaseValues, v1: Value, v2: Value)
    requires
        bv.wf(),
        T::valid(bv, v1),
        T::valid(bv, v2),
    ensures
        (v1 == v2) <==> (T::decode(bv, v1) == T::decode(bv, v2)),
{
    if T::decode(bv, v1) == T::decode(bv, v2) {
        T::lemma_decode_injective(bv, v1, v2);
    }
}

/// A push followed by a pop gives back the state and the snapshots from
/// before the push.
pub proof fn law_push_then_pop(
    v0: StateView,
    p0: Seq<StateView>,
    v1: StateView,
    p1: Seq<StateView>,
    v2: StateView,
    p2: Seq<StateView>,
    ok: bool,
)
    requires
        push_post(v0, p0, v1, p1),
        pop_post(v1, p1, v2, p2, ok),
    ensures
        ok,
        v2 == v0,
        p2 == p0,
{
    assert(p1.drop_last() =~= p0);
}

/// Popping `k` of the snapshots that `n` pushes of one state made leaves
/// that state and the remaining snapshots.
proof fn lemma_pop_pushed(v: StateView, p: Seq<StateView>, n: nat, k: nat)
    requires
        k <= n,
    ensures
        pop_n(v, p + Seq::new(n, |i: int| v), k) == (v, p + Seq::new((n - k) as nat, |i: int| v), true),
    decreases k,
{
    if k > 0 {
        lemma_pop_pushed(v, p, n, (k - 1) as nat);
        let q = p + Seq::new((n - k + 1) as nat, |i: int| v);
        assert(q.last() == v);
        assert(q.drop_last() =~= p + Seq::new((n - k) as nat, |i: int| v));
    }
}

/// Running `(push n)` and then `(pop n)` gives back the state and the
/// snapshots from before, and the pop succeeds.
pub proof fn law_push_n_then_pop_n(
    v0: StateView,
    p0: Seq<StateView>,
    bv0: BaseValues,
    n: usize,
    span: Span,
    v1: StateView,
    p1: Seq<StateView>,
    bv1: BaseValues,
    r1: Result<Option<CommandOutput>, Error>,
    v2: StateView,
    p2: Seq<StateView>,
    bv2: BaseValues,
    r2: Result<Option<CommandOutput>, Error>,
)
    requires
        command_post(v0, p0, bv0, ResolvedNCommand::Push(n), v1, p1, bv1, r1),
        command_post(v1, p1, bv1, ResolvedNCommand::Pop(span, n), v2, p2, bv2, r2),
    ensures
        v2 == v0,
        p2 == p0,
        r2 == Ok::<Option<CommandOutput>, Error>(None),
{
    lemma_pop_pushed(v0, p0, n as nat, n as nat);
    assert(p0 + Seq::new(0, |i: int| v0) =~= p0);
}

/// A rule's query sees every fact: translated without asking for assertion,
/// no table atom filters by truth status.
pub proof fn law_rule_atoms_see_all_facts(
    names: Seq<(Seq<char>, usize)>,
    fns: Seq<FunctionView>,
    bv: BaseValues,
    s: TransState,
    a: CoreAtomView,
    include_subsumed: bool,
)
    ensures
        atom_plan(names, fns, bv, s, a, include_subsumed, false).1 matches PlanAtomView::Table { require_asserted, .. }
            ==> require_asserted is None,
{
}

/// A check asks for asserted facts exactly in the tables of functions that
/// track facts; other tables are matched as they are.
pub proof fn law_check_atoms_filter_tracked_functions(
    names: Seq<(Seq<char>, usize)>,
    fns: Seq<FunctionView>,
    bv: BaseValues,
    s: TransState,
    a: CoreAtomView,
    include_subsumed: bool,
)
    ensures
        a.head matches CoreCallView::Func(f) ==> (atom_plan(names, fns, bv, s, a, include_subsumed, true).1
            matches PlanAtomView::Table { require_asserted, .. }
            && require_asserted == (if fns[func_index(names, f)].decl.fact_tracking { Some(true) } else { None::<bool> })),
{
}

/// Every literal bound so far is bound to its value.
spec fn literals_bound_to_values(bv: BaseValues, es: Seq<(AtomTermView, QueryEntry)>) -> bool {
    forall|i: int| 0 <= i < es.len() ==> (#[trigger] es[i].0 matches AtomTermView::Literal(l)
        ==> es[i].1 == QueryEntry::Const(literal_rep(bv, l)))
}

proof fn lemma_terms_step_literals(bv: BaseValues, s: TransState, ts: Seq<AtomTermView>)
    requires
        all_literals(ts),
        literals_bound_to_values(bv, s.entries),
    ensures
        literals_bound_to_values(bv, terms_step(bv, s, ts).0.entries),
        terms_step(bv, s, ts).1 == literal_values(bv, ts).map_values(|x: Value| QueryEntry::Const(x)),
    decreases ts.len(),
{
    if ts.len() > 0 {
        assert(all_literals(ts.drop_last())) by {
            assert forall|k: int| 0 <= k < ts.drop_last().len() implies #[trigger] ts.drop_last()[k] is Literal by {
                assert(ts[k] is Literal);
            }
        }
        lemma_terms_step_literals(bv, s, ts.drop_last());
        let s1 = terms_step(bv, s, ts.drop_last()).0;
        let t = ts.last();
        assert(ts[ts.len() - 1] is Literal);
        if let Some(i) = term_pos(s1.entries, t) {
            assert(s1.entries[i].0 == t);
        } else {
            let s2 = term_step(bv, s1, t).0;
            assert forall|i: int| 0 <= i < s2.entries.len() implies (#[trigger] s2.entries[i].0 matches AtomTermView::Literal(l)
                ==> s2.entries[i].1 == QueryEntry::Const(literal_rep(bv, l))) by {
                if i < s1.entries.len() {
                    assert(s2.entries[i] == s1.entries[i]);
                }
            }
        }
        assert(literal_values(bv, ts).map_values(|x: Value| QueryEntry::Const(x)) =~=
            literal_values(bv, ts.drop_last()).map_values(|x: Value| QueryEntry::Const(x)).push(
                QueryEntry::Const(literal_rep(bv, t->Literal_0))));
    } else {
        assert(literal_values(bv, ts).map_values(|x: Value| QueryEntry::Const(x)) =~= Seq::<QueryEntry>::empty());
    }
}

proof fn lemma_unify_constants(env: Seq<Option<Value>>, vals: Seq<Value>, ws: Seq<Value>)
    ensures
        unify(env, vals.map_values(|x: Value| QueryEntry::Const(x)), ws) == (if vals == ws { Some(env) } else { None }),
    decreases vals.len(),
{
    let es = vals.map_values(|x: Value| QueryEntry::Const(x));
    if vals.len() == ws.len() && vals.len() > 0 {
        lemma_unify_constants(env, vals.drop_last(), ws.drop_last());
        assert(es.drop_last() =~= vals.drop_last().map_values(|x: Value| QueryEntry::Const(x)));
        if vals == ws {
            assert(vals.drop_last() == ws.drop_last());
        } else if vals.drop_last() == ws.drop_last() {
            assert(vals.last() != ws.last()) by {
                if vals.last() == ws.last() {
                    assert(vals =~= ws) by {
                        assert forall|k: int| 0 <= k < vals.len() implies vals[k] == ws[k] by {
                            if k < vals.len() - 1 {
                                assert(vals.drop_last()[k] == ws.drop_last()[k]);
                            }
                        }
                    }
                }
            }
        }
    } else if vals.len() == 0 && ws.len() == 0 {
        assert(vals =~= ws);
    }
}

/// A single ground atom has a match from row `i` on exactly when some row
/// from `i` on passes the filters and holds the atom's values.
proof fn lemma_search_rows_ground(
    tables: Seq<TableView>,
    pa: PlanAtomView,
    env: Seq<Option<Value>>,
    vals: Seq<Value>,
    i: nat,
)
    requires
        pa matches PlanAtomView::Table { table, args, .. } && table.0 < tables.len()
            && args == vals.map_values(|x: Value| QueryEntry::Const(x)),
    ensures
        search_rows(tables, seq![pa], 0, env, i) <==> exists|j: int| i <= j < tables[pa->Table_table.0 as int].rows.len()
            && row_passes(#[trigger] tables[pa->Table_table.0 as int].rows[j], pa->Table_is_subsumed, pa->Table_require_asserted)
            && row_values(tables[pa->Table_table.0 as int].rows[j]) == vals,
    decreases tables[pa->Table_table.0 as int].rows.len() - i,
{
    let rows = tables[pa->Table_table.0 as int].rows;
    let atoms = seq![pa];
    assert(atoms[0] == pa);
    if i < rows.len() {
        lemma_search_rows_ground(tables, pa, env, vals, i + 1);
        let row = rows[i as int];
        lemma_unify_constants(env, vals, row_values(row));
        assert(search(tables, atoms, 1, env));
        assert(row_starts_match(tables, atoms, 0, env, row)
            == (row_passes(row, pa->Table_is_subsumed, pa->Table_require_asserted) && row_values(row) == vals));
        assert(search_rows(tables, atoms, 0, env, i)
            == (row_starts_match(tables, atoms, 0, env, row) || search_rows(tables, atoms, 0, env, i + 1)));
    }
}

/// Checking a fact that is one call of a function with literal arguments
/// (its output among them) holds exactly when the function's table has a
/// row with those values that, for a function that tracks facts, is
/// asserted: a check reads back what was inserted and asserted.
pub proof fn law_ground_fact_check(v: StateView, bv: BaseValues, f: Seq<char>, args: Seq<AtomTermView>)
    requires
        state_wf(v),
        entry_value(v.function_names, f) is Some,
        all_literals(args),
    ensures
        ({
            let t = func_index(v.function_names, f);
            let rows = v.tables[t].rows;
            query_holds(v, bv, seq![CoreAtomView { head: CoreCallView::Func(f), args }])
                <==> exists|i: int| 0 <= i < rows.len() && row_values(#[trigger] rows[i]) == literal_values(bv, args)
                    && (v.functions[t].decl.fact_tracking ==> rows[i].asserted)
        }),
{
    let t = func_index(v.function_names, f);
    let a = CoreAtomView { head: CoreCallView::Func(f), args };
    let atoms = seq![a];
    crate::egraph::lemma_function_entry(v, f);
    assert(0 <= t < v.functions.len());
    assert(atoms.drop_last() =~= Seq::<CoreAtomView>::empty());
    assert(atoms.last() == a);
    assert(query_plan(v.function_names, v.functions, bv, no_bindings(), atoms.drop_last(), false, true)
        == (no_bindings(), Seq::<PlanAtomView>::empty()));
    lemma_terms_step_literals(bv, no_bindings(), args);
    let (st, pa) = query_plan(v.function_names, v.functions, bv, no_bindings(), atoms, false, true);
    assert(pa =~= seq![atom_plan(v.function_names, v.functions, bv, no_bindings(), a, false, true).1]);
    assert(v.functions[t].backend_id.0 == t);
    let vals = literal_values(bv, args);
    lemma_search_rows_ground(v.tables, pa[0], empty_env(st.n_vars), vals, 0);
    assert(pa == seq![pa[0]]);
}

/// After a row is inserted into a function's table, checking the fact that
/// names the row's keys and output holds: a check reads back an insertion.
pub proof fn law_inserted_fact_checks(
    v: StateView,
    bv: BaseValues,
    f: Seq<char>,
    args: Seq<AtomTermView>,
    keys: Seq<Value>,
    out: Value,
)
    requires
        state_wf(v),
        entry_value(v.function_names, f) is Some,
        all_literals(args),
        literal_values(bv, args) == keys.push(out),
    ensures
        ({
            let t = func_index(v.function_names, f);
            let after = StateView { tables: with_rows(v.tables, t, insert_rows(v.tables[t].rows, keys, out)), ..v };
            query_holds(after, bv, seq![CoreAtomView { head: CoreCallView::Func(f), args }])
        }),
{
    let t = func_index(v.function_names, f);
    crate::egraph::lemma_function_entry(v, f);
    let rows = insert_rows(v.tables[t].rows, keys, out);
    let after = StateView { tables: with_rows(v.tables, t, rows), ..v };
    assert(state_wf(after)) by {
        assert forall|i: int| 0 <= i < after.functions.len() implies {
            &&& (#[trigger] after.functions[i]).backend_id.0 == i
            &&& after.tables[i].n_keys == after.functions[i].schema.input.len()
            &&& after.tables[i].truth_tracking == after.functions[i].decl.fact_tracking
            &&& after.tables[i].name == after.functions[i].decl.name
            &&& after.functions[i].can_subsume == (after.functions[i].decl.subtype != crate::sorts::FunctionSubtype::Custom)
        } by {
            assert(v.functions[i] == after.functions[i]);
        }
    }
    let j = match find_row(v.tables[t].rows, keys) {
        Some(i) => i,
        None => v.tables[t].rows.len() as int,
    };
    assert(rows[j] == RowView { keys, out, asserted: true });
    assert(row_values(after.tables[t].rows[j]) == literal_values(bv, args));
    law_ground_fact_check(after, bv, f, args);
}

/// Each row of values is held by an asserted row with the unit output.
spec fn relation_rows_held(rows: Seq<RowView>, krows: Seq<Seq<Value>>) -> bool {
    forall|k: int| #![trigger krows[k]] 0 <= k < krows.len() ==> exists|i: int| 0 <= i < rows.len()
        && #[trigger] rows[i] == (RowView { keys: krows[k], out: Value { rep: 0 }, asserted: true })
}

/// Loading rows into a relation keeps the attributes of every table and
/// leaves each loaded row held, asserted, by the relation's table.
proof fn lemma_load_relation_rows(tables: Seq<TableView>, next_id: u32, t: int, krows: Seq<Seq<Value>>)
    requires
        0 <= t < tables.len(),
    ensures
        ({
            let after = load_rows(tables, next_id, t, FunctionSubtype::Relation, krows).0;
            &&& after.len() == tables.len()
            &&& forall|u: int| 0 <= u < tables.len() ==> #[trigger] after[u] == (TableView { rows: after[u].rows, ..tables[u] })
            &&& relation_rows_held(after[t].rows, krows)
        }),
    decreases krows.len(),
{
    if krows.len() > 0 {
        lemma_load_relation_rows(tables, next_id, t, krows.drop_last());
        let (t1, n1) = load_rows(tables, next_id, t, FunctionSubtype::Relation, krows.drop_last());
        let last = krows.last();
        let rows1 = t1[t].rows;
        let rows2 = insert_rows(rows1, last, Value { rep: 0 });
        let after = with_rows(t1, t, rows2);
        assert(load_rows(tables, next_id, t, FunctionSubtype::Relation, krows).0 == after);
        let new_row = RowView { keys: last, out: Value { rep: 0 }, asserted: true };
        let j = match find_row(rows1, last) {
            Some(i) => i,
            None => rows1.len() as int,
        };
        if let Some(i) = find_row(rows1, last) {
            assert(rows1[i].keys == last);
        }
        assert(rows2[j] == new_row);
        assert forall|k: int| #![trigger krows[k]] 0 <= k < krows.len() implies exists|i: int| 0 <= i < rows2.len()
            && #[trigger] rows2[i] == (RowView { keys: krows[k], out: Value { rep: 0 }, asserted: true }) by {
            if k == krows.len() - 1 {
                assert(rows2[j] == (RowView { keys: krows[k], out: Value { rep: 0 }, asserted: true }));
            } else {
                assert(krows.drop_last()[k] == krows[k]);
                let i = choose|i: int| 0 <= i < rows1.len()
                    && #[trigger] rows1[i] == (RowView { keys: krows.drop_last()[k], out: Value { rep: 0 }, asserted: true });
                if i == j {
                    assert(rows2[j] == (RowView { keys: krows[k], out: Value { rep: 0 }, asserted: true }));
                } else {
                    assert(rows2[i] == rows1[i]);
                }
            }
        }
        assert forall|u: int| 0 <= u < tables.len() implies #[trigger] after[u] == (TableView { rows: after[u].rows, ..tables[u] }) by {
            assert(t1[u] == (TableView { rows: t1[u].rows, ..tables[u] }));
        }
    }
}

/// After an input file is loaded into a relation, every line of it checks
/// true: the fact naming the line's values, with the unit output, holds.
pub proof fn law_loaded_relation_lines_check(
    v0: StateView,
    name: Seq<char>,
    file: Seq<char>,
    contents: Seq<char>,
    v1: StateView,
    bv: BaseValues,
    r: Result<(), Error>,
    k: int,
)
    requires
        state_wf(v0),
        entry_value(v0.function_names, name) is Some,
        v0.functions[func_index(v0.function_names, name)].decl.subtype == FunctionSubtype::Relation,
        input_post(v0, func_index(v0.function_names, name), v0.functions[func_index(v0.function_names, name)],
            file, contents, v1, bv, r),
        parse_rows(row_sorts(v0.functions[func_index(v0.function_names, name)]), text_lines(contents)) matches Some(rows)
            && 0 <= k < rows.len(),
    ensures
        ({
            let rows = parse_rows(row_sorts(v0.functions[func_index(v0.function_names, name)]), text_lines(contents))->0;
            let args = rows[k].map_values(|l: LiteralView| AtomTermView::Literal(l)).push(AtomTermView::Literal(LiteralView::Unit));
            query_holds(v1, bv, seq![CoreAtomView { head: CoreCallView::Func(name), args }])
        }),
{
    let t = func_index(v0.function_names, name);
    let f = v0.functions[t];
    crate::egraph::lemma_function_entry(v0, name);
    let rows = parse_rows(row_sorts(f), text_lines(contents))->0;
    let krows = row_values_of(bv, rows);
    lemma_load_relation_rows(v0.tables, v0.next_id, t, krows);
    let tables = load_rows(v0.tables, v0.next_id, t, f.decl.subtype, krows).0;
    assert(v1.tables == tables);
    assert(state_wf(v1)) by {
        assert forall|i: int| 0 <= i < v1.functions.len() implies {
            &&& (#[trigger] v1.functions[i]).backend_id.0 == i
            &&& v1.tables[i].n_keys == v1.functions[i].schema.input.len()
            &&& v1.tables[i].truth_tracking == v1.functions[i].decl.fact_tracking
            &&& v1.tables[i].name == v1.functions[i].decl.name
            &&& v1.functions[i].can_subsume == (v1.functions[i].decl.subtype != FunctionSubtype::Custom)
        } by {
            assert(v0.functions[i] == v1.functions[i]);
            assert(tables[i] == (TableView { rows: tables[i].rows, ..v0.tables[i] }));
        }
    }
    let args = rows[k].map_values(|l: LiteralView| AtomTermView::Literal(l)).push(AtomTermView::Literal(LiteralView::Unit));
    assert(all_literals(args));
    let i = choose|i: int| 0 <= i < tables[t].rows.len()
        && #[trigger] tables[t].rows[i] == (RowView { keys: krows[k], out: Value { rep: 0 }, asserted: true });
    assert(literal_values(bv, args) =~= krows[k].push(Value { rep: 0 }));
    assert(row_values(v1.tables[t].rows[i]) == literal_values(bv, args));
    assert(func_index(v1.function_names, name) == t);
    law_ground_fact_check(v1, bv, name, args);
}

/// Checking a fact of a function that tracks facts follows its truth
/// status: after the fact is asserted the check holds, and after it is
/// retracted the check fails.
pub proof fn law_check_follows_truth_status(
    v: StateView,
    bv: BaseValues,
    f: Seq<char>,
    args: Seq<AtomTermView>,
    fr: FactRef,
    b: bool,
)
    requires
        state_wf(v),
        forall|t: int| 0 <= t < v.tables.len() ==> #[trigger] table_wf(v.tables[t]),
        entry_value(v.function_names, f) is Some,
        v.functions[func_index(v.function_names, f)].decl.fact_tracking,
        all_literals(args),
        fr.table_id.0 == func_index(v.function_names, f),
        spec_validate(v.tables, fr) is Ok,
        row_values(fact_row(v.tables, fr)) == literal_values(bv, args),
    ensures
        query_holds(StateView { tables: set_fact_status(v.tables, fr, b), ..v }, bv,
            seq![CoreAtomView { head: CoreCallView::Func(f), args }]) == b,
{
    let t = func_index(v.function_names, f);
    crate::egraph::lemma_function_entry(v, f);
    let after = StateView { tables: set_fact_status(v.tables, fr, b), ..v };
    let rows0 = v.tables[t].rows;
    let rows = after.tables[t].rows;
    let i0 = fr.fact_id.0 as int;
    let vals = literal_values(bv, args);
    assert(state_wf(after)) by {
        assert forall|i: int| 0 <= i < after.functions.len() implies {
            &&& (#[trigger] after.functions[i]).backend_id.0 == i
            &&& after.tables[i].n_keys == after.functions[i].schema.input.len()
            &&& after.tables[i].truth_tracking == after.functions[i].decl.fact_tracking
            &&& after.tables[i].name == after.functions[i].decl.name
            &&& after.functions[i].can_subsume == (after.functions[i].decl.subtype != FunctionSubtype::Custom)
        } by {
            assert(v.functions[i] == after.functions[i]);
        }
    }
    assert(func_index(after.function_names, f) == t);
    law_ground_fact_check(after, bv, f, args);
    assert(rows[i0] == RowView { asserted: b, ..rows0[i0] });
    assert(row_values(rows[i0]) == vals);
    if !b {
        assert forall|i: int| 0 <= i < rows.len() && #[trigger] row_values(rows[i]) == vals implies !rows[i].asserted by {
            if i != i0 {
                assert(rows[i] == rows0[i]);
                assert(rows0[i].keys == row_values(rows0[i]).drop_last());
                assert(rows0[i0].keys == row_values(rows0[i0]).drop_last());
                assert(table_wf(v.tables[t]));
                if i < i0 {
                    assert(rows0[i].keys != rows0[i0].keys);
                } else {
                    assert(rows0[i0].keys != rows0[i].keys);
                }
            }
        }
    }
}

/// Loading rows into a relation keeps the keys of every row in place and
/// keeps keys unique.
proof fn lemma_load_relation_keeps_keys(tables: Seq<TableView>, next_id: u32, t: int, krows: Seq<Seq<Value>>)
    requires
        0 <= t < tables.len(),
        keys_unique(tables[t].rows),
    ensures
        ({
            let rows = load_rows(tables, next_id, t, FunctionSubtype::Relation, krows).0[t].rows;
            &&& rows.len() >= tables[t].rows.len()
            &&& forall|j: int| 0 <= j < tables[t].rows.len() ==> #[trigger] rows[j].keys == tables[t].rows[j].keys
            &&& keys_unique(rows)
        }),
    decreases krows.len(),
{
    if krows.len() > 0 {
        lemma_load_relation_keeps_keys(tables, next_id, t, krows.drop_last());
        lemma_load_relation_rows(tables, next_id, t, krows.drop_last());
        let t1 = load_rows(tables, next_id, t, FunctionSubtype::Relation, krows.drop_last()).0;
        let last = krows.last();
        let rows1 = t1[t].rows;
        let rows2 = insert_rows(rows1, last, Value { rep: 0 });
        assert(load_rows(tables, next_id, t, FunctionSubtype::Relation, krows).0 == with_rows(t1, t, rows2));
        if let Some(i) = find_row(rows1, last) {
            assert(rows1[i].keys == last);
            assert forall|a: int, b: int| 0 <= a < b < rows2.len() implies rows2[a].keys != rows2[b].keys by {
                assert(rows2[a].keys == rows1[a].keys);
                assert(rows2[b].keys == rows1[b].keys);
            }
            assert forall|j: int| 0 <= j < tables[t].rows.len() implies #[trigger] rows2[j].keys == tables[t].rows[j].keys by {
                assert(rows2[j].keys == rows1[j].keys);
            }
        } else {
            assert forall|a: int, b: int| 0 <= a < b < rows2.len() implies rows2[a].keys != rows2[b].keys by {
                if b == rows1.len() {
                    assert(rows1[a].keys != last);
                }
            }
            assert forall|j: int| 0 <= j < tables[t].rows.len() implies #[trigger] rows2[j].keys == tables[t].rows[j].keys by {
                assert(rows2[j] == rows1[j]);
            }
        }
    }
}

/// A fact that was only referenced becomes asserted when an input file
/// loads its keys into its relation, and its reference still denotes it.
pub proof fn law_input_asserts_referenced_fact(
    v0: StateView,
    args: Seq<Value>,
    v1: StateView,
    r1: Option<Value>,
    name: Seq<char>,
    file: Seq<char>,
    contents: Seq<char>,
    v2: StateView,
    bv: BaseValues,
    r2: Result<(), Error>,
    k: int,
)
    requires
        state_wf(v0),
        forall|t: int| 0 <= t < v0.tables.len() ==> #[trigger] table_wf(v0.tables[t]),
        fact_ref_fits(v0, args),
        fact_ref_post(v0, args, v1, r1),
        r1 is Some,
        fact_ref_target(v0, args) == entry_value(v0.function_names, name),
        v0.functions[func_index(v0.function_names, name)].decl.subtype == FunctionSubtype::Relation,
        input_post(v1, func_index(v1.function_names, name), v1.functions[func_index(v1.function_names, name)],
            file, contents, v2, bv, r2),
        parse_rows(row_sorts(v1.functions[func_index(v1.function_names, name)]), text_lines(contents)) matches Some(rows)
            && 0 <= k < rows.len() && row_values_of(bv, rows)[k] == args.drop_first(),
    ensures
        spec_validate(v2.tables, v1.fact_refs[r1->0.rep as int]) is Ok,
        fact_row(v2.tables, v1.fact_refs[r1->0.rep as int]).asserted,
        fact_row(v2.tables, v1.fact_refs[r1->0.rep as int]).keys == args.drop_first(),
{
    let t = func_index(v0.function_names, name);
    crate::egraph::lemma_function_entry(v0, name);
    let keys = args.drop_first();
    let rows0 = v0.tables[t].rows;
    assert(table_wf(v0.tables[t]));
    lemma_referenced_found(rows0, t, keys, Value { rep: 0 });
    let fr = referenced_fact(rows0, t, keys);
    assert(v1.fact_refs[r1->0.rep as int] == fr);
    let rows1 = v1.tables[t].rows;
    assert(rows1 == referenced_rows(rows0, keys, Value { rep: 0 }));
    let i0 = fr.fact_id.0 as int;
    assert(rows1[i0].keys == keys);
    assert(keys_unique(rows1)) by {
        if find_row(rows0, keys) is None {
            assert forall|a: int, b: int| 0 <= a < b < rows1.len() implies rows1[a].keys != rows1[b].keys by {
                if b == rows0.len() {
                    assert(rows0[a].keys != keys);
                }
            }
        }
    }
    assert(func_index(v1.function_names, name) == t);
    let f = v1.functions[t];
    let rows = parse_rows(row_sorts(f), text_lines(contents))->0;
    let krows = row_values_of(bv, rows);
    lemma_load_relation_rows(v1.tables, v1.next_id, t, krows);
    lemma_load_relation_keeps_keys(v1.tables, v1.next_id, t, krows);
    let tables2 = load_rows(v1.tables, v1.next_id, t, f.decl.subtype, krows).0;
    assert(v2.tables == tables2);
    let rows2 = tables2[t].rows;
    assert(rows2[i0].keys == keys);
    let j = choose|j: int| 0 <= j < rows2.len()
        && #[trigger] rows2[j] == (RowView { keys: krows[k], out: Value { rep: 0 }, asserted: true });
    if j != i0 {
        if j < i0 {
            assert(rows2[j].keys != rows2[i0].keys);
        } else {
            assert(rows2[i0].keys != rows2[j].keys);
        }
    }
}

/// Taking a reference to a fact that was not there adds it as referenced
/// only: checking that fact (with the unit output) fails until the fact is
/// asserted.
pub proof fn law_referenced_fact_does_not_check(
    v0: StateView,
    args: Seq<Value>,
    v1: StateView,
    r1: Option<Value>,
    bv: BaseValues,
    f: Seq<char>,
    cargs: Seq<AtomTermView>,
)
    requires
        state_wf(v0),
        forall|t: int| 0 <= t < v0.tables.len() ==> #[trigger] table_wf(v0.tables[t]),
        fact_ref_fits(v0, args),
        fact_ref_post(v0, args, v1, r1),
        r1 is Some,
        fact_ref_target(v0, args) == entry_value(v0.function_names, f),
        find_row(v0.tables[func_index(v0.function_names, f)].rows, args.drop_first()) is None,
        all_literals(cargs),
        literal_values(bv, cargs) == args.drop_first().push(Value { rep: 0 }),
    ensures
        !query_holds(v1, bv, seq![CoreAtomView { head: CoreCallView::Func(f), args: cargs }]),
{
    let t = func_index(v0.function_names, f);
    crate::egraph::lemma_function_entry(v0, f);
    let keys = args.drop_first();
    let rows0 = v0.tables[t].rows;
    assert(table_wf(v0.tables[t]));
    let rows1 = v1.tables[t].rows;
    assert(rows1 == rows0.push(RowView { keys, out: Value { rep: 0 }, asserted: false }));
    assert(state_wf(v1)) by {
        assert forall|i: int| 0 <= i < v1.functions.len() implies {
            &&& (#[trigger] v1.functions[i]).backend_id.0 == i
            &&& v1.tables[i].n_keys == v1.functions[i].schema.input.len()
            &&& v1.tables[i].truth_tracking == v1.functions[i].decl.fact_tracking
            &&& v1.tables[i].name == v1.functions[i].decl.name
            &&& v1.functions[i].can_subsume == (v1.functions[i].decl.subtype != FunctionSubtype::Custom)
        } by {
            assert(v0.functions[i] == v1.functions[i]);
        }
    }
    assert(func_index(v1.function_names, f) == t);
    law_ground_fact_check(v1, bv, f, cargs);
    assert forall|i: int| 0 <= i < rows1.len() && #[trigger] row_values(rows1[i]) == literal_values(bv, cargs)
        implies !rows1[i].asserted by {
        if i < rows0.len() {
            assert(rows1[i] == rows0[i]);
            assert(rows0[i].keys == row_values(rows0[i]).drop_last());
            assert(rows0[i].keys == keys);
        }
    }
}

/// Asserting, by a top-level action, a fact that was only referenced marks
/// that fact asserted, with the action's output, and adds no second row:
/// the reference taken before still denotes it.
pub proof fn law_action_asserts_referenced_fact(
    v0: StateView,
    args: Seq<Value>,
    v1: StateView,
    r1: Option<Value>,
    span: Span,
    action: CoreAction,
    p1: Seq<StateView>,
    bv1: BaseValues,
    v2: StateView,
    p2: Seq<StateView>,
    bv2: BaseValues,
    r2: Result<Option<CommandOutput>, Error>,
)
    requires
        state_wf(v0),
        forall|t: int| 0 <= t < v0.tables.len() ==> #[trigger] table_wf(v0.tables[t]),
        fact_ref_fits(v0, args),
        fact_ref_post(v0, args, v1, r1),
        r1 is Some,
        action matches CoreAction::SetOutput(CoreCall::Func(f), xs, y)
            && fact_ref_target(v0, args) == entry_value(v0.function_names, f@)
            && literal_values(bv2, terms_view(xs@)) == args.drop_first(),
        command_post(v1, p1, bv1, ResolvedNCommand::CoreAction(span, action), v2, p2, bv2, r2),
    ensures
        r2 == Ok::<Option<CommandOutput>, Error>(None),
        spec_validate(v2.tables, v1.fact_refs[r1->0.rep as int]) is Ok,
        fact_row(v2.tables, v1.fact_refs[r1->0.rep as int]).asserted,
        fact_row(v2.tables, v1.fact_refs[r1->0.rep as int]).keys == args.drop_first(),
        v2.tables[v1.fact_refs[r1->0.rep as int].table_id.0 as int].rows.len()
            == v1.tables[v1.fact_refs[r1->0.rep as int].table_id.0 as int].rows.len(),
{
    if let CoreAction::SetOutput(CoreCall::Func(f), xs, y) = action {
        let t = func_index(v0.function_names, f@);
        crate::egraph::lemma_function_entry(v0, f@);
        let keys = args.drop_first();
        let rows0 = v0.tables[t].rows;
        assert(table_wf(v0.tables[t]));
        lemma_referenced_found(rows0, t, keys, Value { rep: 0 });
        let fr = referenced_fact(rows0, t, keys);
        assert(v1.fact_refs[r1->0.rep as int] == fr);
        let rows1 = v1.tables[t].rows;
        assert(rows1 == referenced_rows(rows0, keys, Value { rep: 0 }));
        assert(func_index(v1.function_names, f@) == t);
        let i0 = fr.fact_id.0 as int;
        assert(find_row(rows1, keys) == Some(i0));
    }
}

} // verus!
