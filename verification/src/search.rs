use vstd::prelude::*;
use crate::backend::{Backend, RowView, TableView};
use crate::ids::Value;
use crate::rule::{PlanAtom, PlanAtomView, QueryEntry, RulePlan};
use crate::sorts::ExternalFunctionId;

verus! {

/// The backend id of the `fact-ref` primitive.
pub const PRIM_FACT_REF: u32 = 0;
/// The backend id of `!=`: holds of two different values.
pub const PRIM_NEQ: u32 = 1;
/// The backend id of `value-eq`: holds of two equal values.
pub const PRIM_VALUE_EQ: u32 = 2;
/// The backend id of `ordering-min`: the lesser of two values.
pub const PRIM_MIN: u32 = 3;
/// The backend id of `ordering-max`: the greater of two values.
pub const PRIM_MAX: u32 = 4;

/// The result of a primitive that reads only its arguments: `!=` and
/// `value-eq` give the unit value when they hold and nothing otherwise;
/// `ordering-min` and `ordering-max` pick by representation. Other
/// primitives give nothing inside a query.
pub open spec fn prim_apply(id: ExternalFunctionId, args: Seq<Value>) -> Option<Value> {
    if args.len() != 2 {
        None
    } else if id.0 == PRIM_NEQ {
        if args[0] != args[1] { Some(Value { rep: 0 }) } else { None }
    } else if id.0 == PRIM_VALUE_EQ {
        if args[0] == args[1] { Some(Value { rep: 0 }) } else { None }
    } else if id.0 == PRIM_MIN {
        Some(if args[0].rep < args[1].rep { args[0] } else { args[1] })
    } else if id.0 == PRIM_MAX {
        Some(if args[0].rep > args[1].rep { args[0] } else { args[1] })
    } else {
        None
    }
}

pub fn apply_pure_prim(id: ExternalFunctionId, args: &[Value]) -> (r: Option<Value>)
    ensures
        r == prim_apply(id, args@),
{
    if args.len() != 2 {
        None
    } else if id.0 == PRIM_NEQ {
        if args[0] != args[1] { Some(Value::new_const(0)) } else { None }
    } else if id.0 == PRIM_VALUE_EQ {
        if args[0] == args[1] { Some(Value::new_const(0)) } else { None }
    } else if id.0 == PRIM_MIN {
        Some(if args[0].rep < args[1].rep { args[0] } else { args[1] })
    } else if id.0 == PRIM_MAX {
        Some(if args[0].rep > args[1].rep { args[0] } else { args[1] })
    } else {
        None
    }
}

/// The value an entry has under a partial assignment of the variables.
pub open spec fn entry_val(env: Seq<Option<Value>>, e: QueryEntry) -> Option<Value> {
    match e {
        QueryEntry::Var(i) => if i < env.len() { env[i as int] } else { None },
        QueryEntry::Const(v) => Some(v),
    }
}

/// Matches an entry against a value: a constant or a bound variable must
/// equal it, and an unbound variable gets bound to it.
pub open spec fn unify1(env: Seq<Option<Value>>, e: QueryEntry, v: Value) -> Option<Seq<Option<Value>>> {
    match e {
        QueryEntry::Const(c) => if c == v { Some(env) } else { None },
        QueryEntry::Var(i) => if i >= env.len() {
            None
        } else {
            match env[i as int] {
                Some(w) => if w == v { Some(env) } else { None },
                None => Some(env.update(i as int, Some(v))),
            }
        },
    }
}

/// Matches entries against values, left to right.
pub open spec fn unify(env: Seq<Option<Value>>, es: Seq<QueryEntry>, vs: Seq<Value>) -> Option<Seq<Option<Value>>>
    decreases es.len(),
{
    if es.len() != vs.len() {
        None
    } else if es.len() == 0 {
        Some(env)
    } else {
        match unify(env, es.drop_last(), vs.drop_last()) {
            Some(e1) => unify1(e1, es.last(), vs.last()),
            None => None,
        }
    }
}

/// The columns of a row: its keys, then its output.
pub open spec fn row_values(r: RowView) -> Seq<Value> {
    r.keys.push(r.out)
}

/// Whether a row passes the filters of a table atom. Rows of this backend
/// are never subsumed; asking for assertion keeps the rows whose fact has
/// the asked status.
pub open spec fn row_passes(r: RowView, is_subsumed: Option<bool>, require_asserted: Option<bool>) -> bool {
    &&& is_subsumed != Some(true)
    &&& require_asserted matches Some(b) ==> r.asserted == b
}

/// Whether the atoms from the `k`-th on have a match that extends `env`.
pub open spec fn search(tables: Seq<TableView>, atoms: Seq<PlanAtomView>, k: nat, env: Seq<Option<Value>>) -> bool
    decreases atoms.len() - k, 1nat, 0nat,
{
    if k >= atoms.len() {
        true
    } else {
        match atoms[k as int] {
            PlanAtomView::Table { table, args, is_subsumed, require_asserted } =>
                table.0 < tables.len() && search_rows(tables, atoms, k, env, 0),
            PlanAtomView::Prim { func, args, ty } => {
                let ins = args.drop_last();
                &&& args.len() >= 1
                &&& forall|j: int| 0 <= j < ins.len() ==> #[trigger] entry_val(env, ins[j]) is Some
                &&& prim_apply(func, ins.map_values(|e: QueryEntry| entry_val(env, e)->0)) matches Some(r)
                &&& unify1(env, args.last(), r) matches Some(env2)
                &&& search(tables, atoms, k + 1, env2)
            },
        }
    }
}

/// Whether a row passes the `k`-th atom's filters and matches its
/// arguments so that the later atoms have a match.
pub open spec fn row_starts_match(
    tables: Seq<TableView>,
    atoms: Seq<PlanAtomView>,
    k: nat,
    env: Seq<Option<Value>>,
    row: RowView,
) -> bool
    decreases atoms.len() - k, 0nat, 0nat,
{
    if k < atoms.len() && atoms[k as int] is Table {
        &&& row_passes(row, atoms[k as int]->Table_is_subsumed, atoms[k as int]->Table_require_asserted)
        &&& unify(env, atoms[k as int]->Table_args, row_values(row)) matches Some(env2)
        &&& search(tables, atoms, k + 1, env2)
    } else {
        false
    }
}

/// Whether a row at position `i` or later of the `k`-th atom's table
/// starts a match.
pub open spec fn search_rows(tables: Seq<TableView>, atoms: Seq<PlanAtomView>, k: nat, env: Seq<Option<Value>>, i: nat) -> bool
    decreases atoms.len() - k, 0nat, if k < atoms.len() && atoms[k as int] is Table && atoms[k as int]->Table_table.0 < tables.len() {
        tables[atoms[k as int]->Table_table.0 as int].rows.len() - i
    } else {
        0
    },
{
    if k < atoms.len() && atoms[k as int] is Table {
        let table = atoms[k as int]->Table_table;
        let args = atoms[k as int]->Table_args;
        if table.0 < tables.len() && i < tables[table.0 as int].rows.len() {
            let row = tables[table.0 as int].rows[i as int];
            ||| row_starts_match(tables, atoms, k, env, row)
            ||| search_rows(tables, atoms, k, env, i + 1)
        } else {
            false
        }
    } else {
        false
    }
}

/// The assignment that binds none of `n` variables.
pub open spec fn empty_env(n: nat) -> Seq<Option<Value>> {
    Seq::new(n, |i: int| None::<Value>)
}

/// The value of an entry under a partial assignment.
pub fn entry_val_exec(env: &Vec<Option<Value>>, e: QueryEntry) -> (r: Option<Value>)
    ensures
        r == entry_val(env@, e),
{
    match e {
        QueryEntry::Var(i) => if i < env.len() { env[i] } else { None },
        QueryEntry::Const(v) => Some(v),
    }
}

fn copy_env(env: &Vec<Option<Value>>) -> (r: Vec<Option<Value>>)
    ensures
        r@ == env@,
{
    let mut r: Vec<Option<Value>> = Vec::new();
    let mut i: usize = 0;
    while i < env.len()
        invariant
            0 <= i <= env@.len(),
            r@ == env@.take(i as int),
        decreases env@.len() - i,
    {
        r.push(env[i]);
        i = i + 1;
        assert(r@ =~= env@.take(i as int));
    }
    assert(env@.take(i as int) =~= env@);
    r
}

/// Matches an entry against a value.
pub fn unify1_exec(env: &Vec<Option<Value>>, e: QueryEntry, v: Value) -> (r: Option<Vec<Option<Value>>>)
    ensures
        match unify1(env@, e, v) {
            Some(x) => r matches Some(y) && y@ == x,
            None => r is None,
        },
{
    match e {
        QueryEntry::Const(c) => if c == v { Some(copy_env(env)) } else { None },
        QueryEntry::Var(i) => {
            if i >= env.len() {
                None
            } else {
                match env[i] {
                    Some(w) => if w == v { Some(copy_env(env)) } else { None },
                    None => {
                        let mut r = copy_env(env);
                        r.set(i, Some(v));
                        Some(r)
                    },
                }
            }
        },
    }
}

/// Matches entries against values, left to right.
pub fn unify_exec(env: &Vec<Option<Value>>, es: &[QueryEntry], vs: &[Value]) -> (r: Option<Vec<Option<Value>>>)
    ensures
        match unify(env@, es@, vs@) {
            Some(x) => r matches Some(y) && y@ == x,
            None => r is None,
        },
{
    if es.len() != vs.len() {
        return None;
    }
    let mut cur = copy_env(env);
    let mut k: usize = 0;
    proof {
        assert(es@.take(0) =~= Seq::<QueryEntry>::empty());
        assert(vs@.take(0) =~= Seq::<Value>::empty());
    }
    while k < es.len()
        invariant
            0 <= k <= es@.len(),
            es@.len() == vs@.len(),
            unify(env@, es@.take(k as int), vs@.take(k as int)) == Some(cur@),
        decreases es@.len() - k,
    {
        proof {
            assert(es@.take(k + 1).drop_last() =~= es@.take(k as int));
            assert(vs@.take(k + 1).drop_last() =~= vs@.take(k as int));
            assert(es@.take(k + 1).last() == es@[k as int]);
            assert(vs@.take(k + 1).last() == vs@[k as int]);
        }
        match unify1_exec(&cur, es[k], vs[k]) {
            Some(next) => {
                cur = next;
            },
            None => {
                proof {
                    lemma_unify_fails_prefix(env@, es@, vs@, k as int + 1);
                }
                return None;
            },
        }
        k = k + 1;
    }
    proof {
        assert(es@.take(k as int) =~= es@);
        assert(vs@.take(k as int) =~= vs@);
    }
    Some(cur)
}

/// Once a prefix fails to match, the whole fails.
pub proof fn lemma_unify_fails_prefix(env: Seq<Option<Value>>, es: Seq<QueryEntry>, vs: Seq<Value>, k: int)
    requires
        es.len() == vs.len(),
        0 <= k <= es.len(),
        unify(env, es.take(k), vs.take(k)) is None,
    ensures
        unify(env, es, vs) is None,
    decreases es.len(),
{
    if k < es.len() {
        assert(es.drop_last().take(k) =~= es.take(k));
        assert(vs.drop_last().take(k) =~= vs.take(k));
        lemma_unify_fails_prefix(env, es.drop_last(), vs.drop_last(), k);
    } else {
        assert(es.take(k) =~= es);
        assert(vs.take(k) =~= vs);
    }
}

/// Whether the atoms from the `k`-th on have a match extending `env`.
pub fn search_from(backend: &Backend, atoms: &Vec<PlanAtom>, k: usize, env: &Vec<Option<Value>>) -> (b: bool)
    requires
        backend.wf(),
    ensures
        b == search(backend@, atoms@.map_values(|a: PlanAtom| a@), k as nat, env@),
    decreases atoms@.len() - k,
{
    let ghost tables = backend@;
    let ghost av = atoms@.map_values(|a: PlanAtom| a@);
    let alen = atoms.len();
    if k >= alen {
        return true;
    }
    assert(av[k as int] == atoms@[k as int]@);
    match &atoms[k] {
        PlanAtom::Table { table, args, is_subsumed, require_asserted } => {
            if table.0 as usize >= backend.num_tables() {
                return false;
            }
            let n = backend.table_size(*table);
            let mut i: usize = 0;
            while i < n
                invariant
                    0 <= i <= n,
                    backend.wf(),
                    tables == backend@,
                    av == atoms@.map_values(|a: PlanAtom| a@),
                    av.len() == atoms@.len(),
                    alen == atoms@.len(),
                    k < av.len(),
                    av[k as int] == atoms@[k as int]@,
                    atoms@[k as int] == (PlanAtom::Table { table: *table, args: *args, is_subsumed: *is_subsumed, require_asserted: *require_asserted }),
                    table.0 < tables.len(),
                    n == tables[table.0 as int].rows.len(),
                    search_rows(tables, av, k as nat, env@, 0) == search_rows(tables, av, k as nat, env@, i as nat),
                decreases n - i,
            {
                let row = backend.row(*table, i);
                let passes = match is_subsumed {
                    Some(b) => !*b,
                    None => true,
                } && match require_asserted {
                    Some(b) => row.asserted == *b,
                    None => true,
                };
                let ghost rv = tables[table.0 as int].rows[i as int];
                if passes {
                    let mut vals = row.keys.clone();
                    vals.push(row.out);
                    assert(vals@ == row_values(rv));
                    match unify_exec(env, args.as_slice(), vals.as_slice()) {
                        Some(env2) => {
                            if search_from(backend, atoms, k + 1, &env2) {
                                assert(row_starts_match(tables, av, k as nat, env@, rv));
                                assert(search_rows(tables, av, k as nat, env@, i as nat));
                                return true;
                            }
                        },
                        None => {},
                    }
                }
                assert(!row_starts_match(tables, av, k as nat, env@, rv));
                assert(search_rows(tables, av, k as nat, env@, i as nat) == search_rows(tables, av, k as nat, env@, i as nat + 1));
                i = i + 1;
            }
            false
        },
        PlanAtom::Prim { func, args, ty } => {
            if args.len() < 1 {
                return false;
            }
            let m = args.len() - 1;
            let ghost ins = args@.drop_last();
            let mut vals: Vec<Value> = Vec::new();
            let mut j: usize = 0;
            while j < m
                invariant
                    0 <= j <= m,
                    tables == backend@,
                    av == atoms@.map_values(|a: PlanAtom| a@),
                    k < av.len(),
                    av[k as int] == atoms@[k as int]@,
                    atoms@[k as int] == (PlanAtom::Prim { func: *func, args: *args, ty: *ty }),
                    m == args@.len() - 1,
                    ins == args@.drop_last(),
                    vals@.len() == j,
                    forall|q: int| 0 <= q < j ==> #[trigger] entry_val(env@, ins[q]) == Some(vals@[q]),
                decreases m - j,
            {
                match entry_val_exec(env, args[j]) {
                    Some(v) => {
                        vals.push(v);
                    },
                    None => {
                        assert(entry_val(env@, ins[j as int]) is None);
                        assert(av[k as int] == (PlanAtomView::Prim { func: *func, args: args@, ty: *ty }));
                        assert(!search(tables, av, k as nat, env@));
                        return false;
                    },
                }
                j = j + 1;
            }
            assert(vals@ =~= ins.map_values(|e: QueryEntry| entry_val(env@, e)->0));
            match apply_pure_prim(*func, vals.as_slice()) {
                None => false,
                Some(r) => {
                    assert(args@.last() == args@[m as int]);
                    match unify1_exec(env, args[m], r) {
                        None => false,
                        Some(env2) => search_from(backend, atoms, k + 1, &env2),
                    }
                },
            }
        },
    }
}

/// Whether the query of a rule plan has a match in the backend's tables.
pub fn query_matches(backend: &Backend, plan: &RulePlan) -> (b: bool)
    requires
        backend.wf(),
    ensures
        b == search(backend@, plan@.atoms, 0, empty_env(plan@.n_vars)),
{
    let n = plan.n_vars();
    let mut env: Vec<Option<Value>> = Vec::new();
    let mut i: usize = 0;
    while i < n
        invariant
            0 <= i <= n,
            env@ == empty_env(i as nat),
        decreases n - i,
    {
        env.push(None);
        i = i + 1;
        assert(env@ =~= empty_env(i as nat));
    }
    search_from(backend, plan.atoms(), 0, &env)
}

} // verus!
