use vstd::prelude::*;
use crate::ids::{TableId, Value};
use crate::sorts::{ColumnTy, ExternalFunctionId};

verus! {

/// An argument of a planned atom or operation: a rule variable, numbered
/// from zero in the order the rule creates them, or a constant value.
#[derive(Clone, Copy, Debug, PartialEq, Eq, Structural)]
pub enum QueryEntry {
    Var(usize),
    Const(Value),
}

/// An atom of a planned query: a row of a table, optionally restricted to
/// rows that are (not) subsumed and to asserted facts, or a primitive call.
#[derive(Debug)]
pub enum PlanAtom {
    Table { table: TableId, args: Vec<QueryEntry>, is_subsumed: Option<bool>, require_asserted: Option<bool> },
    Prim { func: ExternalFunctionId, args: Vec<QueryEntry>, ty: ColumnTy },
}

pub enum PlanAtomView {
    Table { table: TableId, args: Seq<QueryEntry>, is_subsumed: Option<bool>, require_asserted: Option<bool> },
    Prim { func: ExternalFunctionId, args: Seq<QueryEntry>, ty: ColumnTy },
}

impl View for PlanAtom {
    type V = PlanAtomView;

    open spec fn view(&self) -> PlanAtomView {
        match self {
            PlanAtom::Table { table, args, is_subsumed, require_asserted } => PlanAtomView::Table {
                table: *table,
                args: args@,
                is_subsumed: *is_subsumed,
                require_asserted: *require_asserted,
            },
            PlanAtom::Prim { func, args, ty } => PlanAtomView::Prim { func: *func, args: args@, ty: *ty },
        }
    }
}

/// An operation of a planned rule head. `Lookup` and `Call` bind the rule
/// variable `dst` to their result.
#[derive(Debug)]
pub enum PlanOp {
    Lookup { dst: usize, table: TableId, args: Vec<QueryEntry> },
    Call { dst: usize, func: ExternalFunctionId, args: Vec<QueryEntry>, ty: ColumnTy },
    SetOutput { table: TableId, args: Vec<QueryEntry> },
    Remove { table: TableId, args: Vec<QueryEntry> },
    Subsume { table: TableId, args: Vec<QueryEntry> },
    Union(QueryEntry, QueryEntry),
    Panic(String),
}

pub enum PlanOpView {
    Lookup { dst: nat, table: TableId, args: Seq<QueryEntry> },
    Call { dst: nat, func: ExternalFunctionId, args: Seq<QueryEntry>, ty: ColumnTy },
    SetOutput { table: TableId, args: Seq<QueryEntry> },
    Remove { table: TableId, args: Seq<QueryEntry> },
    Subsume { table: TableId, args: Seq<QueryEntry> },
    Union(QueryEntry, QueryEntry),
    Panic(Seq<char>),
}

impl View for PlanOp {
    type V = PlanOpView;

    open spec fn view(&self) -> PlanOpView {
        match self {
            PlanOp::Lookup { dst, table, args } => PlanOpView::Lookup { dst: *dst as nat, table: *table, args: args@ },
            PlanOp::Call { dst, func, args, ty } => PlanOpView::Call {
                dst: *dst as nat,
                func: *func,
                args: args@,
                ty: *ty,
            },
            PlanOp::SetOutput { table, args } => PlanOpView::SetOutput { table: *table, args: args@ },
            PlanOp::Remove { table, args } => PlanOpView::Remove { table: *table, args: args@ },
            PlanOp::Subsume { table, args } => PlanOpView::Subsume { table: *table, args: args@ },
            PlanOp::Union(x, y) => PlanOpView::Union(*x, *y),
            PlanOp::Panic(m) => PlanOpView::Panic(m@),
        }
    }
}

/// A rule as the backend runs it: a query whose matches each run the
/// operations of the head.
pub struct RulePlanView {
    pub name: Seq<char>,
    pub seminaive: bool,
    pub n_vars: nat,
    pub atoms: Seq<PlanAtomView>,
    pub ops: Seq<PlanOpView>,
}

/// Builds a rule plan: variables, query atoms and head operations, in the
/// order they are added.
pub struct RuleBuilder {
    name: String,
    seminaive: bool,
    n_vars: usize,
    atoms: Vec<PlanAtom>,
    ops: Vec<PlanOp>,
}

/// A finished rule plan.
pub struct RulePlan {
    name: String,
    seminaive: bool,
    n_vars: usize,
    atoms: Vec<PlanAtom>,
    ops: Vec<PlanOp>,
}

impl View for RuleBuilder {
    type V = RulePlanView;

    closed spec fn view(&self) -> RulePlanView {
        RulePlanView {
            name: self.name@,
            seminaive: self.seminaive,
            n_vars: self.n_vars as nat,
            atoms: self.atoms@.map_values(|a: PlanAtom| a@),
            ops: self.ops@.map_values(|o: PlanOp| o@),
        }
    }
}

impl View for RulePlan {
    type V = RulePlanView;

    closed spec fn view(&self) -> RulePlanView {
        RulePlanView {
            name: self.name@,
            seminaive: self.seminaive,
            n_vars: self.n_vars as nat,
            atoms: self.atoms@.map_values(|a: PlanAtom| a@),
            ops: self.ops@.map_values(|o: PlanOp| o@),
        }
    }
}

impl RuleBuilder {
    /// An empty rule.
    pub fn new(name: String, seminaive: bool) -> (rb: RuleBuilder)
        ensures
            rb@ == (RulePlanView {
                name: name@,
                seminaive,
                n_vars: 0,
                atoms: Seq::empty(),
                ops: Seq::empty(),
            }),
    {
        let rb = RuleBuilder { name, seminaive, n_vars: 0, atoms: Vec::new(), ops: Vec::new() };
        assert(rb@.atoms =~= Seq::<PlanAtomView>::empty());
        assert(rb@.ops =~= Seq::<PlanOpView>::empty());
        rb
    }

    /// A fresh rule variable.
    pub fn new_var(&mut self) -> (e: QueryEntry)
        requires
            old(self)@.n_vars < usize::MAX,
        ensures
            e == QueryEntry::Var(old(self)@.n_vars as usize),
            final(self)@ == (RulePlanView { n_vars: old(self)@.n_vars + 1, ..old(self)@ }),
    {
        let n = self.n_vars;
        self.n_vars = n + 1;
        QueryEntry::Var(n)
    }

    /// Adds a query atom.
    pub fn add_atom(&mut self, a: PlanAtom)
        ensures
            final(self)@ == (RulePlanView { atoms: old(self)@.atoms.push(a@), ..old(self)@ }),
    {
        self.atoms.push(a);
        assert(self@.atoms =~= old(self)@.atoms.push(a@));
    }

    /// Adds a head operation.
    pub fn add_op(&mut self, o: PlanOp)
        ensures
            final(self)@ == (RulePlanView { ops: old(self)@.ops.push(o@), ..old(self)@ }),
    {
        self.ops.push(o);
        assert(self@.ops =~= old(self)@.ops.push(o@));
    }

    /// Looks up the output of a table for some keys and binds it to a fresh
    /// variable, which is returned.
    pub fn lookup(&mut self, table: TableId, args: Vec<QueryEntry>) -> (e: QueryEntry)
        requires
            old(self)@.n_vars < usize::MAX,
        ensures
            e == QueryEntry::Var(old(self)@.n_vars as usize),
            final(self)@ == (RulePlanView {
                n_vars: old(self)@.n_vars + 1,
                ops: old(self)@.ops.push(PlanOpView::Lookup { dst: old(self)@.n_vars, table, args: args@ }),
                ..old(self)@
            }),
    {
        let e = self.new_var();
        let dst = self.n_vars - 1;
        self.add_op(PlanOp::Lookup { dst, table, args });
        e
    }

    /// Calls an external function and binds its result to a fresh variable,
    /// which is returned.
    pub fn call_external_func(&mut self, func: ExternalFunctionId, args: Vec<QueryEntry>, ty: ColumnTy) -> (e: QueryEntry)
        requires
            old(self)@.n_vars < usize::MAX,
        ensures
            e == QueryEntry::Var(old(self)@.n_vars as usize),
            final(self)@ == (RulePlanView {
                n_vars: old(self)@.n_vars + 1,
                ops: old(self)@.ops.push(PlanOpView::Call { dst: old(self)@.n_vars, func, args: args@, ty }),
                ..old(self)@
            }),
    {
        let e = self.new_var();
        let dst = self.n_vars - 1;
        self.add_op(PlanOp::Call { dst, func, args, ty });
        e
    }

    /// The finished plan.
    pub fn build(self) -> (p: RulePlan)
        ensures
            p@ == self@,
    {
        RulePlan { name: self.name, seminaive: self.seminaive, n_vars: self.n_vars, atoms: self.atoms, ops: self.ops }
    }
}

impl RulePlan {
    /// The atoms of the query.
    pub fn atoms(&self) -> (r: &Vec<PlanAtom>)
        ensures
            r@.map_values(|a: PlanAtom| a@) == self@.atoms,
    {
        &self.atoms
    }

    /// The number of variables.
    pub fn n_vars(&self) -> (n: usize)
        ensures
            n == self@.n_vars,
    {
        self.n_vars
    }
}

impl PlanAtom {
    pub fn snapshot(&self) -> (r: PlanAtom)
        ensures
            r@ == self@,
    {
        match self {
            PlanAtom::Table { table, args, is_subsumed, require_asserted } => PlanAtom::Table {
                table: *table,
                args: args.clone(),
                is_subsumed: *is_subsumed,
                require_asserted: *require_asserted,
            },
            PlanAtom::Prim { func, args, ty } => PlanAtom::Prim { func: *func, args: args.clone(), ty: *ty },
        }
    }
}

impl PlanOp {
    pub fn snapshot(&self) -> (r: PlanOp)
        ensures
            r@ == self@,
    {
        match self {
            PlanOp::Lookup { dst, table, args } => PlanOp::Lookup { dst: *dst, table: *table, args: args.clone() },
            PlanOp::Call { dst, func, args, ty } => PlanOp::Call { dst: *dst, func: *func, args: args.clone(), ty: *ty },
            PlanOp::SetOutput { table, args } => PlanOp::SetOutput { table: *table, args: args.clone() },
            PlanOp::Remove { table, args } => PlanOp::Remove { table: *table, args: args.clone() },
            PlanOp::Subsume { table, args } => PlanOp::Subsume { table: *table, args: args.clone() },
            PlanOp::Union(x, y) => PlanOp::Union(*x, *y),
            PlanOp::Panic(m) => PlanOp::Panic(m.clone()),
        }
    }
}

impl RulePlan {
    /// A copy of the plan.
    pub fn snapshot(&self) -> (r: RulePlan)
        ensures
            r@ == self@,
    {
        let mut atoms: Vec<PlanAtom> = Vec::new();
        let mut i: usize = 0;
        while i < self.atoms.len()
            invariant
                0 <= i <= self.atoms@.len(),
                atoms@.len() == i,
                forall|k: int| 0 <= k < i ==> #[trigger] atoms@[k]@ == self.atoms@[k]@,
            decreases self.atoms@.len() - i,
        {
            atoms.push(self.atoms[i].snapshot());
            i = i + 1;
        }
        let mut ops: Vec<PlanOp> = Vec::new();
        let mut j: usize = 0;
        while j < self.ops.len()
            invariant
                0 <= j <= self.ops@.len(),
                ops@.len() == j,
                forall|k: int| 0 <= k < j ==> #[trigger] ops@[k]@ == self.ops@[k]@,
            decreases self.ops@.len() - j,
        {
            ops.push(self.ops[j].snapshot());
            j = j + 1;
        }
        let r = RulePlan { name: self.name.clone(), seminaive: self.seminaive, n_vars: self.n_vars, atoms, ops };
        assert(r@.atoms =~= self@.atoms);
        assert(r@.ops =~= self@.ops);
        r
    }
}

} // verus!
