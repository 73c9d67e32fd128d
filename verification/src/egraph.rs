use vstd::prelude::*;
pub mod rulesets;
pub mod check;
pub mod factref_prim;
pub mod load;
pub mod print;
pub mod command;
pub mod action;
use indexmap::IndexMap;
use crate::backend::{Backend, TableView, table_wf, FactRefError, spec_validate, fact_row, set_fact_status};
use crate::values::BaseValues;
use crate::termdag::Literal;
use crate::merge::{MergeFn, DefaultVal, FunctionConfig, ConfigView, MergeView, literal_value, first_unbound, first_unbound_all, calls_known, calls_known_all, lits, lits_all, translates, translates_all, lemma_grows_refl, lemma_grows_trans, lemma_translates_all_grows, lemma_calls_known_all_at, lemma_take_step, lemma_lits_mono, lemma_first_unbound_prefix, lemma_merges_view_push, merges_view};
use crate::error::{Error, TypeError};
use crate::span::Span;
use crate::ids::{FactRef, TableId, Value};
use crate::rule::{RulePlan, RulePlanView};
use crate::names::{name_entries, names_unique, entry_pos, entry_value, name_map_new, name_map_get, name_map_insert, name_map_clone, lemma_entry_pos_unique};
use crate::sorts::{ArcSort, SortView, DeclView, ColumnTy, spec_column_ty, Function, FunctionView, FunctionDecl, FunctionSubtype, ResolvedSchema, ResolvedExpr, ResolvedCall, ExprView, exprs_view, expr_view, lemma_exprs_view, clone_strings, clone_sorts};

verus! {

/// What the runs of rules reported: whether any of them changed the
/// database.
#[derive(Clone, Copy, Debug, PartialEq, Eq, Structural)]
pub struct RunReport {
    pub updated: bool,
}

impl RunReport {
    /// A report of no change.
    pub fn new() -> (r: RunReport)
        ensures
            !r.updated,
    {
        RunReport { updated: false }
    }

    /// Folds another report into this one.
    pub fn union(&mut self, other: RunReport)
        ensures
            final(self).updated == (old(self).updated || other.updated),
    {
        self.updated = self.updated || other.updated;
    }
}

/// A ruleset: named rules with their backend rule ids, or a combination of
/// other rulesets by name.
pub enum Ruleset {
    Rules(IndexMap<String, usize>),
    Combined(Vec<String>),
}

pub enum RulesetView {
    Rules(Seq<(Seq<char>, usize)>),
    Combined(Seq<Seq<char>>),
}

impl View for Ruleset {
    type V = RulesetView;

    open spec fn view(&self) -> RulesetView {
        match self {
            Ruleset::Rules(m) => RulesetView::Rules(name_entries(*m)),
            Ruleset::Combined(v) => RulesetView::Combined(v@.map_values(|s: String| s@)),
        }
    }
}

impl Ruleset {
    fn snapshot(&self) -> (r: Ruleset)
        ensures
            r@ == self@,
    {
        match self {
            Ruleset::Rules(m) => Ruleset::Rules(name_map_clone(m)),
            Ruleset::Combined(v) => Ruleset::Combined(clone_strings(v)),
        }
    }
}

/// The state of an e-graph, apart from the snapshots pushed before it.
pub struct EGraphState {
    backend: Backend,
    functions: IndexMap<String, usize>,
    function_list: Vec<Function>,
    rulesets: IndexMap<String, usize>,
    ruleset_list: Vec<Ruleset>,
    commands: IndexMap<String, usize>,
    sorts: Vec<ArcSort>,
    primitives: Vec<String>,
    seminaive: bool,
    overall_run_report: RunReport,
    rules: Vec<RulePlan>,
    next_id: u32,
}

/// Everything an e-graph state holds, as mathematical values.
pub struct StateView {
    pub tables: Seq<TableView>,
    pub fact_refs: Seq<FactRef>,
    pub ints: Seq<i64>,
    pub strings: Seq<Seq<char>>,
    pub function_names: Seq<(Seq<char>, usize)>,
    pub functions: Seq<FunctionView>,
    pub ruleset_names: Seq<(Seq<char>, usize)>,
    pub rulesets: Seq<RulesetView>,
    pub commands: Seq<(Seq<char>, usize)>,
    pub sorts: Seq<SortView>,
    pub primitives: Seq<Seq<char>>,
    pub seminaive: bool,
    pub report: RunReport,
    pub rules: Seq<RulePlanView>,
    pub next_id: u32,
}

impl View for EGraphState {
    type V = StateView;

    closed spec fn view(&self) -> StateView {
        StateView {
            tables: self.backend@,
            fact_refs: self.backend.bv().interned(),
            ints: self.backend.bv().ints(),
            strings: self.backend.bv().strings(),
            function_names: name_entries(self.functions),
            functions: self.function_list@.map_values(|f: Function| f@),
            ruleset_names: name_entries(self.rulesets),
            rulesets: self.ruleset_list@.map_values(|r: Ruleset| r@),
            commands: name_entries(self.commands),
            sorts: self.sorts@.map_values(|s: ArcSort| s@),
            primitives: self.primitives@.map_values(|s: String| s@),
            seminaive: self.seminaive,
            report: self.overall_run_report,
            rules: self.rules@.map_values(|p: RulePlan| p@),
            next_id: self.next_id,
        }
    }
}

/// The position of the sort with a given name.
pub open spec fn sort_pos(sorts: Seq<SortView>, name: Seq<char>) -> Option<int> {
    if exists|i: int| 0 <= i < sorts.len() && sorts[i].name == name {
        Some(choose|i: int| 0 <= i < sorts.len() && sorts[i].name == name)
    } else {
        None
    }
}

/// The names of the rulesets a combined ruleset refers to resolve to
/// earlier rulesets.
pub open spec fn combined_refers_back(names: Seq<(Seq<char>, usize)>, rulesets: Seq<RulesetView>, i: int) -> bool {
    match rulesets[i] {
        RulesetView::Combined(subs) => forall|k: int| 0 <= k < subs.len() ==> {
            let p = entry_pos(names, #[trigger] subs[k]);
            p is Some && p->0 < i
        },
        RulesetView::Rules(rules) => names_unique(rules),
    }
}

/// The rules a ruleset holds are rules of the state.
pub open spec fn rule_ids_valid(rulesets: Seq<RulesetView>, n_rules: nat, i: int) -> bool {
    match rulesets[i] {
        RulesetView::Rules(rules) => forall|k: int| 0 <= k < rules.len() ==> (#[trigger] rules[k]).1 < n_rules,
        RulesetView::Combined(_) => true,
    }
}

/// The invariant of an e-graph state: name maps index their lists, each
/// function owns the backend table at its own position, and combined
/// rulesets only refer to earlier rulesets.
pub open spec fn state_wf(v: StateView) -> bool {
    &&& names_unique(v.function_names)
    &&& v.function_names.len() == v.functions.len()
    &&& forall|i: int| 0 <= i < v.functions.len() ==> #[trigger] v.function_names[i] == (v.functions[i].decl.name, i as usize)
    &&& v.tables.len() == v.functions.len()
    &&& v.tables.len() < u32::MAX
    &&& forall|i: int| 0 <= i < v.functions.len() ==> {
        &&& (#[trigger] v.functions[i]).backend_id.0 == i
        &&& v.tables[i].n_keys == v.functions[i].schema.input.len()
        &&& v.tables[i].truth_tracking == v.functions[i].decl.fact_tracking
        &&& v.tables[i].name == v.functions[i].decl.name
        &&& v.functions[i].can_subsume == (v.functions[i].decl.subtype != FunctionSubtype::Custom)
    }
    &&& names_unique(v.ruleset_names)
    &&& v.ruleset_names.len() == v.rulesets.len()
    &&& forall|i: int| 0 <= i < v.rulesets.len() ==> #[trigger] v.ruleset_names[i] == (v.ruleset_names[i].0, i as usize)
    &&& forall|i: int| 0 <= i < v.rulesets.len() ==> #[trigger] combined_refers_back(v.ruleset_names, v.rulesets, i)
    &&& forall|i: int| 0 <= i < v.rulesets.len() ==> #[trigger] rule_ids_valid(v.rulesets, v.rules.len(), i)
    &&& names_unique(v.commands)
    &&& sort_names_unique(v.sorts)
}

/// No two sorts share a name.
pub open spec fn sort_names_unique(sorts: Seq<SortView>) -> bool {
    forall|i: int, j: int| 0 <= i < j < sorts.len() ==> sorts[i].name != sorts[j].name
}

impl EGraphState {
    pub closed spec fn wf(&self) -> bool {
        &&& self.backend.wf()
        &&& state_wf(self@)
    }
}

/// An e-graph: its current state and a stack of pushed snapshots.
pub struct EGraph {
    state: EGraphState,
    pushed: Vec<EGraphState>,
}

impl View for EGraph {
    type V = StateView;

    closed spec fn view(&self) -> StateView {
        self.state@
    }
}

impl EGraph {
    /// The snapshots pushed and not yet popped, the latest last.
    pub closed spec fn pushed_views(&self) -> Seq<StateView> {
        self.pushed@.map_values(|s: EGraphState| s@)
    }

    pub closed spec fn wf(&self) -> bool {
        &&& self.state.wf()
        &&& forall|i: int| 0 <= i < self.pushed@.len() ==> (#[trigger] self.pushed@[i]).wf()
    }

    /// What a well-formed e-graph's invariant gives its callers: its
    /// interned base values are those of its view and well formed, no fact
    /// reference is interned twice, its state meets `state_wf`, and no table
    /// holds two rows with the same keys.
    pub proof fn lemma_wf_parts(&self)
        requires
            self.wf(),
        ensures
            self.bv().wf(),
            self.bv().interned() == self@.fact_refs,
            self.bv().ints() == self@.ints,
            self.bv().strings() == self@.strings,
            state_wf(self@),
            forall|t: int| 0 <= t < self@.tables.len() ==> #[trigger] table_wf(self@.tables[t]),
            forall|i: int, j: int| 0 <= i < j < self@.fact_refs.len() ==> self@.fact_refs[i] != self@.fact_refs[j],
    {
        self.state.backend.lemma_bv_wf();
        self.bv().lemma_unique();
        self.state.backend.lemma_tables_wf();
    }

    /// The function with a given name, if one is declared.
    pub open spec fn spec_function(&self, name: Seq<char>) -> Option<FunctionView> {
        match entry_value(self@.function_names, name) {
            Some(i) => Some(self@.functions[i as int]),
            None => None,
        }
    }
}


/// The names of the sorts every e-graph starts with.
pub open spec fn base_sort_names() -> Seq<Seq<char>> {
    seq!["Unit"@, "String"@, "bool"@, "i64"@, "f64"@, "BigInt"@, "BigRat"@, "FactRef"@]
}

/// The names of the primitives every e-graph starts with.
pub open spec fn base_primitive_names() -> Seq<Seq<char>> {
    seq!["fact-ref"@, "!="@, "value-eq"@, "ordering-min"@, "ordering-max"@]
}

/// The state of a new e-graph: the base sorts and primitives, the default
/// ruleset (named by the empty string, holding no rules), and nothing else.
pub open spec fn initial_view(v: StateView) -> bool {
    &&& v.tables == Seq::<TableView>::empty()
    &&& v.fact_refs == Seq::<FactRef>::empty()
    &&& v.ints == Seq::<i64>::empty()
    &&& v.strings == Seq::<Seq<char>>::empty()
    &&& v.function_names == Seq::<(Seq<char>, usize)>::empty()
    &&& v.functions == Seq::<FunctionView>::empty()
    &&& v.ruleset_names == seq![(Seq::<char>::empty(), 0usize)]
    &&& v.rulesets == seq![RulesetView::Rules(Seq::empty())]
    &&& v.commands == Seq::<(Seq<char>, usize)>::empty()
    &&& v.sorts.map_values(|s: SortView| s.name) == base_sort_names()
    &&& forall|i: int| 0 <= i < v.sorts.len() ==> !(#[trigger] v.sorts[i]).is_eq_sort
    &&& v.primitives == base_primitive_names()
    &&& v.seminaive
    &&& !v.report.updated
    &&& v.rules == Seq::<RulePlanView>::empty()
    &&& v.next_id == 0
}

fn push_string(v: &mut Vec<String>, s: &str)
    ensures
        final(v)@.map_values(|x: String| x@) == old(v)@.map_values(|x: String| x@).push(s@),
{
    v.push(String::from_str(s));
    assert(final(v)@.map_values(|x: String| x@) =~= old(v)@.map_values(|x: String| x@).push(s@));
}

fn push_sort(v: &mut Vec<ArcSort>, s: &str)
    ensures
        final(v)@.map_values(|x: ArcSort| x@) == old(v)@.map_values(|x: ArcSort| x@).push(SortView { name: s@, is_eq_sort: false }),
{
    v.push(ArcSort::new(s, false));
    assert(final(v)@.map_values(|x: ArcSort| x@) =~= old(v)@.map_values(|x: ArcSort| x@).push(SortView { name: s@, is_eq_sort: false }));
}

impl Default for EGraph {
    fn default() -> (e: EGraph)
        ensures
            e.wf(),
            initial_view(e@),
            e.pushed_views() == Seq::<StateView>::empty(),
            e.bv().interned() == Seq::<FactRef>::empty(),
            e.bv().ints() == Seq::<i64>::empty(),
            e.bv().strings() == Seq::<Seq<char>>::empty(),
    {
        let mut sorts: Vec<ArcSort> = Vec::new();
        push_sort(&mut sorts, "Unit");
        push_sort(&mut sorts, "String");
        push_sort(&mut sorts, "bool");
        push_sort(&mut sorts, "i64");
        push_sort(&mut sorts, "f64");
        push_sort(&mut sorts, "BigInt");
        push_sort(&mut sorts, "BigRat");
        push_sort(&mut sorts, "FactRef");
        let mut primitives: Vec<String> = Vec::new();
        push_string(&mut primitives, "fact-ref");
        push_string(&mut primitives, "!=");
        push_string(&mut primitives, "value-eq");
        push_string(&mut primitives, "ordering-min");
        push_string(&mut primitives, "ordering-max");
        let mut rulesets = name_map_new();
        let mut ruleset_list: Vec<Ruleset> = Vec::new();
        let _ = name_map_insert(&mut rulesets, String::new(), 0);
        ruleset_list.push(Ruleset::Rules(name_map_new()));
        let state = EGraphState {
            backend: Backend::new(),
            functions: name_map_new(),
            function_list: Vec::new(),
            rulesets,
            ruleset_list,
            commands: name_map_new(),
            sorts,
            primitives,
            seminaive: true,
            overall_run_report: RunReport::new(),
            rules: Vec::new(),
            next_id: 0,
        };
        let e = EGraph { state, pushed: Vec::new() };
        proof {
            let v = e@;
            assert(v.functions =~= Seq::<FunctionView>::empty());
            assert(v.ruleset_names =~= seq![(Seq::<char>::empty(), 0usize)]);
            assert(v.rulesets =~= seq![RulesetView::Rules(Seq::empty())]);
            assert(v.sorts.map_values(|s: SortView| s.name) =~= base_sort_names());
            assert(v.primitives =~= base_primitive_names());
            assert(v.rules =~= Seq::<RulePlanView>::empty());
            assert(e.pushed_views() =~= Seq::<StateView>::empty());
            assert(combined_refers_back(v.ruleset_names, v.rulesets, 0));
            assert(rule_ids_valid(v.rulesets, v.rules.len(), 0));
            reveal_strlit("Unit");
            reveal_strlit("String");
            reveal_strlit("bool");
            reveal_strlit("i64");
            reveal_strlit("f64");
            reveal_strlit("BigInt");
            reveal_strlit("BigRat");
            reveal_strlit("FactRef");
            let names = base_sort_names();
            assert(names[0].len() == 4 && names[1].len() == 6 && names[2].len() == 4 && names[3].len() == 3);
            assert(names[4].len() == 3 && names[5].len() == 6 && names[6].len() == 6 && names[7].len() == 7);
            assert(names[0][0] != names[2][0]);
            assert(names[1][0] != names[5][0]);
            assert(names[1][0] != names[6][0]);
            assert(names[5][3] != names[6][3]);
            assert(names[3][0] != names[4][0]);
            assert(names[0] != names[1] && names[0] != names[2] && names[0] != names[3] && names[0] != names[4]
                && names[0] != names[5] && names[0] != names[6] && names[0] != names[7]);
            assert(names[1] != names[2] && names[1] != names[3] && names[1] != names[4] && names[1] != names[5]
                && names[1] != names[6] && names[1] != names[7]);
            assert(names[2] != names[3] && names[2] != names[4] && names[2] != names[5] && names[2] != names[6]
                && names[2] != names[7]);
            assert(names[3] != names[4] && names[3] != names[5] && names[3] != names[6] && names[3] != names[7]);
            assert(names[4] != names[5] && names[4] != names[6] && names[4] != names[7]);
            assert(names[5] != names[6] && names[5] != names[7]);
            assert(names[6] != names[7]);
            assert forall|i: int, j: int| 0 <= i < j < v.sorts.len() implies v.sorts[i].name != v.sorts[j].name by {
                assert(v.sorts.map_values(|s: SortView| s.name)[i] == v.sorts[i].name);
                assert(v.sorts.map_values(|s: SortView| s.name)[j] == v.sorts[j].name);
            }
            assert(sort_names_unique(v.sorts));
        }
        e
    }
}


/// The total number of rows over all tables.
pub open spec fn total_rows(tables: Seq<TableView>) -> int
    decreases tables.len(),
{
    if tables.len() == 0 {
        0
    } else {
        total_rows(tables.drop_last()) + tables.last().rows.len()
    }
}

impl EGraphState {
    fn snapshot(&self) -> (r: EGraphState)
        requires
            self.wf(),
        ensures
            r.wf(),
            r@ == self@,
    {
        let mut function_list: Vec<Function> = Vec::new();
        let mut i: usize = 0;
        while i < self.function_list.len()
            invariant
                0 <= i <= self.function_list@.len(),
                function_list@.len() == i,
                forall|k: int| 0 <= k < i ==> #[trigger] function_list@[k]@ == self.function_list@[k]@,
            decreases self.function_list@.len() - i,
        {
            function_list.push(self.function_list[i].clone());
            i = i + 1;
        }
        let mut ruleset_list: Vec<Ruleset> = Vec::new();
        let mut j: usize = 0;
        while j < self.ruleset_list.len()
            invariant
                0 <= j <= self.ruleset_list@.len(),
                ruleset_list@.len() == j,
                forall|k: int| 0 <= k < j ==> #[trigger] ruleset_list@[k]@ == self.ruleset_list@[k]@,
            decreases self.ruleset_list@.len() - j,
        {
            ruleset_list.push(self.ruleset_list[j].snapshot());
            j = j + 1;
        }
        let mut rules: Vec<RulePlan> = Vec::new();
        let mut m: usize = 0;
        while m < self.rules.len()
            invariant
                0 <= m <= self.rules@.len(),
                rules@.len() == m,
                forall|k: int| 0 <= k < m ==> #[trigger] rules@[k]@ == self.rules@[k]@,
            decreases self.rules@.len() - m,
        {
            rules.push(self.rules[m].snapshot());
            m = m + 1;
        }
        let r = EGraphState {
            backend: self.backend.snapshot(),
            functions: name_map_clone(&self.functions),
            function_list,
            rulesets: name_map_clone(&self.rulesets),
            ruleset_list,
            commands: name_map_clone(&self.commands),
            sorts: clone_sorts(&self.sorts),
            primitives: clone_strings(&self.primitives),
            seminaive: self.seminaive,
            overall_run_report: self.overall_run_report,
            rules,
            next_id: self.next_id,
        };
        assert(r@.functions =~= self@.functions);
        assert(r@.rules =~= self@.rules);
        assert(r@.rulesets =~= self@.rulesets);
        assert(r@ == self@);
        r
    }
}

impl EGraph {
    /// The position of the function with a given name.
    fn find_function(&self, name: &str) -> (r: Option<usize>)
        requires
            self.wf(),
        ensures
            r == entry_value(self@.function_names, name@),
            r matches Some(i) ==> i < self@.functions.len() && self@.functions[i as int].decl.name == name@,
    {
        let r = name_map_get(&self.state.functions, name);
        proof {
            if let Some(i) = r {
                let p = entry_pos(self@.function_names, name@);
                assert(p is Some);
                assert(self@.function_names[p->0] == (self@.functions[p->0].decl.name, p->0 as usize));
            }
        }
        r
    }

    /// The function with a given name, if one is declared.
    pub fn get_function(&self, name: &str) -> (r: Option<&Function>)
        requires
            self.wf(),
        ensures
            match self.spec_function(name@) {
                Some(f) => r matches Some(g) && g@ == f,
                None => r is None,
            },
    {
        match self.find_function(name) {
            Some(i) => Some(&self.state.function_list[i]),
            None => None,
        }
    }

    /// The number of rows of a declared function's table.
    pub fn get_size(&self, func: &str) -> (n: usize)
        requires
            self.wf(),
            self.spec_function(func@) is Some,
        ensures
            n == self@.tables[entry_value(self@.function_names, func@)->0 as int].rows.len(),
    {
        let i = self.find_function(func).unwrap();
        self.state.backend.table_size(TableId(i as u32))
    }

    /// The output stored for a key in a declared function, if any.
    pub fn lookup_function(&self, name: &str, key: &[Value]) -> (r: Option<Value>)
        requires
            self.wf(),
            self.spec_function(name@) is Some,
            key@.len() == self.spec_function(name@)->0.schema.input.len(),
        ensures
            match crate::backend::find_row(self@.tables[entry_value(self@.function_names, name@)->0 as int].rows, key@) {
                Some(i) => r == Some(self@.tables[entry_value(self@.function_names, name@)->0 as int].rows[i].out),
                None => r is None,
            },
    {
        let i = self.find_function(name).unwrap();
        self.state.backend.lookup_id(TableId(i as u32), key)
    }

    /// The number of rows over all functions.
    pub fn num_tuples(&self) -> (n: usize)
        requires
            self.wf(),
            total_rows(self@.tables) <= usize::MAX,
        ensures
            n == total_rows(self@.tables),
    {
        let mut sum: usize = 0;
        let mut i: usize = 0;
        let k = self.state.backend.num_tables();
        while i < k
            invariant
                0 <= i <= k,
                self.wf(),
                k == self@.tables.len(),
                total_rows(self@.tables) <= usize::MAX,
                sum == total_rows(self@.tables.subrange(0, i as int)),
            decreases k - i,
        {
            proof {
                lemma_total_rows_prefix(self@.tables, i + 1);
                lemma_total_rows_mono(self@.tables, i + 1);
            }
            let n = self.state.backend.table_size(TableId(i as u32));
            assert(n == self@.tables[i as int].rows.len());
            sum = sum + n;
            i = i + 1;
        }
        assert(self@.tables.subrange(0, k as int) =~= self@.tables);
        sum
    }

    /// The sort with a given name, if there is one.
    pub fn get_sort_by_name(&self, sym: &str) -> (r: Option<&ArcSort>)
        requires
            self.wf(),
        ensures
            match sort_pos(self@.sorts, sym@) {
                Some(i) => r matches Some(s) && s@ == self@.sorts[i],
                None => r is None,
            },
    {
        let mut i: usize = 0;
        while i < self.state.sorts.len()
            invariant
                0 <= i <= self.state.sorts@.len(),
                self@.sorts == self.state.sorts@.map_values(|s: ArcSort| s@),
                sort_names_unique(self@.sorts),
                forall|k: int| 0 <= k < i ==> self@.sorts[k].name != sym@,
            decreases self.state.sorts@.len() - i,
        {
            if crate::text::str_eq(self.state.sorts[i].name(), sym) {
                proof {
                    let j = choose|j: int| 0 <= j < self@.sorts.len() && self@.sorts[j].name == sym@;
                    assert(self@.sorts[i as int].name == sym@);
                    if j != i as int {
                        assert(sort_names_unique(self@.sorts));
                    }
                }
                return Some(&self.state.sorts[i]);
            }
            i = i + 1;
        }
        None
    }

    /// The report folded over every run of rules so far.
    pub fn get_overall_run_report(&self) -> (r: &RunReport)
        ensures
            *r == self@.report,
    {
        &self.state.overall_run_report
    }

    /// Whether rules are run semi-naively.
    pub fn seminaive(&self) -> (b: bool)
        ensures
            b == self@.seminaive,
    {
        self.state.seminaive
    }
}

pub proof fn lemma_total_rows_prefix(tables: Seq<TableView>, n: int)
    requires
        0 < n <= tables.len(),
    ensures
        total_rows(tables.subrange(0, n)) == total_rows(tables.subrange(0, n - 1)) + tables[n - 1].rows.len(),
{
    assert(tables.subrange(0, n).drop_last() =~= tables.subrange(0, n - 1));
}

pub proof fn lemma_total_rows_mono(tables: Seq<TableView>, n: int)
    requires
        0 <= n <= tables.len(),
    ensures
        total_rows(tables.subrange(0, n)) <= total_rows(tables),
    decreases tables.len(),
{
    if n < tables.len() {
        lemma_total_rows_mono(tables.drop_last(), n);
        assert(tables.drop_last().subrange(0, n) =~= tables.subrange(0, n));
    } else {
        assert(tables.subrange(0, n) =~= tables);
    }
}


/// What `push` does: the state stays, and a snapshot of it is pushed.
pub open spec fn push_post(
    before: StateView,
    before_pushed: Seq<StateView>,
    after: StateView,
    after_pushed: Seq<StateView>,
) -> bool {
    after == before && after_pushed == before_pushed.push(before)
}

/// What `pop` does: with no snapshot it fails and changes nothing;
/// otherwise the latest snapshot becomes the state, keeping the run report
/// of the state it replaces.
pub open spec fn pop_post(
    before: StateView,
    before_pushed: Seq<StateView>,
    after: StateView,
    after_pushed: Seq<StateView>,
    ok: bool,
) -> bool {
    if before_pushed.len() == 0 {
        !ok && after == before && after_pushed == before_pushed
    } else {
        ok && after == StateView { report: before.report, ..before_pushed.last() }
            && after_pushed == before_pushed.drop_last()
    }
}

/// Whether a name is taken by a user command, a function or a primitive.
pub open spec fn name_taken(v: StateView, name: Seq<char>) -> bool {
    ||| entry_pos(v.commands, name) is Some
    ||| entry_pos(v.function_names, name) is Some
    ||| v.primitives.contains(name)
}

impl EGraph {
    /// Pushes a snapshot of the current state.
    pub fn push(&mut self)
        requires
            old(self).wf(),
        ensures
            final(self).wf(),
            push_post(old(self)@, old(self).pushed_views(), final(self)@, final(self).pushed_views()),
            final(self).bv() == old(self).bv(),
    {
        let snap = self.state.snapshot();
        self.pushed.push(snap);
        assert(self.pushed_views() =~= old(self).pushed_views().push(old(self)@));
    }

    /// Replaces the state by the latest pushed snapshot, keeping the overall
    /// run report; fails when nothing was pushed, with a span that names no
    /// place (a `pop` command puts its own span in the error).
    pub fn pop(&mut self) -> (r: Result<(), Error>)
        requires
            old(self).wf(),
        ensures
            final(self).wf(),
            pop_post(old(self)@, old(self).pushed_views(), final(self)@, final(self).pushed_views(), r is Ok),
            r matches Err(e) ==> (e matches Error::Pop(sp) && sp == Span::Panic),
    {
        match self.pushed.pop() {
            Some(e) => {
                proof {
                    let n = old(self).pushed@.len() - 1;
                    assert(old(self).pushed@[n].wf());
                    assert(e == old(self).pushed@[n]);
                    assert forall|i: int| 0 <= i < self.pushed@.len() implies (#[trigger] self.pushed@[i]).wf() by {
                        assert(self.pushed@[i] == old(self).pushed@[i]);
                        assert(old(self).pushed@[i].wf());
                    }
                }
                let report = self.state.overall_run_report;
                self.state = e;
                self.state.overall_run_report = report;
                assert(self.pushed_views() =~= old(self).pushed_views().drop_last());
                assert(self@ == StateView { report: old(self)@.report, ..old(self).pushed_views().last() });
                Ok(())
            },
            None => Err(Error::Pop(Span::Panic)),
        }
    }

    fn primitive_exists(&self, name: &str) -> (b: bool)
        ensures
            b == self@.primitives.contains(name@),
    {
        let mut i: usize = 0;
        while i < self.state.primitives.len()
            invariant
                0 <= i <= self.state.primitives@.len(),
                self@.primitives == self.state.primitives@.map_values(|s: String| s@),
                forall|k: int| 0 <= k < i ==> self@.primitives[k] != name@,
            decreases self.state.primitives@.len() - i,
        {
            if crate::text::str_eq(self.state.primitives[i].as_str(), name) {
                assert(self@.primitives[i as int] == name@);
                return true;
            }
            i = i + 1;
        }
        false
    }

    /// Registers the name of a user-defined command. A name already used
    /// by a command, a function or a primitive is refused, with a span that
    /// names no place.
    pub fn add_command(&mut self, name: String) -> (r: Result<(), Error>)
        requires
            old(self).wf(),
        ensures
            final(self).wf(),
            final(self).pushed_views() == old(self).pushed_views(),
            name_taken(old(self)@, name@) ==> final(self)@ == old(self)@
                && (r matches Err(Error::CommandAlreadyExists(n, sp)) && n@ == name@ && sp == Span::Panic),
            !name_taken(old(self)@, name@) ==> r is Ok
                && final(self)@ == (StateView {
                    commands: old(self)@.commands.push((name@, old(self)@.commands.len() as usize)),
                    ..old(self)@
                }),
    {
        let in_commands = name_map_get(&self.state.commands, name.as_str()).is_some();
        let in_functions = name_map_get(&self.state.functions, name.as_str()).is_some();
        let in_prims = self.primitive_exists(name.as_str());
        if in_commands || in_functions || in_prims {
            return Err(Error::CommandAlreadyExists(name, Span::Panic));
        }
        let n = crate::names::name_map_len(&self.state.commands);
        let ghost old_cmds = name_entries(self.state.commands);
        let _ = name_map_insert(&mut self.state.commands, name, n);
        proof {
            assert forall|i: int, j: int| 0 <= i < j < self@.commands.len() implies self@.commands[i].0 != self@.commands[j].0 by {
                if j == old_cmds.len() {
                    assert(old_cmds[i].0 != name@);
                }
            }
            assert(self@ == (StateView { commands: old(self)@.commands.push((name@, n)), ..old(self)@ }));
            assert(state_wf(self@));
        }
        Ok(())
    }
}

/// A function's view together with its position, when the name is declared.
pub proof fn lemma_function_entry(v: StateView, name: Seq<char>)
    requires
        state_wf(v),
    ensures
        entry_value(v.function_names, name) matches Some(i) ==> i < v.functions.len()
            && v.functions[i as int].decl.name == name,
{
    if let Some(p) = entry_pos(v.function_names, name) {
        assert(v.function_names[p] == (v.functions[p].decl.name, p as usize));
    }
}


/// A Rust type whose values the e-graph stores as base values.
pub trait BaseValue: Sized {
    /// Whether there is room to intern one more value of this type.
    spec fn has_room(bv: BaseValues) -> bool;

    /// Whether a value stands for a value of this type.
    spec fn valid(bv: BaseValues, v: Value) -> bool;

    /// The value of this type that a value stands for.
    spec fn decode(bv: BaseValues, v: Value) -> Self;

    fn intern(backend: &mut Backend, x: Self) -> (v: Value)
        requires
            old(backend).wf(),
            Self::has_room(old(backend).bv()),
        ensures
            final(backend).wf(),
            final(backend)@ == old(backend)@,
            final(backend).bv().grows_from(&old(backend).bv()),
            final(backend).bv().at_most_one_more(&old(backend).bv()),
            Self::valid(final(backend).bv(), v),
            Self::decode(final(backend).bv(), v) == x;

    fn unwrap(bv: &BaseValues, v: Value) -> (x: Self)
        requires
            Self::valid(*bv, v),
        ensures
            x == Self::decode(*bv, v);

    /// A value keeps standing for the same thing as more values are
    /// interned.
    proof fn lemma_decode_stable(bv0: BaseValues, bv1: BaseValues, v: Value)
        requires
            bv1.grows_from(&bv0),
            Self::valid(bv0, v),
        ensures
            Self::valid(bv1, v),
            Self::decode(bv1, v) == Self::decode(bv0, v);

    /// Two values that stand for the same thing are the same value.
    proof fn lemma_decode_injective(bv: BaseValues, v1: Value, v2: Value)
        requires
            bv.wf(),
            Self::valid(bv, v1),
            Self::valid(bv, v2),
            Self::decode(bv, v1) == Self::decode(bv, v2),
        ensures
            v1 == v2;
}

impl BaseValue for FactRef {
    open spec fn has_room(bv: BaseValues) -> bool {
        bv.interned().len() < u32::MAX
    }

    open spec fn valid(bv: BaseValues, v: Value) -> bool {
        v.rep < bv.interned().len()
    }

    open spec fn decode(bv: BaseValues, v: Value) -> FactRef {
        bv.interned()[v.rep as int]
    }

    fn intern(backend: &mut Backend, x: FactRef) -> (v: Value) {
        backend.intern_fact_ref(x)
    }

    fn unwrap(bv: &BaseValues, v: Value) -> (x: FactRef) {
        bv.unwrap_fact_ref(v)
    }

    proof fn lemma_decode_stable(bv0: BaseValues, bv1: BaseValues, v: Value) {
        assert(bv1.interned().subrange(0, bv0.interned().len() as int)[v.rep as int] == bv1.interned()[v.rep as int]);
    }

    proof fn lemma_decode_injective(bv: BaseValues, v1: Value, v2: Value) {
        bv.lemma_unique();
        if v1.rep < v2.rep {
            assert(bv.interned()[v1.rep as int] != bv.interned()[v2.rep as int]);
        } else if v2.rep < v1.rep {
            assert(bv.interned()[v2.rep as int] != bv.interned()[v1.rep as int]);
        }
    }
}

impl BaseValue for i64 {
    open spec fn has_room(bv: BaseValues) -> bool {
        bv.ints().len() < u32::MAX
    }

    open spec fn valid(bv: BaseValues, v: Value) -> bool {
        v.rep < bv.ints().len()
    }

    open spec fn decode(bv: BaseValues, v: Value) -> i64 {
        bv.ints()[v.rep as int]
    }

    fn intern(backend: &mut Backend, x: i64) -> (v: Value) {
        backend.intern_int(x)
    }

    fn unwrap(bv: &BaseValues, v: Value) -> (x: i64) {
        bv.unwrap_int(v)
    }

    proof fn lemma_decode_stable(bv0: BaseValues, bv1: BaseValues, v: Value) {
        assert(bv1.ints().subrange(0, bv0.ints().len() as int)[v.rep as int] == bv1.ints()[v.rep as int]);
    }

    proof fn lemma_decode_injective(bv: BaseValues, v1: Value, v2: Value) {
        bv.lemma_unique();
        if v1.rep < v2.rep {
            assert(bv.ints()[v1.rep as int] != bv.ints()[v2.rep as int]);
        } else if v2.rep < v1.rep {
            assert(bv.ints()[v2.rep as int] != bv.ints()[v1.rep as int]);
        }
    }
}

impl BaseValue for bool {
    open spec fn has_room(bv: BaseValues) -> bool {
        true
    }

    open spec fn valid(bv: BaseValues, v: Value) -> bool {
        v.rep <= 1
    }

    open spec fn decode(bv: BaseValues, v: Value) -> bool {
        v.rep == 1
    }

    fn intern(backend: &mut Backend, x: bool) -> (v: Value) {
        assert(backend.bv().grows_from(&backend.bv())) by {
            assert(backend.bv().ints().subrange(0, backend.bv().ints().len() as int) =~= backend.bv().ints());
            assert(backend.bv().interned().subrange(0, backend.bv().interned().len() as int) =~= backend.bv().interned());
            assert(backend.bv().strings().subrange(0, backend.bv().strings().len() as int) =~= backend.bv().strings());
        }
        if x { Value::new_const(1) } else { Value::new_const(0) }
    }

    fn unwrap(bv: &BaseValues, v: Value) -> (x: bool) {
        v.rep == 1
    }

    proof fn lemma_decode_stable(bv0: BaseValues, bv1: BaseValues, v: Value) {
    }

    proof fn lemma_decode_injective(bv: BaseValues, v1: Value, v2: Value) {
    }
}

/// The message of a backend error about a fact reference.
pub open spec fn fact_ref_error_text(e: FactRefError) -> Seq<char> {
    match e {
        FactRefError::TableNotFound => "fact reference names no table"@,
        FactRefError::NotFactTracked => "fact reference names a table that does not track facts"@,
        FactRefError::FactNotFound => "fact reference names no fact of its table"@,
    }
}

pub fn fact_ref_error(e: FactRefError) -> (r: Error)
    ensures
        r matches Error::BackendError(m) && m@ == fact_ref_error_text(e),
{
    match e {
        FactRefError::TableNotFound => Error::BackendError(String::from_str("fact reference names no table")),
        FactRefError::NotFactTracked => Error::BackendError(
            String::from_str("fact reference names a table that does not track facts"),
        ),
        FactRefError::FactNotFound => Error::BackendError(String::from_str("fact reference names no fact of its table")),
    }
}

/// The fact reference a value stands for in a state.
pub open spec fn decode_fact_ref(v: StateView, x: Value) -> FactRef {
    v.fact_refs[x.rep as int]
}

impl EGraph {
    /// The interned base values.
    pub fn base_values(&self) -> (b: &BaseValues)
        ensures
            b.interned() == self@.fact_refs,
            b.ints() == self@.ints,
            b.strings() == self@.strings,
    {
        self.state.backend.base_values()
    }

    pub closed spec fn bv(&self) -> BaseValues {
        self.state.backend.bv()
    }

    /// The value that stands for a Rust value, interned when new.
    pub fn base_to_value<T: BaseValue>(&mut self, x: T) -> (v: Value)
        requires
            old(self).wf(),
            T::has_room(old(self).bv()),
        ensures
            final(self).wf(),
            final(self).pushed_views() == old(self).pushed_views(),
            final(self).bv().grows_from(&old(self).bv()),
            final(self).bv().at_most_one_more(&old(self).bv()),
            final(self)@ == (StateView {
                fact_refs: final(self)@.fact_refs,
                ints: final(self)@.ints,
                strings: final(self)@.strings,
                ..old(self)@
            }),
            T::valid(final(self).bv(), v),
            T::decode(final(self).bv(), v) == x,
            forall|w: Value| T::valid(old(self).bv(), w) && T::decode(old(self).bv(), w) == x ==> v == w,
            forall|w: Value| #[trigger] T::valid(old(self).bv(), w)
                ==> T::valid(final(self).bv(), w) && T::decode(final(self).bv(), w) == T::decode(old(self).bv(), w),
    {
        let v = T::intern(&mut self.state.backend, x);
        proof {
            self.lemma_backend_change_keeps_wf(old(self));
            self.lemma_wf_parts();
            assert forall|w: Value| #[trigger] T::valid(old(self).bv(), w) implies T::valid(self.bv(), w)
                && T::decode(self.bv(), w) == T::decode(old(self).bv(), w) by {
                T::lemma_decode_stable(old(self).bv(), self.bv(), w);
            }
            assert forall|w: Value| T::valid(old(self).bv(), w) && T::decode(old(self).bv(), w) == x implies v == w by {
                T::lemma_decode_stable(old(self).bv(), self.bv(), w);
                T::lemma_decode_injective(self.bv(), v, w);
            }
        }
        v
    }

    /// The Rust value a value stands for.
    pub fn value_to_base<T: BaseValue>(&self, x: Value) -> (r: T)
        requires
            T::valid(self.bv(), x),
        ensures
            r == T::decode(self.bv(), x),
    {
        T::unwrap(self.state.backend.base_values(), x)
    }

    /// Checks that a fact reference value denotes a fact of a table that
    /// tracks facts.
    pub fn validate_fact_ref(&self, fact_ref_val: Value) -> (r: Result<(), Error>)
        requires
            fact_ref_val.rep < self@.fact_refs.len(),
        ensures
            match spec_validate(self@.tables, decode_fact_ref(self@, fact_ref_val)) {
                Ok(()) => r is Ok,
                Err(e) => r matches Err(Error::BackendError(m)) && m@ == fact_ref_error_text(e),
            },
    {
        let fr = self.state.backend.unwrap_fact_ref(fact_ref_val);
        match self.state.backend.validate_fact_ref(fr) {
            Ok(()) => Ok(()),
            Err(e) => Err(fact_ref_error(e)),
        }
    }

    /// Whether a fact reference value denotes no fact.
    pub fn is_fact_ref_stale(&self, fact_ref_val: Value) -> (b: bool)
        requires
            fact_ref_val.rep < self@.fact_refs.len(),
        ensures
            b == (spec_validate(self@.tables, decode_fact_ref(self@, fact_ref_val)) is Err),
    {
        let fr = self.state.backend.unwrap_fact_ref(fact_ref_val);
        self.state.backend.is_fact_ref_stale(fr)
    }

    /// Whether the fact a reference value denotes is asserted.
    pub fn get_fact_truth_status(&self, fact_ref_val: Value) -> (r: Result<Option<bool>, Error>)
        requires
            fact_ref_val.rep < self@.fact_refs.len(),
        ensures
            match spec_validate(self@.tables, decode_fact_ref(self@, fact_ref_val)) {
                Ok(()) => r == Ok::<Option<bool>, Error>(
                    Some(fact_row(self@.tables, decode_fact_ref(self@, fact_ref_val)).asserted),
                ),
                Err(e) => r matches Err(Error::BackendError(m)) && m@ == fact_ref_error_text(e),
            },
    {
        let fr = self.state.backend.unwrap_fact_ref(fact_ref_val);
        match self.state.backend.get_fact_truth_status(fr) {
            Ok(b) => Ok(b),
            Err(e) => Err(fact_ref_error(e)),
        }
    }

    /// Marks the fact a reference value denotes as asserted; returns whether
    /// its status changed.
    pub fn assert_fact_validated(&mut self, fact_ref_val: Value) -> (r: Result<bool, Error>)
        requires
            old(self).wf(),
            fact_ref_val.rep < old(self)@.fact_refs.len(),
        ensures
            final(self).wf(),
            final(self).pushed_views() == old(self).pushed_views(),
            match spec_validate(old(self)@.tables, decode_fact_ref(old(self)@, fact_ref_val)) {
                Ok(()) => r == Ok::<bool, Error>(!fact_row(old(self)@.tables, decode_fact_ref(old(self)@, fact_ref_val)).asserted)
                    && final(self)@ == (StateView {
                        tables: set_fact_status(old(self)@.tables, decode_fact_ref(old(self)@, fact_ref_val), true),
                        ..old(self)@
                    }),
                Err(e) => (r matches Err(Error::BackendError(m)) && m@ == fact_ref_error_text(e))
                    && final(self)@ == old(self)@,
            },
    {
        let fr = self.state.backend.unwrap_fact_ref(fact_ref_val);
        let r = self.state.backend.assert_fact_validated(fr);
        proof { self.lemma_set_fact_keeps_wf(old(self), fr, true); }
        match r {
            Ok(b) => Ok(b),
            Err(e) => Err(fact_ref_error(e)),
        }
    }

    /// Marks the fact a reference value denotes as not asserted; returns
    /// whether its status changed.
    pub fn retract_fact_validated(&mut self, fact_ref_val: Value) -> (r: Result<bool, Error>)
        requires
            old(self).wf(),
            fact_ref_val.rep < old(self)@.fact_refs.len(),
        ensures
            final(self).wf(),
            final(self).pushed_views() == old(self).pushed_views(),
            match spec_validate(old(self)@.tables, decode_fact_ref(old(self)@, fact_ref_val)) {
                Ok(()) => r == Ok::<bool, Error>(fact_row(old(self)@.tables, decode_fact_ref(old(self)@, fact_ref_val)).asserted)
                    && final(self)@ == (StateView {
                        tables: set_fact_status(old(self)@.tables, decode_fact_ref(old(self)@, fact_ref_val), false),
                        ..old(self)@
                    }),
                Err(e) => (r matches Err(Error::BackendError(m)) && m@ == fact_ref_error_text(e))
                    && final(self)@ == old(self)@,
            },
    {
        let fr = self.state.backend.unwrap_fact_ref(fact_ref_val);
        let r = self.state.backend.retract_fact_validated(fr);
        proof { self.lemma_set_fact_keeps_wf(old(self), fr, false); }
        match r {
            Ok(b) => Ok(b),
            Err(e) => Err(fact_ref_error(e)),
        }
    }

    proof fn lemma_set_fact_keeps_wf(&self, before: &EGraph, fr: FactRef, b: bool)
        requires
            before.wf(),
            self.state.backend.wf(),
            self.pushed == before.pushed,
            self.state.functions == before.state.functions,
            self.state.function_list == before.state.function_list,
            self.state.rulesets == before.state.rulesets,
            self.state.ruleset_list == before.state.ruleset_list,
            self.state.commands == before.state.commands,
            self.state.sorts == before.state.sorts,
            self.state.primitives == before.state.primitives,
            self.state.backend.bv() == before.state.backend.bv(),
            self.state.seminaive == before.state.seminaive,
            self.state.overall_run_report == before.state.overall_run_report,
            self.state.rules == before.state.rules,
            self.state.next_id == before.state.next_id,
            spec_validate(before@.tables, fr) is Ok ==> self@.tables == set_fact_status(before@.tables, fr, b),
            spec_validate(before@.tables, fr) is Err ==> self@.tables == before@.tables,
        ensures
            self.wf(),
            self.pushed_views() == before.pushed_views(),
            spec_validate(before@.tables, fr) is Ok ==> self@ == (StateView { tables: set_fact_status(before@.tables, fr, b), ..before@ }),
            spec_validate(before@.tables, fr) is Err ==> self@ == before@,
    {
        let v = self@;
        let w = before@;
        assert(v.tables.len() == w.tables.len());
        assert forall|i: int| 0 <= i < v.functions.len() implies {
            &&& (#[trigger] v.functions[i]).backend_id.0 == i
            &&& v.tables[i].n_keys == v.functions[i].schema.input.len()
            &&& v.tables[i].truth_tracking == v.functions[i].decl.fact_tracking
            &&& v.tables[i].name == v.functions[i].decl.name
            &&& v.functions[i].can_subsume == (v.functions[i].decl.subtype != FunctionSubtype::Custom)
        } by {
            assert(w.functions[i] == v.functions[i]);
            assert(v.tables[i].n_keys == w.tables[i].n_keys);
            assert(v.tables[i].name == w.tables[i].name);
            assert(v.tables[i].truth_tracking == w.tables[i].truth_tracking);
        }
        assert(state_wf(v));
    }
}


impl EGraph {
    /// A change of the backend that keeps every table's attributes and
    /// touches nothing else keeps the state well formed.
    proof fn lemma_backend_tables_keep_wf(&self, before: &EGraph)
        requires
            before.wf(),
            self.state.backend.wf(),
            self.pushed == before.pushed,
            self.state.functions == before.state.functions,
            self.state.function_list == before.state.function_list,
            self.state.rulesets == before.state.rulesets,
            self.state.ruleset_list == before.state.ruleset_list,
            self.state.commands == before.state.commands,
            self.state.sorts == before.state.sorts,
            self.state.primitives == before.state.primitives,
            self.state.seminaive == before.state.seminaive,
            self.state.overall_run_report == before.state.overall_run_report,
            self.state.rules == before.state.rules,
            self.state.next_id == before.state.next_id,
            self@.tables.len() == before@.tables.len(),
            forall|i: int| 0 <= i < self@.tables.len() ==> #[trigger] self@.tables[i] == (TableView { rows: self@.tables[i].rows, ..before@.tables[i] }),
        ensures
            self.wf(),
            self.pushed_views() == before.pushed_views(),
            self@ == (StateView { tables: self@.tables, fact_refs: self@.fact_refs, ints: self@.ints, strings: self@.strings, ..before@ }),
    {
        let v = self@;
        let w = before@;
        assert forall|i: int| 0 <= i < v.functions.len() implies {
            &&& (#[trigger] v.functions[i]).backend_id.0 == i
            &&& v.tables[i].n_keys == v.functions[i].schema.input.len()
            &&& v.tables[i].truth_tracking == v.functions[i].decl.fact_tracking
            &&& v.tables[i].name == v.functions[i].decl.name
            &&& v.functions[i].can_subsume == (v.functions[i].decl.subtype != FunctionSubtype::Custom)
        } by {
            assert(w.functions[i] == v.functions[i]);
            assert(v.tables[i] == (TableView { rows: v.tables[i].rows, ..w.tables[i] }));
        }
        assert(v.rulesets == w.rulesets);
        assert(v.rules == w.rules);
        assert(state_wf(v));
    }
}

/// `after` differs from `before` at most in its interned base values.
pub open spec fn only_base_values_changed(before: StateView, after: StateView) -> bool {
    after == (StateView { fact_refs: after.fact_refs, ints: after.ints, strings: after.strings, ..before })
}

impl EGraph {
    proof fn lemma_backend_change_keeps_wf(&self, before: &EGraph)
        requires
            before.wf(),
            self.state.backend.wf(),
            self.pushed == before.pushed,
            self.state.functions == before.state.functions,
            self.state.function_list == before.state.function_list,
            self.state.rulesets == before.state.rulesets,
            self.state.ruleset_list == before.state.ruleset_list,
            self.state.commands == before.state.commands,
            self.state.sorts == before.state.sorts,
            self.state.primitives == before.state.primitives,
            self.state.seminaive == before.state.seminaive,
            self.state.overall_run_report == before.state.overall_run_report,
            self.state.rules == before.state.rules,
            self.state.next_id == before.state.next_id,
            self.state.backend@ == before.state.backend@,
        ensures
            self.wf(),
            self.pushed_views() == before.pushed_views(),
            only_base_values_changed(before@, self@),
    {
        assert(state_wf(self@)) by {
            assert(self@.tables == before@.tables);
            assert(self@.rulesets == before@.rulesets);
            assert(self@.rules == before@.rules);
        }
    }

    /// The value of a literal, interning integers and strings.
    fn literal_to_value(&mut self, l: &Literal) -> (v: Value)
        requires
            old(self).wf(),
            old(self)@.ints.len() < u32::MAX,
            old(self)@.strings.len() < u32::MAX,
        ensures
            final(self).wf(),
            final(self).pushed_views() == old(self).pushed_views(),
            only_base_values_changed(old(self)@, final(self)@),
            final(self).bv().grows_from(&old(self).bv()),
            final(self)@.ints.len() <= old(self)@.ints.len() + 1,
            final(self)@.strings.len() <= old(self)@.strings.len() + 1,
            literal_value(final(self).bv(), l@, v),
    {
        let v = match l {
            Literal::Int(x) => self.state.backend.intern_int(*x),
            Literal::String(x) => self.state.backend.intern_string(x.as_str()),
            Literal::Bool(b) => {
                proof { lemma_grows_refl(self.bv()); }
                if *b { Value::new_const(1) } else { Value::new_const(0) }
            },
            Literal::Unit => {
                proof { lemma_grows_refl(self.bv()); }
                Value::new_const(0)
            },
        };
        proof { self.lemma_backend_change_keeps_wf(old(self)); }
        v
    }

    /// Translates a merge expression: literals to constants, `old` and `new`
    /// to the two outputs, and calls to the backend tables of functions or
    /// to primitives; any other variable is unbound.
    fn translate_expr_to_mergefn(&mut self, expr: &ResolvedExpr) -> (r: Result<MergeFn, Error>)
        requires
            old(self).wf(),
            calls_known(old(self)@.function_names, expr@),
            old(self)@.ints.len() + lits(expr@) < u32::MAX,
            old(self)@.strings.len() + lits(expr@) < u32::MAX,
        ensures
            final(self).wf(),
            final(self).pushed_views() == old(self).pushed_views(),
            only_base_values_changed(old(self)@, final(self)@),
            final(self).bv().grows_from(&old(self).bv()),
            final(self)@.ints.len() <= old(self)@.ints.len() + lits(expr@),
            final(self)@.strings.len() <= old(self)@.strings.len() + lits(expr@),
            (first_unbound(expr@) is None) == (r is Ok),
            r matches Ok(m) ==> translates(final(self)@.function_names, final(self)@.functions, final(self).bv(), expr@, m@),
            r matches Err(e) ==> (e matches Error::TypeError(TypeError::Unbound(x, sp))
                && first_unbound(expr@) == Some((x@, sp))),
        decreases expr,
    {
        match expr {
            ResolvedExpr::Lit(l) => {
                let v = self.literal_to_value(l);
                let m = MergeFn::Const(v);
                assert(expr@ == ExprView::Lit(l@));
                assert(m@ == MergeView::Const(v));
                assert(lits(expr@) == 1);
                assert(literal_value(self.bv(), l@, v));
                assert(translates(self@.function_names, self@.functions, self.bv(), ExprView::Lit(l@), MergeView::Const(v)));
                Ok(m)
            },
            ResolvedExpr::Var(sp, x) => {
                proof {
                    lemma_grows_refl(self.bv());
                    reveal_strlit("old");
                    reveal_strlit("new");
                }
                if crate::text::str_eq(x.as_str(), "old") {
                    Ok(MergeFn::Old)
                } else if crate::text::str_eq(x.as_str(), "new") {
                    Ok(MergeFn::New)
                } else {
                    Err(Error::TypeError(TypeError::Unbound(x.clone(), sp.clone())))
                }
            },
            ResolvedExpr::Call(c, args) => {
                let ghost ev = expr@;
                let ghost av = exprs_view(args@);
                proof {
                    lemma_exprs_view(args@);
                    lemma_grows_refl(self.bv());
                    assert(av.take(0) =~= Seq::<ExprView>::empty());
                    assert(merges_view(Seq::<MergeFn>::empty()) =~= Seq::<MergeView>::empty());
                }
                let mut out: Vec<MergeFn> = Vec::new();
                let mut k: usize = 0;
                assert(decreases_to!(*expr => *args));
                while k < args.len()
                    invariant
                        decreases_to!(*expr => *args),
                        0 <= k <= args@.len(),
                        ev == ExprView::Call(c@, av),
                        ev == expr@,
                        av == exprs_view(args@),
                        av.len() == args@.len(),
                        forall|j: int| 0 <= j < args@.len() ==> #[trigger] av[j] == expr_view(args@[j]),
                        self.wf(),
                        self.pushed_views() == old(self).pushed_views(),
                        only_base_values_changed(old(self)@, self@),
                        self.bv().grows_from(&old(self).bv()),
                        calls_known_all(self@.function_names, av),
                        self@.ints.len() <= old(self)@.ints.len() + lits_all(av.take(k as int)),
                        self@.strings.len() <= old(self)@.strings.len() + lits_all(av.take(k as int)),
                        old(self)@.ints.len() + lits_all(av) < u32::MAX,
                        old(self)@.strings.len() + lits_all(av) < u32::MAX,
                        first_unbound_all(av.take(k as int)) is None,
                        translates_all(self@.function_names, self@.functions, self.bv(), av.take(k as int), merges_view(out@)),
                    decreases args@.len() - k,
                {
                    proof {
                        vstd::std_specs::vec::axiom_vec_index_decreases(*args, k as int);
                        lemma_calls_known_all_at(self@.function_names, av, k as int);
                        lemma_take_step(av, k as int);
                        lemma_lits_mono(av, k as int + 1);
                    }
                    let ghost before = *self;
                    let t = self.translate_expr_to_mergefn(&args[k]);
                    proof {
                        lemma_grows_trans(old(self).bv(), before.bv(), self.bv());
                        assert(args@[k as int]@ == av[k as int]);
                        assert(lits_all(av.take(k + 1)) == lits_all(av.take(k as int)) + lits(av[k as int]));
                        assert(lits(ev) == lits_all(av));
                    }
                    match t {
                        Ok(m) => {
                            proof {
                                lemma_translates_all_grows(
                                    self@.function_names, self@.functions, before.bv(), self.bv(),
                                    av.take(k as int), merges_view(out@),
                                );
                                lemma_merges_view_push(out@, m);
                                let ms = merges_view(out@.push(m));
                                assert(ms.drop_last() =~= merges_view(out@));
                                assert(ms.last() == m@);
                                assert(translates(self@.function_names, self@.functions, self.bv(), av[k as int], m@));
                                assert(first_unbound_all(av.take(k + 1)) is None);
                            }
                            out.push(m);
                            k = k + 1;
                        },
                        Err(e) => {
                            proof {
                                lemma_first_unbound_prefix(av, k as int + 1);
                            }
                            return Err(e);
                        },
                    }
                }
                proof {
                    assert(av.take(k as int) =~= av);
                    assert(ev == ExprView::Call(c@, av));
                    assert(lits(ev) == lits_all(av));
                }
                match c {
                    ResolvedCall::Func(f) => {
                        let i = self.find_function(f.as_str()).unwrap();
                        let id = self.state.function_list[i].backend_id();
                        Ok(MergeFn::Function(id, out))
                    },
                    ResolvedCall::Primitive(_, p) => Ok(MergeFn::Primitive(*p, out)),
                }
            },
        }
    }
}


/// The name is new, there is room for one more table, and a merge
/// expression calls declared functions and leaves room for its literals.
pub open spec fn declare_ok(v: StateView, decl: DeclView) -> bool {
    &&& entry_pos(v.function_names, decl.name) is None
    &&& v.tables.len() + 1 < u32::MAX
    &&& custom_merge(decl) matches Some(e) ==> calls_known(v.function_names, e)
        && v.ints.len() + lits(e) < u32::MAX
        && v.strings.len() + lits(e) < u32::MAX
}

/// What declaring a function does: an undefined sort in its schema fails
/// and changes nothing; an unbound variable in its merge expression fails
/// after interning the literals before it; otherwise the function gets a
/// new, empty table configured from its declaration and is registered
/// under its name.
pub open spec fn declare_post(
    v0: StateView,
    bv0: BaseValues,
    decl: DeclView,
    v1: StateView,
    bv1: BaseValues,
    r: Result<(), Error>,
) -> bool {
    let undefined = first_undefined(v0.sorts, decl.input.push(decl.output));
    let unbound = custom_merge(decl) matches Some(e) && first_unbound(e) is Some;
    if let Some(n) = undefined {
        v1 == v0 && (r matches Err(Error::TypeError(TypeError::UndefinedSort(x, sp))) && x@ == n && sp == decl.span)
    } else if unbound {
        only_base_values_changed(v0, v1)
            && (r matches Err(Error::TypeError(TypeError::Unbound(x, sp)))
                && first_unbound(custom_merge(decl)->0) == Some((x@, sp)))
    } else {
        let n = v0.functions.len();
        let input = decl.input.map_values(|x: Seq<char>| resolve_sort(v0.sorts, x));
        let output = resolve_sort(v0.sorts, decl.output);
        &&& r is Ok
        &&& v1.functions == v0.functions.push(FunctionView {
            decl,
            schema: crate::sorts::SchemaView { input, output },
            can_subsume: decl.subtype != FunctionSubtype::Custom,
            backend_id: TableId(n as u32),
        })
        &&& v1.function_names == v0.function_names.push((decl.name, n as usize))
        &&& v1.tables.len() == n + 1
        &&& v1.tables.drop_last() == v0.tables
        &&& v1.tables.last().rows == Seq::<crate::backend::RowView>::empty()
        &&& config_of(decl, input, output, v1.tables.last().config, v0.function_names, v0.functions, bv1)
        &&& bv1.grows_from(&bv0)
        &&& v1 == (StateView {
            tables: v1.tables,
            fact_refs: v1.fact_refs,
            ints: v1.ints,
            strings: v1.strings,
            function_names: v1.function_names,
            functions: v1.functions,
            ..v0
        })
    }
}

/// The first name in the list that names no sort.
pub open spec fn first_undefined(sorts: Seq<SortView>, names: Seq<Seq<char>>) -> Option<Seq<char>>
    decreases names.len(),
{
    if names.len() == 0 {
        None
    } else {
        match first_undefined(sorts, names.drop_last()) {
            Some(x) => Some(x),
            None => if sort_pos(sorts, names.last()) is None { Some(names.last()) } else { None },
        }
    }
}

/// The sort a name resolves to.
pub open spec fn resolve_sort(sorts: Seq<SortView>, name: Seq<char>) -> SortView {
    sorts[sort_pos(sorts, name)->0]
}

/// The default output of a new function's table: a fresh id for
/// constructors, failure for custom functions, the unit value for relations.
pub open spec fn spec_default(sub: FunctionSubtype) -> DefaultVal {
    match sub {
        FunctionSubtype::Constructor => DefaultVal::FreshId,
        FunctionSubtype::Custom => DefaultVal::Fail,
        FunctionSubtype::Relation => DefaultVal::Const(Value { rep: 0 }),
    }
}

/// The table a declaration asks the backend for: one column per input
/// and one for the output, typed by their sorts; merging by union for
/// constructors, by equality for relations and for custom functions without
/// a merge expression, and by the translated expression otherwise.
pub open spec fn config_of(
    decl: DeclView,
    input: Seq<SortView>,
    output: SortView,
    c: ConfigView,
    names: Seq<(Seq<char>, usize)>,
    fns: Seq<FunctionView>,
    bv: BaseValues,
) -> bool {
    &&& c.schema == input.map_values(|s: SortView| spec_column_ty(s)).push(spec_column_ty(output))
    &&& c.default == spec_default(decl.subtype)
    &&& c.name == decl.name
    &&& c.can_subsume == (decl.subtype != FunctionSubtype::Custom)
    &&& c.will_enable_truth_tracking == decl.fact_tracking
    &&& match decl.subtype {
        FunctionSubtype::Constructor => c.merge is UnionId,
        FunctionSubtype::Relation => c.merge is AssertEq,
        FunctionSubtype::Custom => match decl.merge {
            None => c.merge is AssertEq,
            Some(e) => translates(names, fns, bv, e, c.merge),
        },
    }
}

/// The merge expression a declaration has translated, if it is a custom
/// function with one.
pub open spec fn custom_merge(decl: DeclView) -> Option<ExprView> {
    if decl.subtype == FunctionSubtype::Custom { decl.merge } else { None }
}

impl EGraph {
    fn resolve_sort_name(&self, name: &String, span: &Span) -> (r: Result<ArcSort, Error>)
        requires
            self.wf(),
        ensures
            match sort_pos(self@.sorts, name@) {
                Some(i) => r matches Ok(s) && s@ == self@.sorts[i],
                None => r matches Err(Error::TypeError(TypeError::UndefinedSort(x, sp))) && x@ == name@ && sp == *span,
            },
    {
        match self.get_sort_by_name(name.as_str()) {
            Some(s) => Ok(s.clone()),
            None => Err(Error::TypeError(TypeError::UndefinedSort(name.clone(), span.clone()))),
        }
    }

    /// Declares a function: resolves the sorts of its schema, asks the
    /// backend for its table, and registers it under its name.
    pub fn declare_function(&mut self, decl: &FunctionDecl) -> (r: Result<(), Error>)
        requires
            old(self).wf(),
            declare_ok(old(self)@, decl@),
        ensures
            final(self).wf(),
            final(self).pushed_views() == old(self).pushed_views(),
            declare_post(old(self)@, old(self).bv(), decl@, final(self)@, final(self).bv(), r),
    {
        let ghost names = decl@.input.push(decl@.output);
        let mut input: Vec<ArcSort> = Vec::new();
        let mut i: usize = 0;
        while i < decl.input.len()
            invariant
                0 <= i <= decl.input@.len(),
                self.wf(),
                *self == *old(self),
                names == decl@.input.push(decl@.output),
                decl@.input.len() == decl.input@.len(),
                forall|k: int| 0 <= k < decl.input@.len() ==> #[trigger] decl@.input[k] == decl.input@[k]@,
                first_undefined(self@.sorts, decl@.input.take(i as int)) is None,
                input@.len() == i,
                forall|k: int| 0 <= k < i ==> #[trigger] input@[k]@ == resolve_sort(self@.sorts, decl@.input[k]),
            decreases decl.input@.len() - i,
        {
            proof {
                crate::merge::lemma_take_step(decl@.input, i as int);
            }
            match self.resolve_sort_name(&decl.input[i], &decl.span) {
                Ok(s) => {
                    input.push(s);
                    i = i + 1;
                },
                Err(e) => {
                    proof {
                        lemma_first_undefined_prefix(self@.sorts, names, i as int + 1);
                        assert(names.take(i + 1) =~= decl@.input.take(i + 1));
                    }
                    return Err(e);
                },
            }
        }
        proof {
            assert(decl@.input.take(i as int) =~= decl@.input);
            assert(names.drop_last() =~= decl@.input);
        }
        let output = match self.resolve_sort_name(&decl.output, &decl.span) {
            Ok(s) => s,
            Err(e) => {
                return Err(e);
            },
        };
        assert(first_undefined(self@.sorts, names) is None);
        let can_subsume = match decl.subtype {
            FunctionSubtype::Constructor => true,
            FunctionSubtype::Relation => true,
            FunctionSubtype::Custom => false,
        };
        let mut schema: Vec<ColumnTy> = Vec::new();
        let mut j: usize = 0;
        while j < input.len()
            invariant
                0 <= j <= input@.len(),
                input@.len() == decl@.input.len(),
                forall|k: int| 0 <= k < input@.len() ==> #[trigger] input@[k]@ == resolve_sort(old(self)@.sorts, decl@.input[k]),
                schema@.len() == j,
                forall|k: int| 0 <= k < j ==> #[trigger] schema@[k] == spec_column_ty(input@[k]@),
            decreases input@.len() - j,
        {
            schema.push(input[j].column_ty());
            j = j + 1;
        }
        schema.push(output.column_ty());
        let default = match decl.subtype {
            FunctionSubtype::Constructor => DefaultVal::FreshId,
            FunctionSubtype::Custom => DefaultVal::Fail,
            FunctionSubtype::Relation => DefaultVal::Const(Value::new_const(0)),
        };
        let merge = match decl.subtype {
            FunctionSubtype::Constructor => {
                proof { lemma_grows_refl(self.bv()); }
                MergeFn::UnionId
            },
            FunctionSubtype::Relation => {
                proof { lemma_grows_refl(self.bv()); }
                MergeFn::AssertEq
            },
            FunctionSubtype::Custom => match &decl.merge {
                None => {
                    proof { lemma_grows_refl(self.bv()); }
                    MergeFn::AssertEq
                },
                Some(e) => match self.translate_expr_to_mergefn(e) {
                    Ok(m) => m,
                    Err(err) => {
                        return Err(err);
                    },
                },
            },
        };
        let name = decl.name.clone();
        let config = FunctionConfig {
            schema,
            default,
            merge,
            name,
            can_subsume,
            will_enable_truth_tracking: decl.fact_tracking,
        };
        let ghost config_view = config@;
        proof {
            assert(config_view.schema =~= input@.map_values(|s: ArcSort| s@)
                .map_values(|s: SortView| spec_column_ty(s)).push(spec_column_ty(output@)));
        }
        let backend_id = self.state.backend.add_table(config);
        let n = self.state.function_list.len();
        let function = Function::new(decl.clone(), ResolvedSchema { input, output }, can_subsume, backend_id);
        let ghost fv = function@;
        self.state.function_list.push(function);
        let key = decl.name.clone();
        let _ = name_map_insert(&mut self.state.functions, key, n);
        proof {
            let o = old(self)@;
            let v = self@;
            let input_v = decl@.input.map_values(|x: Seq<char>| resolve_sort(o.sorts, x));
            assert(fv.schema.input =~= input_v);
            assert(v.functions =~= o.functions.push(fv));
            assert(v.function_names == o.function_names.push((decl@.name, n)));
            assert(n == o.functions.len());
            assert(v.tables == o.tables.push(v.tables.last()));
            assert(v.tables.drop_last() =~= o.tables);
            assert(v.tables.last().config == config_view);
            assert forall|i: int, j: int| 0 <= i < j < v.function_names.len()
                implies v.function_names[i].0 != v.function_names[j].0 by {
                if j == o.function_names.len() {
                    assert(o.function_names[i].0 != decl@.name);
                }
            }
            assert forall|i: int| 0 <= i < v.functions.len() implies {
                &&& (#[trigger] v.functions[i]).backend_id.0 == i
                &&& v.tables[i].n_keys == v.functions[i].schema.input.len()
                &&& v.tables[i].truth_tracking == v.functions[i].decl.fact_tracking
                &&& v.tables[i].name == v.functions[i].decl.name
                &&& v.functions[i].can_subsume == (v.functions[i].decl.subtype != FunctionSubtype::Custom)
            } by {
                if i < o.functions.len() {
                    assert(v.functions[i] == o.functions[i]);
                    assert(v.tables[i] == o.tables[i]);
                } else {
                    assert(v.functions[i] == fv);
                    assert(fv.backend_id.0 == i);
                    assert(v.tables[i].n_keys == fv.schema.input.len());
                    assert(v.tables[i].truth_tracking == fv.decl.fact_tracking);
                    assert(v.tables[i].name == fv.decl.name);
                }
            }
            assert forall|i: int| 0 <= i < v.functions.len() implies
                #[trigger] v.function_names[i] == (v.functions[i].decl.name, i as usize) by {
                if i < o.functions.len() {
                    assert(v.functions[i] == o.functions[i]);
                    assert(v.function_names[i] == o.function_names[i]);
                }
            }
            assert(v.rulesets == o.rulesets);
            assert(v.ruleset_names == o.ruleset_names);
            assert(v.rules == o.rules);
            assert(v.commands == o.commands);
            assert(v.sorts == o.sorts);
            assert(state_wf(o));
            assert(state_wf(v));
        }
        Ok(())
    }
}

pub proof fn lemma_first_undefined_prefix(sorts: Seq<SortView>, names: Seq<Seq<char>>, k: int)
    requires
        0 <= k <= names.len(),
        first_undefined(sorts, names.take(k)) is Some,
    ensures
        first_undefined(sorts, names) == first_undefined(sorts, names.take(k)),
    decreases names.len(),
{
    if k < names.len() {
        assert(names.drop_last().take(k) =~= names.take(k));
        lemma_first_undefined_prefix(sorts, names.drop_last(), k);
    } else {
        assert(names.take(k) =~= names);
    }
}

} // verus!
