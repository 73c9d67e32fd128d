use vstd::prelude::*;
use crate::egraph::{EGraph, StateView, state_wf};
use crate::backend::{referenced_fact, referenced_rows, with_rows, find_row};
use crate::ids::{FactRef, TableId, Value};
use crate::names::entry_value;
use crate::sorts::ExternalFunctionId;

verus! {

/// The function a relation name resolves to when a fact reference is
/// made: the first argument names it by a string value.
pub open spec fn fact_ref_target(v: StateView, args: Seq<Value>) -> Option<usize> {
    if args.len() == 0 || args[0].rep >= v.strings.len() {
        None
    } else {
        entry_value(v.function_names, v.strings[args[0].rep as int])
    }
}

/// What making a fact reference does. Without arguments, for a name that
/// is no function, or for a function that does not track facts, nothing
/// changes and there is no result. Otherwise the remaining arguments are
/// the keys of a fact of the function's table: when no row holds them, a
/// referenced fact with the unit output is added, not asserted; the result
/// is the value of the reference to that fact.
pub open spec fn fact_ref_post(before: StateView, args: Seq<Value>, after: StateView, r: Option<Value>) -> bool {
    match fact_ref_target(before, args) {
        None => r is None && after == before,
        Some(t) => {
            let table = before.tables[t as int];
            let keys = args.drop_first();
            if !table.truth_tracking {
                r is None && after == before
            } else {
                let fr = referenced_fact(table.rows, t as int, keys);
                let tables = with_rows(before.tables, t as int, referenced_rows(table.rows, keys, Value { rep: 0 }));
                &&& r matches Some(v) && v.rep < after.fact_refs.len() && after.fact_refs[v.rep as int] == fr
                &&& after == (StateView { tables, fact_refs: after.fact_refs, ..before })
                &&& before.fact_refs.contains(fr) ==> after.fact_refs == before.fact_refs
                &&& !before.fact_refs.contains(fr) ==> after.fact_refs == before.fact_refs.push(fr)
            }
        },
    }
}

/// The keys fit the target table, and there is room for the fact in the
/// target table and for its reference when they are new.
pub open spec fn fact_ref_fits(v: StateView, args: Seq<Value>) -> bool {
    match fact_ref_target(v, args) {
        None => true,
        Some(t) => {
            let rows = v.tables[t as int].rows;
            let keys = args.drop_first();
            &&& args.len() - 1 == v.tables[t as int].n_keys
            &&& find_row(rows, keys) is None ==> rows.len() < u32::MAX
            &&& !v.fact_refs.contains(referenced_fact(rows, t as int, keys)) ==> v.fact_refs.len() < u32::MAX
        },
    }
}

/// The values after the first.
fn tail(args: &[Value]) -> (r: Vec<Value>)
    requires
        args@.len() >= 1,
    ensures
        r@ == args@.drop_first(),
{
    let mut r: Vec<Value> = Vec::new();
    let mut i: usize = 1;
    while i < args.len()
        invariant
            1 <= i <= args@.len(),
            r@ == args@.subrange(1, i as int),
        decreases args@.len() - i,
    {
        r.push(args[i]);
        i = i + 1;
        assert(r@ =~= args@.subrange(1, i as int));
    }
    assert(args@.subrange(1, i as int) =~= args@.drop_first());
    r
}

impl EGraph {
    /// Makes the reference to a fact of a relation: `args[0]` names the
    /// relation, the remaining arguments are the keys. A fact that does
    /// not exist yet is added as referenced, not asserted.
    pub fn fact_ref_helper(&mut self, args: &[Value]) -> (r: Option<Value>)
        requires
            old(self).wf(),
            fact_ref_fits(old(self)@, args@),
        ensures
            final(self).wf(),
            final(self).pushed_views() == old(self).pushed_views(),
            fact_ref_post(old(self)@, args@, final(self)@, r),
    {
        if args.len() == 0 {
            return None;
        }
        let nstrings = self.state.backend.base_values().num_strings();
        if args[0].rep as usize >= nstrings {
            return None;
        }
        let name = self.state.backend.base_values().unwrap_string(args[0]);
        let fi = match self.find_function(name.as_str()) {
            Some(i) => i,
            None => {
                return None;
            },
        };
        proof {
            crate::egraph::lemma_function_entry(self@, name@);
        }
        let t = TableId(fi as u32);
        assert(self@.functions[fi as int].backend_id.0 == fi);
        let keys = tail(args);
        let ghost before = *self;
        let created = self.state.backend.create_unasserted_fact_ref(t, keys.as_slice(), Value::new_const(0));
        match created {
            None => {
                proof {
                    self.lemma_backend_tables_keep_wf(&before);
                    assert(self@ == before@);
                }
                None
            },
            Some(fr) => {
                proof {
                    self.lemma_backend_tables_keep_wf(&before);
                }
                let ghost mid = *self;
                let v = self.state.backend.intern_fact_ref(fr);
                proof {
                    self.lemma_backend_tables_keep_wf(&mid);
                    assert(self@ == (StateView { tables: self@.tables, fact_refs: self@.fact_refs, ..old(self)@ }));
                }
                Some(v)
            },
        }
    }
}

/// Creates fact references for the `fact-ref` primitive, through a helper
/// function registered with the backend.
pub struct FactRefPrimitive {
    helper_func_id: Option<ExternalFunctionId>,
}

impl FactRefPrimitive {
    pub closed spec fn helper(&self) -> Option<ExternalFunctionId> {
        self.helper_func_id
    }

    /// A primitive whose helper is not set yet.
    pub fn new() -> (p: FactRefPrimitive)
        ensures
            p.helper() is None,
    {
        FactRefPrimitive { helper_func_id: None }
    }

    /// Sets the helper function the primitive delegates to.
    pub fn set_helper_func(&mut self, func_id: ExternalFunctionId)
        ensures
            final(self).helper() == Some(func_id),
    {
        self.helper_func_id = Some(func_id);
    }

    /// The name of the primitive.
    pub fn name(&self) -> (r: &'static str)
        ensures
            r@ == "fact-ref"@,
    {
        "fact-ref"
    }

    /// Applies the primitive: delegates to the helper, which makes the
    /// reference to the fact that `args` name. The helper must be set.
    pub fn apply(&self, egraph: &mut EGraph, args: &[Value]) -> (r: Option<Value>)
        requires
            self.helper() is Some,
            old(egraph).wf(),
            fact_ref_fits(old(egraph)@, args@),
        ensures
            final(egraph).wf(),
            final(egraph).pushed_views() == old(egraph).pushed_views(),
            fact_ref_post(old(egraph)@, args@, final(egraph)@, r),
    {
        egraph.fact_ref_helper(args)
    }
}

} // verus!
