use vstd::prelude::*;
use crate::egraph::{EGraph, StateView, only_base_values_changed};
use crate::atoms::{AtomTerm, AtomTermView, terms_view};
use crate::backend::{with_rows, insert_rows};
use crate::ids::{TableId, Value};
use crate::names::entry_value;
use crate::sorts::FunctionSubtype;
use crate::translate::{all_literals, literal_values, literal_rep, lit_known, func_index, lemma_literal_rep, lemma_literal_rep_grows};
use crate::merge::{lemma_grows_refl, lemma_grows_trans};
use crate::values::BaseValues;

verus! {

/// Setting an output by literals names a declared relation or custom
/// function, gives one literal per key and one for the output, and leaves
/// room for a new row and for the values the literals may add.
pub open spec fn set_ok(v: StateView, f: Seq<char>, xs: Seq<AtomTermView>, y: AtomTermView) -> bool {
    &&& entry_value(v.function_names, f) matches Some(i)
    &&& v.functions[i as int].decl.subtype != FunctionSubtype::Constructor
    &&& all_literals(xs.push(y))
    &&& xs.len() == v.tables[i as int].n_keys
    &&& v.tables[i as int].rows.len() < u32::MAX
    &&& v.ints.len() + xs.len() + 1 < u32::MAX
    &&& v.strings.len() + xs.len() + 1 < u32::MAX
}

/// What setting an output by literals does: the literals are interned, and
/// the row holding the keys' values takes the output's value and is marked
/// asserted, or a new asserted row is added; nothing else changes.
pub open spec fn set_post(v0: StateView, f: Seq<char>, xs: Seq<AtomTermView>, y: AtomTermView, v1: StateView, bv1: BaseValues) -> bool {
    let t = func_index(v0.function_names, f);
    let rows = insert_rows(v0.tables[t].rows, literal_values(bv1, xs), literal_rep(bv1, y->Literal_0));
    v1 == (StateView { tables: with_rows(v0.tables, t, rows), fact_refs: v1.fact_refs, ints: v1.ints, strings: v1.strings, ..v0 })
}

impl EGraph {
    /// Sets the output of a function for some keys, all given as literals:
    /// the row that holds the keys takes the output and is marked asserted,
    /// and without one a new asserted row is added. A fact that was only
    /// referenced becomes asserted, with no second row.
    pub fn set_ground(&mut self, f: &str, xs: &Vec<AtomTerm>, y: &AtomTerm)
        requires
            old(self).wf(),
            set_ok(old(self)@, f@, terms_view(xs@), y@),
        ensures
            final(self).wf(),
            final(self).pushed_views() == old(self).pushed_views(),
            final(self).bv().grows_from(&old(self).bv()),
            set_post(old(self)@, f@, terms_view(xs@), y@, final(self)@, final(self).bv()),
    {
        let ghost ts = terms_view(xs@);
        let ghost v0 = old(self)@;
        assert(all_literals(ts)) by {
            assert forall|k: int| 0 <= k < ts.len() implies #[trigger] ts[k] is Literal by {
                assert(ts.push(y@)[k] == ts[k]);
            }
        }
        assert(ts.push(y@)[ts.len() as int] == y@);
        let mut keys: Vec<Value> = Vec::new();
        let mut k: usize = 0;
        proof { lemma_grows_refl(self.bv()); }
        while k < xs.len()
            invariant
                0 <= k <= xs@.len(),
                ts == terms_view(xs@),
                ts.len() == xs@.len(),
                all_literals(ts),
                self.wf(),
                self.pushed_views() == old(self).pushed_views(),
                only_base_values_changed(v0, self@),
                v0 == old(self)@,
                self.bv().grows_from(&old(self).bv()),
                self@.ints.len() <= v0.ints.len() + k,
                self@.strings.len() <= v0.strings.len() + k,
                v0.ints.len() + xs@.len() + 1 < u32::MAX,
                v0.strings.len() + xs@.len() + 1 < u32::MAX,
                keys@.len() == k,
                forall|q: int| 0 <= q < k ==> #[trigger] keys@[q] == literal_rep(self.bv(), ts[q]->Literal_0),
                forall|q: int| 0 <= q < k ==> lit_known(self.bv(), #[trigger] ts[q]->Literal_0),
            decreases xs@.len() - k,
        {
            let ghost before = *self;
            assert(ts[k as int] == xs@[k as int]@);
            assert(ts[k as int] is Literal);
            let v = match &xs[k] {
                AtomTerm::Literal(l) => self.literal_to_value(l),
                AtomTerm::Var(..) => {
                    proof { assert(false); }
                    Value::new_const(0)
                },
            };
            proof {
                self.lemma_wf_parts();
                before.lemma_wf_parts();
                lemma_literal_rep(self.bv(), ts[k as int]->Literal_0, v);
                assert forall|q: int| 0 <= q < k implies #[trigger] keys@[q] == literal_rep(self.bv(), ts[q]->Literal_0)
                    && lit_known(self.bv(), ts[q]->Literal_0) by {
                    assert(lit_known(before.bv(), ts[q]->Literal_0));
                    lemma_literal_rep_grows(before.bv(), self.bv(), ts[q]->Literal_0);
                }
                lemma_grows_trans(old(self).bv(), before.bv(), self.bv());
            }
            keys.push(v);
            k = k + 1;
        }
        let ghost before_y = *self;
        let out = match y {
            AtomTerm::Literal(l) => self.literal_to_value(l),
            AtomTerm::Var(..) => {
                proof { assert(false); }
                Value::new_const(0)
            },
        };
        proof {
            self.lemma_wf_parts();
            before_y.lemma_wf_parts();
            lemma_literal_rep(self.bv(), y@->Literal_0, out);
            assert forall|q: int| 0 <= q < k implies #[trigger] keys@[q] == literal_rep(self.bv(), ts[q]->Literal_0) by {
                assert(lit_known(before_y.bv(), ts[q]->Literal_0));
                lemma_literal_rep_grows(before_y.bv(), self.bv(), ts[q]->Literal_0);
            }
            lemma_grows_trans(old(self).bv(), before_y.bv(), self.bv());
            assert(keys@ =~= literal_values(self.bv(), ts));
        }
        let i = self.find_function(f).unwrap();
        proof {
            crate::egraph::lemma_function_entry(self@, f@);
            self.lemma_wf_parts();
            assert(self@.functions[i as int].backend_id.0 == i);
        }
        let ghost before_insert = *self;
        self.state.backend.insert(TableId(i as u32), keys.as_slice(), out);
        proof {
            self.lemma_backend_tables_keep_wf(&before_insert);
        }
    }
}

} // verus!
