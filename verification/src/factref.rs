use vstd::prelude::*;
use crate::ids::Value;
use crate::termdag::{Literal, LiteralView, Term, TermDag, TermView, args_str, node_str, term_str, literal_str};
use crate::text::int_str;
use crate::values::BaseValues;

verus! {

/// The sort of first-class fact references.
#[derive(Debug)]
pub struct FactRefSort;

/// How a fact reference is written as a term: `(fact-ref T F)` with the
/// table id and the fact id in decimal.
pub open spec fn fact_ref_term_str(table: int, fact: int) -> Seq<char> {
    seq!['('] + "fact-ref"@ + seq![' '] + int_str(table) + seq![' '] + int_str(fact) + seq![')']
}

impl FactRefSort {
    pub fn name(&self) -> (r: &'static str)
        ensures
            r@ == "FactRef"@,
    {
        "FactRef"
    }

    /// The term for a fact reference value: the application of `fact-ref`
    /// to the table id and the fact id, as integer literals.
    pub fn reconstruct_termdag(&self, base_values: &BaseValues, value: Value, termdag: &mut TermDag) -> (t: Term)
        requires
            old(termdag).wf(),
            value.rep < base_values.interned().len(),
        ensures
            final(termdag).wf(),
            final(termdag)@.contains(t@),
            t@ is App,
            t@->App_0 == "fact-ref"@,
            term_str(
                final(termdag)@,
                t@,
            ) == fact_ref_term_str(
                base_values.interned()[value.rep as int].table_id.0 as int,
                base_values.interned()[value.rep as int].fact_id.0 as int,
            ),
    {
        let fact_ref = base_values.unwrap_fact_ref(value);
        let table_id_term = termdag.lit(Literal::Int(fact_ref.table_id.rep() as i64));
        let ghost d1 = termdag@;
        let fact_id_term = termdag.lit(Literal::Int(fact_ref.fact_id.rep() as i64));
        let ghost d2 = termdag@;
        let ghost tv = table_id_term@;
        let ghost fv = fact_id_term@;
        assert(d2.contains(tv)) by {
            let i = choose|i: int| 0 <= i < d1.len() && d1[i] == tv;
            assert(d2[i] == tv);
        }
        let mut children: Vec<Term> = Vec::new();
        children.push(table_id_term);
        children.push(fact_id_term);
        let name = String::from_str("fact-ref");
        let t = termdag.app(name, children);
        proof {
            let d3 = termdag@;
            let ids = t@->App_1;
            assert(ids.len() == 2);
            assert(d2[ids[0] as int] == tv);
            assert(d2[ids[1] as int] == fv);
            assert(d3[ids[0] as int] == tv);
            assert(d3[ids[1] as int] == fv);
            assert(node_str(d3, ids[0] as int) == int_str(fact_ref.table_id.0 as int));
            assert(node_str(d3, ids[1] as int) == int_str(fact_ref.fact_id.0 as int));
            assert(ids.drop_last().drop_last() =~= Seq::<usize>::empty());
            assert(ids.drop_last().last() == ids[0]);
            let b = d3.len() as int;
            let s0 = ids.drop_last().drop_last();
            let s1 = ids.drop_last();
            assert(args_str(d3, s0, b) == Seq::<char>::empty());
            assert(0 <= ids[0] < b);
            assert(0 <= ids[1] < b);
            assert(args_str(d3, s1, b) == args_str(d3, s0, b) + (seq![' '] + node_str(d3, ids[0] as int)));
            assert(args_str(d3, ids, b) == args_str(d3, s1, b) + (seq![' '] + node_str(d3, ids[1] as int)));
            assert(args_str(d3, ids, b) =~= seq![' '] + int_str(fact_ref.table_id.0 as int) + seq![' '] + int_str(fact_ref.fact_id.0 as int));
            reveal_strlit("fact-ref");
            assert(term_str(d3, t@) =~= fact_ref_term_str(fact_ref.table_id.0 as int, fact_ref.fact_id.0 as int));
        }
        t
    }
}

} // verus!
