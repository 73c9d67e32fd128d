//! Properties of matching, of the reading and writing of text, and of the
//! order of names.
use vstd::prelude::*;
use crate::ids::Value;
use crate::rule::QueryEntry;
use crate::search::{unify, unify1, entry_val, search, row_starts_match, row_passes, row_values};
use crate::backend::{TableView, RowView};
use crate::rule::PlanAtomView;
use crate::text::seq_lt;
use crate::input::{split_acc, text_lines};
use crate::termdag::{Term, TermDag, TermId, TermView, node_str, args_str, term_str, children_below};
use crate::output::{CommandOutput, PrintFunctionMode, output_text, with_newline, rows_lines, rows_view};
use crate::sorts::Function;

verus! {

/// Matching one entry against a value, when it succeeds, makes the entry
/// stand for that value, keeps every binding made before, and binds nothing
/// else.
pub proof fn law_unify1_binds_entry(env: Seq<Option<Value>>, e: QueryEntry, v: Value)
    requires
        unify1(env, e, v) is Some,
    ensures
        ({
            let env2 = unify1(env, e, v)->0;
            &&& env2.len() == env.len()
            &&& entry_val(env2, e) == Some(v)
            &&& forall|i: int| 0 <= i < env.len() && (#[trigger] env[i]) is Some ==> env2[i] == env[i]
        }),
{
}

/// Matching entries against values, when it succeeds, makes every entry
/// stand for the value at its position: a constant equals it, and a
/// variable, whether it was bound before, earlier in the list or not at
/// all, is bound to it. Bindings made before are kept.
pub proof fn law_unify_binds_entries(env: Seq<Option<Value>>, es: Seq<QueryEntry>, vs: Seq<Value>)
    requires
        unify(env, es, vs) is Some,
    ensures
        ({
            let env2 = unify(env, es, vs)->0;
            &&& es.len() == vs.len()
            &&& env2.len() == env.len()
            &&& forall|k: int| 0 <= k < es.len() ==> entry_val(env2, #[trigger] es[k]) == Some(vs[k])
            &&& forall|i: int| 0 <= i < env.len() && (#[trigger] env[i]) is Some ==> env2[i] == env[i]
        }),
    decreases es.len(),
{
    if es.len() > 0 {
        let e1 = unify(env, es.drop_last(), vs.drop_last())->0;
        law_unify_binds_entries(env, es.drop_last(), vs.drop_last());
        law_unify1_binds_entry(e1, es.last(), vs.last());
        let env2 = unify(env, es, vs)->0;
        assert forall|k: int| 0 <= k < es.len() implies entry_val(env2, #[trigger] es[k]) == Some(vs[k]) by {
            if k < es.len() - 1 {
                assert(es.drop_last()[k] == es[k]);
                assert(vs.drop_last()[k] == vs[k]);
                assert(entry_val(e1, es[k]) == Some(vs[k]));
                if let QueryEntry::Var(i) = es[k] {
                    assert(e1[i as int] is Some);
                }
            }
        }
        assert forall|i: int| 0 <= i < env.len() && (#[trigger] env[i]) is Some implies env2[i] == env[i] by {
            assert(e1[i] == env[i]);
        }
    }
}

/// Names are ordered lexicographically: at the first position where two
/// names differ, the one with the smaller character comes first.
pub proof fn law_seq_lt_first_difference(a: Seq<char>, b: Seq<char>, i: int)
    requires
        0 <= i < a.len(),
        i < b.len(),
        a.take(i) == b.take(i),
        a[i] != b[i],
    ensures
        seq_lt(a, b) == (a[i] < b[i]),
    decreases i,
{
    if i > 0 {
        assert(a[0] == a.take(i)[0]);
        assert(b[0] == b.take(i)[0]);
        assert(a.drop_first().take(i - 1) =~= a.take(i).drop_first());
        assert(b.drop_first().take(i - 1) =~= b.take(i).drop_first());
        law_seq_lt_first_difference(a.drop_first(), b.drop_first(), i - 1);
    }
}

/// A name that begins another, longer name comes before it, and never
/// after any name it begins.
pub proof fn law_seq_lt_prefix(a: Seq<char>, b: Seq<char>)
    requires
        a.len() <= b.len(),
        b.take(a.len() as int) == a,
    ensures
        seq_lt(a, b) == (a.len() < b.len()),
        !seq_lt(b, a),
    decreases a.len(),
{
    if a.len() > 0 {
        assert(b[0] == b.take(a.len() as int)[0]);
        assert(b.drop_first().take(a.len() - 1) =~= a.drop_first());
        law_seq_lt_prefix(a.drop_first(), b.drop_first());
    }
}

/// Lines written back, each followed by a newline.
pub open spec fn joined_lines(ls: Seq<Seq<char>>) -> Seq<char> {
    Seq::new(ls.len(), |k: int| ls[k].push('\n')).flatten()
}

proof fn lemma_joined_push(ls: Seq<Seq<char>>, l: Seq<char>)
    ensures
        joined_lines(ls.push(l)) == joined_lines(ls) + l.push('\n'),
{
    let a = Seq::new(ls.len(), |k: int| ls[k].push('\n'));
    let b = Seq::new(ls.push(l).len(), |k: int| ls.push(l)[k].push('\n'));
    assert(b.drop_last() =~= a);
    a.lemma_flatten_and_flatten_alt_are_equivalent();
    b.lemma_flatten_and_flatten_alt_are_equivalent();
}

proof fn lemma_split_acc_rejoin(s: Seq<char>)
    ensures
        ({
            let (ps, cur) = split_acc(s, '\n');
            &&& joined_lines(ps) + cur == s
            &&& forall|k: int, j: int| 0 <= k < ps.len() && 0 <= j < ps[k].len() ==> #[trigger] ps[k][j] != '\n'
            &&& forall|j: int| 0 <= j < cur.len() ==> #[trigger] cur[j] != '\n'
            &&& (s.len() > 0 && s.last() == '\n') ==> cur.len() == 0
        }),
    decreases s.len(),
{
    if s.len() == 0 {
        assert(joined_lines(Seq::<Seq<char>>::empty()) =~= Seq::<char>::empty());
    } else {
        lemma_split_acc_rejoin(s.drop_last());
        let (ps, cur) = split_acc(s.drop_last(), '\n');
        if s.last() == '\n' {
            lemma_joined_push(ps, cur);
            assert(joined_lines(ps) + cur == s.drop_last());
            assert(s =~= s.drop_last().push(s.last()));
            assert(joined_lines(ps) + cur.push('\n') =~= (joined_lines(ps) + cur).push('\n'));
            assert forall|k: int, j: int| 0 <= k < ps.push(cur).len() && 0 <= j < ps.push(cur)[k].len()
                implies #[trigger] ps.push(cur)[k][j] != '\n' by {
                if k < ps.len() {
                    assert(ps.push(cur)[k] == ps[k]);
                }
            }
        } else {
            assert(joined_lines(ps) + cur == s.drop_last());
            assert(joined_lines(ps) + cur.push(s.last()) =~= (joined_lines(ps) + cur).push(s.last()));
            assert(s =~= s.drop_last().push(s.last()));
            assert forall|j: int| 0 <= j < cur.push(s.last()).len() implies #[trigger] cur.push(s.last())[j] != '\n' by {
                if j < cur.len() {
                    assert(cur.push(s.last())[j] == cur[j]);
                }
            }
        }
    }
}

/// Reading a text into lines loses nothing and splits at every newline:
/// no line holds a newline, and the lines, each followed by a newline, give
/// back the text, with a newline added when the text does not end with one.
/// So a last line without a newline is a line too.
pub proof fn law_text_lines_rejoin(s: Seq<char>)
    ensures
        forall|k: int, j: int| 0 <= k < text_lines(s).len() && 0 <= j < text_lines(s)[k].len()
            ==> #[trigger] text_lines(s)[k][j] != '\n',
        (s.len() == 0 || s.last() == '\n') ==> joined_lines(text_lines(s)) == s,
        (s.len() > 0 && s.last() != '\n') ==> joined_lines(text_lines(s)) == s.push('\n'),
{
    lemma_split_acc_rejoin(s);
    let (ps, cur) = split_acc(s, '\n');
    if cur.len() == 0 {
        assert(joined_lines(ps) + cur =~= joined_lines(ps));
        if s.len() > 0 && s.last() != '\n' {
            // A text that does not end with a newline ends with a non-empty piece.
            let (ps0, cur0) = split_acc(s.drop_last(), '\n');
            assert(split_acc(s, '\n') == (ps0, cur0.push(s.last())));
            assert(false);
        }
    } else {
        lemma_joined_push(ps, cur);
        assert(joined_lines(ps) + cur.push('\n') =~= s.push('\n'));
        assert forall|k: int, j: int| 0 <= k < ps.push(cur).len() && 0 <= j < ps.push(cur)[k].len()
            implies #[trigger] ps.push(cur)[k][j] != '\n' by {
            if k < ps.len() {
                assert(ps.push(cur)[k] == ps[k]);
            }
        }
    }
}

/// The children's texts, each after a space.
pub open spec fn spaced_children(nodes: Seq<TermView>, ch: Seq<TermId>) -> Seq<char> {
    Seq::new(ch.len(), |k: int| seq![' '] + node_str(nodes, ch[k] as int)).flatten()
}

proof fn lemma_args_str_spaced(nodes: Seq<TermView>, ch: Seq<TermId>, bound: int)
    requires
        forall|k: int| 0 <= k < ch.len() ==> #[trigger] ch[k] < bound,
    ensures
        args_str(nodes, ch, bound) == spaced_children(nodes, ch),
    decreases ch.len(),
{
    let a = Seq::new(ch.len(), |k: int| seq![' '] + node_str(nodes, ch[k] as int));
    a.lemma_flatten_and_flatten_alt_are_equivalent();
    if ch.len() > 0 {
        lemma_args_str_spaced(nodes, ch.drop_last(), bound);
        let b = Seq::new(ch.drop_last().len(), |k: int| seq![' '] + node_str(nodes, ch.drop_last()[k] as int));
        b.lemma_flatten_and_flatten_alt_are_equivalent();
        assert(a.drop_last() =~= b);
        assert(ch[ch.len() - 1] < bound);
    } else {
        assert(a.flatten_alt() =~= Seq::<char>::empty());
    }
}

/// An application node of a well-formed dag is written as an opening
/// parenthesis, its function's name, each child's text after a space, and
/// a closing parenthesis; so its text begins with `(` and ends with `)`.
pub proof fn law_node_text(dag: TermDag, i: int)
    requires
        dag.wf(),
        0 <= i < dag@.len(),
        dag@[i] is App,
    ensures
        node_str(dag@, i) == seq!['('] + dag@[i]->App_0 + spaced_children(dag@, dag@[i]->App_1) + seq![')'],
        node_str(dag@, i)[0] == '(',
        node_str(dag@, i).last() == ')',
{
    assert(children_below(dag@[i], i));
    lemma_args_str_spaced(dag@, dag@[i]->App_1, i);
}

/// A term whose children are nodes of a well-formed dag is written the
/// same way: an application as `(` name, each child's text after a space,
/// `)`; a literal or a variable as itself.
pub proof fn law_term_text(dag: TermDag, t: TermView)
    requires
        dag.wf(),
        children_below(t, dag@.len() as int),
    ensures
        t is App ==> term_str(dag@, t) == seq!['('] + t->App_0 + spaced_children(dag@, t->App_1) + seq![')'],
        t matches TermView::Var(v) ==> term_str(dag@, t) == v,
{
    if let TermView::App(f, ch) = t {
        lemma_args_str_spaced(dag@, ch, dag@.len() as int);
    }
}

/// The default written form of a printed function: `(`, a line per row of
/// three spaces and the row's term, followed, unless the output sort is
/// `Unit`, by ` -> ` and the output's term, then `)`; each line and the
/// closing parenthesis end with a newline. So the output of every row of a
/// function whose output is not `Unit` is written.
pub proof fn law_print_function_default_text(f: Function, dag: TermDag, rows: Vec<(Term, Term)>)
    ensures
        with_newline(output_text(CommandOutput::PrintFunction(f, dag, rows, PrintFunctionMode::Default)))
            == "(\n"@ + Seq::new(rows@.len(), |k: int|
                "   "@ + term_str(dag@, rows@[k].0@)
                    + (if f@.schema.output.name == "Unit"@ { Seq::<char>::empty() } else { " -> "@ + term_str(dag@, rows@[k].1@) })
                    + seq!['\n']).flatten() + ")\n"@,
{
    let unit = f@.schema.output.name == "Unit"@;
    let rv = rows_view(rows@);
    let lines = Seq::new(rows@.len(), |k: int|
        "   "@ + term_str(dag@, rows@[k].0@)
            + (if unit { Seq::<char>::empty() } else { " -> "@ + term_str(dag@, rows@[k].1@) })
            + seq!['\n']);
    lemma_rows_lines_flat(dag@, rows@, unit);
    lines.lemma_flatten_and_flatten_alt_are_equivalent();
    reveal_strlit(")\n");
    let text = "(\n"@ + lines.flatten() + ")\n"@;
    assert(text.len() > 0 && text.last() == '\n');
}

proof fn lemma_rows_lines_flat(nodes: Seq<TermView>, rows: Seq<(Term, Term)>, unit: bool)
    ensures
        rows_lines(nodes, rows_view(rows), unit) == Seq::new(rows.len(), |k: int|
            "   "@ + term_str(nodes, rows[k].0@)
                + (if unit { Seq::<char>::empty() } else { " -> "@ + term_str(nodes, rows[k].1@) })
                + seq!['\n']).flatten_alt(),
    decreases rows.len(),
{
    let lines = Seq::new(rows.len(), |k: int|
        "   "@ + term_str(nodes, rows[k].0@)
            + (if unit { Seq::<char>::empty() } else { " -> "@ + term_str(nodes, rows[k].1@) })
            + seq!['\n']);
    if rows.len() > 0 {
        lemma_rows_lines_flat(nodes, rows.drop_last(), unit);
        assert(rows_view(rows).drop_last() =~= rows_view(rows.drop_last()));
        assert(rows_view(rows).last() == (rows.last().0@, rows.last().1@));
        let lines0 = Seq::new(rows.drop_last().len(), |k: int|
            "   "@ + term_str(nodes, rows.drop_last()[k].0@)
                + (if unit { Seq::<char>::empty() } else { " -> "@ + term_str(nodes, rows.drop_last()[k].1@) })
                + seq!['\n']);
        assert(lines.drop_last() =~= lines0);
    } else {
        assert(rows_view(rows) =~= Seq::<(TermView, TermView)>::empty());
    }
}

/// A row that starts a match of a table atom passes the atom's filters and
/// agrees with every entry of the atom: there are bindings, extending those
/// made before, under which each entry stands for the row's value at its
/// position. So a variable that occurs twice in an atom only matches rows
/// whose two columns are equal.
pub proof fn law_row_match_agrees(
    tables: Seq<TableView>,
    atoms: Seq<PlanAtomView>,
    k: nat,
    env: Seq<Option<Value>>,
    row: RowView,
)
    requires
        row_starts_match(tables, atoms, k, env, row),
    ensures
        ({
            let args = atoms[k as int]->Table_args;
            &&& row_passes(row, atoms[k as int]->Table_is_subsumed, atoms[k as int]->Table_require_asserted)
            &&& args.len() == row_values(row).len()
            &&& exists|env2: Seq<Option<Value>>| #![trigger search(tables, atoms, k + 1, env2)]
                search(tables, atoms, k + 1, env2)
                && env2.len() == env.len()
                && (forall|j: int| 0 <= j < args.len() ==> entry_val(env2, #[trigger] args[j]) == Some(row_values(row)[j]))
                && (forall|i: int| 0 <= i < env.len() && (#[trigger] env[i]) is Some ==> env2[i] == env[i])
        }),
{
    let args = atoms[k as int]->Table_args;
    law_unify_binds_entries(env, args, row_values(row));
    let env2 = unify(env, args, row_values(row))->0;
    assert(search(tables, atoms, k + 1, env2));
}

} // verus!
