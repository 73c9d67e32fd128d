use vstd::prelude::*;
use crate::egraph::RunReport;
use crate::sorts::Function;
use crate::termdag::{Term, TermDag, TermView, term_str, children_below};
use crate::text::{nat_str, push_char, push_nat, push_str, str_eq, str_lt, seq_lt, lemma_seq_lt_trans, lemma_seq_lt_total, lemma_seq_lt_irrefl};
use crate::names::names_unique;

verus! {

/// How printed function rows are laid out.
#[derive(Clone, Copy, Debug, PartialEq, Eq, Structural)]
pub enum PrintFunctionMode {
    Default,
    CSV,
}

/// The cost of an extracted term.
pub type DefaultCost = u64;

/// Output from a command.
#[derive(Debug)]
pub enum CommandOutput {
    /// The size of a function.
    PrintFunctionSize(usize),
    /// The names of all functions and their sizes.
    PrintAllFunctionsSize(Vec<(String, usize)>),
    /// The best term found by extraction, with its cost.
    ExtractBest(TermDag, DefaultCost, Term),
    /// The variants of a term found by extraction.
    ExtractVariants(TermDag, Vec<Term>),
    /// The report over all runs.
    OverallStatistics(RunReport),
    /// A function and its rows as terms with their outputs.
    PrintFunction(Function, TermDag, Vec<(Term, Term)>, PrintFunctionMode),
    /// The report of one run.
    RunSchedule(RunReport),
    /// The written form of a user-defined command's output.
    UserDefined(String),
}

/// The characters that make the `csv` crate quote a field with its default
/// settings: the delimiter, the quote, and the two line-break characters.
pub open spec fn csv_special(c: char) -> bool {
    c == ',' || c == '"' || c == '\r' || c == '\n'
}

/// A field's text with every quote doubled.
pub open spec fn csv_escaped(f: Seq<char>) -> Seq<char>
    decreases f.len(),
{
    if f.len() == 0 {
        Seq::empty()
    } else {
        csv_escaped(f.drop_last()) + (if f.last() == '"' { seq!['"', '"'] } else { seq![f.last()] })
    }
}

/// A written field: between quotes, its quotes doubled, when it holds a
/// special character; as it is otherwise.
pub open spec fn csv_field(f: Seq<char>) -> Seq<char> {
    if exists|k: int| 0 <= k < f.len() && csv_special(f[k]) {
        seq!['"'] + csv_escaped(f) + seq!['"']
    } else {
        f
    }
}

/// The written fields, separated by commas.
pub open spec fn csv_joined(fields: Seq<Seq<char>>) -> Seq<char>
    decreases fields.len(),
{
    if fields.len() == 0 {
        Seq::empty()
    } else if fields.len() == 1 {
        csv_field(fields[0])
    } else {
        csv_joined(fields.drop_last()) + seq![','] + csv_field(fields.last())
    }
}

/// The text of one CSV record as the `csv` crate writes it with its
/// default settings: the written fields separated by commas, `""` when that
/// would leave the record empty, then a newline.
pub open spec fn csv_record_text(fields: Seq<Seq<char>>) -> Seq<char> {
    (if csv_joined(fields).len() == 0 { seq!['"', '"'] } else { csv_joined(fields) }) + seq!['\n']
}

/// `csv::Writer::write_record` into a fresh writer over a byte vector,
/// then `into_inner`, read back as a string. Writing into a vector cannot
/// fail, a fresh writer has no earlier record whose length could differ,
/// and the bytes are those of the fields and ASCII punctuation, so the text
/// is always there; it is the record as `csv_record_text` states it.
#[verifier::external_body]
fn csv_record(fields: &Vec<String>) -> (r: Option<String>)
    ensures
        r is Some,
        r matches Some(s) ==> s@ == csv_record_text(fields@.map_values(|f: String| f@)),
{
    let mut w = csv::Writer::from_writer(Vec::new());
    w.write_record(fields).ok()?;
    String::from_utf8(w.into_inner().ok()?).ok()
}

/// A text ending with a newline: the text itself when it ends with one,
/// the text and a newline otherwise.
pub open spec fn with_newline(s: Seq<char>) -> Seq<char> {
    if s.len() > 0 && s.last() == '\n' { s } else { s.push('\n') }
}

/// Each name with its size, as `name: size` lines.
pub open spec fn sizes_text(es: Seq<(Seq<char>, usize)>) -> Seq<char>
    decreases es.len(),
{
    if es.len() == 0 {
        Seq::empty()
    } else {
        sizes_text(es.drop_last()) + es.last().0 + ": "@ + nat_str(es.last().1 as nat) + seq!['\n']
    }
}

/// Each term on a line of its own, indented by three spaces.
pub open spec fn variants_lines(nodes: Seq<TermView>, ts: Seq<TermView>) -> Seq<char>
    decreases ts.len(),
{
    if ts.len() == 0 {
        Seq::empty()
    } else {
        variants_lines(nodes, ts.drop_last()) + "   "@ + term_str(nodes, ts.last()) + seq!['\n']
    }
}

/// Each row on a line of its own, indented by three spaces: the term, then,
/// unless the output is the unit, ` -> ` and the output.
pub open spec fn rows_lines(nodes: Seq<TermView>, rows: Seq<(TermView, TermView)>, out_is_unit: bool) -> Seq<char>
    decreases rows.len(),
{
    if rows.len() == 0 {
        Seq::empty()
    } else {
        rows_lines(nodes, rows.drop_last(), out_is_unit) + "   "@ + term_str(nodes, rows.last().0)
            + (if out_is_unit { Seq::empty() } else { " -> "@ + term_str(nodes, rows.last().1) })
            + seq!['\n']
    }
}

/// The CSV fields of a row: the function's name, each argument, and,
/// unless the output is the unit, the output.
pub open spec fn csv_fields(nodes: Seq<TermView>, row: (TermView, TermView), out_is_unit: bool) -> Seq<Seq<char>> {
    let args = row.0->App_1.map_values(|c: usize| term_str(nodes, nodes[c as int]));
    let fs = seq![row.0->App_0] + args;
    if out_is_unit { fs } else { fs.push(term_str(nodes, row.1)) }
}

pub open spec fn csv_rows_text(nodes: Seq<TermView>, rows: Seq<(TermView, TermView)>, out_is_unit: bool) -> Seq<char>
    decreases rows.len(),
{
    if rows.len() == 0 {
        Seq::empty()
    } else {
        csv_rows_text(nodes, rows.drop_last(), out_is_unit) + csv_record_text(csv_fields(nodes, rows.last(), out_is_unit))
    }
}

pub open spec fn rows_view(rows: Seq<(Term, Term)>) -> Seq<(TermView, TermView)> {
    rows.map_values(|r: (Term, Term)| (r.0@, r.1@))
}

pub open spec fn terms_view(ts: Seq<Term>) -> Seq<TermView> {
    ts.map_values(|t: Term| t@)
}

/// The written form of a command output, each part ending with a newline:
/// a size; the `name: size` lines; the best term; the variants between
/// parentheses; the overall statistics heading; the rows of a printed
/// function, as CSV records or between parentheses; nothing for a run; the
/// text of a user-defined output.
pub open spec fn output_text(o: CommandOutput) -> Seq<char> {
    match o {
        CommandOutput::PrintFunctionSize(n) => nat_str(n as nat) + seq!['\n'],
        CommandOutput::PrintAllFunctionsSize(es) => sizes_text(es@.map_values(|e: (String, usize)| (e.0@, e.1))),
        CommandOutput::ExtractBest(dag, _, t) => term_str(dag@, t@) + seq!['\n'],
        CommandOutput::ExtractVariants(dag, ts) => "(\n"@ + variants_lines(dag@, terms_view(ts@)) + ")\n"@,
        CommandOutput::OverallStatistics(_) => "Overall statistics:\n"@,
        CommandOutput::PrintFunction(f, dag, rows, mode) => {
            let unit = f@.schema.output.name == "Unit"@;
            if mode == PrintFunctionMode::CSV {
                csv_rows_text(dag@, rows_view(rows@), unit)
            } else {
                "(\n"@ + rows_lines(dag@, rows_view(rows@), unit) + ")\n"@
            }
        },
        CommandOutput::RunSchedule(_) => Seq::empty(),
        CommandOutput::UserDefined(s) => s@,
    }
}

/// The terms of an output can be written: their dag is well formed and their
/// children are nodes of it; a printed function's rows are applications of
/// one arity.
pub open spec fn output_writable(o: CommandOutput) -> bool {
    match o {
        CommandOutput::ExtractBest(dag, _, t) => dag.wf() && children_below(t@, dag@.len() as int),
        CommandOutput::ExtractVariants(dag, ts) => dag.wf()
            && forall|i: int| 0 <= i < ts@.len() ==> children_below(#[trigger] ts@[i]@, dag@.len() as int),
        CommandOutput::PrintFunction(f, dag, rows, mode) => dag.wf()
            && forall|i: int| 0 <= i < rows@.len() ==> {
                &&& children_below((#[trigger] rows@[i]).0@, dag@.len() as int)
                &&& children_below(rows@[i].1@, dag@.len() as int)
                &&& (mode == PrintFunctionMode::CSV ==> rows@[i].0@ is App
                    && rows@[i].0@->App_1.len() == rows@[0].0@->App_1.len())
            },
        _ => true,
    }
}

/// A node of a well-formed dag has its children below the dag's size.
pub proof fn lemma_node_children_below(dag: &TermDag, c: int)
    requires
        dag.wf(),
        0 <= c < dag@.len(),
    ensures
        children_below(dag@[c], dag@.len() as int),
{
    assert(children_below(dag@[c], c));
    if let TermView::App(_, ch) = dag@[c] {
        assert forall|k: int| 0 <= k < ch.len() implies #[trigger] ch[k] < dag@.len() by {
            assert(ch[k] < c);
        }
    }
}

impl CommandOutput {
    /// The written form of the output, which always ends with a newline:
    /// a form that does not end with one (no run output, an empty list of
    /// sizes or rows, a user-defined text without one) gets one.
    pub fn to_text(&self) -> (r: Option<String>)
        requires
            output_writable(*self),
        ensures
            r matches Some(s) && s@ == with_newline(output_text(*self)),
            r matches Some(s) && s@.len() > 0 && s@.last() == '\n',
    {
        let mut out = String::new();
        match self {
            CommandOutput::PrintFunctionSize(n) => {
                push_nat(&mut out, *n as u64);
                push_char(&mut out, '\n');
            },
            CommandOutput::PrintAllFunctionsSize(es) => {
                let ghost ev = es@.map_values(|e: (String, usize)| (e.0@, e.1));
                let mut i: usize = 0;
                proof { assert(ev.take(0) =~= Seq::<(Seq<char>, usize)>::empty()); }
                while i < es.len()
                    invariant
                        0 <= i <= es@.len(),
                        ev == es@.map_values(|e: (String, usize)| (e.0@, e.1)),
                        out@ == sizes_text(ev.take(i as int)),
                    decreases es@.len() - i,
                {
                    proof {
                        assert(ev.take(i + 1).drop_last() =~= ev.take(i as int));
                        assert(ev.take(i + 1).last() == ev[i as int]);
                        assert(ev[i as int] == (es@[i as int].0@, es@[i as int].1));
                    }
                    push_str(&mut out, es[i].0.as_str());
                    push_str(&mut out, ": ");
                    push_nat(&mut out, es[i].1 as u64);
                    push_char(&mut out, '\n');
                    proof { reveal_strlit(": "); }
                    assert(out@ =~= sizes_text(ev.take(i + 1)));
                    i = i + 1;
                }
                assert(ev.take(i as int) =~= ev);
            },
            CommandOutput::ExtractBest(dag, _, t) => {
                let text = dag.to_string(t);
                push_str(&mut out, text.as_str());
                push_char(&mut out, '\n');
            },
            CommandOutput::ExtractVariants(dag, ts) => {
                let ghost tv = terms_view(ts@);
                push_str(&mut out, "(\n");
                let ghost head = out@;
                let mut i: usize = 0;
                proof { assert(tv.take(0) =~= Seq::<TermView>::empty()); }
                while i < ts.len()
                    invariant
                        0 <= i <= ts@.len(),
                        tv == terms_view(ts@),
                        dag.wf(),
                        forall|q: int| 0 <= q < ts@.len() ==> children_below(#[trigger] ts@[q]@, dag@.len() as int),
                        out@ == head + variants_lines(dag@, tv.take(i as int)),
                    decreases ts@.len() - i,
                {
                    proof {
                        assert(tv.take(i + 1).drop_last() =~= tv.take(i as int));
                        assert(tv.take(i + 1).last() == ts@[i as int]@);
                    }
                    push_str(&mut out, "   ");
                    let text = dag.to_string(&ts[i]);
                    push_str(&mut out, text.as_str());
                    push_char(&mut out, '\n');
                    assert(out@ =~= head + variants_lines(dag@, tv.take(i + 1)));
                    i = i + 1;
                }
                push_str(&mut out, ")\n");
                assert(tv.take(i as int) =~= tv);
                assert(out@ =~= output_text(*self));
            },
            CommandOutput::OverallStatistics(_) => {
                push_str(&mut out, "Overall statistics:\n");
            },
            CommandOutput::PrintFunction(f, dag, rows, mode) => {
                let unit = str_eq(f.schema().output.name(), "Unit");
                let ghost rv = rows_view(rows@);
                if *mode == PrintFunctionMode::CSV {
                    let mut i: usize = 0;
                    proof { assert(rv.take(0) =~= Seq::<(TermView, TermView)>::empty()); }
                    while i < rows.len()
                        invariant
                            0 <= i <= rows@.len(),
                            rv == rows_view(rows@),
                            dag.wf(),
                            unit == (f@.schema.output.name == "Unit"@),
                            forall|q: int| 0 <= q < rows@.len() ==> {
                                &&& children_below((#[trigger] rows@[q]).0@, dag@.len() as int)
                                &&& children_below(rows@[q].1@, dag@.len() as int)
                                &&& rows@[q].0@ is App
                            },
                            out@ == csv_rows_text(dag@, rv.take(i as int), unit),
                            self matches CommandOutput::PrintFunction(_, _, _, m) && m == PrintFunctionMode::CSV,
                        decreases rows@.len() - i,
                    {
                        proof {
                            assert(rv.take(i + 1).drop_last() =~= rv.take(i as int));
                            assert(rv.take(i + 1).last() == rv[i as int]);
                            assert(rv[i as int] == (rows@[i as int].0@, rows@[i as int].1@));
                        }
                        match &rows[i].0 {
                            Term::App(name, children) => {
                                let ghost args = children@.map_values(|c: usize| term_str(dag@, dag@[c as int]));
                                proof {
                                    assert(rows@[i as int].0@ == TermView::App(name@, children@));
                                    assert(children_below(rows@[i as int].0@, dag@.len() as int));
                                    assert forall|q: int| 0 <= q < children@.len() implies #[trigger] children@[q] < dag@.len() by {
                                        assert(rows@[i as int].0@->App_1[q] == children@[q]);
                                    }
                                }
                                let mut fields: Vec<String> = Vec::new();
                                fields.push(name.clone());
                                let mut k: usize = 0;
                                while k < children.len()
                                    invariant
                                        0 <= k <= children@.len(),
                                        dag.wf(),
                                        args == children@.map_values(|c: usize| term_str(dag@, dag@[c as int])),
                                        forall|q: int| 0 <= q < children@.len() ==> #[trigger] children@[q] < dag@.len(),
                                        fields@.map_values(|x: String| x@) == seq![name@] + args.take(k as int),
                                    decreases children@.len() - k,
                                {
                                    let c = children[k];
                                    assert(c < dag@.len());
                                    proof { lemma_node_children_below(dag, c as int); }
                                    let text = dag.to_string(dag.get(c));
                                    let ghost f0 = fields@;
                                    fields.push(text);
                                    assert(args[k as int] == term_str(dag@, dag@[c as int]));
                                    assert(fields@.map_values(|x: String| x@) =~= f0.map_values(|x: String| x@).push(args[k as int]));
                                    assert(fields@.map_values(|x: String| x@) =~= seq![name@] + args.take(k + 1));
                                    k = k + 1;
                                }
                                assert(args.take(k as int) =~= args);
                                if !unit {
                                    let text = dag.to_string(&rows[i].1);
                                    fields.push(text);
                                }
                                assert(fields@.map_values(|x: String| x@) =~= csv_fields(dag@, rv[i as int], unit));
                                match csv_record(&fields) {
                                    Some(rec) => {
                                        push_str(&mut out, rec.as_str());
                                    },
                                    None => {},
                                }
                            },
                            _ => {
                                assert(false);
                            },
                        }
                        i = i + 1;
                    }
                    assert(rv.take(i as int) =~= rv);
                } else {
                    push_str(&mut out, "(\n");
                    let ghost head = out@;
                    let mut i: usize = 0;
                    proof { assert(rv.take(0) =~= Seq::<(TermView, TermView)>::empty()); }
                    while i < rows.len()
                        invariant
                            0 <= i <= rows@.len(),
                            rv == rows_view(rows@),
                            dag.wf(),
                            forall|q: int| 0 <= q < rows@.len() ==> {
                                &&& children_below((#[trigger] rows@[q]).0@, dag@.len() as int)
                                &&& children_below(rows@[q].1@, dag@.len() as int)
                            },
                            out@ == head + rows_lines(dag@, rv.take(i as int), unit),
                        decreases rows@.len() - i,
                    {
                        proof {
                            assert(rv.take(i + 1).drop_last() =~= rv.take(i as int));
                            assert(rv.take(i + 1).last() == rv[i as int]);
                            assert(rv[i as int] == (rows@[i as int].0@, rows@[i as int].1@));
                        }
                        push_str(&mut out, "   ");
                        let text = dag.to_string(&rows[i].0);
                        push_str(&mut out, text.as_str());
                        if !unit {
                            push_str(&mut out, " -> ");
                            let o = dag.to_string(&rows[i].1);
                            push_str(&mut out, o.as_str());
                        }
                        push_char(&mut out, '\n');
                        assert(out@ =~= head + rows_lines(dag@, rv.take(i + 1), unit));
                        i = i + 1;
                    }
                    push_str(&mut out, ")\n");
                    assert(rv.take(i as int) =~= rv);
                    assert(out@ =~= output_text(*self));
                }
            },
            CommandOutput::RunSchedule(_) => {},
            CommandOutput::UserDefined(s) => {
                push_str(&mut out, s.as_str());
            },
        }
        assert(out@ == output_text(*self));
        let n = out.unicode_len();
        if n == 0 || out.get_char(n - 1) != '\n' {
            push_char(&mut out, '\n');
        }
        Some(out)
    }
}

/// Names ascend strictly.
pub open spec fn sorted_by_name(es: Seq<(Seq<char>, usize)>) -> bool {
    forall|i: int, j: int| 0 <= i < j < es.len() ==> seq_lt(es[i].0, es[j].0)
}

/// The two lists hold the same entries.
pub open spec fn same_entries(a: Seq<(Seq<char>, usize)>, b: Seq<(Seq<char>, usize)>) -> bool {
    &&& forall|i: int| 0 <= i < a.len() ==> b.contains(#[trigger] a[i])
    &&& forall|j: int| 0 <= j < b.len() ==> a.contains(#[trigger] b[j])
}

pub open spec fn entries_view(es: Seq<(String, usize)>) -> Seq<(Seq<char>, usize)> {
    es.map_values(|e: (String, usize)| (e.0@, e.1))
}

/// Inserts an entry into a list sorted by name, before the first entry
/// whose name comes after it; no entry has its name.
fn insert_sorted(r: &mut Vec<(String, usize)>, x: (String, usize)) -> (p: usize)
    requires
        sorted_by_name(entries_view(old(r)@)),
        forall|q: int| 0 <= q < old(r)@.len() ==> (#[trigger] old(r)@[q]).0@ != x.0@,
    ensures
        p <= old(r)@.len(),
        entries_view(final(r)@) == entries_view(old(r)@).insert(p as int, (x.0@, x.1)),
        sorted_by_name(entries_view(final(r)@)),
{
    let ghost rv = entries_view(r@);
    let ghost xv = (x.0@, x.1);
    let mut p: usize = 0;
    while p < r.len() && !str_lt(x.0.as_str(), r[p].0.as_str())
        invariant
            0 <= p <= r@.len(),
            rv == entries_view(r@),
            rv.len() == r@.len(),
            sorted_by_name(rv),
            xv == (x.0@, x.1),
            forall|q: int| 0 <= q < r@.len() ==> (#[trigger] r@[q]).0@ != x.0@,
            forall|q: int| 0 <= q < p ==> seq_lt(#[trigger] rv[q].0, xv.0),
        decreases r@.len() - p,
    {
        proof {
            assert(rv[p as int] == (r@[p as int].0@, r@[p as int].1));
            assert(r@[p as int].0@ != x.0@);
            lemma_seq_lt_total(xv.0, rv[p as int].0);
        }
        p = p + 1;
    }
    proof {
        if p < r@.len() {
            assert(rv[p as int] == (r@[p as int].0@, r@[p as int].1));
            assert(seq_lt(xv.0, rv[p as int].0));
        }
    }
    r.insert(p, x);
    proof {
        let nv = entries_view(r@);
        assert(nv =~= rv.insert(p as int, xv));
        assert forall|a: int, b: int| 0 <= a < b < nv.len() implies seq_lt(nv[a].0, nv[b].0) by {
            if b < p {
                assert(nv[a] == rv[a] && nv[b] == rv[b]);
            } else if b == p {
                assert(nv[a] == rv[a]);
            } else if a == p {
                assert(nv[b] == rv[b - 1]);
                if b - 1 > p {
                    lemma_seq_lt_trans(xv.0, rv[p as int].0, rv[b - 1].0);
                }
            } else if a < p {
                assert(nv[a] == rv[a] && nv[b] == rv[b - 1]);
            } else {
                assert(nv[a] == rv[a - 1] && nv[b] == rv[b - 1]);
            }
        }
    }
    p
}

/// Inserting an entry into a list with the entries of a prefix gives a list
/// with the entries of the prefix one longer.
proof fn lemma_same_entries_insert(rv: Seq<(Seq<char>, usize)>, ev: Seq<(Seq<char>, usize)>, i: int, p: int)
    requires
        0 <= i < ev.len(),
        0 <= p <= rv.len(),
        same_entries(rv, ev.take(i)),
    ensures
        same_entries(rv.insert(p, ev[i]), ev.take(i + 1)),
{
    let nv = rv.insert(p, ev[i]);
    let e0 = ev.take(i);
    let e1 = ev.take(i + 1);
    assert forall|a: int| 0 <= a < nv.len() implies e1.contains(#[trigger] nv[a]) by {
        if a < p {
            assert(nv[a] == rv[a]);
            assert(e0.contains(rv[a]));
            let j = choose|j: int| 0 <= j < e0.len() && e0[j] == rv[a];
            assert(e1[j] == e0[j]);
        } else if a == p {
            assert(nv[a] == e1[i]);
        } else {
            assert(nv[a] == rv[a - 1]);
            assert(e0.contains(rv[a - 1]));
            let j = choose|j: int| 0 <= j < e0.len() && e0[j] == rv[a - 1];
            assert(e1[j] == e0[j]);
        }
    }
    assert forall|j: int| 0 <= j < e1.len() implies nv.contains(#[trigger] e1[j]) by {
        if j < i {
            assert(e1[j] == e0[j]);
            assert(rv.contains(e0[j]));
            let a = choose|a: int| 0 <= a < rv.len() && rv[a] == e0[j];
            if a < p {
                assert(nv[a] == rv[a]);
            } else {
                assert(nv[a + 1] == rv[a]);
            }
        } else {
            assert(nv[p] == e1[j]);
        }
    }
}

/// Sorts entries with distinct names by name.
pub fn sort_by_name(es: &Vec<(String, usize)>) -> (r: Vec<(String, usize)>)
    requires
        names_unique(entries_view(es@)),
    ensures
        entries_view(r@).len() == es@.len(),
        sorted_by_name(entries_view(r@)),
        same_entries(entries_view(r@), entries_view(es@)),
{
    let ghost ev = entries_view(es@);
    let mut r: Vec<(String, usize)> = Vec::new();
    let mut i: usize = 0;
    proof {
        assert(entries_view(r@) =~= Seq::<(Seq<char>, usize)>::empty());
    }
    while i < es.len()
        invariant
            0 <= i <= es@.len(),
            ev == entries_view(es@),
            names_unique(ev),
            entries_view(r@).len() == i,
            sorted_by_name(entries_view(r@)),
            same_entries(entries_view(r@), ev.take(i as int)),
        decreases es@.len() - i,
    {
        let ghost rv = entries_view(r@);
        let x = (es[i].0.clone(), es[i].1);
        proof {
            assert((x.0@, x.1) == ev[i as int]);
            assert forall|q: int| 0 <= q < r@.len() implies (#[trigger] r@[q]).0@ != x.0@ by {
                assert(rv[q] == (r@[q].0@, r@[q].1));
                assert(ev.take(i as int).contains(rv[q]));
                let j = choose|j: int| 0 <= j < ev.take(i as int).len() && ev.take(i as int)[j] == rv[q];
                assert(ev.take(i as int)[j] == ev[j]);
                assert(ev[j].0 != ev[i as int].0);
            }
        }
        let p = insert_sorted(&mut r, x);
        proof {
            lemma_same_entries_insert(rv, ev, i as int, p as int);
        }
        i = i + 1;
    }
    proof {
        assert(ev.take(i as int) =~= ev);
    }
    r
}

} // verus!
