use vstd::prelude::*;
use crate::egraph::{EGraph, StateView, state_wf, only_base_values_changed};
use crate::backend::{find_row, with_rows, insert_rows, TableView};
use crate::error::Error;
use crate::ids::{TableId, Value};
use crate::input::{lemma_lines_count, 
    split, text_lines, line_fields, parse_i64, to_chars, lines_exec, split_exec, trim_exec, parse_i64_exec, trim,
};
use crate::names::entry_value;
use crate::sorts::{FunctionSubtype, FunctionView};
use crate::termdag::LiteralView;
use crate::text::{push_char, str_eq};
use crate::translate::{literal_rep, lit_known, lemma_literal_rep, lemma_literal_rep_grows};
use crate::merge::{literal_value, lemma_grows_refl, lemma_grows_trans};
use crate::values::BaseValues;
use crate::backend::Backend;
use crate::backend_rule::{has_room, interned_at_most};

verus! {

/// The value a field of an input file has for a column of the given sort:
/// an integer for `i64`, the text itself for `String`, the unit value for
/// `Unit`.
pub open spec fn parse_field(sort: Seq<char>, f: Seq<char>) -> Option<LiteralView> {
    if sort == "i64"@ {
        match parse_i64(f) {
            Some(i) => Some(LiteralView::Int(i as int)),
            None => None,
        }
    } else if sort == "String"@ {
        Some(LiteralView::String(f))
    } else if sort == "Unit"@ {
        Some(LiteralView::Unit)
    } else {
        None
    }
}

/// The values of a line, one per column: the line has exactly one field per
/// column and each field reads as its column's sort.
pub open spec fn parse_line(sorts: Seq<Seq<char>>, line: Seq<char>) -> Option<Seq<LiteralView>> {
    let fields = line_fields(line);
    if fields.len() == sorts.len() && forall|k: int| 0 <= k < sorts.len() ==> #[trigger] parse_field(sorts[k], fields[k]) is Some {
        Some(Seq::new(sorts.len(), |k: int| parse_field(sorts[k], fields[k])->0))
    } else {
        None
    }
}

/// The rows of all lines, when every line reads; with no columns there are
/// no rows.
pub open spec fn parse_rows(sorts: Seq<Seq<char>>, lines: Seq<Seq<char>>) -> Option<Seq<Seq<LiteralView>>>
    decreases lines.len(),
{
    if lines.len() == 0 || sorts.len() == 0 {
        Some(Seq::empty())
    } else {
        match parse_rows(sorts, lines.drop_last()) {
            Some(rows) => match parse_line(sorts, lines.last()) {
                Some(row) => Some(rows.push(row)),
                None => None,
            },
            None => None,
        }
    }
}

/// The sorts of the columns an input file gives for a function: its inputs,
/// and its output too for a custom function.
pub open spec fn row_sorts(f: FunctionView) -> Seq<Seq<char>> {
    let ins = f.schema.input.map_values(|s: crate::sorts::SortView| s.name);
    if f.decl.subtype == FunctionSubtype::Custom { ins.push(f.schema.output.name) } else { ins }
}

/// The function's inputs are integers or strings, and, unless it is a
/// constructor, its output is an integer, a string or the unit.
pub open spec fn input_sorts_ok(f: FunctionView) -> bool {
    &&& forall|k: int| 0 <= k < f.schema.input.len() ==> (#[trigger] f.schema.input[k]).name == "i64"@ || f.schema.input[k].name == "String"@
    &&& f.decl.subtype != FunctionSubtype::Constructor ==> (f.schema.output.name == "i64"@
        || f.schema.output.name == "String"@ || f.schema.output.name == "Unit"@)
}

/// The tables after a row is inserted: a row holding the keys gets the
/// output and is marked asserted; otherwise a new asserted row is added.
pub open spec fn insert_row(tables: Seq<TableView>, t: int, keys: Seq<Value>, out: Value) -> Seq<TableView> {
    with_rows(tables, t, insert_rows(tables[t].rows, keys, out))
}

/// Loads one row of values into a function's table: a constructor looks
/// its keys up and gives them a fresh id when absent; a custom function
/// inserts its keys with the last value as output; a relation inserts its
/// keys with the unit output.
pub open spec fn load_row(tables: Seq<TableView>, next_id: u32, t: int, sub: FunctionSubtype, row: Seq<Value>) -> (Seq<TableView>, u32) {
    match sub {
        FunctionSubtype::Constructor => match find_row(tables[t].rows, row) {
            Some(_) => (tables, next_id),
            None => (insert_row(tables, t, row, Value { rep: next_id }), (next_id + 1) as u32),
        },
        FunctionSubtype::Custom => (insert_row(tables, t, row.drop_last(), row.last()), next_id),
        FunctionSubtype::Relation => (insert_row(tables, t, row, Value { rep: 0 }), next_id),
    }
}

pub open spec fn load_rows(tables: Seq<TableView>, next_id: u32, t: int, sub: FunctionSubtype, rows: Seq<Seq<Value>>) -> (Seq<TableView>, u32)
    decreases rows.len(),
{
    if rows.len() == 0 {
        (tables, next_id)
    } else {
        let (t1, n1) = load_rows(tables, next_id, t, sub, rows.drop_last());
        load_row(t1, n1, t, sub, rows.last())
    }
}

/// The values of the literals of rows.
pub open spec fn row_values_of(bv: BaseValues, rows: Seq<Seq<LiteralView>>) -> Seq<Seq<Value>> {
    rows.map_values(|r: Seq<LiteralView>| r.map_values(|l: LiteralView| literal_rep(bv, l)))
}

/// The string of some characters.
fn chars_to_string(v: &[char]) -> (s: String)
    ensures
        s@ == v@,
{
    let mut s = String::new();
    let mut i: usize = 0;
    while i < v.len()
        invariant
            0 <= i <= v@.len(),
            s@ == v@.take(i as int),
        decreases v@.len() - i,
    {
        push_char(&mut s, v[i]);
        i = i + 1;
        assert(s@ =~= v@.take(i as int));
    }
    assert(v@.take(i as int) =~= v@);
    s
}

/// The column sorts are ones an input file can hold.
pub open spec fn sorts_readable(sorts: Seq<Seq<char>>) -> bool {
    forall|k: int| 0 <= k < sorts.len() ==> (#[trigger] sorts[k] == "i64"@ || sorts[k] == "String"@ || sorts[k] == "Unit"@)
}

/// Reads one line into values, interning integers and strings.
fn parse_line_into(backend: &mut Backend, sorts: &Vec<String>, line: &[char]) -> (r: Option<Vec<Value>>)
    requires
        old(backend).wf(),
        sorts_readable(sorts@.map_values(|s: String| s@)),
        has_room(*old(backend), sorts@.len()),
    ensures
        interned_at_most(*old(backend), *final(backend), sorts@.len()),
        match parse_line(sorts@.map_values(|s: String| s@), line@) {
            Some(lits) => r matches Some(vals) && vals@ == lits.map_values(|l: LiteralView| literal_rep(final(backend).bv(), l))
                && forall|q: int| 0 <= q < lits.len() ==> lit_known(final(backend).bv(), #[trigger] lits[q]),
            None => r is None,
        },
{
    let ghost sv = sorts@.map_values(|s: String| s@);
    let ghost fields = line_fields(line@);
    let raw = split_exec(line, '\t');
    let m = sorts.len();
    proof {
        lemma_grows_refl(backend.bv());
        assert(raw@.len() == split(line@, '\t').len());
    }
    if raw.len() != m {
        return None;
    }
    let mut vals: Vec<Value> = Vec::new();
    let mut k: usize = 0;
    while k < m
        invariant
            0 <= k <= m,
            m == sorts@.len(),
            sv == sorts@.map_values(|s: String| s@),
            sorts_readable(sv),
            raw@.len() == m,
            raw@.map_values(|p: Vec<char>| p@) == split(line@, '\t'),
            fields == line_fields(line@),
            fields.len() == m,
            has_room(*old(backend), m as nat),
            backend.wf(),
            interned_at_most(*old(backend), *backend, k as nat),
            vals@.len() == k,
            forall|q: int| 0 <= q < k ==> (#[trigger] parse_field(sv[q], fields[q])) is Some
                && vals@[q] == literal_rep(backend.bv(), parse_field(sv[q], fields[q])->0)
                && lit_known(backend.bv(), parse_field(sv[q], fields[q])->0),
        decreases m - k,
    {
        let f = trim_exec(raw[k].as_slice());
        proof {
            assert(raw@.map_values(|p: Vec<char>| p@)[k as int] == raw@[k as int]@);
            assert(f@ == fields[k as int]);
            assert(sv[k as int] == sorts@[k as int]@);
            reveal_strlit("i64");
            reveal_strlit("String");
            reveal_strlit("Unit");
        }
        let ghost before = *backend;
        let v = if str_eq(sorts[k].as_str(), "i64") {
            match parse_i64_exec(f.as_slice()) {
                Some(i) => backend.intern_int(i),
                None => {
                    assert(parse_field(sv[k as int], fields[k as int]) is None);
                    return None;
                },
            }
        } else if str_eq(sorts[k].as_str(), "String") {
            let text = chars_to_string(f.as_slice());
            backend.intern_string(text.as_str())
        } else {
            proof { lemma_grows_refl(backend.bv()); }
            Value::new_const(0)
        };
        proof {
            before.lemma_bv_wf();
            backend.lemma_bv_wf();
            let l = parse_field(sv[k as int], fields[k as int])->0;
            assert(parse_field(sv[k as int], fields[k as int]) is Some);
            assert(literal_value(backend.bv(), l, v));
            lemma_literal_rep(backend.bv(), l, v);
            lemma_grows_trans(old(backend).bv(), before.bv(), backend.bv());
            assert forall|q: int| 0 <= q < k + 1 implies (#[trigger] parse_field(sv[q], fields[q])) is Some
                && vals@.push(v)[q] == literal_rep(backend.bv(), parse_field(sv[q], fields[q])->0)
                && lit_known(backend.bv(), parse_field(sv[q], fields[q])->0) by {
                if q < k {
                    lemma_literal_rep_grows(before.bv(), backend.bv(), parse_field(sv[q], fields[q])->0);
                }
            }
        }
        vals.push(v);
        k = k + 1;
    }
    proof {
        let lits = parse_line(sv, line@)->0;
        assert(parse_line(sv, line@) is Some);
        assert(vals@ =~= lits.map_values(|l: LiteralView| literal_rep(backend.bv(), l)));
    }
    Some(vals)
}

/// Some rows of values have one value per column.
pub open spec fn rows_fit(rows: Seq<Seq<Value>>, m: nat) -> bool {
    forall|j: int| 0 <= j < rows.len() ==> (#[trigger] rows[j]).len() == m
}

proof fn lemma_parse_rows_fit(sorts: Seq<Seq<char>>, lines: Seq<Seq<char>>)
    requires
        parse_rows(sorts, lines) is Some,
    ensures
        forall|j: int| 0 <= j < parse_rows(sorts, lines)->0.len() ==> (#[trigger] parse_rows(sorts, lines)->0[j]).len() == sorts.len(),
        parse_rows(sorts, lines)->0.len() <= lines.len(),
    decreases lines.len(),
{
    if lines.len() > 0 && sorts.len() > 0 {
        lemma_parse_rows_fit(sorts, lines.drop_last());
    }
}

impl EGraph {
    /// The column sorts of a function's input file.
    fn row_sort_names(&self, fi: usize) -> (r: Vec<String>)
        requires
            self.wf(),
            fi < self@.functions.len(),
        ensures
            r@.map_values(|s: String| s@) == row_sorts(self@.functions[fi as int]),
    {
        let func = &self.state.function_list[fi];
        let schema = func.schema();
        let mut r: Vec<String> = Vec::new();
        let mut i: usize = 0;
        let ghost ins = self@.functions[fi as int].schema.input.map_values(|s: crate::sorts::SortView| s.name);
        assert(func@ == self@.functions[fi as int]);
        while i < schema.input.len()
            invariant
                0 <= i <= schema.input@.len(),
                fi < self@.functions.len(),
                schema@ == self@.functions[fi as int].schema,
                ins == schema@.input.map_values(|s: crate::sorts::SortView| s.name),
                r@.map_values(|s: String| s@) == ins.take(i as int),
            decreases schema.input@.len() - i,
        {
            assert(ins[i as int] == schema.input@[i as int]@.name);
            let ghost r0 = r@;
            r.push(String::from_str(schema.input[i].name()));
            assert(r@.map_values(|s: String| s@) =~= r0.map_values(|s: String| s@).push(ins[i as int]));
            i = i + 1;
            assert(r@.map_values(|s: String| s@) =~= ins.take(i as int));
        }
        assert(ins.take(i as int) =~= ins);
        match func.subtype() {
            FunctionSubtype::Custom => {
                r.push(String::from_str(schema.output.name()));
                assert(r@.map_values(|s: String| s@) =~= ins.push(self@.functions[fi as int].schema.output.name));
            },
            _ => {},
        }
        r
    }
}

/// The function exists, its columns can be read from a file, and the
/// contents leave room for the values, rows and ids they may add.
pub open spec fn input_ok(v: StateView, name: Seq<char>, contents: Seq<char>) -> bool {
    match entry_value(v.function_names, name) {
        None => false,
        Some(i) => {
            let f = v.functions[i as int];
            &&& input_sorts_ok(f)
            &&& v.ints.len() + (contents.len() + 1) * row_sorts(f).len() < u32::MAX
            &&& v.strings.len() + (contents.len() + 1) * row_sorts(f).len() < u32::MAX
            &&& v.tables[i as int].rows.len() + contents.len() + 1 < u32::MAX
            &&& v.next_id + contents.len() + 1 < u32::MAX
        },
    }
}

/// What loading an input file into a function does: when every line
/// reads, the rows are loaded in order; otherwise it fails and the tables
/// stay as they were.
pub open spec fn input_post(
    before: StateView,
    t: int,
    f: FunctionView,
    file: Seq<char>,
    contents: Seq<char>,
    after: StateView,
    bv: BaseValues,
    r: Result<(), Error>,
) -> bool {
    match parse_rows(row_sorts(f), text_lines(contents)) {
        None => (r matches Err(Error::InputFileFormatError(n)) && n@ == file) && only_base_values_changed(before, after),
        Some(rows) => r is Ok && {
            let (tables, next_id) = load_rows(before.tables, before.next_id, t, f.decl.subtype, row_values_of(bv, rows));
            after == (StateView { tables, next_id, fact_refs: after.fact_refs, ints: after.ints, strings: after.strings, ..before })
        },
    }
}

impl EGraph {
    /// Loads the contents of an input file into a function: one row per
    /// line, tab-separated fields, one per input column (and one for the
    /// output of a custom function). A line that does not read fails the
    /// whole load with the file's name.
    pub fn input_file(&mut self, func_name: &str, file: String, contents: &str) -> (r: Result<(), Error>)
        requires
            old(self).wf(),
            input_ok(old(self)@, func_name@, contents@),
        ensures
            final(self).wf(),
            final(self).pushed_views() == old(self).pushed_views(),
            final(self).bv().grows_from(&old(self).bv()),
            input_post(old(self)@, entry_value(old(self)@.function_names, func_name@)->0 as int,
                old(self).spec_function(func_name@)->0, file@, contents@, final(self)@, final(self).bv(), r),
    {
        let fi = self.find_function(func_name).unwrap();
        let ghost f = self@.functions[fi as int];
        let ghost v0 = self@;
        assert(old(self).spec_function(func_name@) == Some(f));
        let sorts = self.row_sort_names(fi);
        let ghost sv = sorts@.map_values(|s: String| s@);
        let m = sorts.len();
        let sub = self.state.function_list[fi].subtype();
        proof {
            assert(self.state.function_list@[fi as int]@ == f);
            assert(sorts_readable(sv)) by {
                reveal_strlit("i64");
                reveal_strlit("String");
                reveal_strlit("Unit");
                assert forall|k: int| 0 <= k < sv.len() implies (#[trigger] sv[k] == "i64"@ || sv[k] == "String"@ || sv[k] == "Unit"@) by {
                    if k < f.schema.input.len() {
                        assert(sv[k] == f.schema.input[k].name);
                    }
                }
            }
        }
        let chars = to_chars(contents);
        let lines = lines_exec(chars.as_slice());
        let ghost lv = lines@.map_values(|p: Vec<char>| p@);
        proof {
            lemma_lines_count(contents@);
            lemma_grows_refl(self.bv());
        }
        let mut rows: Vec<Vec<Value>> = Vec::new();
        if m > 0 {
            let mut j: usize = 0;
            proof {
                assert(lv.take(0) =~= Seq::<Seq<char>>::empty());
                assert(rows@.map_values(|r: Vec<Value>| r@) =~= row_values_of(self.bv(), Seq::empty()));
            }
            while j < lines.len()
                invariant
                    0 <= j <= lines@.len(),
                    m > 0,
                    m == sv.len(),
                    sv == sorts@.map_values(|s: String| s@),
                    sv == row_sorts(f),
                    sorts_readable(sv),
                    lv == lines@.map_values(|p: Vec<char>| p@),
                    lv == text_lines(contents@),
                    lv.len() <= contents@.len() + 1,
                    v0 == old(self)@,
                    old(self).spec_function(func_name@) == Some(f),
                    self.wf(),
                    self.pushed_views() == old(self).pushed_views(),
                    only_base_values_changed(v0, self@),
                    self.bv().grows_from(&old(self).bv()),
                    v0.ints.len() + (contents@.len() + 1) * m < u32::MAX,
                    v0.strings.len() + (contents@.len() + 1) * m < u32::MAX,
                    self@.ints.len() <= v0.ints.len() + j * m,
                    self@.strings.len() <= v0.strings.len() + j * m,
                    parse_rows(sv, lv.take(j as int)) is Some,
                    rows@.map_values(|r: Vec<Value>| r@) == row_values_of(self.bv(), parse_rows(sv, lv.take(j as int))->0),
                    forall|a: int, b: int| 0 <= a < parse_rows(sv, lv.take(j as int))->0.len()
                        && 0 <= b < parse_rows(sv, lv.take(j as int))->0[a].len()
                        ==> lit_known(self.bv(), #[trigger] parse_rows(sv, lv.take(j as int))->0[a][b]),
                decreases lines@.len() - j,
            {
                let ghost before = *self;
                let ghost lits0 = parse_rows(sv, lv.take(j as int))->0;
                proof {
                    assert((j + 1) * m == j * m + m) by (nonlinear_arith);
                    assert(j + 1 <= contents@.len() + 1);
                    assert((j + 1) * m <= (contents@.len() + 1) * m) by (nonlinear_arith)
                        requires j + 1 <= contents@.len() + 1;
                    assert(lv.take(j + 1).drop_last() =~= lv.take(j as int));
                    assert(lv.take(j + 1).last() == lv[j as int]);
                    assert(lv[j as int] == lines@[j as int]@);
                }
                match parse_line_into(&mut self.state.backend, &sorts, lines[j].as_slice()) {
                    None => {
                        proof {
                            self.lemma_backend_change_keeps_wf(&before);
                            before.state.backend.lemma_bv_wf();
                            self.state.backend.lemma_bv_wf();
                            lemma_grows_trans(old(self).bv(), before.bv(), self.bv());
                            assert(parse_line(sv, lv[j as int]) is None);
                            assert(parse_rows(sv, lv.take(j + 1)) is None);
                            lemma_parse_rows_none(sv, lv, j as int + 1);
                            assert(old(self).spec_function(func_name@)->0 == f);
                        }
                        return Err(Error::InputFileFormatError(file));
                    },
                    Some(vals) => {
                        proof {
                            self.lemma_backend_change_keeps_wf(&before);
                            before.state.backend.lemma_bv_wf();
                            self.state.backend.lemma_bv_wf();
                            let lits1 = parse_rows(sv, lv.take(j + 1))->0;
                            let row = parse_line(sv, lv[j as int])->0;
                            assert(lits1 == lits0.push(row));
                            assert forall|a: int, b: int| 0 <= a < lits1.len() && 0 <= b < lits1[a].len()
                                implies lit_known(self.bv(), #[trigger] lits1[a][b]) by {
                                if a < lits0.len() {
                                    assert(lits1[a] == lits0[a]);
                                    lemma_literal_rep_grows(before.bv(), self.bv(), lits0[a][b]);
                                }
                            }
                            assert forall|a: int| 0 <= a < lits0.len() implies
                                (#[trigger] lits0[a]).map_values(|l: LiteralView| literal_rep(before.bv(), l))
                                == lits0[a].map_values(|l: LiteralView| literal_rep(self.bv(), l)) by {
                                assert forall|b: int| 0 <= b < lits0[a].len() implies
                                    literal_rep(before.bv(), #[trigger] lits0[a][b]) == literal_rep(self.bv(), lits0[a][b]) by {
                                    lemma_literal_rep_grows(before.bv(), self.bv(), lits0[a][b]);
                                }
                                assert(lits0[a].map_values(|l: LiteralView| literal_rep(before.bv(), l))
                                    =~= lits0[a].map_values(|l: LiteralView| literal_rep(self.bv(), l)));
                            }
                            lemma_grows_trans(old(self).bv(), before.bv(), self.bv());
                        }
                        let ghost rows0 = rows@;
                        let ghost vv = vals@;
                        proof {
                            assert(rows0.map_values(|r: Vec<Value>| r@).len() == rows0.len());
                            assert(row_values_of(before.bv(), lits0).len() == lits0.len());
                        }
                        rows.push(vals);
                        proof {
                            let lits1 = parse_rows(sv, lv.take(j + 1))->0;
                            let row = parse_line(sv, lv[j as int])->0;
                            assert(vv == row.map_values(|l: LiteralView| literal_rep(self.bv(), l)));
                            assert(rows@.len() == rows0.len() + 1);
                            assert forall|a: int| 0 <= a < lits1.len() implies
                                rows@.map_values(|r: Vec<Value>| r@)[a] == #[trigger] row_values_of(self.bv(), lits1)[a] by {
                                if a < lits0.len() {
                                    assert(rows@[a] == rows0[a]);
                                    assert(rows@.map_values(|r: Vec<Value>| r@)[a] == rows0.map_values(|r: Vec<Value>| r@)[a]);
                                    assert(rows0.map_values(|r: Vec<Value>| r@)[a] == row_values_of(before.bv(), lits0)[a]);
                                    assert(lits1[a] == lits0[a]);
                                } else {
                                    assert(rows@[a]@ == vv);
                                    assert(lits1[a] == row);
                                }
                            }
                            assert(rows@.map_values(|r: Vec<Value>| r@) =~= row_values_of(self.bv(), lits1));
                        }
                    },
                }
                j = j + 1;
            }
            proof {
                assert(lv.take(j as int) =~= lv);
            }
        } else {
            proof {
                assert(rows@.map_values(|r: Vec<Value>| r@) =~= row_values_of(self.bv(), Seq::empty()));
            }
        }
        let ghost v1 = self@;
        let ghost bv1 = self.bv();
        let ghost rowsv = rows@.map_values(|r: Vec<Value>| r@);
        proof {
            lemma_parse_rows_fit(sv, lv);
            let lits = parse_rows(sv, lv)->0;
            assert(rowsv == row_values_of(bv1, lits));
            assert forall|a: int| 0 <= a < rowsv.len() implies (#[trigger] rowsv[a]).len() == m by {
                assert(rowsv[a] == lits[a].map_values(|l: LiteralView| literal_rep(bv1, l)));
            }
            assert(v1.tables[fi as int].n_keys == f.schema.input.len());
            assert(v1.functions[fi as int].backend_id.0 == fi);
            assert(rowsv.take(0) =~= Seq::<Seq<Value>>::empty());
            assert(self@ == (StateView { tables: v1.tables, next_id: v1.next_id, ..v1 }));
        }
        let t = TableId(fi as u32);
        let mut k: usize = 0;
        while k < rows.len()
            invariant
                0 <= k <= rows@.len(),
                rowsv == rows@.map_values(|r: Vec<Value>| r@),
                rows_fit(rowsv, m as nat),
                rowsv.len() <= contents@.len() + 1,
                t.0 == fi,
                fi < v1.tables.len(),
                m == f.schema.input.len() + (if sub == FunctionSubtype::Custom { 1int } else { 0int }),
                sub == f.decl.subtype,
                v1.tables[fi as int].n_keys == f.schema.input.len(),
                v1.tables[fi as int].rows.len() + contents@.len() + 1 < u32::MAX,
                v1.next_id + contents@.len() + 1 < u32::MAX,
                self.wf(),
                self.pushed_views() == old(self).pushed_views(),
                self.bv() == bv1,
                ({
                    let (tables, nid) = load_rows(v1.tables, v1.next_id, fi as int, sub, rowsv.take(k as int));
                    self@ == (StateView { tables, next_id: nid, ..v1 })
                }),
                self@.tables.len() == v1.tables.len(),
                self@.tables[fi as int].n_keys == v1.tables[fi as int].n_keys,
                self@.tables[fi as int].rows.len() <= v1.tables[fi as int].rows.len() + k,
                self@.next_id <= v1.next_id + k,
            decreases rows@.len() - k,
        {
            let ghost before = *self;
            proof {
                assert(rowsv.take(k + 1).drop_last() =~= rowsv.take(k as int));
                assert(rowsv.take(k + 1).last() == rowsv[k as int]);
                assert(rowsv[k as int] == rows@[k as int]@);
                assert(rowsv[k as int].len() == m);
            }
            let row = &rows[k];
            match sub {
                FunctionSubtype::Constructor => {
                    match self.state.backend.lookup_id(t, row.as_slice()) {
                        Some(_) => {},
                        None => {
                            let id = Value::new_const(self.state.next_id);
                            self.state.backend.insert(t, row.as_slice(), id);
                            proof {
                                self.lemma_backend_tables_keep_wf(&before);
                            }
                            let ghost mid = self@;
                            self.state.next_id = self.state.next_id + 1;
                            proof {
                                assert(self@ == (StateView { next_id: (mid.next_id + 1) as u32, ..mid }));
                                assert(state_wf(self@));
                            }
                        },
                    }
                },
                FunctionSubtype::Custom => {
                    let keys = init_values(row.as_slice());
                    let out = row[row.len() - 1];
                    proof {
                        assert(row@.last() == out);
                    }
                    self.state.backend.insert(t, keys.as_slice(), out);
                    proof {
                        self.lemma_backend_tables_keep_wf(&before);
                    }
                },
                FunctionSubtype::Relation => {
                    self.state.backend.insert(t, row.as_slice(), Value::new_const(0));
                    proof {
                        self.lemma_backend_tables_keep_wf(&before);
                    }
                },
            }
            k = k + 1;
        }
        proof {
            assert(rowsv.take(k as int) =~= rowsv);
        }
        Ok(())
    }
}

/// All values but the last.
fn init_values(row: &[Value]) -> (r: Vec<Value>)
    requires
        row@.len() >= 1,
    ensures
        r@ == row@.drop_last(),
{
    let mut r: Vec<Value> = Vec::new();
    let mut i: usize = 0;
    let n = row.len() - 1;
    while i < n
        invariant
            0 <= i <= n,
            n == row@.len() - 1,
            r@ == row@.take(i as int),
        decreases n - i,
    {
        r.push(row[i]);
        i = i + 1;
        assert(r@ =~= row@.take(i as int));
    }
    assert(row@.take(i as int) =~= row@.drop_last());
    r
}

proof fn lemma_parse_rows_none(sorts: Seq<Seq<char>>, lines: Seq<Seq<char>>, k: int)
    requires
        0 < k <= lines.len(),
        sorts.len() > 0,
        parse_rows(sorts, lines.take(k)) is None,
    ensures
        parse_rows(sorts, lines) is None,
    decreases lines.len(),
{
    if k < lines.len() {
        assert(lines.drop_last().take(k) =~= lines.take(k));
        lemma_parse_rows_none(sorts, lines.drop_last(), k);
    } else {
        assert(lines.take(k) =~= lines);
    }
}

} // verus!
