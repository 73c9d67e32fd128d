use vstd::prelude::*;
use crate::ids::{FactId, FactRef, TableId, Value};
use crate::values::BaseValues;
use crate::merge::{ConfigView, FunctionConfig};

verus! {

/// One row of a table: its key columns, its output column, and, for tables
/// that track facts, whether the fact is asserted or only referenced.
pub struct Row {
    pub keys: Vec<Value>,
    pub out: Value,
    pub asserted: bool,
}

pub struct RowView {
    pub keys: Seq<Value>,
    pub out: Value,
    pub asserted: bool,
}

impl View for Row {
    type V = RowView;

    open spec fn view(&self) -> RowView {
        RowView { keys: self.keys@, out: self.out, asserted: self.asserted }
    }
}

/// A table of the backend. In a table that tracks facts, the fact id of a
/// row is its position.
pub struct Table {
    name: String,
    n_keys: usize,
    truth_tracking: bool,
    config: FunctionConfig,
    rows: Vec<Row>,
}

pub struct TableView {
    pub name: Seq<char>,
    pub n_keys: nat,
    pub truth_tracking: bool,
    pub config: ConfigView,
    pub rows: Seq<RowView>,
}

impl View for Table {
    type V = TableView;

    closed spec fn view(&self) -> TableView {
        TableView {
            name: self.name@,
            n_keys: self.n_keys as nat,
            truth_tracking: self.truth_tracking,
            config: self.config@,
            rows: self.rows@.map_values(|r: Row| r@),
        }
    }
}

/// Position of the row with the given keys, if any.
pub open spec fn find_row(rows: Seq<RowView>, keys: Seq<Value>) -> Option<int> {
    if exists|i: int| 0 <= i < rows.len() && rows[i].keys == keys {
        Some(choose|i: int| 0 <= i < rows.len() && rows[i].keys == keys)
    } else {
        None
    }
}

/// No two rows share their keys.
pub open spec fn keys_unique(rows: Seq<RowView>) -> bool {
    forall|i: int, j: int| 0 <= i < j < rows.len() ==> rows[i].keys != rows[j].keys
}

pub open spec fn table_wf(t: TableView) -> bool {
    &&& keys_unique(t.rows)
    &&& t.rows.len() <= u32::MAX
    &&& forall|i: int| 0 <= i < t.rows.len() ==> #[trigger] t.rows[i].keys.len() == t.n_keys
}

/// Why a fact reference does not denote a fact.
#[derive(Clone, Copy, Debug, PartialEq, Eq, Structural)]
pub enum FactRefError {
    TableNotFound,
    NotFactTracked,
    FactNotFound,
}

/// The validation outcome for a fact reference against a table list.
pub open spec fn spec_validate(tables: Seq<TableView>, fr: FactRef) -> Result<(), FactRefError> {
    if fr.table_id.0 >= tables.len() {
        Err(FactRefError::TableNotFound)
    } else if !tables[fr.table_id.0 as int].truth_tracking {
        Err(FactRefError::NotFactTracked)
    } else if fr.fact_id.0 >= tables[fr.table_id.0 as int].rows.len() {
        Err(FactRefError::FactNotFound)
    } else {
        Ok(())
    }
}

/// The row a valid fact reference denotes.
pub open spec fn fact_row(tables: Seq<TableView>, fr: FactRef) -> RowView {
    tables[fr.table_id.0 as int].rows[fr.fact_id.0 as int]
}

/// The reference to the fact stored at a row of a table.
pub open spec fn fact_ref_at(t: int, i: int) -> FactRef {
    FactRef { table_id: TableId(t as u32), fact_id: FactId(i as u32) }
}

/// The tables after the asserted flag of one fact is set to `b`.
pub open spec fn set_fact_status(tables: Seq<TableView>, fr: FactRef, b: bool) -> Seq<TableView> {
    let t = tables[fr.table_id.0 as int];
    let r = t.rows[fr.fact_id.0 as int];
    tables.update(
        fr.table_id.0 as int,
        TableView { rows: t.rows.update(fr.fact_id.0 as int, RowView { asserted: b, ..r }), ..t },
    )
}

/// The tables after the rows of table `t` are replaced.
pub open spec fn with_rows(tables: Seq<TableView>, t: int, rows: Seq<RowView>) -> Seq<TableView> {
    tables.update(t, TableView { rows, ..tables[t] })
}

/// The rows after an insertion: the row that holds the keys takes the
/// output and is marked asserted; without such a row, an asserted row is
/// appended.
pub open spec fn insert_rows(rows: Seq<RowView>, keys: Seq<Value>, out: Value) -> Seq<RowView> {
    match find_row(rows, keys) {
        Some(i) => rows.update(i, RowView { keys, out, asserted: true }),
        None => rows.push(RowView { keys, out, asserted: true }),
    }
}

/// The rows after a reference to the fact holding the keys is taken: a
/// missing fact is appended with the default output, not asserted.
pub open spec fn referenced_rows(rows: Seq<RowView>, keys: Seq<Value>, default_out: Value) -> Seq<RowView> {
    match find_row(rows, keys) {
        Some(i) => rows,
        None => rows.push(RowView { keys, out: default_out, asserted: false }),
    }
}

/// The reference to the fact holding the keys in table `t`, once it is
/// there.
pub open spec fn referenced_fact(rows: Seq<RowView>, t: int, keys: Seq<Value>) -> FactRef {
    match find_row(rows, keys) {
        Some(i) => fact_ref_at(t, i),
        None => fact_ref_at(t, rows.len() as int),
    }
}

/// The backend database: tables and the interned base values.
pub struct Backend {
    tables: Vec<Table>,
    base_values: BaseValues,
}

impl View for Backend {
    type V = Seq<TableView>;

    closed spec fn view(&self) -> Seq<TableView> {
        self.tables@.map_values(|t: Table| t@)
    }
}

pub fn keys_equal(a: &Vec<Value>, b: &[Value]) -> (r: bool)
    ensures
        r == (a@ == b@),
{
    if a.len() != b.len() {
        return false;
    }
    let mut i: usize = 0;
    while i < a.len()
        invariant
            0 <= i <= a@.len(),
            a@.len() == b@.len(),
            forall|k: int| 0 <= k < i ==> a@[k] == b@[k],
        decreases a@.len() - i,
    {
        if a[i] != b[i] {
            return false;
        }
        i = i + 1;
    }
    assert(a@ =~= b@);
    true
}

fn slice_to_vec(s: &[Value]) -> (v: Vec<Value>)
    ensures
        v@ == s@,
{
    let mut v: Vec<Value> = Vec::new();
    let mut i: usize = 0;
    while i < s.len()
        invariant
            0 <= i <= s@.len(),
            v@ == s@.subrange(0, i as int),
        decreases s@.len() - i,
    {
        v.push(s[i]);
        i = i + 1;
    }
    assert(v@ =~= s@);
    v
}

impl Table {
    fn find(&self, keys: &[Value]) -> (r: Option<usize>)
        requires
            table_wf(self@),
        ensures
            r matches Some(i) ==> find_row(self@.rows, keys@) == Some(i as int),
            r is None ==> find_row(self@.rows, keys@) is None,
    {
        let mut i: usize = 0;
        while i < self.rows.len()
            invariant
                0 <= i <= self.rows@.len(),
                self@.rows.len() == self.rows@.len(),
                self@.rows == self.rows@.map_values(|r: Row| r@),
                table_wf(self@),
                forall|k: int| 0 <= k < i ==> self@.rows[k].keys != keys@,
            decreases self.rows@.len() - i,
        {
            if keys_equal(&self.rows[i].keys, keys) {
                assert(self@.rows[i as int].keys == keys@);
                let ghost j = choose|j: int| 0 <= j < self@.rows.len() && self@.rows[j].keys == keys@;
                assert(j == i as int) by {
                    if j != i as int {
                        assert(keys_unique(self@.rows));
                    }
                }
                return Some(i);
            }
            i = i + 1;
        }
        None
    }
}


impl Backend {
    /// The interned base values.
    pub closed spec fn bv(&self) -> BaseValues {
        self.base_values
    }

    /// The interned fact references; a fact reference's value is its position.
    pub open spec fn fact_refs(&self) -> Seq<FactRef> {
        self.bv().interned()
    }

    pub fn base_values(&self) -> (b: &BaseValues)
        ensures
            *b == self.bv(),
    {
        &self.base_values
    }

    /// Every table is well formed, and ids fit in their representation.
    pub closed spec fn wf(&self) -> bool {
        &&& self@.len() <= u32::MAX
        &&& forall|t: int| 0 <= t < self@.len() ==> #[trigger] table_wf(self@[t])
        &&& self.bv().wf()
    }

    /// The base values of a well-formed backend are well formed.
    pub proof fn lemma_bv_wf(&self)
        requires
            self.wf(),
        ensures
            self.bv().wf(),
    {
    }

    /// No table of a well-formed backend holds two rows with the same keys.
    pub proof fn lemma_tables_wf(&self)
        requires
            self.wf(),
        ensures
            forall|t: int| 0 <= t < self@.len() ==> #[trigger] table_wf(self@[t]),
    {
    }

    pub fn new() -> (b: Backend)
        ensures
            b.wf(),
            b@ == Seq::<TableView>::empty(),
            b.fact_refs() == Seq::<FactRef>::empty(),
            b.bv().ints() == Seq::<i64>::empty(),
            b.bv().strings() == Seq::<Seq<char>>::empty(),
    {
        let b = Backend { tables: Vec::new(), base_values: BaseValues::new() };
        assert(b@ =~= Seq::<TableView>::empty());
        b
    }

    pub fn num_tables(&self) -> (n: usize)
        ensures
            n == self@.len(),
    {
        self.tables.len()
    }

    /// Adds an empty table, configured as asked, and returns its id, the
    /// next free position. Its key columns are all columns but the last.
    pub fn add_table(&mut self, config: FunctionConfig) -> (t: TableId)
        requires
            old(self).wf(),
            old(self)@.len() < u32::MAX,
            config.schema@.len() >= 1,
        ensures
            final(self).wf(),
            t.0 == old(self)@.len(),
            final(self)@ == old(self)@.push(
                TableView {
                    name: config.name@,
                    n_keys: (config.schema@.len() - 1) as nat,
                    truth_tracking: config.will_enable_truth_tracking,
                    config: config@,
                    rows: Seq::empty(),
                },
            ),
            final(self).bv() == old(self).bv(),
    {
        let n = self.tables.len();
        let name = config.name.clone();
        let n_keys = config.schema.len() - 1;
        let truth_tracking = config.will_enable_truth_tracking;
        let table = Table { name, n_keys, truth_tracking, config, rows: Vec::new() };
        assert(table@.rows =~= Seq::<RowView>::empty());
        self.tables.push(table);
        assert(self@ =~= old(self)@.push(table@));
        TableId(n as u32)
    }

    /// The number of rows of a table, referenced facts included.
    pub fn table_size(&self, t: TableId) -> (n: usize)
        requires
            t.0 < self@.len(),
        ensures
            n == self@[t.0 as int].rows.len(),
    {
        self.tables[t.0 as usize].rows.len()
    }

    /// A row of a table.
    pub fn row(&self, t: TableId, i: usize) -> (r: &Row)
        requires
            t.0 < self@.len(),
            i < self@[t.0 as int].rows.len(),
        ensures
            r@ == self@[t.0 as int].rows[i as int],
    {
        &self.tables[t.0 as usize].rows[i]
    }

    /// Whether a table tracks facts.
    pub fn truth_tracking(&self, t: TableId) -> (b: bool)
        requires
            t.0 < self@.len(),
        ensures
            b == self@[t.0 as int].truth_tracking,
    {
        self.tables[t.0 as usize].truth_tracking
    }

    /// The output stored for the given keys, if a row holds them.
    pub fn lookup_id(&self, t: TableId, keys: &[Value]) -> (r: Option<Value>)
        requires
            self.wf(),
            t.0 < self@.len(),
        ensures
            match find_row(self@[t.0 as int].rows, keys@) {
                Some(i) => r == Some(self@[t.0 as int].rows[i].out),
                None => r is None,
            },
    {
        let table = &self.tables[t.0 as usize];
        assert(table_wf(self@[t.0 as int]));
        match table.find(keys) {
            Some(i) => Some(table.rows[i].out),
            None => None,
        }
    }
}

impl Backend {
    /// Replaces the rows of one table, keeping its other attributes.
    fn set_rows(&mut self, t: usize, rows: Vec<Row>)
        requires
            t < old(self)@.len(),
        ensures
            final(self)@ == with_rows(old(self)@, t as int, rows@.map_values(|r: Row| r@)),
            final(self).base_values == old(self).base_values,
    {
        let ghost old_view = self@;
        let mut table = self.tables.remove(t);
        table.rows = rows;
        self.tables.insert(t, table);
        assert(table@.rows =~= rows@.map_values(|r: Row| r@));
        assert(self@ =~= with_rows(old_view, t as int, rows@.map_values(|r: Row| r@)));
    }

    /// Takes the rows of one table out, leaving it empty.
    fn take_rows(&mut self, t: usize) -> (rows: Vec<Row>)
        requires
            t < old(self)@.len(),
        ensures
            rows@.map_values(|r: Row| r@) == old(self)@[t as int].rows,
            final(self)@ == with_rows(old(self)@, t as int, Seq::empty()),
            final(self).base_values == old(self).base_values,
    {
        let ghost old_view = self@;
        let mut table = self.tables.remove(t);
        let mut rows: Vec<Row> = Vec::new();
        std::mem::swap(&mut rows, &mut table.rows);
        assert(table@.rows =~= Seq::<RowView>::empty());
        self.tables.insert(t, table);
        assert(self@ =~= with_rows(old_view, t as int, Seq::empty()));
        rows
    }

    /// Adds a row, or, when a row holds the keys already, sets its output and
    /// marks its fact asserted without adding another row.
    pub fn insert(&mut self, t: TableId, keys: &[Value], out: Value)
        requires
            old(self).wf(),
            t.0 < old(self)@.len(),
            keys@.len() == old(self)@[t.0 as int].n_keys,
            old(self)@[t.0 as int].rows.len() < u32::MAX,
        ensures
            final(self).wf(),
            final(self).bv() == old(self).bv(),
            final(self)@ == with_rows(old(self)@, t.0 as int, insert_rows(old(self)@[t.0 as int].rows, keys@, out)),
    {
        let ti = t.0 as usize;
        proof { assert(table_wf(self@[ti as int])); }
        let found = self.tables[ti].find(keys);
        let mut rows = self.take_rows(ti);
        let ghost old_rows = old(self)@[ti as int].rows;
        let ghost new_rows: Seq<RowView>;
        match found {
            Some(i) => {
                let row = Row { keys: slice_to_vec(keys), out, asserted: true };
                rows.set(i, row);
                proof {
                    new_rows = old_rows.update(i as int, RowView { keys: keys@, out, asserted: true });
                    assert(rows@.map_values(|r: Row| r@) =~= new_rows);
                }
            },
            None => {
                let row = Row { keys: slice_to_vec(keys), out, asserted: true };
                rows.push(row);
                proof {
                    new_rows = old_rows.push(RowView { keys: keys@, out, asserted: true });
                    assert(rows@.map_values(|r: Row| r@) =~= new_rows);
                }
            },
        }
        self.set_rows(ti, rows);
        proof {
            assert(self@ =~= with_rows(old(self)@, ti as int, new_rows));
            assert forall|u: int| 0 <= u < self@.len() implies #[trigger] table_wf(self@[u]) by {
                if u != ti as int {
                    assert(table_wf(old(self)@[u]));
                } else {
                    assert(table_wf(old(self)@[u]));
                    assert(keys_unique(new_rows)) by {
                        assert forall|a: int, b: int| 0 <= a < b < new_rows.len() implies new_rows[a].keys != new_rows[b].keys by {
                            if found is None {
                                if b == old_rows.len() {
                                    assert(old_rows[a].keys != keys@);
                                }
                            } else {
                                let fi = found->0 as int;
                                if a == fi {
                                    assert(old_rows[a].keys == keys@);
                                } else if b == fi {
                                    assert(old_rows[b].keys == keys@);
                                }
                            }
                        }
                    }
                }
            }
        }
    }
}


impl Backend {
    /// The reference to the fact that holds the given keys in a table that
    /// tracks facts. When no row holds the keys, a row is added with the
    /// default output, marked as referenced and not asserted. A table that
    /// does not track facts gives `None`.
    pub fn create_unasserted_fact_ref(&mut self, t: TableId, keys: &[Value], default_out: Value) -> (r: Option<FactRef>)
        requires
            old(self).wf(),
            t.0 < old(self)@.len(),
            keys@.len() == old(self)@[t.0 as int].n_keys,
            find_row(old(self)@[t.0 as int].rows, keys@) is None ==> old(self)@[t.0 as int].rows.len() < u32::MAX,
        ensures
            final(self).wf(),
            final(self).bv() == old(self).bv(),
            !old(self)@[t.0 as int].truth_tracking ==> r is None && final(self)@ == old(self)@,
            old(self)@[t.0 as int].truth_tracking ==> r == Some(referenced_fact(old(self)@[t.0 as int].rows, t.0 as int, keys@))
                && final(self)@ == with_rows(
                    old(self)@,
                    t.0 as int,
                    referenced_rows(old(self)@[t.0 as int].rows, keys@, default_out),
                ),
    {
        let ti = t.0 as usize;
        if !self.tables[ti].truth_tracking {
            return None;
        }
        proof { assert(table_wf(self@[ti as int])); }
        match self.tables[ti].find(keys) {
            Some(i) => Some(FactRef { table_id: t, fact_id: FactId(i as u32) }),
            None => {
                let mut rows = self.take_rows(ti);
                let n = rows.len();
                let ghost old_rows = old(self)@[ti as int].rows;
                let ghost new_rows = old_rows.push(RowView { keys: keys@, out: default_out, asserted: false });
                rows.push(Row { keys: slice_to_vec(keys), out: default_out, asserted: false });
                assert(rows@.map_values(|r: Row| r@) =~= new_rows);
                self.set_rows(ti, rows);
                proof {
                    assert(self@ =~= with_rows(old(self)@, ti as int, new_rows));
                    assert forall|u: int| 0 <= u < self@.len() implies #[trigger] table_wf(self@[u]) by {
                        assert(table_wf(old(self)@[u]));
                        if u == ti as int {
                            assert forall|a: int, b: int| 0 <= a < b < new_rows.len() implies new_rows[a].keys != new_rows[b].keys by {
                                if b == old_rows.len() {
                                    assert(old_rows[a].keys != keys@);
                                }
                            }
                        }
                    }
                }
                Some(FactRef { table_id: t, fact_id: FactId(n as u32) })
            },
        }
    }

    /// Checks that a fact reference names a table that tracks facts and a
    /// fact of it.
    pub fn validate_fact_ref(&self, fr: FactRef) -> (r: Result<(), FactRefError>)
        ensures
            r == spec_validate(self@, fr),
    {
        let t = fr.table_id.0 as usize;
        if t >= self.tables.len() {
            return Err(FactRefError::TableNotFound);
        }
        if !self.tables[t].truth_tracking {
            return Err(FactRefError::NotFactTracked);
        }
        if fr.fact_id.0 as usize >= self.tables[t].rows.len() {
            return Err(FactRefError::FactNotFound);
        }
        Ok(())
    }

    /// A fact reference is stale when it does not denote a fact.
    pub fn is_fact_ref_stale(&self, fr: FactRef) -> (b: bool)
        ensures
            b == (spec_validate(self@, fr) is Err),
    {
        self.validate_fact_ref(fr).is_err()
    }

    /// Whether the fact a reference denotes is asserted.
    pub fn get_fact_truth_status(&self, fr: FactRef) -> (r: Result<Option<bool>, FactRefError>)
        ensures
            match spec_validate(self@, fr) {
                Ok(()) => r == Ok::<Option<bool>, FactRefError>(Some(fact_row(self@, fr).asserted)),
                Err(e) => r == Err::<Option<bool>, FactRefError>(e),
            },
    {
        match self.validate_fact_ref(fr) {
            Ok(()) => Ok(Some(self.tables[fr.table_id.0 as usize].rows[fr.fact_id.0 as usize].asserted)),
            Err(e) => Err(e),
        }
    }

    /// Sets the asserted flag of a fact; returns whether it changed.
    fn set_fact(&mut self, fr: FactRef, b: bool) -> (r: Result<bool, FactRefError>)
        requires
            old(self).wf(),
        ensures
            final(self).wf(),
            final(self).bv() == old(self).bv(),
            match spec_validate(old(self)@, fr) {
                Ok(()) => r == Ok::<bool, FactRefError>(fact_row(old(self)@, fr).asserted != b)
                    && final(self)@ == set_fact_status(old(self)@, fr, b),
                Err(e) => r == Err::<bool, FactRefError>(e) && final(self)@ == old(self)@,
            },
    {
        match self.validate_fact_ref(fr) {
            Err(e) => Err(e),
            Ok(()) => {
                let ti = fr.table_id.0 as usize;
                let fi = fr.fact_id.0 as usize;
                let mut rows = self.take_rows(ti);
                let ghost old_rows = old(self)@[ti as int].rows;
                let prev = rows[fi].asserted;
                let keys = rows[fi].keys.clone();
                let out = rows[fi].out;
                let ghost new_rows = old_rows.update(fi as int, RowView { asserted: b, ..old_rows[fi as int] });
                rows.set(fi, Row { keys, out, asserted: b });
                assert(rows@.map_values(|r: Row| r@) =~= new_rows);
                self.set_rows(ti, rows);
                proof {
                    assert(self@ =~= set_fact_status(old(self)@, fr, b));
                    assert forall|u: int| 0 <= u < self@.len() implies #[trigger] table_wf(self@[u]) by {
                        assert(table_wf(old(self)@[u]));
                        if u == ti as int {
                            assert forall|a: int, c: int| 0 <= a < c < new_rows.len() implies new_rows[a].keys != new_rows[c].keys by {
                                assert(old_rows[a].keys != old_rows[c].keys);
                            }
                        }
                    }
                }
                Ok(prev != b)
            },
        }
    }

    /// Marks the fact a reference denotes as asserted; returns whether its
    /// status changed.
    pub fn assert_fact_validated(&mut self, fr: FactRef) -> (r: Result<bool, FactRefError>)
        requires
            old(self).wf(),
        ensures
            final(self).wf(),
            final(self).bv() == old(self).bv(),
            match spec_validate(old(self)@, fr) {
                Ok(()) => r == Ok::<bool, FactRefError>(!fact_row(old(self)@, fr).asserted)
                    && final(self)@ == set_fact_status(old(self)@, fr, true),
                Err(e) => r == Err::<bool, FactRefError>(e) && final(self)@ == old(self)@,
            },
    {
        self.set_fact(fr, true)
    }

    /// Marks the fact a reference denotes as not asserted; returns whether
    /// its status changed.
    pub fn retract_fact_validated(&mut self, fr: FactRef) -> (r: Result<bool, FactRefError>)
        requires
            old(self).wf(),
        ensures
            final(self).wf(),
            final(self).bv() == old(self).bv(),
            match spec_validate(old(self)@, fr) {
                Ok(()) => r == Ok::<bool, FactRefError>(fact_row(old(self)@, fr).asserted)
                    && final(self)@ == set_fact_status(old(self)@, fr, false),
                Err(e) => r == Err::<bool, FactRefError>(e) && final(self)@ == old(self)@,
            },
    {
        self.set_fact(fr, false)
    }

    /// The value of a fact reference, interning it when it is new.
    pub fn intern_fact_ref(&mut self, x: FactRef) -> (v: Value)
        requires
            old(self).wf(),
            !old(self).fact_refs().contains(x) ==> old(self).fact_refs().len() < u32::MAX,
        ensures
            final(self).wf(),
            final(self)@ == old(self)@,
            final(self).bv().ints() == old(self).bv().ints(),
            final(self).bv().strings() == old(self).bv().strings(),
            v.rep < final(self).fact_refs().len(),
            final(self).fact_refs()[v.rep as int] == x,
            final(self).bv().grows_from(&old(self).bv()),
            old(self).fact_refs().contains(x) ==> final(self).fact_refs() == old(self).fact_refs(),
            !old(self).fact_refs().contains(x) ==> final(self).fact_refs() == old(self).fact_refs().push(x),
    {
        let v = self.base_values.get_fact_ref(x);
        assert(self.bv().ints().subrange(0, old(self).bv().ints().len() as int) =~= old(self).bv().ints());
        assert(self.bv().interned().subrange(0, old(self).bv().interned().len() as int) =~= old(self).bv().interned());
        assert(self.bv().strings().subrange(0, old(self).bv().strings().len() as int) =~= old(self).bv().strings());
        v
    }

    /// The fact reference a value stands for.
    pub fn unwrap_fact_ref(&self, v: Value) -> (x: FactRef)
        requires
            v.rep < self.fact_refs().len(),
        ensures
            x == self.fact_refs()[v.rep as int],
    {
        self.base_values.unwrap_fact_ref(v)
    }
}


impl Backend {
    /// The value of an integer, interning it when it is new.
    pub fn intern_int(&mut self, x: i64) -> (v: Value)
        requires
            old(self).wf(),
            old(self).bv().ints().len() < u32::MAX,
        ensures
            final(self).wf(),
            final(self)@ == old(self)@,
            final(self).bv().grows_from(&old(self).bv()),
            final(self).bv().interned() == old(self).bv().interned(),
            final(self).bv().strings() == old(self).bv().strings(),
            v.rep < final(self).bv().ints().len(),
            final(self).bv().ints()[v.rep as int] == x,
            old(self).bv().ints().contains(x) ==> final(self).bv().ints() == old(self).bv().ints(),
            !old(self).bv().ints().contains(x) ==> final(self).bv().ints() == old(self).bv().ints().push(x),
    {
        let v = self.base_values.get_int(x);
        assert(self.bv().ints().subrange(0, old(self).bv().ints().len() as int) =~= old(self).bv().ints());
        assert(self.bv().interned().subrange(0, old(self).bv().interned().len() as int) =~= old(self).bv().interned());
        assert(self.bv().strings().subrange(0, old(self).bv().strings().len() as int) =~= old(self).bv().strings());
        v
    }

    /// The value of a string, interning it when it is new.
    pub fn intern_string(&mut self, x: &str) -> (v: Value)
        requires
            old(self).wf(),
            old(self).bv().strings().len() < u32::MAX,
        ensures
            final(self).wf(),
            final(self)@ == old(self)@,
            final(self).bv().grows_from(&old(self).bv()),
            final(self).bv().interned() == old(self).bv().interned(),
            final(self).bv().ints() == old(self).bv().ints(),
            v.rep < final(self).bv().strings().len(),
            final(self).bv().strings()[v.rep as int] == x@,
            old(self).bv().strings().contains(x@) ==> final(self).bv().strings() == old(self).bv().strings(),
            !old(self).bv().strings().contains(x@) ==> final(self).bv().strings() == old(self).bv().strings().push(x@),
    {
        let v = self.base_values.get_string(x);
        assert(self.bv().ints().subrange(0, old(self).bv().ints().len() as int) =~= old(self).bv().ints());
        assert(self.bv().interned().subrange(0, old(self).bv().interned().len() as int) =~= old(self).bv().interned());
        assert(self.bv().strings().subrange(0, old(self).bv().strings().len() as int) =~= old(self).bv().strings());
        v
    }
}


impl Row {
    fn snapshot(&self) -> (r: Row)
        ensures
            r@ == self@,
    {
        Row { keys: self.keys.clone(), out: self.out, asserted: self.asserted }
    }
}

impl Table {
    fn snapshot(&self) -> (r: Table)
        ensures
            r@ == self@,
    {
        let mut rows: Vec<Row> = Vec::new();
        let mut i: usize = 0;
        while i < self.rows.len()
            invariant
                0 <= i <= self.rows@.len(),
                rows@.len() == i,
                forall|k: int| 0 <= k < i ==> #[trigger] rows@[k]@ == self.rows@[k]@,
            decreases self.rows@.len() - i,
        {
            rows.push(self.rows[i].snapshot());
            i = i + 1;
        }
        let r = Table {
            name: self.name.clone(),
            n_keys: self.n_keys,
            truth_tracking: self.truth_tracking,
            config: self.config.snapshot(),
            rows,
        };
        assert(r@.rows =~= self@.rows);
        r
    }
}

impl Backend {
    /// A copy with the same tables and base values.
    pub fn snapshot(&self) -> (r: Backend)
        requires
            self.wf(),
        ensures
            r.wf(),
            r@ == self@,
            r.bv().interned() == self.bv().interned(),
            r.bv().ints() == self.bv().ints(),
            r.bv().strings() == self.bv().strings(),
    {
        let mut tables: Vec<Table> = Vec::new();
        let mut i: usize = 0;
        while i < self.tables.len()
            invariant
                0 <= i <= self.tables@.len(),
                tables@.len() == i,
                forall|k: int| 0 <= k < i ==> #[trigger] tables@[k]@ == self.tables@[k]@,
            decreases self.tables@.len() - i,
        {
            tables.push(self.tables[i].snapshot());
            i = i + 1;
        }
        let r = Backend { tables, base_values: self.base_values.snapshot() };
        assert(r@ =~= self@);
        r
    }
}

} // verus!
