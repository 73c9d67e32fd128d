use vstd::prelude::*;

verus! {

/// An opaque value stored in a table column.
#[derive(Clone, Copy, Debug, PartialEq, Eq, Hash, Structural)]
pub struct Value {
    pub rep: u32,
}

impl Value {
    /// A value whose representation is the given constant.
    pub fn new_const(rep: u32) -> (v: Value)
        ensures
            v.rep == rep,
    {
        Value { rep }
    }

    /// A value whose representation is the given index.
    pub fn from_usize(x: usize) -> (v: Value)
        requires
            x <= u32::MAX,
        ensures
            v.rep == x,
    {
        Value { rep: x as u32 }
    }

    pub fn rep(&self) -> (r: u32)
        ensures
            r == self.rep,
    {
        self.rep
    }
}

/// Identifies a table of the backend.
#[derive(Clone, Copy, Debug, PartialEq, Eq, Hash, Structural)]
pub struct TableId(pub u32);

impl TableId {
    pub fn from_usize(x: usize) -> (t: TableId)
        requires
            x <= u32::MAX,
        ensures
            t.0 == x,
    {
        TableId(x as u32)
    }

    pub fn rep(&self) -> (r: u32)
        ensures
            r == self.0,
    {
        self.0
    }
}

/// Identifies a fact within one table.
#[derive(Clone, Copy, Debug, PartialEq, Eq, Hash, Structural)]
pub struct FactId(pub u32);

impl FactId {
    pub fn from_usize(x: usize) -> (f: FactId)
        requires
            x <= u32::MAX,
        ensures
            f.0 == x,
    {
        FactId(x as u32)
    }

    pub fn rep(&self) -> (r: u32)
        ensures
            r == self.0,
    {
        self.0
    }
}

/// A first-class reference to a fact: the table it lives in and its id there.
#[derive(Clone, Copy, Debug, PartialEq, Eq, Hash, Structural)]
pub struct FactRef {
    pub table_id: TableId,
    pub fact_id: FactId,
}

} // verus!
