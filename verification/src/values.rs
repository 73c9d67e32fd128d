use vstd::prelude::*;
use crate::ids::{FactRef, Value};
use crate::text::str_eq;

verus! {

/// Interned base values. Each sort of base value has its own table: an
/// integer, a string or a fact reference is represented by its position in
/// the table of its sort; a boolean by 0 or 1; the unit value by 0.
pub struct BaseValues {
    fact_refs: Vec<FactRef>,
    ints: Vec<i64>,
    strings: Vec<String>,
}

/// `a` is `b` with possibly more entries at its end.
pub open spec fn extends<T>(a: Seq<T>, b: Seq<T>) -> bool {
    b.len() <= a.len() && a.subrange(0, b.len() as int) == b
}

impl BaseValues {
    /// No table holds a value twice, and positions fit in a value.
    pub closed spec fn wf(&self) -> bool {
        &&& forall|i: int, j: int|
            0 <= i < j < self.fact_refs@.len() ==> self.fact_refs@[i] != self.fact_refs@[j]
        &&& forall|i: int, j: int| 0 <= i < j < self.ints@.len() ==> self.ints@[i] != self.ints@[j]
        &&& forall|i: int, j: int|
            0 <= i < j < self.strings@.len() ==> self.strings@[i]@ != self.strings@[j]@
        &&& self.fact_refs@.len() <= u32::MAX
        &&& self.ints@.len() <= u32::MAX
        &&& self.strings@.len() <= u32::MAX
    }

    /// The interned fact references, in the order they were first seen.
    pub closed spec fn interned(&self) -> Seq<FactRef> {
        self.fact_refs@
    }

    /// The interned integers, in the order they were first seen.
    pub closed spec fn ints(&self) -> Seq<i64> {
        self.ints@
    }

    /// The interned strings, in the order they were first seen.
    pub closed spec fn strings(&self) -> Seq<Seq<char>> {
        self.strings@.map_values(|s: String| s@)
    }

    /// `self` holds everything `old` held, at the same positions.
    pub open spec fn grows_from(&self, old: &BaseValues) -> bool {
        &&& extends(self.interned(), old.interned())
        &&& extends(self.ints(), old.ints())
        &&& extends(self.strings(), old.strings())
    }

    /// `self` holds at most one more value of each sort than `old`.
    pub open spec fn at_most_one_more(&self, old: &BaseValues) -> bool {
        &&& self.interned().len() <= old.interned().len() + 1
        &&& self.ints().len() <= old.ints().len() + 1
        &&& self.strings().len() <= old.strings().len() + 1
    }

    pub fn new() -> (b: BaseValues)
        ensures
            b.wf(),
            b.interned() == Seq::<FactRef>::empty(),
            b.ints() == Seq::<i64>::empty(),
            b.strings() == Seq::<Seq<char>>::empty(),
    {
        let b = BaseValues { fact_refs: Vec::new(), ints: Vec::new(), strings: Vec::new() };
        assert(b.strings() =~= Seq::<Seq<char>>::empty());
        b
    }

    /// The value of a fact reference that was interned before, if any.
    pub fn lookup_fact_ref(&self, x: FactRef) -> (r: Option<Value>)
        requires
            self.wf(),
        ensures
            match r {
                Some(v) => v.rep < self.interned().len() && self.interned()[v.rep as int] == x,
                None => !self.interned().contains(x),
            },
    {
        let mut i: usize = 0;
        while i < self.fact_refs.len()
            invariant
                0 <= i <= self.fact_refs@.len(),
                self.fact_refs@.len() <= u32::MAX,
                forall|k: int| 0 <= k < i ==> self.fact_refs@[k] != x,
            decreases self.fact_refs@.len() - i,
        {
            if self.fact_refs[i] == x {
                return Some(Value::from_usize(i));
            }
            i = i + 1;
        }
        None
    }

    /// Interns a fact reference and returns its value. A fact reference seen
    /// before keeps its value; a new one is appended.
    pub fn get_fact_ref(&mut self, x: FactRef) -> (v: Value)
        requires
            old(self).wf(),
            !old(self).interned().contains(x) ==> old(self).interned().len() < u32::MAX,
        ensures
            final(self).wf(),
            final(self).ints() == old(self).ints(),
            final(self).strings() == old(self).strings(),
            v.rep < final(self).interned().len(),
            final(self).interned()[v.rep as int] == x,
            old(self).interned().contains(x) ==> final(self).interned() == old(self).interned(),
            !old(self).interned().contains(x) ==> final(self).interned() == old(self).interned().push(x),
    {
        match self.lookup_fact_ref(x) {
            Some(v) => v,
            None => {
                let n = self.fact_refs.len();
                self.fact_refs.push(x);
                proof {
                    assert forall|i: int, j: int|
                        0 <= i < j < self.fact_refs@.len() implies self.fact_refs@[i] != self.fact_refs@[j]
                    by {
                        if j == n as int {
                            assert(old(self).fact_refs@[i] != x);
                        }
                    }
                }
                Value::from_usize(n)
            },
        }
    }

    /// The fact reference that a value stands for.
    pub fn unwrap_fact_ref(&self, v: Value) -> (x: FactRef)
        requires
            v.rep < self.interned().len(),
        ensures
            x == self.interned()[v.rep as int],
    {
        self.fact_refs[v.rep as usize]
    }

    /// Interns an integer and returns its value.
    pub fn get_int(&mut self, x: i64) -> (v: Value)
        requires
            old(self).wf(),
            old(self).ints().len() < u32::MAX,
        ensures
            final(self).wf(),
            final(self).interned() == old(self).interned(),
            final(self).strings() == old(self).strings(),
            v.rep < final(self).ints().len(),
            final(self).ints()[v.rep as int] == x,
            old(self).ints().contains(x) ==> final(self).ints() == old(self).ints(),
            !old(self).ints().contains(x) ==> final(self).ints() == old(self).ints().push(x),
    {
        let mut i: usize = 0;
        while i < self.ints.len()
            invariant
                0 <= i <= self.ints@.len(),
                self.wf(),
                self.ints@.len() <= u32::MAX,
                forall|k: int| 0 <= k < i ==> self.ints@[k] != x,
            decreases self.ints@.len() - i,
        {
            if self.ints[i] == x {
                return Value::from_usize(i);
            }
            i = i + 1;
        }
        let n = self.ints.len();
        self.ints.push(x);
        proof {
            assert forall|i: int, j: int| 0 <= i < j < self.ints@.len() implies self.ints@[i] != self.ints@[j] by {
                if j == n as int {
                    assert(old(self).ints@[i] != x);
                }
            }
        }
        Value::from_usize(n)
    }

    /// The integer a value stands for.
    pub fn unwrap_int(&self, v: Value) -> (x: i64)
        requires
            v.rep < self.ints().len(),
        ensures
            x == self.ints()[v.rep as int],
    {
        self.ints[v.rep as usize]
    }

    /// Interns a string and returns its value.
    pub fn get_string(&mut self, x: &str) -> (v: Value)
        requires
            old(self).wf(),
            old(self).strings().len() < u32::MAX,
        ensures
            final(self).wf(),
            final(self).interned() == old(self).interned(),
            final(self).ints() == old(self).ints(),
            v.rep < final(self).strings().len(),
            final(self).strings()[v.rep as int] == x@,
            old(self).strings().contains(x@) ==> final(self).strings() == old(self).strings(),
            !old(self).strings().contains(x@) ==> final(self).strings() == old(self).strings().push(x@),
    {
        let mut i: usize = 0;
        while i < self.strings.len()
            invariant
                0 <= i <= self.strings@.len(),
                self.wf(),
                self.strings@.len() <= u32::MAX,
                forall|k: int| 0 <= k < i ==> self.strings@[k]@ != x@,
            decreases self.strings@.len() - i,
        {
            if str_eq(self.strings[i].as_str(), x) {
                assert(self.strings()[i as int] == x@);
                return Value::from_usize(i);
            }
            i = i + 1;
        }
        assert(!self.strings().contains(x@)) by {
            if self.strings().contains(x@) {
                let k = choose|k: int| 0 <= k < self.strings().len() && self.strings()[k] == x@;
                assert(self.strings@[k]@ == x@);
            }
        }
        let n = self.strings.len();
        self.strings.push(String::from_str(x));
        proof {
            assert(self.strings() =~= old(self).strings().push(x@));
            assert forall|i: int, j: int| 0 <= i < j < self.strings@.len() implies self.strings@[i]@ != self.strings@[j]@ by {
                if j == n as int {
                    assert(old(self).strings@[i]@ != x@);
                }
            }
        }
        Value::from_usize(n)
    }

    /// The number of interned strings.
    pub fn num_strings(&self) -> (n: usize)
        ensures
            n == self.strings().len(),
    {
        self.strings.len()
    }

    /// The string a value stands for.
    pub fn unwrap_string(&self, v: Value) -> (x: &String)
        requires
            v.rep < self.strings().len(),
        ensures
            x@ == self.strings()[v.rep as int],
    {
        &self.strings[v.rep as usize]
    }
}


impl BaseValues {
    /// In a well-formed table of base values no value occurs twice.
    pub proof fn lemma_unique(&self)
        requires
            self.wf(),
        ensures
            forall|i: int, j: int| 0 <= i < j < self.interned().len() ==> self.interned()[i] != self.interned()[j],
            forall|i: int, j: int| 0 <= i < j < self.ints().len() ==> self.ints()[i] != self.ints()[j],
            forall|i: int, j: int| 0 <= i < j < self.strings().len() ==> self.strings()[i] != self.strings()[j],
            self.interned().len() <= u32::MAX,
            self.ints().len() <= u32::MAX,
            self.strings().len() <= u32::MAX,
    {
    }

    /// A copy with the same interned values.
    pub fn snapshot(&self) -> (r: BaseValues)
        requires
            self.wf(),
        ensures
            r.wf(),
            r.interned() == self.interned(),
            r.ints() == self.ints(),
            r.strings() == self.strings(),
    {
        let mut fact_refs: Vec<FactRef> = Vec::new();
        let mut i: usize = 0;
        while i < self.fact_refs.len()
            invariant
                0 <= i <= self.fact_refs@.len(),
                fact_refs@ == self.fact_refs@.subrange(0, i as int),
            decreases self.fact_refs@.len() - i,
        {
            fact_refs.push(self.fact_refs[i]);
            i = i + 1;
            assert(fact_refs@ =~= self.fact_refs@.subrange(0, i as int));
        }
        let mut ints: Vec<i64> = Vec::new();
        let mut j: usize = 0;
        while j < self.ints.len()
            invariant
                0 <= j <= self.ints@.len(),
                ints@ == self.ints@.subrange(0, j as int),
            decreases self.ints@.len() - j,
        {
            ints.push(self.ints[j]);
            j = j + 1;
            assert(ints@ =~= self.ints@.subrange(0, j as int));
        }
        let mut strings: Vec<String> = Vec::new();
        let mut k: usize = 0;
        while k < self.strings.len()
            invariant
                0 <= k <= self.strings@.len(),
                strings@.len() == k,
                forall|m: int| 0 <= m < k ==> #[trigger] strings@[m]@ == self.strings@[m]@,
            decreases self.strings@.len() - k,
        {
            strings.push(self.strings[k].clone());
            k = k + 1;
        }
        assert(fact_refs@ =~= self.fact_refs@);
        assert(ints@ =~= self.ints@);
        let r = BaseValues { fact_refs, ints, strings };
        assert(r.strings() =~= self.strings());
        r
    }
}

} // verus!
