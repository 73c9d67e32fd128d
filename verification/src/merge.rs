use vstd::prelude::*;
use crate::span::Span;
use crate::ids::{TableId, Value};
use crate::names::{entry_pos, entry_value};
use crate::sorts::{CallView, ColumnTy, ExprView, ExternalFunctionId, FunctionView};
use crate::termdag::LiteralView;
use crate::values::{BaseValues, extends};

verus! {

/// How a table merges two outputs for the same key.
#[derive(Debug)]
pub enum MergeFn {
    AssertEq,
    UnionId,
    Old,
    New,
    Const(Value),
    Function(TableId, Vec<MergeFn>),
    Primitive(ExternalFunctionId, Vec<MergeFn>),
}

pub enum MergeView {
    AssertEq,
    UnionId,
    Old,
    New,
    Const(Value),
    Function(TableId, Seq<MergeView>),
    Primitive(ExternalFunctionId, Seq<MergeView>),
}

pub open spec fn merge_view(m: MergeFn) -> MergeView
    decreases m,
{
    match m {
        MergeFn::AssertEq => MergeView::AssertEq,
        MergeFn::UnionId => MergeView::UnionId,
        MergeFn::Old => MergeView::Old,
        MergeFn::New => MergeView::New,
        MergeFn::Const(v) => MergeView::Const(v),
        MergeFn::Function(t, args) => MergeView::Function(t, merges_view(args@)),
        MergeFn::Primitive(p, args) => MergeView::Primitive(p, merges_view(args@)),
    }
}

pub open spec fn merges_view(args: Seq<MergeFn>) -> Seq<MergeView>
    decreases args,
{
    if args.len() == 0 {
        Seq::empty()
    } else {
        merges_view(args.drop_last()).push(merge_view(args.last()))
    }
}

pub proof fn lemma_merges_view(args: Seq<MergeFn>)
    ensures
        merges_view(args).len() == args.len(),
        forall|k: int| 0 <= k < args.len() ==> #[trigger] merges_view(args)[k] == merge_view(args[k]),
    decreases args.len(),
{
    if args.len() > 0 {
        lemma_merges_view(args.drop_last());
    }
}

impl View for MergeFn {
    type V = MergeView;

    open spec fn view(&self) -> MergeView {
        merge_view(*self)
    }
}

impl MergeFn {
    pub fn deep_clone(&self) -> (r: Self)
        ensures
            r@ == self@,
        decreases self,
    {
        match self {
            MergeFn::AssertEq => MergeFn::AssertEq,
            MergeFn::UnionId => MergeFn::UnionId,
            MergeFn::Old => MergeFn::Old,
            MergeFn::New => MergeFn::New,
            MergeFn::Const(v) => MergeFn::Const(*v),
            MergeFn::Function(t, args) => {
                let mut out: Vec<MergeFn> = Vec::new();
                let mut i: usize = 0;
                proof {
                    lemma_merges_view(args@);
                }
                assert(decreases_to!(*self => *args));
                while i < args.len()
                    invariant
                        decreases_to!(*self => *args),
                        0 <= i <= args@.len(),
                        out@.len() == i,
                        forall|k: int| 0 <= k < i ==> #[trigger] merge_view(out@[k]) == merge_view(args@[k]),
                    decreases args@.len() - i,
                {
                    proof {
                        vstd::std_specs::vec::axiom_vec_index_decreases(*args, i as int);
                    }
                    let a = args[i].deep_clone();
                    out.push(a);
                    i = i + 1;
                }
                proof {
                    lemma_merges_view(out@);
                    assert(merges_view(out@) =~= merges_view(args@));
                }
                MergeFn::Function(*t, out)
            },
            MergeFn::Primitive(p, args) => {
                let mut out: Vec<MergeFn> = Vec::new();
                let mut i: usize = 0;
                proof {
                    lemma_merges_view(args@);
                }
                assert(decreases_to!(*self => *args));
                while i < args.len()
                    invariant
                        decreases_to!(*self => *args),
                        0 <= i <= args@.len(),
                        out@.len() == i,
                        forall|k: int| 0 <= k < i ==> #[trigger] merge_view(out@[k]) == merge_view(args@[k]),
                    decreases args@.len() - i,
                {
                    proof {
                        vstd::std_specs::vec::axiom_vec_index_decreases(*args, i as int);
                    }
                    let a = args[i].deep_clone();
                    out.push(a);
                    i = i + 1;
                }
                proof {
                    lemma_merges_view(out@);
                    assert(merges_view(out@) =~= merges_view(args@));
                }
                MergeFn::Primitive(*p, out)
            },
        }
    }
}

/// The output a table gives a key that has none.
#[derive(Clone, Copy, Debug, PartialEq, Eq, Structural)]
pub enum DefaultVal {
    FreshId,
    Fail,
    Const(Value),
}

/// How the backend is asked to create the table of a function.
#[derive(Debug)]
pub struct FunctionConfig {
    pub schema: Vec<ColumnTy>,
    pub default: DefaultVal,
    pub merge: MergeFn,
    pub name: String,
    pub can_subsume: bool,
    pub will_enable_truth_tracking: bool,
}

pub struct ConfigView {
    pub schema: Seq<ColumnTy>,
    pub default: DefaultVal,
    pub merge: MergeView,
    pub name: Seq<char>,
    pub can_subsume: bool,
    pub will_enable_truth_tracking: bool,
}

impl View for FunctionConfig {
    type V = ConfigView;

    open spec fn view(&self) -> ConfigView {
        ConfigView {
            schema: self.schema@,
            default: self.default,
            merge: self.merge@,
            name: self.name@,
            can_subsume: self.can_subsume,
            will_enable_truth_tracking: self.will_enable_truth_tracking,
        }
    }
}

impl FunctionConfig {
    pub fn snapshot(&self) -> (r: FunctionConfig)
        ensures
            r@ == self@,
    {
        FunctionConfig {
            schema: self.schema.clone(),
            default: self.default,
            merge: self.merge.deep_clone(),
            name: self.name.clone(),
            can_subsume: self.can_subsume,
            will_enable_truth_tracking: self.will_enable_truth_tracking,
        }
    }
}

/// The value `v` stands for the literal `l`.
pub open spec fn literal_value(bv: BaseValues, l: LiteralView, v: Value) -> bool {
    match l {
        LiteralView::Int(i) => v.rep < bv.ints().len() && bv.ints()[v.rep as int] as int == i,
        LiteralView::String(s) => v.rep < bv.strings().len() && bv.strings()[v.rep as int] == s,
        LiteralView::Bool(b) => v.rep == (if b { 1u32 } else { 0u32 }),
        LiteralView::Unit => v.rep == 0,
    }
}

/// The first variable other than `old` and `new` in the expression, left
/// to right.
pub open spec fn first_unbound(e: ExprView) -> Option<(Seq<char>, Span)>
    decreases e,
{
    match e {
        ExprView::Lit(_) => None,
        ExprView::Var(sp, v) => if v == "old"@ || v == "new"@ { None } else { Some((v, sp)) },
        ExprView::Call(_, args) => first_unbound_all(args),
    }
}

pub open spec fn first_unbound_all(args: Seq<ExprView>) -> Option<(Seq<char>, Span)>
    decreases args,
{
    if args.len() == 0 {
        None
    } else {
        match first_unbound_all(args.drop_last()) {
            Some(v) => Some(v),
            None => first_unbound(args.last()),
        }
    }
}

/// Every function the expression calls is declared.
pub open spec fn calls_known(names: Seq<(Seq<char>, usize)>, e: ExprView) -> bool
    decreases e,
{
    match e {
        ExprView::Lit(_) => true,
        ExprView::Var(_, _) => true,
        ExprView::Call(c, args) => (match c {
            CallView::Func(f) => entry_pos(names, f) is Some,
            CallView::Primitive(_, _) => true,
        }) && calls_known_all(names, args),
    }
}

pub open spec fn calls_known_all(names: Seq<(Seq<char>, usize)>, args: Seq<ExprView>) -> bool
    decreases args,
{
    if args.len() == 0 {
        true
    } else {
        calls_known_all(names, args.drop_last()) && calls_known(names, args.last())
    }
}

/// The number of literals in the expression.
pub open spec fn lits(e: ExprView) -> nat
    decreases e,
{
    match e {
        ExprView::Lit(_) => 1,
        ExprView::Var(_, _) => 0,
        ExprView::Call(_, args) => lits_all(args),
    }
}

pub open spec fn lits_all(args: Seq<ExprView>) -> nat
    decreases args,
{
    if args.len() == 0 {
        0
    } else {
        lits_all(args.drop_last()) + lits(args.last())
    }
}

/// `m` is the merge function that the expression `e` translates to: literals
/// become constants, `old` and `new` the two outputs, calls of functions
/// their backend tables and calls of primitives their backend ids, with the
/// arguments translated in order.
pub open spec fn translates(
    names: Seq<(Seq<char>, usize)>,
    fns: Seq<FunctionView>,
    bv: BaseValues,
    e: ExprView,
    m: MergeView,
) -> bool
    decreases e,
{
    match e {
        ExprView::Lit(l) => m is Const && literal_value(bv, l, m->Const_0),
        ExprView::Var(_, v) => (v == "old"@ && m is Old) || (v == "new"@ && m is New),
        ExprView::Call(c, args) => match c {
            CallView::Func(f) => m is Function
                && m->Function_0 == fns[entry_value(names, f)->0 as int].backend_id
                && translates_all(names, fns, bv, args, m->Function_1),
            CallView::Primitive(_, p) => m is Primitive && m->Primitive_0 == p
                && translates_all(names, fns, bv, args, m->Primitive_1),
        },
    }
}

pub open spec fn translates_all(
    names: Seq<(Seq<char>, usize)>,
    fns: Seq<FunctionView>,
    bv: BaseValues,
    args: Seq<ExprView>,
    ms: Seq<MergeView>,
) -> bool
    decreases args,
{
    if args.len() == 0 {
        ms.len() == 0
    } else {
        ms.len() == args.len()
            && translates_all(names, fns, bv, args.drop_last(), ms.drop_last())
            && translates(names, fns, bv, args.last(), ms.last())
    }
}

pub proof fn lemma_literal_value_grows(bv1: BaseValues, bv2: BaseValues, l: LiteralView, v: Value)
    requires
        literal_value(bv1, l, v),
        bv2.grows_from(&bv1),
    ensures
        literal_value(bv2, l, v),
{
    match l {
        LiteralView::Int(_) => {
            assert(bv2.ints().subrange(0, bv1.ints().len() as int)[v.rep as int] == bv2.ints()[v.rep as int]);
        },
        LiteralView::String(_) => {
            assert(bv2.strings().subrange(0, bv1.strings().len() as int)[v.rep as int] == bv2.strings()[v.rep as int]);
        },
        _ => {},
    }
}

pub proof fn lemma_translates_grows(
    names: Seq<(Seq<char>, usize)>,
    fns: Seq<FunctionView>,
    bv1: BaseValues,
    bv2: BaseValues,
    e: ExprView,
    m: MergeView,
)
    requires
        translates(names, fns, bv1, e, m),
        bv2.grows_from(&bv1),
    ensures
        translates(names, fns, bv2, e, m),
    decreases e, 1nat,
{
    match e {
        ExprView::Lit(l) => lemma_literal_value_grows(bv1, bv2, l, m->Const_0),
        ExprView::Var(_, _) => {},
        ExprView::Call(c, args) => match c {
            CallView::Func(_) => lemma_translates_all_grows(names, fns, bv1, bv2, args, m->Function_1),
            CallView::Primitive(_, _) => lemma_translates_all_grows(names, fns, bv1, bv2, args, m->Primitive_1),
        },
    }
}

pub proof fn lemma_translates_all_grows(
    names: Seq<(Seq<char>, usize)>,
    fns: Seq<FunctionView>,
    bv1: BaseValues,
    bv2: BaseValues,
    args: Seq<ExprView>,
    ms: Seq<MergeView>,
)
    requires
        translates_all(names, fns, bv1, args, ms),
        bv2.grows_from(&bv1),
    ensures
        translates_all(names, fns, bv2, args, ms),
    decreases args, 0nat,
{
    if args.len() > 0 {
        lemma_translates_all_grows(names, fns, bv1, bv2, args.drop_last(), ms.drop_last());
        lemma_translates_grows(names, fns, bv1, bv2, args.last(), ms.last());
    }
}

pub proof fn lemma_grows_trans(a: BaseValues, b: BaseValues, c: BaseValues)
    requires
        b.grows_from(&a),
        c.grows_from(&b),
    ensures
        c.grows_from(&a),
{
    assert(c.ints().subrange(0, a.ints().len() as int) =~= b.ints().subrange(0, a.ints().len() as int));
    assert(c.interned().subrange(0, a.interned().len() as int) =~= b.interned().subrange(0, a.interned().len() as int));
    assert(c.strings().subrange(0, a.strings().len() as int) =~= b.strings().subrange(0, a.strings().len() as int));
}

pub proof fn lemma_grows_refl(a: BaseValues)
    ensures
        a.grows_from(&a),
{
    assert(a.ints().subrange(0, a.ints().len() as int) =~= a.ints());
    assert(a.interned().subrange(0, a.interned().len() as int) =~= a.interned());
    assert(a.strings().subrange(0, a.strings().len() as int) =~= a.strings());
}


pub proof fn lemma_calls_known_all_at(names: Seq<(Seq<char>, usize)>, args: Seq<ExprView>, k: int)
    requires
        calls_known_all(names, args),
        0 <= k < args.len(),
    ensures
        calls_known(names, args[k]),
    decreases args.len(),
{
    if k < args.len() - 1 {
        lemma_calls_known_all_at(names, args.drop_last(), k);
        assert(args.drop_last()[k] == args[k]);
    }
}

pub proof fn lemma_take_step<T>(args: Seq<T>, k: int)
    requires
        0 <= k < args.len(),
    ensures
        args.take(k + 1).drop_last() == args.take(k),
        args.take(k + 1).last() == args[k],
        args.take(k + 1).len() == k + 1,
{
    assert(args.take(k + 1).drop_last() =~= args.take(k));
}

pub proof fn lemma_lits_mono(args: Seq<ExprView>, k: int)
    requires
        0 <= k <= args.len(),
    ensures
        lits_all(args.take(k)) <= lits_all(args),
    decreases args.len(),
{
    if k < args.len() {
        lemma_lits_mono(args.drop_last(), k);
        assert(args.drop_last().take(k) =~= args.take(k));
    } else {
        assert(args.take(k) =~= args);
    }
}

pub proof fn lemma_first_unbound_prefix(args: Seq<ExprView>, k: int)
    requires
        0 <= k <= args.len(),
        first_unbound_all(args.take(k)) is Some,
    ensures
        first_unbound_all(args) == first_unbound_all(args.take(k)),
    decreases args.len(),
{
    if k < args.len() {
        assert(args.drop_last().take(k) =~= args.take(k));
        lemma_first_unbound_prefix(args.drop_last(), k);
    } else {
        assert(args.take(k) =~= args);
    }
}

pub proof fn lemma_merges_view_push(s: Seq<MergeFn>, x: MergeFn)
    ensures
        merges_view(s.push(x)) == merges_view(s).push(merge_view(x)),
{
    assert(s.push(x).drop_last() =~= s);
}

} // verus!
