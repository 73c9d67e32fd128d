use vstd::prelude::*;
use crate::span::Span;
use crate::ids::{TableId, Value};
use crate::termdag::{Literal, LiteralView};

verus! {

/// A sort: its name and whether its values are e-class ids.
#[derive(Debug)]
pub struct ArcSort {
    pub name: String,
    pub is_eq_sort: bool,
}

pub struct SortView {
    pub name: Seq<char>,
    pub is_eq_sort: bool,
}

impl View for ArcSort {
    type V = SortView;

    open spec fn view(&self) -> SortView {
        SortView { name: self.name@, is_eq_sort: self.is_eq_sort }
    }
}

impl Clone for ArcSort {
    fn clone(&self) -> (r: Self)
        ensures
            r@ == self@,
    {
        ArcSort { name: self.name.clone(), is_eq_sort: self.is_eq_sort }
    }
}

/// The type of a table column: e-class ids or base values.
#[derive(Clone, Copy, Debug, PartialEq, Eq, Structural)]
pub enum ColumnTy {
    Id,
    Base,
}

pub open spec fn spec_column_ty(s: SortView) -> ColumnTy {
    if s.is_eq_sort { ColumnTy::Id } else { ColumnTy::Base }
}

impl ArcSort {
    pub fn new(name: &str, is_eq_sort: bool) -> (s: ArcSort)
        ensures
            s@ == (SortView { name: name@, is_eq_sort }),
    {
        ArcSort { name: String::from_str(name), is_eq_sort }
    }

    pub fn name(&self) -> (r: &str)
        ensures
            r@ == self.name@,
    {
        self.name.as_str()
    }

    /// Id columns for e-class sorts, base columns for the others.
    pub fn column_ty(&self) -> (c: ColumnTy)
        ensures
            c == spec_column_ty(self@),
    {
        if self.is_eq_sort { ColumnTy::Id } else { ColumnTy::Base }
    }
}

pub fn clone_sorts(v: &Vec<ArcSort>) -> (r: Vec<ArcSort>)
    ensures
        r@.map_values(|s: ArcSort| s@) == v@.map_values(|s: ArcSort| s@),
{
    let mut r: Vec<ArcSort> = Vec::new();
    let mut i: usize = 0;
    while i < v.len()
        invariant
            0 <= i <= v@.len(),
            r@.len() == i,
            forall|k: int| 0 <= k < i ==> #[trigger] r@[k]@ == v@[k]@,
        decreases v@.len() - i,
    {
        r.push(v[i].clone());
        i = i + 1;
    }
    assert(r@.map_values(|s: ArcSort| s@) =~= v@.map_values(|s: ArcSort| s@));
    r
}

pub fn clone_strings(v: &Vec<String>) -> (r: Vec<String>)
    ensures
        r@.map_values(|s: String| s@) == v@.map_values(|s: String| s@),
{
    let mut r: Vec<String> = Vec::new();
    let mut i: usize = 0;
    while i < v.len()
        invariant
            0 <= i <= v@.len(),
            r@.len() == i,
            forall|k: int| 0 <= k < i ==> #[trigger] r@[k]@ == v@[k]@,
        decreases v@.len() - i,
    {
        r.push(v[i].clone());
        i = i + 1;
    }
    assert(r@.map_values(|s: String| s@) =~= v@.map_values(|s: String| s@));
    r
}

/// The kind of a function: constructors build e-class ids, relations
/// hold unit-valued facts, and custom functions have user-defined outputs.
#[derive(Clone, Copy, Debug, PartialEq, Eq, Structural)]
pub enum FunctionSubtype {
    Constructor,
    Relation,
    Custom,
}

/// Identifies an external function (a primitive) of the backend.
#[derive(Clone, Copy, Debug, PartialEq, Eq, Hash, Structural)]
pub struct ExternalFunctionId(pub u32);

/// The head of a call: a function of the e-graph by name, or a primitive by
/// name and backend id.
#[derive(Debug)]
pub enum ResolvedCall {
    Func(String),
    Primitive(String, ExternalFunctionId),
}

pub enum CallView {
    Func(Seq<char>),
    Primitive(Seq<char>, ExternalFunctionId),
}

impl View for ResolvedCall {
    type V = CallView;

    open spec fn view(&self) -> CallView {
        match self {
            ResolvedCall::Func(f) => CallView::Func(f@),
            ResolvedCall::Primitive(p, id) => CallView::Primitive(p@, *id),
        }
    }
}

impl Clone for ResolvedCall {
    fn clone(&self) -> (r: Self)
        ensures
            r@ == self@,
    {
        match self {
            ResolvedCall::Func(f) => ResolvedCall::Func(f.clone()),
            ResolvedCall::Primitive(p, id) => ResolvedCall::Primitive(p.clone(), *id),
        }
    }
}

/// A type-checked expression.
#[derive(Debug)]
pub enum ResolvedExpr {
    Lit(Literal),
    Var(Span, String),
    Call(ResolvedCall, Vec<ResolvedExpr>),
}

pub enum ExprView {
    Lit(LiteralView),
    Var(Span, Seq<char>),
    Call(CallView, Seq<ExprView>),
}

pub open spec fn expr_view(e: ResolvedExpr) -> ExprView
    decreases e,
{
    match e {
        ResolvedExpr::Lit(l) => ExprView::Lit(l@),
        ResolvedExpr::Var(sp, v) => ExprView::Var(sp, v@),
        ResolvedExpr::Call(c, args) => ExprView::Call(c@, exprs_view(args@)),
    }
}

pub open spec fn exprs_view(args: Seq<ResolvedExpr>) -> Seq<ExprView>
    decreases args,
{
    if args.len() == 0 {
        Seq::empty()
    } else {
        exprs_view(args.drop_last()).push(expr_view(args.last()))
    }
}

pub proof fn lemma_exprs_view(args: Seq<ResolvedExpr>)
    ensures
        exprs_view(args).len() == args.len(),
        forall|k: int| 0 <= k < args.len() ==> #[trigger] exprs_view(args)[k] == expr_view(args[k]),
    decreases args.len(),
{
    if args.len() > 0 {
        lemma_exprs_view(args.drop_last());
    }
}

impl View for ResolvedExpr {
    type V = ExprView;

    open spec fn view(&self) -> ExprView {
        expr_view(*self)
    }
}

impl ResolvedExpr {
    pub fn deep_clone(&self) -> (r: Self)
        ensures
            r@ == self@,
        decreases self,
    {
        match self {
            ResolvedExpr::Lit(l) => ResolvedExpr::Lit(l.clone()),
            ResolvedExpr::Var(sp, v) => ResolvedExpr::Var(sp.clone(), v.clone()),
            ResolvedExpr::Call(c, args) => {
                let mut out: Vec<ResolvedExpr> = Vec::new();
                let mut i: usize = 0;
                proof {
                    lemma_exprs_view(args@);
                }
                assert(decreases_to!(*self => *args));
                while i < args.len()
                    invariant
                        decreases_to!(*self => *args),
                        0 <= i <= args@.len(),
                        out@.len() == i,
                        forall|k: int| 0 <= k < i ==> #[trigger] expr_view(out@[k]) == expr_view(args@[k]),
                    decreases args@.len() - i,
                {
                    proof {
                        vstd::std_specs::vec::axiom_vec_index_decreases(*args, i as int);
                    }
                    let a = args[i].deep_clone();
                    out.push(a);
                    i = i + 1;
                }
                proof {
                    lemma_exprs_view(out@);
                    lemma_exprs_view(args@);
                    assert(exprs_view(out@) =~= exprs_view(args@));
                }
                ResolvedExpr::Call(c.clone(), out)
            },
        }
    }
}

/// The declaration of a function.
#[derive(Debug)]
pub struct FunctionDecl {
    pub name: String,
    pub subtype: FunctionSubtype,
    pub input: Vec<String>,
    pub output: String,
    pub merge: Option<ResolvedExpr>,
    pub fact_tracking: bool,
    pub span: Span,
}

pub struct DeclView {
    pub name: Seq<char>,
    pub subtype: FunctionSubtype,
    pub input: Seq<Seq<char>>,
    pub output: Seq<char>,
    pub merge: Option<ExprView>,
    pub fact_tracking: bool,
    pub span: Span,
}

impl View for FunctionDecl {
    type V = DeclView;

    open spec fn view(&self) -> DeclView {
        DeclView {
            name: self.name@,
            subtype: self.subtype,
            input: self.input@.map_values(|s: String| s@),
            output: self.output@,
            merge: match self.merge {
                Some(e) => Some(e@),
                None => None,
            },
            fact_tracking: self.fact_tracking,
            span: self.span,
        }
    }
}

impl Clone for FunctionDecl {
    fn clone(&self) -> (r: Self)
        ensures
            r@ == self@,
    {
        let merge = match &self.merge {
            Some(e) => Some(e.deep_clone()),
            None => None,
        };
        FunctionDecl {
            name: self.name.clone(),
            subtype: self.subtype,
            input: clone_strings(&self.input),
            output: self.output.clone(),
            merge,
            fact_tracking: self.fact_tracking,
            span: self.span.clone(),
        }
    }
}

/// The sorts of a function's inputs and of its output.
#[derive(Debug)]
pub struct ResolvedSchema {
    pub input: Vec<ArcSort>,
    pub output: ArcSort,
}

pub struct SchemaView {
    pub input: Seq<SortView>,
    pub output: SortView,
}

impl View for ResolvedSchema {
    type V = SchemaView;

    open spec fn view(&self) -> SchemaView {
        SchemaView { input: self.input@.map_values(|s: ArcSort| s@), output: self.output@ }
    }
}

impl Clone for ResolvedSchema {
    fn clone(&self) -> (r: Self)
        ensures
            r@ == self@,
    {
        ResolvedSchema { input: clone_sorts(&self.input), output: self.output.clone() }
    }
}

impl ResolvedSchema {
    /// The sort at position `index`, counting the output as the position
    /// after the last input.
    pub fn get_by_pos(&self, index: usize) -> (r: Option<&ArcSort>)
        ensures
            index == self.input@.len() ==> r == Some(&self.output),
            index < self.input@.len() ==> r == Some(&self.input@[index as int]),
            index > self.input@.len() ==> r is None,
    {
        if self.input.len() == index {
            Some(&self.output)
        } else if index < self.input.len() {
            Some(&self.input[index])
        } else {
            None
        }
    }
}

/// A function of the e-graph: its declaration, its resolved schema,
/// whether it supports subsumption, and the backend table it lives in.
#[derive(Debug)]
pub struct Function {
    pub(crate) decl: FunctionDecl,
    pub(crate) schema: ResolvedSchema,
    pub(crate) can_subsume: bool,
    pub(crate) backend_id: TableId,
}

pub struct FunctionView {
    pub decl: DeclView,
    pub schema: SchemaView,
    pub can_subsume: bool,
    pub backend_id: TableId,
}

impl View for Function {
    type V = FunctionView;

    closed spec fn view(&self) -> FunctionView {
        FunctionView {
            decl: self.decl@,
            schema: self.schema@,
            can_subsume: self.can_subsume,
            backend_id: self.backend_id,
        }
    }
}

impl Clone for Function {
    fn clone(&self) -> (r: Self)
        ensures
            r@ == self@,
    {
        Function {
            decl: self.decl.clone(),
            schema: self.schema.clone(),
            can_subsume: self.can_subsume,
            backend_id: self.backend_id,
        }
    }
}

impl Function {
    pub(crate) fn new(decl: FunctionDecl, schema: ResolvedSchema, can_subsume: bool, backend_id: TableId) -> (f: Function)
        ensures
            f@ == (FunctionView { decl: decl@, schema: schema@, can_subsume, backend_id }),
    {
        Function { decl, schema, can_subsume, backend_id }
    }

    /// The name of the function.
    pub fn name(&self) -> (r: &str)
        ensures
            r@ == self@.decl.name,
    {
        self.decl.name.as_str()
    }

    /// The schema of the function.
    pub fn schema(&self) -> (r: &ResolvedSchema)
        ensures
            r@ == self@.schema,
    {
        &self.schema
    }

    /// Whether the function supports subsumption.
    pub fn can_subsume(&self) -> (r: bool)
        ensures
            r == self@.can_subsume,
    {
        self.can_subsume
    }

    /// The backend table of the function.
    pub fn backend_id(&self) -> (r: TableId)
        ensures
            r == self@.backend_id,
    {
        self.backend_id
    }

    /// Whether the function tracks facts.
    pub fn fact_tracking(&self) -> (r: bool)
        ensures
            r == self@.decl.fact_tracking,
    {
        self.decl.fact_tracking
    }

    pub fn subtype(&self) -> (r: FunctionSubtype)
        ensures
            r == self@.decl.subtype,
    {
        self.decl.subtype
    }
}

} // verus!
