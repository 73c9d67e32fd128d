use vstd::prelude::*;
use crate::span::Span;
use crate::sorts::{ColumnTy, ExternalFunctionId};
use crate::termdag::{Literal, LiteralView, literal_eq};
use crate::text::str_eq;

verus! {

/// A term of a flattened query or action: a variable, with the column type
/// of its sort, or a literal.
#[derive(Debug)]
pub enum AtomTerm {
    Var(String, ColumnTy),
    Literal(Literal),
}

pub enum AtomTermView {
    Var(Seq<char>, ColumnTy),
    Literal(LiteralView),
}

impl View for AtomTerm {
    type V = AtomTermView;

    open spec fn view(&self) -> AtomTermView {
        match self {
            AtomTerm::Var(v, t) => AtomTermView::Var(v@, *t),
            AtomTerm::Literal(l) => AtomTermView::Literal(l@),
        }
    }
}

impl Clone for AtomTerm {
    fn clone(&self) -> (r: Self)
        ensures
            r@ == self@,
    {
        match self {
            AtomTerm::Var(v, t) => AtomTerm::Var(v.clone(), *t),
            AtomTerm::Literal(l) => AtomTerm::Literal(l.clone()),
        }
    }
}

/// Whether two terms are the same term.
pub fn atom_term_eq(a: &AtomTerm, b: &AtomTerm) -> (r: bool)
    ensures
        r == (a@ == b@),
{
    match (a, b) {
        (AtomTerm::Var(x, s), AtomTerm::Var(y, t)) => *s == *t && str_eq(x.as_str(), y.as_str()),
        (AtomTerm::Literal(x), AtomTerm::Literal(y)) => literal_eq(x, y),
        _ => false,
    }
}

/// The head of an atom: a function of the e-graph by name, or a primitive
/// with its backend id and the column type of its output.
#[derive(Debug)]
pub enum CoreCall {
    Func(String),
    Primitive(String, ExternalFunctionId, ColumnTy),
}

pub enum CoreCallView {
    Func(Seq<char>),
    Primitive(Seq<char>, ExternalFunctionId, ColumnTy),
}

impl View for CoreCall {
    type V = CoreCallView;

    open spec fn view(&self) -> CoreCallView {
        match self {
            CoreCall::Func(f) => CoreCallView::Func(f@),
            CoreCall::Primitive(p, id, t) => CoreCallView::Primitive(p@, *id, *t),
        }
    }
}

/// An atom of a query: a head applied to terms; for a function the terms
/// are its keys followed by its output, for a primitive its inputs followed
/// by its result.
#[derive(Debug)]
pub struct CoreAtom {
    pub head: CoreCall,
    pub args: Vec<AtomTerm>,
}

pub struct CoreAtomView {
    pub head: CoreCallView,
    pub args: Seq<AtomTermView>,
}

impl View for CoreAtom {
    type V = CoreAtomView;

    open spec fn view(&self) -> CoreAtomView {
        CoreAtomView { head: self.head@, args: self.args@.map_values(|t: AtomTerm| t@) }
    }
}

/// A conjunctive query.
#[derive(Debug)]
pub struct CoreQuery {
    pub atoms: Vec<CoreAtom>,
}

impl View for CoreQuery {
    type V = Seq<CoreAtomView>;

    open spec fn view(&self) -> Seq<CoreAtomView> {
        self.atoms@.map_values(|a: CoreAtom| a@)
    }
}

/// How a change action affects a row.
#[derive(Clone, Copy, Debug, PartialEq, Eq, Structural)]
pub enum Change {
    Delete,
    Subsume,
}

/// An action of a rule head, in flattened form.
#[derive(Debug)]
pub enum CoreAction {
    /// Binds a variable to the output of a function or primitive call.
    Let(String, ColumnTy, CoreCall, Vec<AtomTerm>),
    /// Binds a variable to a term.
    LetAtomTerm(String, ColumnTy, AtomTerm),
    /// Sets the output of a function for some keys.
    SetOutput(CoreCall, Vec<AtomTerm>, AtomTerm),
    /// Deletes or subsumes the row of a function for some keys.
    Change(Span, Change, CoreCall, Vec<AtomTerm>),
    /// Merges two e-classes.
    Union(AtomTerm, AtomTerm),
    /// Stops with a message.
    Panic(String),
}

pub enum CoreActionView {
    Let(Seq<char>, ColumnTy, CoreCallView, Seq<AtomTermView>),
    LetAtomTerm(Seq<char>, ColumnTy, AtomTermView),
    SetOutput(CoreCallView, Seq<AtomTermView>, AtomTermView),
    Change(Span, Change, CoreCallView, Seq<AtomTermView>),
    Union(AtomTermView, AtomTermView),
    Panic(Seq<char>),
}

pub open spec fn terms_view(ts: Seq<AtomTerm>) -> Seq<AtomTermView> {
    ts.map_values(|t: AtomTerm| t@)
}

impl View for CoreAction {
    type V = CoreActionView;

    open spec fn view(&self) -> CoreActionView {
        match self {
            CoreAction::Let(v, t, f, args) => CoreActionView::Let(v@, *t, f@, terms_view(args@)),
            CoreAction::LetAtomTerm(v, t, x) => CoreActionView::LetAtomTerm(v@, *t, x@),
            CoreAction::SetOutput(f, xs, y) => CoreActionView::SetOutput(f@, terms_view(xs@), y@),
            CoreAction::Change(sp, c, f, args) => CoreActionView::Change(*sp, *c, f@, terms_view(args@)),
            CoreAction::Union(x, y) => CoreActionView::Union(x@, y@),
            CoreAction::Panic(m) => CoreActionView::Panic(m@),
        }
    }
}

/// A list of actions.
#[derive(Debug)]
pub struct CoreActions(pub Vec<CoreAction>);

impl View for CoreActions {
    type V = Seq<CoreActionView>;

    open spec fn view(&self) -> Seq<CoreActionView> {
        self.0@.map_values(|a: CoreAction| a@)
    }
}

/// A rule in flattened form: its name, the ruleset it joins, its query,
/// its actions and where it was written.
#[derive(Debug)]
pub struct CoreRule {
    pub name: String,
    pub ruleset: String,
    pub query: CoreQuery,
    pub actions: CoreActions,
    pub span: Span,
}

/// A fact to check, in flattened form: how it is written, the function it
/// calls when it is a single call of a function, and its query.
#[derive(Debug)]
pub struct CoreFact {
    pub text: String,
    pub head: Option<String>,
    pub query: CoreQuery,
}

pub struct CoreFactView {
    pub text: Seq<char>,
    pub head: Option<Seq<char>>,
    pub query: Seq<CoreAtomView>,
}

impl View for CoreFact {
    type V = CoreFactView;

    open spec fn view(&self) -> CoreFactView {
        CoreFactView {
            text: self.text@,
            head: match self.head {
                Some(f) => Some(f@),
                None => None,
            },
            query: self.query@,
        }
    }
}

} // verus!
