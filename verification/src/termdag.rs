use vstd::prelude::*;
use crate::text::{push_char, push_int, push_str, int_str, str_eq};

verus! {

/// A literal constant.
#[derive(Debug)]
pub enum Literal {
    Int(i64),
    String(String),
    Bool(bool),
    Unit,
}

pub enum LiteralView {
    Int(int),
    String(Seq<char>),
    Bool(bool),
    Unit,
}

impl View for Literal {
    type V = LiteralView;

    open spec fn view(&self) -> LiteralView {
        match self {
            Literal::Int(i) => LiteralView::Int(*i as int),
            Literal::String(s) => LiteralView::String(s@),
            Literal::Bool(b) => LiteralView::Bool(*b),
            Literal::Unit => LiteralView::Unit,
        }
    }
}

impl Clone for Literal {
    fn clone(&self) -> (r: Self)
        ensures
            r == *self,
    {
        match self {
            Literal::Int(i) => Literal::Int(*i),
            Literal::String(s) => Literal::String(s.clone()),
            Literal::Bool(b) => Literal::Bool(*b),
            Literal::Unit => Literal::Unit,
        }
    }
}

/// How a literal is written: integers in decimal, strings in double
/// quotes, booleans as `true`/`false`, and the unit value as `()`.
pub open spec fn literal_str(l: LiteralView) -> Seq<char> {
    match l {
        LiteralView::Int(i) => int_str(i),
        LiteralView::String(s) => seq!['"'] + s + seq!['"'],
        LiteralView::Bool(b) => if b { seq!['t', 'r', 'u', 'e'] } else { seq!['f', 'a', 'l', 's', 'e'] },
        LiteralView::Unit => seq!['(', ')'],
    }
}

/// Appends the written form of a literal.
pub fn push_literal(s: &mut String, l: &Literal)
    ensures
        final(s)@ == old(s)@ + literal_str(l@),
{
    match l {
        Literal::Int(i) => push_int(s, *i),
        Literal::String(t) => {
            push_char(s, '"');
            push_str(s, t.as_str());
            push_char(s, '"');
            assert(final(s)@ =~= old(s)@ + literal_str(l@));
        },
        Literal::Bool(b) => {
            if *b {
                push_char(s, 't');
                push_char(s, 'r');
                push_char(s, 'u');
                push_char(s, 'e');
            } else {
                push_char(s, 'f');
                push_char(s, 'a');
                push_char(s, 'l');
                push_char(s, 's');
                push_char(s, 'e');
            }
            assert(final(s)@ =~= old(s)@ + literal_str(l@));
        },
        Literal::Unit => {
            push_char(s, '(');
            push_char(s, ')');
            assert(final(s)@ =~= old(s)@ + literal_str(l@));
        },
    }
}

pub fn literal_eq(a: &Literal, b: &Literal) -> (r: bool)
    ensures
        r == (a@ == b@),
{
    match (a, b) {
        (Literal::Int(x), Literal::Int(y)) => *x == *y,
        (Literal::String(x), Literal::String(y)) => str_eq(x.as_str(), y.as_str()),
        (Literal::Bool(x), Literal::Bool(y)) => *x == *y,
        (Literal::Unit, Literal::Unit) => true,
        _ => false,
    }
}

/// Identifies a node of a term dag: its position.
pub type TermId = usize;

/// A term whose children are nodes of a term dag.
#[derive(Debug)]
pub enum Term {
    Lit(Literal),
    Var(String),
    App(String, Vec<TermId>),
}

pub enum TermView {
    Lit(LiteralView),
    Var(Seq<char>),
    App(Seq<char>, Seq<TermId>),
}

impl View for Term {
    type V = TermView;

    open spec fn view(&self) -> TermView {
        match self {
            Term::Lit(l) => TermView::Lit(l@),
            Term::Var(v) => TermView::Var(v@),
            Term::App(f, ch) => TermView::App(f@, ch@),
        }
    }
}

impl Clone for Term {
    fn clone(&self) -> (r: Self)
        ensures
            r@ == self@,
    {
        match self {
            Term::Lit(l) => Term::Lit(l.clone()),
            Term::Var(v) => Term::Var(v.clone()),
            Term::App(f, ch) => Term::App(f.clone(), ch.clone()),
        }
    }
}

fn ids_eq(a: &Vec<TermId>, b: &Vec<TermId>) -> (r: bool)
    ensures
        r == (a@ == b@),
{
    if a.len() != b.len() {
        return false;
    }
    let mut i: usize = 0;
    while i < a.len()
        invariant
            0 <= i <= a@.len(),
            a@.len() == b@.len(),
            forall|k: int| 0 <= k < i ==> a@[k] == b@[k],
        decreases a@.len() - i,
    {
        if a[i] != b[i] {
            return false;
        }
        i = i + 1;
    }
    assert(a@ =~= b@);
    true
}

pub fn term_eq(a: &Term, b: &Term) -> (r: bool)
    ensures
        r == (a@ == b@),
{
    match (a, b) {
        (Term::Lit(x), Term::Lit(y)) => literal_eq(x, y),
        (Term::Var(x), Term::Var(y)) => str_eq(x.as_str(), y.as_str()),
        (Term::App(f, x), Term::App(g, y)) => str_eq(f.as_str(), g.as_str()) && ids_eq(x, y),
        _ => false,
    }
}

/// The number of children of node `i`.
pub open spec fn arity(nodes: Seq<TermView>, i: int) -> nat {
    match nodes[i] {
        TermView::App(_, ch) => ch.len(),
        _ => 0,
    }
}

/// The written form of node `i`: literals and variables as themselves,
/// applications as `(f c1 c2 ...)`.
pub open spec fn node_str(nodes: Seq<TermView>, i: int) -> Seq<char>
    decreases i, arity(nodes, i) + 1,
{
    if 0 <= i < nodes.len() {
        match nodes[i] {
            TermView::Lit(l) => literal_str(l),
            TermView::Var(v) => v,
            TermView::App(f, ch) => seq!['('] + f + args_str(nodes, ch, i) + seq![')'],
        }
    } else {
        Seq::empty()
    }
}

/// Each child, preceded by a space, in order; only children below `bound`
/// are written.
pub open spec fn args_str(nodes: Seq<TermView>, ch: Seq<TermId>, bound: int) -> Seq<char>
    decreases bound, ch.len(),
{
    if ch.len() == 0 {
        Seq::empty()
    } else {
        let c = ch.last() as int;
        args_str(nodes, ch.drop_last(), bound) + if 0 <= c < bound {
            seq![' '] + node_str(nodes, c)
        } else {
            Seq::empty()
        }
    }
}

/// The written form of a term over the nodes of a dag.
pub open spec fn term_str(nodes: Seq<TermView>, t: TermView) -> Seq<char> {
    match t {
        TermView::Lit(l) => literal_str(l),
        TermView::Var(v) => v,
        TermView::App(f, ch) => seq!['('] + f + args_str(nodes, ch, nodes.len() as int) + seq![')'],
    }
}

/// Every child of an application refers to an earlier node.
pub open spec fn children_below(t: TermView, bound: int) -> bool {
    match t {
        TermView::App(_, ch) => forall|k: int| 0 <= k < ch.len() ==> #[trigger] ch[k] < bound,
        _ => true,
    }
}

/// A set of terms, hash-consed: equal terms share one node.
#[derive(Debug)]
pub struct TermDag {
    nodes: Vec<Term>,
}

impl View for TermDag {
    type V = Seq<TermView>;

    closed spec fn view(&self) -> Seq<TermView> {
        self.nodes@.map_values(|t: Term| t@)
    }
}

impl TermDag {
    /// Nodes are distinct and children precede their parents.
    pub open spec fn wf(&self) -> bool {
        &&& forall|i: int, j: int| 0 <= i < j < self@.len() ==> self@[i] != self@[j]
        &&& forall|i: int| 0 <= i < self@.len() ==> children_below(#[trigger] self@[i], i)
    }

    pub fn new() -> (d: TermDag)
        ensures
            d.wf(),
            d@ == Seq::<TermView>::empty(),
    {
        let d = TermDag { nodes: Vec::new() };
        assert(d@ =~= Seq::<TermView>::empty());
        d
    }

    pub fn len(&self) -> (n: usize)
        ensures
            n == self@.len(),
    {
        self.nodes.len()
    }

    /// The node with the given id.
    pub fn get(&self, id: TermId) -> (t: &Term)
        requires
            id < self@.len(),
        ensures
            t@ == self@[id as int],
    {
        &self.nodes[id]
    }

    /// The id of a term that is a node of the dag, if it is one.
    pub fn find(&self, t: &Term) -> (r: Option<TermId>)
        requires
            self.wf(),
        ensures
            r matches Some(i) ==> i < self@.len() && self@[i as int] == t@,
            r is None ==> !self@.contains(t@),
    {
        let mut i: usize = 0;
        while i < self.nodes.len()
            invariant
                0 <= i <= self.nodes@.len(),
                self@ == self.nodes@.map_values(|t: Term| t@),
                forall|k: int| 0 <= k < i ==> self@[k] != t@,
            decreases self.nodes@.len() - i,
        {
            if term_eq(&self.nodes[i], t) {
                return Some(i);
            }
            i = i + 1;
        }
        None
    }

    /// The id of a term of the dag; the term must be one of its nodes.
    pub fn lookup(&self, t: &Term) -> (id: TermId)
        requires
            self.wf(),
            self@.contains(t@),
        ensures
            id < self@.len(),
            self@[id as int] == t@,
    {
        match self.find(t) {
            Some(i) => i,
            None => {
                assert(false);
                0
            },
        }
    }

    /// Adds a term whose children are nodes, unless an equal node exists;
    /// returns its id.
    pub fn add_node(&mut self, t: &Term) -> (id: TermId)
        requires
            old(self).wf(),
            children_below(t@, old(self)@.len() as int),
        ensures
            final(self).wf(),
            id < final(self)@.len(),
            final(self)@[id as int] == t@,
            old(self)@.contains(t@) ==> final(self)@ == old(self)@,
            !old(self)@.contains(t@) ==> final(self)@ == old(self)@.push(t@),
    {
        match self.find(t) {
            Some(i) => i,
            None => {
                let n = self.nodes.len();
                self.nodes.push(t.clone());
                assert(self@ =~= old(self)@.push(t@));
                proof {
                    assert forall|i: int| 0 <= i < self@.len() implies children_below(#[trigger] self@[i], i) by {
                        if i < n as int {
                            assert(children_below(old(self)@[i], i));
                        }
                    }
                    assert forall|i: int, j: int| 0 <= i < j < self@.len() implies self@[i] != self@[j] by {
                        if j == n as int {
                            assert(old(self)@[i] != t@);
                        }
                    }
                }
                n
            },
        }
    }

    /// A literal term, added to the dag.
    pub fn lit(&mut self, l: Literal) -> (t: Term)
        requires
            old(self).wf(),
        ensures
            final(self).wf(),
            t@ == TermView::Lit(l@),
            final(self)@.contains(t@),
            old(self)@.contains(t@) ==> final(self)@ == old(self)@,
            !old(self)@.contains(t@) ==> final(self)@ == old(self)@.push(t@),
    {
        let t = Term::Lit(l);
        let id = self.add_node(&t);
        assert(self@[id as int] == t@);
        t
    }

    /// A variable term, added to the dag.
    pub fn var(&mut self, name: String) -> (t: Term)
        requires
            old(self).wf(),
        ensures
            final(self).wf(),
            t@ == TermView::Var(name@),
            final(self)@.contains(t@),
            old(self)@.contains(t@) ==> final(self)@ == old(self)@,
            !old(self)@.contains(t@) ==> final(self)@ == old(self)@.push(t@),
    {
        let t = Term::Var(name);
        let id = self.add_node(&t);
        assert(self@[id as int] == t@);
        t
    }

    /// An application of `sym` to terms of the dag, added to the dag; its
    /// children are the ids of those terms.
    pub fn app(&mut self, sym: String, children: Vec<Term>) -> (t: Term)
        requires
            old(self).wf(),
            forall|k: int| 0 <= k < children@.len() ==> old(self)@.contains(#[trigger] children@[k]@),
        ensures
            final(self).wf(),
            t@ is App,
            t@->App_0 == sym@,
            t@->App_1.len() == children@.len(),
            forall|k: int| 0 <= k < children@.len() ==> #[trigger] old(self)@[t@->App_1[k] as int] == children@[k]@
                && t@->App_1[k] < old(self)@.len(),
            final(self)@.contains(t@),
            old(self)@.contains(t@) ==> final(self)@ == old(self)@,
            !old(self)@.contains(t@) ==> final(self)@ == old(self)@.push(t@),
    {
        let mut ids: Vec<TermId> = Vec::new();
        let mut k: usize = 0;
        while k < children.len()
            invariant
                0 <= k <= children@.len(),
                self.wf(),
                self@ == old(self)@,
                ids@.len() == k,
                forall|j: int| 0 <= j < children@.len() ==> self@.contains(#[trigger] children@[j]@),
                forall|j: int| 0 <= j < k ==> #[trigger] self@[ids@[j] as int] == children@[j]@ && ids@[j] < self@.len(),
            decreases children@.len() - k,
        {
            let id = self.lookup(&children[k]);
            ids.push(id);
            k = k + 1;
        }
        let t = Term::App(sym, ids);
        assert(children_below(t@, self@.len() as int)) by {
            assert forall|j: int| 0 <= j < t@->App_1.len() implies #[trigger] t@->App_1[j] < self@.len() by {
                assert(self@[ids@[j] as int] == children@[j]@);
            }
        }
        let id = self.add_node(&t);
        assert(self@[id as int] == t@);
        t
    }
}


impl TermDag {
    /// Appends ` c` for each child `c`, in order.
    fn push_args(&self, s: &mut String, ch: &Vec<TermId>, bound: usize)
        requires
            self.wf(),
            bound <= self@.len(),
            forall|k: int| 0 <= k < ch@.len() ==> #[trigger] ch@[k] < bound,
        ensures
            final(s)@ == old(s)@ + args_str(self@, ch@, bound as int),
        decreases bound, ch@.len(),
    {
        let mut k: usize = 0;
        while k < ch.len()
            invariant
                0 <= k <= ch@.len(),
                self.wf(),
                bound <= self@.len(),
                forall|j: int| 0 <= j < ch@.len() ==> #[trigger] ch@[j] < bound,
                s@ == old(s)@ + args_str(self@, ch@.take(k as int), bound as int),
            decreases ch@.len() - k,
        {
            let c = ch[k];
            push_char(s, ' ');
            self.push_node(s, c);
            proof {
                let t = ch@.take(k + 1);
                assert(t.drop_last() =~= ch@.take(k as int));
                assert(t.last() == c);
                assert(s@ =~= old(s)@ + args_str(self@, t, bound as int));
            }
            k = k + 1;
        }
        assert(ch@.take(ch@.len() as int) =~= ch@);
    }

    /// Appends the written form of node `i`.
    fn push_node(&self, s: &mut String, i: TermId)
        requires
            self.wf(),
            i < self@.len(),
        ensures
            final(s)@ == old(s)@ + node_str(self@, i as int),
        decreases i, arity(self@, i as int) + 1,
    {
        assert(children_below(self@[i as int], i as int));
        match &self.nodes[i] {
            Term::Lit(l) => push_literal(s, l),
            Term::Var(v) => push_str(s, v.as_str()),
            Term::App(f, ch) => {
                push_char(s, '(');
                push_str(s, f.as_str());
                assert(self@[i as int] == TermView::App(f@, ch@));
                assert forall|k: int| 0 <= k < ch@.len() implies #[trigger] ch@[k] < i by {
                    assert(self@[i as int]->App_1[k] == ch@[k]);
                }
                self.push_args(s, ch, i);
                push_char(s, ')');
                assert(final(s)@ =~= old(s)@ + node_str(self@, i as int));
            },
        }
    }

    /// The written form of a term whose children are nodes of the dag.
    pub fn to_string(&self, t: &Term) -> (r: String)
        requires
            self.wf(),
            children_below(t@, self@.len() as int),
        ensures
            r@ == term_str(self@, t@),
    {
        let mut s = String::new();
        match t {
            Term::Lit(l) => push_literal(&mut s, l),
            Term::Var(v) => push_str(&mut s, v.as_str()),
            Term::App(f, ch) => {
                push_char(&mut s, '(');
                push_str(&mut s, f.as_str());
                assert forall|k: int| 0 <= k < ch@.len() implies #[trigger] ch@[k] < self@.len() by {
                    assert(t@->App_1[k] == ch@[k]);
                }
                self.push_args(&mut s, ch, self.nodes.len());
                push_char(&mut s, ')');
            },
        }
        assert(s@ =~= term_str(self@, t@));
        s
    }
}

} // verus!
