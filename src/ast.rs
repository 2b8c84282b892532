use vstd::prelude::*;

use crate::loc::Loc;

verus! {

broadcast use vstd::std_specs::vec::group_vec_axioms;

/// Unary operators.
#[derive(Debug, Clone, Copy, PartialEq, Eq, Structural, Hash)]
pub enum UniOpKind {
    Plus,
    Minus,
}

/// Binary operators.
#[derive(Debug, Clone, Copy, PartialEq, Eq, Structural, Hash)]
pub enum BinOpKind {
    Add,
    Sub,
    Mul,
    Div,
}

/// The shape of a syntax tree node; each node owns its children.
#[derive(Debug, PartialEq, Eq)]
pub enum AstKind {
    Num(usize),
    Variable(String),
    Decl { lhs: Box<Ast>, rhs: Box<Ast> },
    UniOp { op: UniOpKind, node: Box<Ast> },
    BinOp { op: BinOpKind, lhs: Box<Ast>, rhs: Box<Ast> },
    If { cond: Box<Ast>, then: Box<Ast>, els: Option<Box<Ast>> },
    CompStmt { stmts: Vec<Ast> },
    Assignment { lhs: Box<Ast>, rhs: Box<Ast> },
    Return { expr: Box<Ast> },
}

/// A syntax tree node with the span of source text it covers.
#[derive(Debug, PartialEq, Eq)]
pub struct Ast {
    pub value: AstKind,
    pub loc: Loc,
}

/// The mathematical model of a syntax tree: a block holds a sequence.
pub enum NodeKind {
    Num(usize),
    Variable(String),
    Decl { lhs: Box<Node>, rhs: Box<Node> },
    UniOp { op: UniOpKind, node: Box<Node> },
    BinOp { op: BinOpKind, lhs: Box<Node>, rhs: Box<Node> },
    If { cond: Box<Node>, then: Box<Node>, els: Option<Box<Node>> },
    CompStmt { stmts: Seq<Node> },
    Assignment { lhs: Box<Node>, rhs: Box<Node> },
    Return { expr: Box<Node> },
}

/// The model of an annotated node.
pub struct Node {
    pub kind: NodeKind,
    pub loc: Loc,
}

impl Ast {
    pub open spec fn view(&self) -> Node
        decreases self, 0nat,
    {
        Node {
            kind: match self.value {
                AstKind::Num(n) => NodeKind::Num(n),
                AstKind::Variable(s) => NodeKind::Variable(s),
                AstKind::Decl { lhs, rhs } => NodeKind::Decl {
                    lhs: Box::new(lhs.view()),
                    rhs: Box::new(rhs.view()),
                },
                AstKind::UniOp { op, node } => NodeKind::UniOp { op, node: Box::new(node.view()) },
                AstKind::BinOp { op, lhs, rhs } => NodeKind::BinOp {
                    op,
                    lhs: Box::new(lhs.view()),
                    rhs: Box::new(rhs.view()),
                },
                AstKind::If { cond, then, els } => NodeKind::If {
                    cond: Box::new(cond.view()),
                    then: Box::new(then.view()),
                    els: match els {
                        Some(e) => Some(Box::new(e.view())),
                        None => None,
                    },
                },
                AstKind::CompStmt { stmts } => NodeKind::CompStmt {
                    stmts: view_prefix(stmts@, stmts@.len()),
                },
                AstKind::Assignment { lhs, rhs } => NodeKind::Assignment {
                    lhs: Box::new(lhs.view()),
                    rhs: Box::new(rhs.view()),
                },
                AstKind::Return { expr } => NodeKind::Return { expr: Box::new(expr.view()) },
            },
            loc: self.loc,
        }
    }
}

/// The models of the first `n` nodes of `s`.
pub open spec fn view_prefix(s: Seq<Ast>, n: nat) -> Seq<Node>
    decreases s, n,
{
    if n == 0 || n > s.len() {
        Seq::empty()
    } else {
        view_prefix(s, (n - 1) as nat).push(s[n - 1].view())
    }
}

/// The models of all nodes of `s`, in order.
pub open spec fn views(s: Seq<Ast>) -> Seq<Node> {
    view_prefix(s, s.len())
}

pub proof fn lemma_view_prefix(s: Seq<Ast>, n: nat)
    requires
        n <= s.len(),
    ensures
        view_prefix(s, n).len() == n,
        forall|i: int| 0 <= i < n ==> #[trigger] view_prefix(s, n)[i] == s[i].view(),
    decreases n,
{
    if n > 0 {
        lemma_view_prefix(s, (n - 1) as nat);
    }
}

/// The models of a sequence of nodes are the nodes' models, one for one.
pub proof fn lemma_views(s: Seq<Ast>)
    ensures
        views(s).len() == s.len(),
        forall|i: int| 0 <= i < s.len() ==> #[trigger] views(s)[i] == s[i].view(),
{
    lemma_view_prefix(s, s.len());
}

impl Ast {
    pub fn new(value: AstKind, loc: Loc) -> (r: Ast)
        ensures
            r == (Ast { value, loc }),
    {
        Ast { value, loc }
    }

    pub fn num(n: usize, loc: Loc) -> (r: Ast)
        ensures
            r == (Ast { value: AstKind::Num(n), loc }),
            r@ == (Node { kind: NodeKind::Num(n), loc }),
    {
        Ast::new(AstKind::Num(n), loc)
    }

    pub fn variable(var: String, loc: Loc) -> (r: Ast)
        ensures
            r == (Ast { value: AstKind::Variable(var), loc }),
            r@ == (Node { kind: NodeKind::Variable(var), loc }),
    {
        Ast::new(AstKind::Variable(var), loc)
    }

    pub fn uniop(op: UniOpKind, e: Ast, loc: Loc) -> (r: Ast)
        ensures
            r == (Ast { value: AstKind::UniOp { op, node: Box::new(e) }, loc }),
            r@ == (Node { kind: NodeKind::UniOp { op, node: Box::new(e@) }, loc }),
    {
        Ast::new(AstKind::UniOp { op, node: Box::new(e) }, loc)
    }

    pub fn binop(op: BinOpKind, lhs: Ast, rhs: Ast, loc: Loc) -> (r: Ast)
        ensures
            r == (Ast { value: AstKind::BinOp { op, lhs: Box::new(lhs), rhs: Box::new(rhs) }, loc }),
            r@ == (Node {
                kind: NodeKind::BinOp { op, lhs: Box::new(lhs@), rhs: Box::new(rhs@) },
                loc,
            }),
    {
        Ast::new(AstKind::BinOp { op, lhs: Box::new(lhs), rhs: Box::new(rhs) }, loc)
    }

    pub fn assignment(lhs: Ast, rhs: Ast, loc: Loc) -> (r: Ast)
        ensures
            r == (Ast { value: AstKind::Assignment { lhs: Box::new(lhs), rhs: Box::new(rhs) }, loc }),
            r@ == (Node {
                kind: NodeKind::Assignment { lhs: Box::new(lhs@), rhs: Box::new(rhs@) },
                loc,
            }),
    {
        Ast::new(AstKind::Assignment { lhs: Box::new(lhs), rhs: Box::new(rhs) }, loc)
    }
}

} // verus!

verus! {

/// Models of a sequence extended by one node.
pub proof fn lemma_views_push(s: Seq<Ast>, a: Ast)
    ensures
        views(s.push(a)) == views(s).push(a@),
{
    lemma_views(s);
    lemma_views(s.push(a));
    assert(views(s.push(a)) =~= views(s).push(a@));
}

} // verus!
