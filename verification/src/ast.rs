//! The abstract syntax of Adder programs, and its mathematical view.
use vstd::prelude::*;

verus! {

/// Operators of one argument.
#[derive(Clone, Copy, Debug, PartialEq, Eq, Structural)]
pub enum Op1 {
    Add1,
    Sub1,
    Negate,
    IsNum,
    IsBool,
    Print,
}

/// Operators of two arguments.
#[derive(Clone, Copy, Debug, PartialEq, Eq, Structural)]
pub enum Op2 {
    Plus,
    Minus,
    Times,
    Less,
    Greater,
    LessEq,
    GreaterEq,
    Equal,
}

/// An expression.
#[derive(Debug)]
pub enum Expr {
    Num(i32),
    Bool(bool),
    Input,
    Id(String),
    Let(Vec<(String, Expr)>, Box<Expr>),
    UnOp(Op1, Box<Expr>),
    BinOp(Op2, Box<Expr>, Box<Expr>),
    If(Box<Expr>, Box<Expr>, Box<Expr>),
    Block(Vec<Expr>),
    Loop(Box<Expr>),
    Break(Box<Expr>),
    Assign(String, Box<Expr>),
    Call(String, Vec<Expr>),
}

/// A function definition.
#[derive(Debug)]
pub struct Definition {
    pub name: String,
    pub params: Vec<String>,
    pub body: Expr,
}

/// A program: function definitions and the main expression.
#[derive(Debug)]
pub struct Program {
    pub defns: Vec<Definition>,
    pub main: Expr,
}

/// The mathematical value of an [`Expr`]: names are character sequences and
/// lists are sequences.
pub enum ExprV {
    Num(i32),
    Bool(bool),
    Input,
    Id(Seq<char>),
    Let(Seq<(Seq<char>, ExprV)>, Box<ExprV>),
    UnOp(Op1, Box<ExprV>),
    BinOp(Op2, Box<ExprV>, Box<ExprV>),
    If(Box<ExprV>, Box<ExprV>, Box<ExprV>),
    Block(Seq<ExprV>),
    Loop(Box<ExprV>),
    Break(Box<ExprV>),
    Assign(Seq<char>, Box<ExprV>),
    Call(Seq<char>, Seq<ExprV>),
}

/// The mathematical value of a [`Definition`].
pub struct DefinitionV {
    pub name: Seq<char>,
    pub params: Seq<Seq<char>>,
    pub body: ExprV,
}

/// The mathematical value of a [`Program`].
pub struct ProgramV {
    pub defns: Seq<DefinitionV>,
    pub main: ExprV,
}

pub open spec fn expr_view(e: Expr) -> ExprV
    decreases e,
{
    match e {
        Expr::Num(n) => ExprV::Num(n),
        Expr::Bool(b) => ExprV::Bool(b),
        Expr::Input => ExprV::Input,
        Expr::Id(s) => ExprV::Id(s@),
        Expr::Let(bs, body) => ExprV::Let(binds_view(bs@), Box::new(expr_view(*body))),
        Expr::UnOp(op, x) => ExprV::UnOp(op, Box::new(expr_view(*x))),
        Expr::BinOp(op, x, y) => ExprV::BinOp(op, Box::new(expr_view(*x)), Box::new(expr_view(*y))),
        Expr::If(c, t, f) => ExprV::If(
            Box::new(expr_view(*c)),
            Box::new(expr_view(*t)),
            Box::new(expr_view(*f)),
        ),
        Expr::Block(es) => ExprV::Block(exprs_view(es@)),
        Expr::Loop(x) => ExprV::Loop(Box::new(expr_view(*x))),
        Expr::Break(x) => ExprV::Break(Box::new(expr_view(*x))),
        Expr::Assign(s, x) => ExprV::Assign(s@, Box::new(expr_view(*x))),
        Expr::Call(f, args) => ExprV::Call(f@, exprs_view(args@)),
    }
}

pub open spec fn exprs_view(es: Seq<Expr>) -> Seq<ExprV>
    decreases es,
{
    if es.len() == 0 {
        Seq::empty()
    } else {
        exprs_view(es.drop_last()).push(expr_view(es.last()))
    }
}

pub open spec fn binds_view(bs: Seq<(String, Expr)>) -> Seq<(Seq<char>, ExprV)>
    decreases bs,
{
    if bs.len() == 0 {
        Seq::empty()
    } else {
        binds_view(bs.drop_last()).push((bs.last().0@, expr_view(bs.last().1)))
    }
}

pub open spec fn names_view(ns: Seq<String>) -> Seq<Seq<char>> {
    ns.map_values(|n: String| n@)
}

pub open spec fn defns_view(ds: Seq<Definition>) -> Seq<DefinitionV> {
    ds.map_values(|d: Definition| d@)
}

impl View for Expr {
    type V = ExprV;

    open spec fn view(&self) -> ExprV {
        expr_view(*self)
    }
}

impl View for Definition {
    type V = DefinitionV;

    open spec fn view(&self) -> DefinitionV {
        DefinitionV { name: self.name@, params: names_view(self.params@), body: self.body@ }
    }
}

impl View for Program {
    type V = ProgramV;

    open spec fn view(&self) -> ProgramV {
        ProgramV { defns: defns_view(self.defns@), main: self.main@ }
    }
}

/// The view of a sequence of expressions has the same length and the view of
/// each element.
pub proof fn lemma_exprs_view(es: Seq<Expr>)
    ensures
        exprs_view(es).len() == es.len(),
        forall|i: int| 0 <= i < es.len() ==> #[trigger] exprs_view(es)[i] == expr_view(es[i]),
    decreases es.len(),
{
    if es.len() > 0 {
        lemma_exprs_view(es.drop_last());
    }
}

/// The view of a sequence of bindings has the same length and the view of
/// each element.
pub proof fn lemma_binds_view(bs: Seq<(String, Expr)>)
    ensures
        binds_view(bs).len() == bs.len(),
        forall|i: int|
            0 <= i < bs.len() ==> #[trigger] binds_view(bs)[i] == (bs[i].0@, expr_view(bs[i].1)),
    decreases bs.len(),
{
    if bs.len() > 0 {
        lemma_binds_view(bs.drop_last());
    }
}

/// Pushing an expression pushes its view.
pub proof fn lemma_exprs_view_push(es: Seq<Expr>, e: Expr)
    ensures
        exprs_view(es.push(e)) == exprs_view(es).push(expr_view(e)),
{
    assert(es.push(e).drop_last() =~= es);
}

/// Pushing a binding pushes its view.
pub proof fn lemma_binds_view_push(bs: Seq<(String, Expr)>, b: (String, Expr))
    ensures
        binds_view(bs.push(b)) == binds_view(bs).push((b.0@, expr_view(b.1))),
{
    assert(bs.push(b).drop_last() =~= bs);
}

} // verus!
