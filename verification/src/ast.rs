//! The GROQ expression tree.
//!
//! A single closed [`Expr`] enum models the full target language — dataset
//! shapes, literals, access paths, comparisons, boolean logic, pipeline
//! stages, and function calls — while the evaluator of this phase executes
//! only the predicate subset. The tree is immutable, finite and acyclic;
//! every non-leaf node owns its children.

use vstd::prelude::*;

verus! {

/// One node of the GROQ abstract syntax tree.
///
/// A floating-point literal carries its decimal numeral text (sign
/// included), so that no float value enters the crate; the evaluator of this
/// phase does not execute it either way.
#[derive(Debug, PartialEq)]
pub enum Expr {
    // Literals
    StringLiteral(String),
    IntLiteral(i64),
    FloatLiteral(String),
    BoolLiteral(bool),
    Null,
    Array(Vec<Expr>),
    // Identifiers & access
    Ident(String),
    DotAccess(Box<Expr>, String),
    Deref(Box<Expr>, String),
    This,
    Parent,
    // Comparison operators
    Eq(Box<Expr>, Box<Expr>),
    Neq(Box<Expr>, Box<Expr>),
    Lt(Box<Expr>, Box<Expr>),
    Gt(Box<Expr>, Box<Expr>),
    Lte(Box<Expr>, Box<Expr>),
    Gte(Box<Expr>, Box<Expr>),
    In(Box<Expr>, Box<Expr>),
    // Logical operators
    And(Box<Expr>, Box<Expr>),
    Or(Box<Expr>, Box<Expr>),
    Not(Box<Expr>),
    // Query constructs
    Everything,
    Filter(Box<Expr>),
    Projection(Vec<(String, Expr)>),
    Pipeline(Vec<Expr>),
    Order(Box<Expr>, bool),
    Slice(Box<Expr>, i64, i64),
    // Function call
    FuncCall(String, Vec<Expr>),
    // Parameter reference ($param)
    Param(String),
}

/// The mathematical shape of an [`Expr`]: strings become character
/// sequences, integers unbounded integers. Contracts of the parser and the
/// evaluator speak of this view.
pub enum SpecExpr {
    StringLiteral(Seq<char>),
    IntLiteral(int),
    FloatLiteral(Seq<char>),
    BoolLiteral(bool),
    Null,
    Array(Seq<SpecExpr>),
    Ident(Seq<char>),
    DotAccess(Box<SpecExpr>, Seq<char>),
    Deref(Box<SpecExpr>, Seq<char>),
    This,
    Parent,
    Eq(Box<SpecExpr>, Box<SpecExpr>),
    Neq(Box<SpecExpr>, Box<SpecExpr>),
    Lt(Box<SpecExpr>, Box<SpecExpr>),
    Gt(Box<SpecExpr>, Box<SpecExpr>),
    Lte(Box<SpecExpr>, Box<SpecExpr>),
    Gte(Box<SpecExpr>, Box<SpecExpr>),
    In(Box<SpecExpr>, Box<SpecExpr>),
    And(Box<SpecExpr>, Box<SpecExpr>),
    Or(Box<SpecExpr>, Box<SpecExpr>),
    Not(Box<SpecExpr>),
    Everything,
    Filter(Box<SpecExpr>),
    Projection(Seq<(Seq<char>, SpecExpr)>),
    Pipeline(Seq<SpecExpr>),
    Order(Box<SpecExpr>, bool),
    Slice(Box<SpecExpr>, int, int),
    FuncCall(Seq<char>, Seq<SpecExpr>),
    Param(Seq<char>),
}

/// The view of a single expression node.
pub open spec fn expr_view(e: Expr) -> SpecExpr
    decreases e,
{
    match e {
        Expr::StringLiteral(s) => SpecExpr::StringLiteral(s@),
        Expr::IntLiteral(n) => SpecExpr::IntLiteral(n as int),
        Expr::FloatLiteral(t) => SpecExpr::FloatLiteral(t@),
        Expr::BoolLiteral(b) => SpecExpr::BoolLiteral(b),
        Expr::Null => SpecExpr::Null,
        Expr::Array(items) => SpecExpr::Array(exprs_view(items@)),
        Expr::Ident(s) => SpecExpr::Ident(s@),
        Expr::DotAccess(base, f) => SpecExpr::DotAccess(Box::new(expr_view(*base)), f@),
        Expr::Deref(base, f) => SpecExpr::Deref(Box::new(expr_view(*base)), f@),
        Expr::This => SpecExpr::This,
        Expr::Parent => SpecExpr::Parent,
        Expr::Eq(l, r) => SpecExpr::Eq(Box::new(expr_view(*l)), Box::new(expr_view(*r))),
        Expr::Neq(l, r) => SpecExpr::Neq(Box::new(expr_view(*l)), Box::new(expr_view(*r))),
        Expr::Lt(l, r) => SpecExpr::Lt(Box::new(expr_view(*l)), Box::new(expr_view(*r))),
        Expr::Gt(l, r) => SpecExpr::Gt(Box::new(expr_view(*l)), Box::new(expr_view(*r))),
        Expr::Lte(l, r) => SpecExpr::Lte(Box::new(expr_view(*l)), Box::new(expr_view(*r))),
        Expr::Gte(l, r) => SpecExpr::Gte(Box::new(expr_view(*l)), Box::new(expr_view(*r))),
        Expr::In(l, r) => SpecExpr::In(Box::new(expr_view(*l)), Box::new(expr_view(*r))),
        Expr::And(l, r) => SpecExpr::And(Box::new(expr_view(*l)), Box::new(expr_view(*r))),
        Expr::Or(l, r) => SpecExpr::Or(Box::new(expr_view(*l)), Box::new(expr_view(*r))),
        Expr::Not(inner) => SpecExpr::Not(Box::new(expr_view(*inner))),
        Expr::Everything => SpecExpr::Everything,
        Expr::Filter(inner) => SpecExpr::Filter(Box::new(expr_view(*inner))),
        Expr::Projection(fields) => SpecExpr::Projection(proj_view(fields@)),
        Expr::Pipeline(stages) => SpecExpr::Pipeline(exprs_view(stages@)),
        Expr::Order(inner, asc) => SpecExpr::Order(Box::new(expr_view(*inner)), asc),
        Expr::Slice(inner, lo, hi) => SpecExpr::Slice(
            Box::new(expr_view(*inner)),
            lo as int,
            hi as int,
        ),
        Expr::FuncCall(name, args) => SpecExpr::FuncCall(name@, exprs_view(args@)),
        Expr::Param(s) => SpecExpr::Param(s@),
    }
}

/// The views of a sequence of expressions, element by element.
pub open spec fn exprs_view(s: Seq<Expr>) -> Seq<SpecExpr>
    decreases s,
{
    Seq::new(
        s.len(),
        |i: int|
            if 0 <= i < s.len() {
                expr_view(s[i])
            } else {
                SpecExpr::Null
            },
    )
}

/// The views of a projection field list, pair by pair.
pub open spec fn proj_view(s: Seq<(String, Expr)>) -> Seq<(Seq<char>, SpecExpr)>
    decreases s,
{
    Seq::new(
        s.len(),
        |i: int|
            if 0 <= i < s.len() {
                (s[i].0@, expr_view(s[i].1))
            } else {
                (Seq::<char>::empty(), SpecExpr::Null)
            },
    )
}

impl View for Expr {
    type V = SpecExpr;

    open spec fn view(&self) -> SpecExpr {
        expr_view(*self)
    }
}

} // verus!
