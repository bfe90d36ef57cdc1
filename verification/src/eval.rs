//! Tree-walking predicate evaluator.
//!
//! [`eval_expr`] executes the predicate subset of the expression tree —
//! literals (floats as their numeral text), identifier and field access,
//! parameter references, `@`,
//! equality, and short-circuiting boolean logic — against one document and
//! one parameter-binding table, both read-only. Every other node kind
//! reports [`EvalError::Unsupported`]; the grammar is deliberately richer
//! than this phase of the evaluator. [`eval_filter`] coerces any
//! non-boolean result to `false` rather than erroring.

use vstd::prelude::*;
use crate::ast::{Expr, SpecExpr};
use crate::value::{spec_get, sv_eq, SpecValue, Value};

verus! {

/// An evaluation failure.
#[derive(Debug, Clone, PartialEq, Eq)]
pub enum EvalError {
    /// A builtin received arguments of the wrong shape, or an unknown
    /// function name was called.
    TypeError(String),
    /// The evaluator reached a node kind it does not execute in this phase.
    Unsupported,
}

/// The view of an [`EvalError`].
pub enum SpecEvalError {
    TypeError(Seq<char>),
    Unsupported,
}

impl View for EvalError {
    type V = SpecEvalError;

    open spec fn view(&self) -> SpecEvalError {
        match self {
            EvalError::TypeError(m) => SpecEvalError::TypeError(m@),
            EvalError::Unsupported => SpecEvalError::Unsupported,
        }
    }
}

/// What [`eval_expr`] returns: the meaning of a predicate-subset node, or
/// the error it reports. `And`/`Or` are short-circuiting: when the left
/// operand already decides the outcome, the right operand is not evaluated
/// and an error it would raise never surfaces.
pub open spec fn spec_eval_expr(e: SpecExpr, doc: SpecValue, params: SpecValue) -> Result<
    SpecValue,
    SpecEvalError,
>
    decreases e, 1int,
{
    match e {
        SpecExpr::Everything => Ok(SpecValue::Bool(true)),
        SpecExpr::BoolLiteral(b) => Ok(SpecValue::Bool(b)),
        SpecExpr::IntLiteral(n) => Ok(SpecValue::Int(n)),
        SpecExpr::StringLiteral(s) => Ok(SpecValue::Str(s)),
        SpecExpr::FloatLiteral(t) => Ok(SpecValue::Float(t)),
        SpecExpr::Null => Ok(SpecValue::Null),
        SpecExpr::Ident(name) => Ok(
            match spec_get(doc, name) {
                Some(v) => v,
                None => SpecValue::Null,
            },
        ),
        SpecExpr::DotAccess(base, field) => match spec_eval_expr(*base, doc, params) {
            Ok(v) => Ok(
                match spec_get(v, field) {
                    Some(f) => f,
                    None => SpecValue::Null,
                },
            ),
            Err(er) => Err(er),
        },
        SpecExpr::Param(name) => Ok(
            match spec_get(params, name) {
                Some(v) => v,
                None => SpecValue::Null,
            },
        ),
        SpecExpr::This => Ok(doc),
        SpecExpr::Eq(l, r) => match spec_eval_expr(*l, doc, params) {
            Ok(lv) => match spec_eval_expr(*r, doc, params) {
                Ok(rv) => Ok(SpecValue::Bool(sv_eq(lv, rv))),
                Err(er) => Err(er),
            },
            Err(er) => Err(er),
        },
        SpecExpr::Neq(l, r) => match spec_eval_expr(*l, doc, params) {
            Ok(lv) => match spec_eval_expr(*r, doc, params) {
                Ok(rv) => Ok(SpecValue::Bool(!sv_eq(lv, rv))),
                Err(er) => Err(er),
            },
            Err(er) => Err(er),
        },
        SpecExpr::And(l, r) => match spec_eval_filter(*l, doc, params) {
            Ok(lb) => if !lb {
                Ok(SpecValue::Bool(false))
            } else {
                match spec_eval_filter(*r, doc, params) {
                    Ok(rb) => Ok(SpecValue::Bool(rb)),
                    Err(er) => Err(er),
                }
            },
            Err(er) => Err(er),
        },
        SpecExpr::Or(l, r) => match spec_eval_filter(*l, doc, params) {
            Ok(lb) => if lb {
                Ok(SpecValue::Bool(true))
            } else {
                match spec_eval_filter(*r, doc, params) {
                    Ok(rb) => Ok(SpecValue::Bool(rb)),
                    Err(er) => Err(er),
                }
            },
            Err(er) => Err(er),
        },
        SpecExpr::Not(inner) => match spec_eval_filter(*inner, doc, params) {
            Ok(b) => Ok(SpecValue::Bool(!b)),
            Err(er) => Err(er),
        },
        _ => Err(SpecEvalError::Unsupported),
    }
}

/// What [`eval_filter`] returns: the evaluated value coerced to a boolean,
/// with any non-boolean result counted as `false`.
pub open spec fn spec_eval_filter(e: SpecExpr, doc: SpecValue, params: SpecValue) -> Result<
    bool,
    SpecEvalError,
>
    decreases e, 2int,
{
    match spec_eval_expr(e, doc, params) {
        Ok(SpecValue::Bool(b)) => Ok(b),
        Ok(_) => Ok(false),
        Err(er) => Err(er),
    }
}

/// Evaluate a predicate against one document: the evaluated value coerced
/// to a boolean (a non-boolean result is `false`, not a type error).
pub fn eval_filter(expr: &Expr, doc: &Value, params: &Value) -> (r: Result<bool, EvalError>)
    ensures
        match r {
            Ok(b) => spec_eval_filter(expr@, doc@, params@) == Ok::<bool, SpecEvalError>(b),
            Err(e) => spec_eval_filter(expr@, doc@, params@) == Err::<bool, SpecEvalError>(e@),
        },
    decreases expr, 2int,
{
    match eval_expr(expr, doc, params) {
        Ok(v) => match v {
            Value::Bool(b) => Ok(b),
            _ => Ok(false),
        },
        Err(e) => Err(e),
    }
}

/// Evaluate one node of the predicate subset against one document and one
/// parameter table, neither of which is modified.
pub fn eval_expr(expr: &Expr, doc: &Value, params: &Value) -> (r: Result<Value, EvalError>)
    ensures
        match r {
            Ok(v) => spec_eval_expr(expr@, doc@, params@) == Ok::<SpecValue, SpecEvalError>(v@),
            Err(e) => spec_eval_expr(expr@, doc@, params@) == Err::<SpecValue, SpecEvalError>(e@),
        },
    decreases expr, 1int,
{
    match expr {
        Expr::Everything => Ok(Value::Bool(true)),
        Expr::BoolLiteral(b) => Ok(Value::Bool(*b)),
        Expr::IntLiteral(n) => Ok(Value::Int(*n)),
        Expr::StringLiteral(s) => Ok(Value::Str(s.clone())),
        Expr::FloatLiteral(t) => Ok(Value::Float(t.clone())),
        Expr::Null => Ok(Value::Null),
        Expr::Ident(name) => match doc.get(name.as_str()) {
            Some(v) => Ok(v.deep_copy()),
            None => Ok(Value::Null),
        },
        Expr::DotAccess(base, field) => match eval_expr(base, doc, params) {
            Ok(v) => match v.get(field.as_str()) {
                Some(f) => Ok(f.deep_copy()),
                None => Ok(Value::Null),
            },
            Err(e) => Err(e),
        },
        Expr::Param(name) => match params.get(name.as_str()) {
            Some(v) => Ok(v.deep_copy()),
            None => Ok(Value::Null),
        },
        Expr::This => Ok(doc.deep_copy()),
        Expr::Eq(l, r) => match eval_expr(l, doc, params) {
            Ok(lv) => match eval_expr(r, doc, params) {
                Ok(rv) => Ok(Value::Bool(Value::value_eq(&lv, &rv))),
                Err(e) => Err(e),
            },
            Err(e) => Err(e),
        },
        Expr::Neq(l, r) => match eval_expr(l, doc, params) {
            Ok(lv) => match eval_expr(r, doc, params) {
                Ok(rv) => Ok(Value::Bool(!Value::value_eq(&lv, &rv))),
                Err(e) => Err(e),
            },
            Err(e) => Err(e),
        },
        Expr::And(l, r) => match eval_filter(l, doc, params) {
            Ok(lb) => if !lb {
                Ok(Value::Bool(false))
            } else {
                match eval_filter(r, doc, params) {
                    Ok(rb) => Ok(Value::Bool(rb)),
                    Err(e) => Err(e),
                }
            },
            Err(e) => Err(e),
        },
        Expr::Or(l, r) => match eval_filter(l, doc, params) {
            Ok(lb) => if lb {
                Ok(Value::Bool(true))
            } else {
                match eval_filter(r, doc, params) {
                    Ok(rb) => Ok(Value::Bool(rb)),
                    Err(e) => Err(e),
                }
            },
            Err(e) => Err(e),
        },
        Expr::Not(inner) => match eval_filter(inner, doc, params) {
            Ok(b) => Ok(Value::Bool(!b)),
            Err(e) => Err(e),
        },
        _ => Err(EvalError::Unsupported),
    }
}

/// Evaluation is deterministic: any two results that satisfy the evaluator's
/// contract for the same expression, document and parameters are the same.
/// Evaluation has no hidden state; its outcome is a function of its inputs.
pub proof fn lemma_eval_deterministic(
    e: SpecExpr,
    doc: SpecValue,
    params: SpecValue,
    r1: Result<bool, SpecEvalError>,
    r2: Result<bool, SpecEvalError>,
)
    requires
        r1 == spec_eval_filter(e, doc, params),
        r2 == spec_eval_filter(e, doc, params),
    ensures
        r1 == r2,
{
}

/// Evaluation of a single node is deterministic in the same way.
pub proof fn lemma_eval_expr_deterministic(
    e: SpecExpr,
    doc: SpecValue,
    params: SpecValue,
    r1: Result<SpecValue, SpecEvalError>,
    r2: Result<SpecValue, SpecEvalError>,
)
    requires
        r1 == spec_eval_expr(e, doc, params),
        r2 == spec_eval_expr(e, doc, params),
    ensures
        r1 == r2,
{
}

/// `And` short-circuits: when the left operand evaluates to `false`, the
/// conjunction is `false` no matter what the right operand is — even one
/// whose own evaluation would fail never surfaces its error.
pub proof fn lemma_and_short_circuit(l: SpecExpr, r: SpecExpr, doc: SpecValue, params: SpecValue)
    requires
        spec_eval_filter(l, doc, params) == Ok::<bool, SpecEvalError>(false),
    ensures
        spec_eval_expr(SpecExpr::And(Box::new(l), Box::new(r)), doc, params) == Ok::<
            SpecValue,
            SpecEvalError,
        >(SpecValue::Bool(false)),
        spec_eval_filter(SpecExpr::And(Box::new(l), Box::new(r)), doc, params) == Ok::<
            bool,
            SpecEvalError,
        >(false),
{
}

/// `Or` short-circuits: when the left operand evaluates to `true`, the
/// disjunction is `true` no matter what the right operand is — even one
/// whose own evaluation would fail never surfaces its error.
pub proof fn lemma_or_short_circuit(l: SpecExpr, r: SpecExpr, doc: SpecValue, params: SpecValue)
    requires
        spec_eval_filter(l, doc, params) == Ok::<bool, SpecEvalError>(true),
    ensures
        spec_eval_expr(SpecExpr::Or(Box::new(l), Box::new(r)), doc, params) == Ok::<
            SpecValue,
            SpecEvalError,
        >(SpecValue::Bool(true)),
        spec_eval_filter(SpecExpr::Or(Box::new(l), Box::new(r)), doc, params) == Ok::<
            bool,
            SpecEvalError,
        >(true),
{
}

} // verus!
