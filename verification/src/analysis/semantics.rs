//! The meaning of expressions, as values over 64-bit wrapping integers.
//!
//! Names, calls and member accesses are given meaning by an environment, so
//! that statements about all environments hold whatever those mean.

use vstd::prelude::*;
use crate::syntax::ast::{BinaryOp, ExprV, UnaryOp};
use crate::analysis::optimizer::{wrapping_div, wrapping_rem};

verus! {

/// Values of expressions.
pub enum Value {
    Int(i64),
    Bool(bool),
    Str(Seq<char>),
}

/// What names, calls and member accesses evaluate to.
pub struct Env {
    pub vars: spec_fn(Seq<char>) -> Option<Value>,
    pub call: spec_fn(Seq<char>, Seq<Value>) -> Option<Value>,
    pub member: spec_fn(Value, Seq<char>) -> Option<Value>,
}

/// A binary operator applied to two values: wrapping arithmetic on integers
/// (division and remainder by zero are undefined), comparisons on integers,
/// logic and equality on booleans; anything else is undefined.
pub open spec fn apply_binary(op: BinaryOp, a: Value, b: Value) -> Option<Value> {
    match (a, b) {
        (Value::Int(x), Value::Int(y)) => match op {
            BinaryOp::Add => Some(Value::Int(x.wrapping_add(y))),
            BinaryOp::Sub => Some(Value::Int(x.wrapping_sub(y))),
            BinaryOp::Mul => Some(Value::Int(x.wrapping_mul(y))),
            BinaryOp::Div => if y != 0 { Some(Value::Int(wrapping_div(x, y))) } else { None },
            BinaryOp::Mod => if y != 0 { Some(Value::Int(wrapping_rem(x, y))) } else { None },
            BinaryOp::Eq => Some(Value::Bool(x == y)),
            BinaryOp::NotEq => Some(Value::Bool(x != y)),
            BinaryOp::Lt => Some(Value::Bool(x < y)),
            BinaryOp::LtEq => Some(Value::Bool(x <= y)),
            BinaryOp::Gt => Some(Value::Bool(x > y)),
            BinaryOp::GtEq => Some(Value::Bool(x >= y)),
            BinaryOp::And | BinaryOp::Or => None,
        },
        (Value::Bool(x), Value::Bool(y)) => match op {
            BinaryOp::And => Some(Value::Bool(x && y)),
            BinaryOp::Or => Some(Value::Bool(x || y)),
            BinaryOp::Eq => Some(Value::Bool(x == y)),
            BinaryOp::NotEq => Some(Value::Bool(x != y)),
            _ => None,
        },
        _ => None,
    }
}

/// A unary operator applied to a value: wrapping negation of an integer
/// (`-i64::MIN` is `i64::MIN`), negation of a boolean; anything else is
/// undefined.
pub open spec fn apply_unary(op: UnaryOp, v: Value) -> Option<Value> {
    match (op, v) {
        (UnaryOp::Neg, Value::Int(x)) => if x == i64::MIN { Some(Value::Int(x)) } else { Some(Value::Int((-x) as i64)) },
        (UnaryOp::Not, Value::Bool(b)) => Some(Value::Bool(!b)),
        _ => None,
    }
}

/// The value of an expression in an environment, if it has one. Float
/// literals have none.
pub open spec fn eval(e: ExprV, env: Env) -> Option<Value>
    decreases e,
{
    match e {
        ExprV::IntLit(n, _) => Some(Value::Int(n)),
        ExprV::BoolLit(b, _) => Some(Value::Bool(b)),
        ExprV::StringLit(s, _) => Some(Value::Str(s)),
        ExprV::FloatLit(_, _) => None,
        ExprV::Ident(x, _) => (env.vars)(x),
        ExprV::Binary { op, left, right, .. } => match (eval(*left, env), eval(*right, env)) {
            (Some(a), Some(b)) => apply_binary(op, a, b),
            _ => None,
        },
        ExprV::Unary { op, expr, .. } => match eval(*expr, env) {
            Some(v) => apply_unary(op, v),
            None => None,
        },
        ExprV::Call { callee, args, .. } => match eval_args(args, env) {
            Some(vs) => (env.call)(callee, vs),
            None => None,
        },
        ExprV::MemberAccess { object, member, .. } => match eval(*object, env) {
            Some(v) => (env.member)(v, member),
            None => None,
        },
    }
}

/// The values of a list of expressions, if each has one.
pub open spec fn eval_args(args: Seq<ExprV>, env: Env) -> Option<Seq<Value>>
    decreases args,
{
    if args.len() == 0 {
        Some(Seq::empty())
    } else {
        proof {
            assert(decreases_to!(args => args[args.len() - 1]));
            assert(decreases_to!(args => args.subrange(0, args.len() - 1)));
        }
        match (eval_args(args.subrange(0, args.len() - 1), env), eval(args[args.len() - 1], env)) {
            (Some(vs), Some(v)) => Some(vs.push(v)),
            _ => None,
        }
    }
}

} // verus!
