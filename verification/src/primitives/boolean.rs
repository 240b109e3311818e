//! Procedures on booleans.

use vstd::prelude::*;
use crate::env::Store;
use crate::evaluator::Args;
use crate::lexer::{SpecToken, Token};
use crate::parser::{Expr, SpecExpr, views};
use crate::primitives::to_bool;
use crate::procedure::Primitive;
use crate::semantics::{boolean, eager_spec, outcome_of, truthy};
use crate::serr::{Kind, SErr, SResult, SpecErr, result_view};

verus! {

/// `(not x)` is `#t` for `#f` and `#f` for everything else.
pub open spec fn not_spec(vals: Seq<SpecExpr>) -> Result<SpecExpr, SpecErr> {
    if vals.len() != 1 {
        Err(SpecErr::WrongArgCount(1, vals.len() as usize))
    } else {
        Ok(boolean(!truthy(vals[0])))
    }
}

pub open spec fn is_boolean(v: SpecExpr) -> bool {
    v matches SpecExpr::Atom(SpecToken::Boolean(_))
}

/// `(boolean? x)` tells whether `x` is `#t` or `#f`.
pub open spec fn boolean_qm_spec(vals: Seq<SpecExpr>) -> Result<SpecExpr, SpecErr> {
    if vals.len() != 1 {
        Err(SpecErr::WrongArgCount(1, vals.len() as usize))
    } else {
        Ok(boolean(is_boolean(vals[0])))
    }
}

/// The booleans from index `i` on compared with `control`, in order: the
/// first that is no boolean is an error, the first that differs gives `#f`.
pub open spec fn all_same_from(vals: Seq<SpecExpr>, i: int, control: SpecExpr) -> Result<
    SpecExpr,
    SpecErr,
>
    decreases vals.len() - i,
{
    if 0 <= i < vals.len() {
        if !is_boolean(vals[i]) {
            Err(SpecErr::TypeMismatch(Kind::Boolean, vals[i]))
        } else if vals[i] != control {
            Ok(boolean(false))
        } else {
            all_same_from(vals, i + 1, control)
        }
    } else {
        Ok(boolean(true))
    }
}

/// `(boolean=? a b ...)` tells whether all its arguments are the same
/// boolean.
pub open spec fn boolean_eq_qm_spec(vals: Seq<SpecExpr>) -> Result<SpecExpr, SpecErr> {
    if vals.len() == 0 {
        Err(SpecErr::WrongArgCount(1, 0))
    } else if !is_boolean(vals[0]) {
        Err(SpecErr::TypeMismatch(Kind::Boolean, vals[0]))
    } else {
        all_same_from(vals, 1, vals[0])
    }
}

/// What `not` computes from the values of its arguments.
pub fn not_value(vals: &Vec<Expr>) -> (r: SResult<Expr>)
    ensures
        result_view(r) == not_spec(views(vals@)),
{
    if vals.len() != 1 {
        return Err(SErr::WrongArgCount(1, vals.len()));
    }
    assert(views(vals@)[0] == vals[0]@);
    Ok(Expr::boolean(!to_bool(&vals[0])))
}

pub fn not(args: Args, store: &mut Store, depth: usize) -> (r: SResult<Expr>)
    ensures
        outcome_of(final(store)@, r) == eager_spec(
            old(store)@,
            Primitive::Not,
            args@,
            depth as nat,
        ),
    decreases depth, 3nat, args, 0nat,
{
    match args.eval(store, depth) {
        Ok(vals) => not_value(&vals),
        Err(e) => Err(e),
    }
}

/// Whether the value is `#t` or `#f`.
pub fn is_bool(x: &Expr) -> (b: bool)
    ensures
        b == is_boolean(x@),
{
    match x {
        Expr::Atom(Token::Boolean(_)) => true,
        _ => false,
    }
}

/// What `boolean?` computes from the values of its arguments.
pub fn boolean_qm_value(vals: &Vec<Expr>) -> (r: SResult<Expr>)
    ensures
        result_view(r) == boolean_qm_spec(views(vals@)),
{
    if vals.len() != 1 {
        return Err(SErr::WrongArgCount(1, vals.len()));
    }
    assert(views(vals@)[0] == vals[0]@);
    Ok(Expr::boolean(is_bool(&vals[0])))
}

pub fn boolean_qm(args: Args, store: &mut Store, depth: usize) -> (r: SResult<Expr>)
    ensures
        outcome_of(final(store)@, r) == eager_spec(
            old(store)@,
            Primitive::BooleanQ,
            args@,
            depth as nat,
        ),
    decreases depth, 3nat, args, 0nat,
{
    match args.eval(store, depth) {
        Ok(vals) => boolean_qm_value(&vals),
        Err(e) => Err(e),
    }
}

/// What `boolean=?` computes from the values of its arguments.
pub fn boolean_eq_qm_value(vals: &Vec<Expr>) -> (r: SResult<Expr>)
    ensures
        result_view(r) == boolean_eq_qm_spec(views(vals@)),
{
    if vals.len() == 0 {
        return Err(SErr::WrongArgCount(1, 0));
    }
    assert(views(vals@)[0] == vals[0]@);
    let control = match &vals[0] {
        Expr::Atom(Token::Boolean(b)) => *b,
        x => {
            return Err(SErr::TypeMismatch(Kind::Boolean, x.clone()));
        },
    };
    let mut i: usize = 1;
    while i < vals.len()
        invariant
            1 <= i <= vals.len(),
            views(vals@)[0] == boolean(control),
            all_same_from(views(vals@), i as int, views(vals@)[0]) == all_same_from(
                views(vals@),
                1,
                views(vals@)[0],
            ),
        decreases vals.len() - i,
    {
        assert(views(vals@)[i as int] == vals[i as int]@);
        match &vals[i] {
            Expr::Atom(Token::Boolean(b)) => {
                if *b != control {
                    return Ok(Expr::boolean(false));
                }
            },
            x => {
                return Err(SErr::TypeMismatch(Kind::Boolean, x.clone()));
            },
        }
        i += 1;
    }
    Ok(Expr::boolean(true))
}

/// `boolean=?`
pub fn boolean_eq_qm(args: Args, store: &mut Store, depth: usize) -> (r: SResult<Expr>)
    ensures
        outcome_of(final(store)@, r) == eager_spec(
            old(store)@,
            Primitive::BooleanEq,
            args@,
            depth as nat,
        ),
    decreases depth, 3nat, args, 0nat,
{
    match args.eval(store, depth) {
        Ok(vals) => boolean_eq_qm_value(&vals),
        Err(e) => Err(e),
    }
}

} // verus!
