//! Comparison of atoms.

use vstd::prelude::*;
use crate::lexer::{compare_tokens, token_order};
use crate::parser::{Expr, SpecExpr, views};
use crate::procedure::Primitive;
use crate::semantics::boolean;
use crate::serr::{Kind, SErr, SResult, SpecErr, result_view};

verus! {

pub open spec fn is_comparison(f: Primitive) -> bool {
    f is Lt || f is Gt || f is Le || f is Ge || f is NumEq
}

/// Whether the comparison holds of two values in the order `s`, which is
/// -1, 0 or 1.
pub open spec fn holds(f: Primitive, s: int) -> bool {
    match f {
        Primitive::Lt => s < 0,
        Primitive::Gt => s > 0,
        Primitive::Le => s <= 0,
        Primitive::Ge => s >= 0,
        _ => s == 0,
    }
}

/// What `<`, `>`, `<=`, `>=` and `=` compute from the values of their two
/// arguments. Both must be atoms, and of kinds that can be compared:
/// numbers with numbers, and any other kind with itself.
pub open spec fn compare_spec(f: Primitive, vals: Seq<SpecExpr>) -> Result<SpecExpr, SpecErr> {
    if vals.len() != 2 {
        Err(SpecErr::WrongArgCount(2, vals.len() as usize))
    } else {
        match (vals[0], vals[1]) {
            (SpecExpr::Atom(a), SpecExpr::Atom(b)) => match token_order(a, b) {
                Some(s) => Ok(boolean(holds(f, s))),
                None => Err(SpecErr::TypeMismatch(Kind::Comparable, vals[1])),
            },
            (SpecExpr::Atom(_), y) => Err(SpecErr::TypeMismatch(Kind::Atom, y)),
            (x, _) => Err(SpecErr::TypeMismatch(Kind::Atom, x)),
        }
    }
}

/// What `<`, `>`, `<=`, `>=` and `=` compute from the values of their
/// arguments.
pub fn compare(f: Primitive, vals: &Vec<Expr>) -> (r: SResult<Expr>)
    requires
        is_comparison(f),
    ensures
        result_view(r) == compare_spec(f, views(vals@)),
{
    if vals.len() != 2 {
        return Err(SErr::WrongArgCount(2, vals.len()));
    }
    assert(views(vals@)[0] == vals[0]@);
    assert(views(vals@)[1] == vals[1]@);
    match (&vals[0], &vals[1]) {
        (Expr::Atom(a), Expr::Atom(b)) => {
            match compare_tokens(a, b) {
                Some(s) => {
                    let result = match f {
                        Primitive::Lt => s < 0,
                        Primitive::Gt => s > 0,
                        Primitive::Le => s <= 0,
                        Primitive::Ge => s >= 0,
                        _ => s == 0,
                    };
                    Ok(Expr::boolean(result))
                },
                None => Err(SErr::TypeMismatch(Kind::Comparable, vals[1].clone())),
            }
        },
        (Expr::Atom(_), y) => Err(SErr::TypeMismatch(Kind::Atom, y.clone())),
        (x, _) => Err(SErr::TypeMismatch(Kind::Atom, x.clone())),
    }
}

} // verus!
