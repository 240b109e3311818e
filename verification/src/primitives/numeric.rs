//! Arithmetic on exact numbers.

use vstd::prelude::*;
use crate::lexer::{SpecToken, Token, exact_token};
use crate::number::{
    Exact, Fraction, difference_of, divide, minus, plus, product_of, quotient_of, sum_of, times,
};
use crate::parser::{Expr, SpecExpr, views};
use crate::procedure::Primitive;
use crate::serr::{Kind, SErr, SResult, SpecErr, result_view};

verus! {

pub open spec fn is_arithmetic(f: Primitive) -> bool {
    f is Add || f is Sub || f is Mul || f is Div
}

/// The exact number that a value is, if it is one.
pub open spec fn exact_of(v: SpecExpr) -> Option<Exact> {
    match v {
        SpecExpr::Atom(SpecToken::Integer(i)) => Some(Exact::Integer(i)),
        SpecExpr::Atom(SpecToken::Fraction(f)) => if f.d > 0 {
            Some(Exact::Ratio(f))
        } else {
            None
        },
        _ => None,
    }
}

/// The value that an exact number is.
pub open spec fn exact_expr(x: Exact) -> SpecExpr {
    SpecExpr::Atom(exact_token(x))
}

/// The result of one operation. A result that does not fit is an overflow.
pub open spec fn combine(f: Primitive, x: Exact, y: Exact) -> Result<Exact, SpecErr> {
    let r = match f {
        Primitive::Add => sum_of(x, y),
        Primitive::Sub => difference_of(x, y),
        Primitive::Mul => product_of(x, y),
        _ => quotient_of(x, y),
    };
    if !(f is Add || f is Sub || f is Mul) && y.num() == 0 {
        Err(SpecErr::DivideByZero)
    } else {
        match r {
            Some(z) => Ok(z),
            None => Err(SpecErr::Overflow),
        }
    }
}

/// The number that an operation starts from where it has one operand
/// only: `(- x)` is `0 - x`, and `(/ x)` is `1 / x`.
pub open spec fn identity(f: Primitive) -> Exact {
    match f {
        Primitive::Mul | Primitive::Div => Exact::Integer(1),
        _ => Exact::Integer(0),
    }
}

/// `acc` combined with the values from index `i` on, from left to right.
pub open spec fn fold_from(f: Primitive, vals: Seq<SpecExpr>, i: int, acc: Exact) -> Result<
    SpecExpr,
    SpecErr,
>
    decreases vals.len() - i,
{
    if 0 <= i < vals.len() {
        match exact_of(vals[i]) {
            None => Err(SpecErr::TypeMismatch(Kind::Number, vals[i])),
            Some(y) => match combine(f, acc, y) {
                Ok(z) => fold_from(f, vals, i + 1, z),
                Err(e) => Err(e),
            },
        }
    } else {
        Ok(exact_expr(acc))
    }
}

/// What `+`, `-`, `*` and `/` compute from the values of their arguments.
/// Without arguments, `+` is 0 and `*` is 1, and the other two are errors.
/// An argument that is no exact number is a type mismatch.
pub open spec fn calc_spec(f: Primitive, vals: Seq<SpecExpr>) -> Result<SpecExpr, SpecErr> {
    if vals.len() == 0 {
        if f is Add || f is Mul {
            Ok(exact_expr(identity(f)))
        } else {
            Err(SpecErr::WrongArgCount(1, 0))
        }
    } else if vals.len() == 1 {
        fold_from(f, vals, 0, identity(f))
    } else {
        match exact_of(vals[0]) {
            None => Err(SpecErr::TypeMismatch(Kind::Number, vals[0])),
            Some(x) => fold_from(f, vals, 1, x),
        }
    }
}

fn into_exact(v: &Expr) -> (r: SResult<Exact>)
    ensures
        match exact_of(v@) {
            Some(x) => r == Ok::<Exact, SErr>(x) && x.wf(),
            None => r is Err && r->Err_0@ == SpecErr::TypeMismatch(Kind::Number, v@),
        },
{
    match v {
        Expr::Atom(Token::Integer(i)) => Ok(Exact::Integer(*i)),
        Expr::Atom(Token::Fraction(f)) => {
            if f.d > 0 {
                Ok(Exact::Ratio(*f))
            } else {
                Err(SErr::TypeMismatch(Kind::Number, v.clone()))
            }
        },
        x => Err(SErr::TypeMismatch(Kind::Number, x.clone())),
    }
}

fn from_exact(x: Exact) -> (r: Expr)
    ensures
        r@ == exact_expr(x),
{
    match x {
        Exact::Integer(i) => Expr::Atom(Token::Integer(i)),
        Exact::Ratio(f) => Expr::Atom(Token::Fraction(f)),
    }
}

fn apply_op(f: Primitive, x: Exact, y: Exact) -> (r: Result<Exact, SErr>)
    requires
        is_arithmetic(f),
        x.wf(),
        y.wf(),
    ensures
        match combine(f, x, y) {
            Ok(z) => r == Ok::<Exact, SErr>(z) && z.wf(),
            Err(e) => r is Err && r->Err_0@ == e,
        },
{
    let z = match f {
        Primitive::Add => plus(x, y),
        Primitive::Sub => minus(x, y),
        Primitive::Mul => times(x, y),
        _ => {
            let zero = match y {
                Exact::Integer(i) => i == 0,
                Exact::Ratio(q) => q.n == 0,
            };
            if zero {
                return Err(SErr::DivideByZero);
            }
            divide(x, y)
        },
    };
    match z {
        Some(z) => Ok(z),
        None => Err(SErr::Overflow),
    }
}

fn identity_of(f: Primitive) -> (r: Exact)
    ensures
        r == identity(f),
        r.wf(),
{
    match f {
        Primitive::Mul | Primitive::Div => Exact::Integer(1),
        _ => Exact::Integer(0),
    }
}

/// What `+`, `-`, `*` and `/` compute from the values of their arguments.
pub fn calc(f: Primitive, vals: &Vec<Expr>) -> (r: SResult<Expr>)
    requires
        is_arithmetic(f),
    ensures
        result_view(r) == calc_spec(f, views(vals@)),
{
    let n = vals.len();
    if n == 0 {
        return match f {
            Primitive::Add | Primitive::Mul => Ok(from_exact(identity_of(f))),
            _ => Err(SErr::WrongArgCount(1, 0)),
        };
    }
    let mut acc: Exact;
    let mut i: usize;
    if n == 1 {
        acc = identity_of(f);
        i = 0;
    } else {
        assert(views(vals@)[0] == vals[0]@);
        acc = match into_exact(&vals[0]) {
            Ok(x) => x,
            Err(e) => {
                return Err(e);
            },
        };
        i = 1;
    }
    while i < n
        invariant
            i <= n == vals.len(),
            is_arithmetic(f),
            acc.wf(),
            fold_from(f, views(vals@), i as int, acc) == calc_spec(f, views(vals@)),
        decreases n - i,
    {
        assert(views(vals@)[i as int] == vals[i as int]@);
        let y = match into_exact(&vals[i]) {
            Ok(y) => y,
            Err(e) => {
                return Err(e);
            },
        };
        acc = match apply_op(f, acc, y) {
            Ok(z) => z,
            Err(e) => {
                return Err(e);
            },
        };
        i += 1;
    }
    Ok(from_exact(acc))
}

} // verus!
