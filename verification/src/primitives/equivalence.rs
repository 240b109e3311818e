//! Equality of values.
//!
//! Values never change once they are made, so one notion of equality
//! serves `eq?`, `eqv?` and `equal?`: two values are equal when they are
//! built the same way from the same atoms.

use vstd::prelude::*;
use crate::env::{EnvRef, Store};
use crate::evaluator::Args;
use crate::lexer::Token;
use crate::parser::{Expr, SpecExpr, views};
use crate::procedure::{Param, Primitive, ProcedureData, names_view};
use crate::semantics::{boolean, eager_spec, outcome_of};
use crate::serr::{SErr, SResult, SpecErr, result_view};

verus! {

/// `(equal? a b)` tells whether `a` and `b` are the same value.
pub open spec fn equal_spec(vals: Seq<SpecExpr>) -> Result<SpecExpr, SpecErr> {
    if vals.len() != 2 {
        Err(SpecErr::WrongArgCount(2, vals.len() as usize))
    } else {
        Ok(boolean(vals[0] == vals[1]))
    }
}

/// Whether two tokens are the same.
pub fn same_token(a: &Token, b: &Token) -> (r: bool)
    ensures
        r == (a@ == b@),
{
    match (a, b) {
        (Token::LParen, Token::LParen) => true,
        (Token::RParen, Token::RParen) => true,
        (Token::Symbol(x), Token::Symbol(y)) => *x == *y,
        (Token::Integer(x), Token::Integer(y)) => *x == *y,
        (Token::Fraction(x), Token::Fraction(y)) => x.n == y.n && x.d == y.d,
        (Token::Float(x), Token::Float(y)) => x.m == y.m && x.e == y.e,
        (Token::Boolean(x), Token::Boolean(y)) => *x == *y,
        (Token::Chr(x), Token::Chr(y)) => *x == *y,
        (Token::Str(x), Token::Str(y)) => *x == *y,
        (Token::Dot, Token::Dot) => true,
        (Token::Ellipsis, Token::Ellipsis) => true,
        (Token::Quote, Token::Quote) => true,
        (Token::QuasiQuote, Token::QuasiQuote) => true,
        (Token::UnQuote, Token::UnQuote) => true,
        (Token::UnQuoteSplicing, Token::UnQuoteSplicing) => true,
        _ => false,
    }
}

/// Whether two sequences of names are the same.
pub fn same_names(a: &Vec<String>, b: &Vec<String>) -> (r: bool)
    ensures
        r == (names_view(a@) == names_view(b@)),
{
    if a.len() != b.len() {
        assert(names_view(a@).len() != names_view(b@).len());
        return false;
    }
    let mut i: usize = 0;
    while i < a.len()
        invariant
            i <= a.len() == b.len(),
            forall|j: int| 0 <= j < i ==> a[j]@ == b[j]@,
        decreases a.len() - i,
    {
        if a[i] != b[i] {
            assert(names_view(a@)[i as int] != names_view(b@)[i as int]);
            return false;
        }
        i += 1;
    }
    assert(names_view(a@) =~= names_view(b@));
    true
}

/// Whether two parameter specifications are the same.
pub fn same_param(a: &Param, b: &Param) -> (r: bool)
    ensures
        r == (a@ == b@),
{
    match (a, b) {
        (Param::Single(x), Param::Single(y)) => *x == *y,
        (Param::Fixed(xs), Param::Fixed(ys)) => same_names(xs, ys),
        (Param::Multi(xs, x), Param::Multi(ys, y)) => same_names(xs, ys) && *x == *y,
        _ => false,
    }
}

/// Whether two environments handles are the same.
fn same_env(a: EnvRef, b: EnvRef) -> (r: bool)
    ensures
        r == (a == b),
{
    match (a, b) {
        (EnvRef::Null, EnvRef::Null) => true,
        (EnvRef::Scope(i), EnvRef::Scope(j)) => i == j,
        _ => false,
    }
}

/// Whether two sequences of values are the same.
pub fn same_all(a: &Vec<Expr>, b: &Vec<Expr>) -> (r: bool)
    ensures
        r == (views(a@) == views(b@)),
    decreases a, 1nat,
{
    if a.len() != b.len() {
        assert(views(a@).len() != views(b@).len());
        return false;
    }
    let mut i: usize = 0;
    while i < a.len()
        invariant
            i <= a.len() == b.len(),
            forall|j: int| 0 <= j < i ==> a[j]@ == b[j]@,
        decreases a.len() - i,
    {
        if !same(&a[i], &b[i]) {
            assert(views(a@)[i as int] != views(b@)[i as int]);
            return false;
        }
        i += 1;
    }
    assert(views(a@) =~= views(b@));
    true
}

/// Whether two values are the same.
pub fn same(a: &Expr, b: &Expr) -> (r: bool)
    ensures
        r == (a@ == b@),
    decreases a, 0nat,
{
    match (a, b) {
        (Expr::Atom(x), Expr::Atom(y)) => same_token(x, y),
        (Expr::List(xs), Expr::List(ys)) => same_all(xs, ys),
        (Expr::DottedList(xs, x), Expr::DottedList(ys, y)) => {
            same_all(xs, ys) && same(&**x, &**y)
        },
        (Expr::Procedure(p), Expr::Procedure(q)) => {
            match (p, q) {
                (ProcedureData::Primitive(f), ProcedureData::Primitive(g)) => f.fun == g.fun,
                (ProcedureData::Compound(f), ProcedureData::Compound(g)) => {
                    same_param(&f.params, &g.params) && same_all(&f.body, &g.body) && same_env(
                        f.env,
                        g.env,
                    )
                },
                _ => false,
            }
        },
        (Expr::Lazy(x, e), Expr::Lazy(y, f)) => same(&**x, &**y) && same_env(*e, *f),
        (Expr::Unspecified, Expr::Unspecified) => true,
        _ => false,
    }
}

/// What `eq?`, `eqv?` and `equal?` compute from the values of their
/// arguments.
pub fn equal_value(vals: &Vec<Expr>) -> (r: SResult<Expr>)
    ensures
        result_view(r) == equal_spec(views(vals@)),
{
    if vals.len() != 2 {
        return Err(SErr::WrongArgCount(2, vals.len()));
    }
    assert(views(vals@)[0] == vals[0]@);
    assert(views(vals@)[1] == vals[1]@);
    Ok(Expr::boolean(same(&vals[0], &vals[1])))
}

/// `equal?`
pub fn equal(args: Args, store: &mut Store, depth: usize) -> (r: SResult<Expr>)
    ensures
        outcome_of(final(store)@, r) == eager_spec(
            old(store)@,
            Primitive::Equal,
            args@,
            depth as nat,
        ),
    decreases depth, 3nat, args, 0nat,
{
    match args.eval(store, depth) {
        Ok(vals) => equal_value(&vals),
        Err(e) => Err(e),
    }
}

} // verus!
