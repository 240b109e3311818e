//! Procedures on lists.

use vstd::prelude::*;
use crate::env::Store;
use crate::evaluator::{Args, clone_from};
use crate::lexer::{SpecToken, Token};
use crate::parser::{Expr, SpecExpr, clone_exprs, views};
use crate::procedure::Primitive;
use crate::semantics::{dotted, eager_spec, outcome_of, tail_of};
use crate::serr::{Kind, SErr, SResult, SpecErr, result_view};

verus! {

/// `(cons x y)` puts `x` in front of `y`.
pub open spec fn cons_spec(vals: Seq<SpecExpr>) -> Result<SpecExpr, SpecErr> {
    if vals.len() != 2 {
        Err(SpecErr::WrongArgCount(2, vals.len() as usize))
    } else {
        Ok(
            match vals[1] {
                SpecExpr::List(xs) => SpecExpr::List(seq![vals[0]] + xs),
                SpecExpr::DottedList(xs, y) => SpecExpr::DottedList(seq![vals[0]] + xs, y),
                y => SpecExpr::DottedList(seq![vals[0]], Box::new(y)),
            },
        )
    }
}

/// `(car xs)` is the first element of a list that has one.
pub open spec fn car_spec(vals: Seq<SpecExpr>) -> Result<SpecExpr, SpecErr> {
    if vals.len() != 1 {
        Err(SpecErr::WrongArgCount(1, vals.len() as usize))
    } else {
        match vals[0] {
            SpecExpr::List(ys) => if ys.len() > 0 {
                Ok(ys[0])
            } else {
                Err(SpecErr::UnexpectedForm(vals[0]))
            },
            SpecExpr::DottedList(ys, _) => if ys.len() > 0 {
                Ok(ys[0])
            } else {
                Err(SpecErr::UnexpectedForm(vals[0]))
            },
            x => Err(SpecErr::UnexpectedForm(x)),
        }
    }
}

/// `(cdr xs)` is what follows the first element of a list that has one.
pub open spec fn cdr_spec(vals: Seq<SpecExpr>) -> Result<SpecExpr, SpecErr> {
    if vals.len() != 1 {
        Err(SpecErr::WrongArgCount(1, vals.len() as usize))
    } else {
        match vals[0] {
            SpecExpr::List(ys) => if ys.len() > 0 {
                Ok(SpecExpr::List(tail_of(ys)))
            } else {
                Err(SpecErr::UnexpectedForm(vals[0]))
            },
            SpecExpr::DottedList(ys, y) => if ys.len() == 0 {
                Err(SpecErr::UnexpectedForm(vals[0]))
            } else if ys.len() == 1 {
                Ok(*y)
            } else {
                Ok(SpecExpr::DottedList(tail_of(ys), y))
            },
            x => Err(SpecErr::UnexpectedForm(x)),
        }
    }
}

/// The elements of a proper list; anything else is a type mismatch.
pub open spec fn list_items(v: SpecExpr) -> Result<Seq<SpecExpr>, SpecErr> {
    match v {
        SpecExpr::List(xs) => Ok(xs),
        x => Err(SpecErr::TypeMismatch(Kind::List, x)),
    }
}

/// The value of an index: an integer that is not negative.
pub open spec fn index_of(v: SpecExpr) -> Result<nat, SpecErr> {
    match v {
        SpecExpr::Atom(SpecToken::Integer(i)) => if i >= 0 {
            Ok(i as nat)
        } else {
            Err(SpecErr::TypeMismatch(Kind::Integer, v))
        },
        x => Err(SpecErr::TypeMismatch(Kind::Integer, x)),
    }
}

/// `xs` from `start` up to `end`, both cut down to the length of `xs`.
pub open spec fn clipped(xs: Seq<SpecExpr>, start: nat, end: nat) -> Seq<SpecExpr> {
    let e = if end < xs.len() { end } else { xs.len() };
    let s = if start < e { start } else { e };
    xs.subrange(s as int, e as int)
}

/// `(list-copy xs)`, `(list-copy xs start)` and `(list-copy xs start end)`:
/// the elements of `xs` from `start`, by default the first, up to `end`, by
/// default the last. Indices beyond the list are cut down to its length; an
/// `end` before `start` is an error.
pub open spec fn list_copy_spec(vals: Seq<SpecExpr>) -> Result<SpecExpr, SpecErr> {
    if vals.len() == 0 || vals.len() > 3 {
        Err(SpecErr::WrongArgCount(3, vals.len() as usize))
    } else {
        match list_items(vals[0]) {
            Err(e) => Err(e),
            Ok(xs) => if vals.len() == 1 {
                Ok(SpecExpr::List(xs))
            } else {
                match index_of(vals[1]) {
                    Err(e) => Err(e),
                    Ok(start) => if vals.len() == 2 {
                        Ok(SpecExpr::List(clipped(xs, start, xs.len())))
                    } else {
                        match index_of(vals[2]) {
                            Err(e) => Err(e),
                            Ok(end) => if end < start {
                                Err(SpecErr::UnexpectedForm(vals[2]))
                            } else {
                                Ok(SpecExpr::List(clipped(xs, start, end)))
                            },
                        }
                    },
                }
            },
        }
    }
}

/// The lists of `vals` from index `i` up to the last but one, joined after
/// `acc`, and the last value added as the tail.
pub open spec fn append_from(vals: Seq<SpecExpr>, i: int, acc: Seq<SpecExpr>) -> Result<
    SpecExpr,
    SpecErr,
>
    decreases vals.len() - i,
{
    if 0 <= i < vals.len() - 1 {
        match list_items(vals[i]) {
            Ok(xs) => append_from(vals, i + 1, acc + xs),
            Err(e) => Err(e),
        }
    } else if i == vals.len() - 1 {
        Ok(dotted(acc, vals[i]))
    } else {
        Ok(SpecExpr::List(acc))
    }
}

/// `(append xs ... tail)` joins lists. All arguments but the last must be
/// proper lists; the last may be anything, and becomes the tail.
pub open spec fn append_spec(vals: Seq<SpecExpr>) -> Result<SpecExpr, SpecErr> {
    append_from(vals, 0, Seq::empty())
}

/// `(list x ...)` is the list of its arguments' values.
pub fn list(args: Args, store: &mut Store, depth: usize) -> (r: SResult<Expr>)
    ensures
        outcome_of(final(store)@, r) == eager_spec(
            old(store)@,
            Primitive::List,
            args@,
            depth as nat,
        ),
    decreases depth, 3nat, args, 0nat,
{
    match args.eval(store, depth) {
        Ok(vals) => Ok(Expr::List(vals)),
        Err(e) => Err(e),
    }
}

/// What `cons` computes from the values of its arguments.
pub fn cons_value(vals: Vec<Expr>) -> (r: SResult<Expr>)
    ensures
        result_view(r) == cons_spec(views(vals@)),
{
    let mut vals = vals;
    if vals.len() != 2 {
        return Err(SErr::WrongArgCount(2, vals.len()));
    }
    assert(views(vals@)[0] == vals[0]@);
    assert(views(vals@)[1] == vals[1]@);
    let xs = vals.remove(1);
    let x = vals.remove(0);
    let result = match xs {
        Expr::List(xs) => {
            let mut xs = xs;
            assert(views(xs@.insert(0, x)) =~= seq![x@] + views(xs@));
            xs.insert(0, x);
            Expr::List(xs)
        },
        Expr::DottedList(xs, y) => {
            let mut xs = xs;
            assert(views(xs@.insert(0, x)) =~= seq![x@] + views(xs@));
            xs.insert(0, x);
            Expr::DottedList(xs, y)
        },
        y => {
            let mut heads: Vec<Expr> = Vec::new();
            heads.push(x);
            assert(views(heads@) =~= seq![x@]);
            Expr::DottedList(heads, Box::new(y))
        },
    };
    Ok(result)
}

pub fn cons(args: Args, store: &mut Store, depth: usize) -> (r: SResult<Expr>)
    ensures
        outcome_of(final(store)@, r) == eager_spec(
            old(store)@,
            Primitive::Cons,
            args@,
            depth as nat,
        ),
    decreases depth, 3nat, args, 0nat,
{
    match args.eval(store, depth) {
        Ok(vals) => cons_value(vals),
        Err(e) => Err(e),
    }
}

/// What `car` computes from the values of its arguments.
pub fn car_value(vals: &Vec<Expr>) -> (r: SResult<Expr>)
    ensures
        result_view(r) == car_spec(views(vals@)),
{
    if vals.len() != 1 {
        return Err(SErr::WrongArgCount(1, vals.len()));
    }
    assert(views(vals@)[0] == vals[0]@);
    match &vals[0] {
        Expr::List(ys) => {
            if ys.len() > 0 {
                assert(views(ys@)[0] == ys[0]@);
                Ok(ys[0].clone())
            } else {
                Err(SErr::UnexpectedForm(vals[0].clone()))
            }
        },
        Expr::DottedList(ys, _) => {
            if ys.len() > 0 {
                assert(views(ys@)[0] == ys[0]@);
                Ok(ys[0].clone())
            } else {
                Err(SErr::UnexpectedForm(vals[0].clone()))
            }
        },
        x => Err(SErr::UnexpectedForm(x.clone())),
    }
}

pub fn car(args: Args, store: &mut Store, depth: usize) -> (r: SResult<Expr>)
    ensures
        outcome_of(final(store)@, r) == eager_spec(
            old(store)@,
            Primitive::Car,
            args@,
            depth as nat,
        ),
    decreases depth, 3nat, args, 0nat,
{
    match args.eval(store, depth) {
        Ok(vals) => car_value(&vals),
        Err(e) => Err(e),
    }
}

/// What `cdr` computes from the values of its arguments.
pub fn cdr_value(vals: &Vec<Expr>) -> (r: SResult<Expr>)
    ensures
        result_view(r) == cdr_spec(views(vals@)),
{
    if vals.len() != 1 {
        return Err(SErr::WrongArgCount(1, vals.len()));
    }
    assert(views(vals@)[0] == vals[0]@);
    let result = match &vals[0] {
        Expr::List(ys) => {
            assert(views(ys@).len() == ys.len());
            if ys.len() == 0 {
                return Err(SErr::UnexpectedForm(vals[0].clone()));
            }
            Expr::List(clone_from(ys, 1))
        },
        Expr::DottedList(ys, y) => {
            assert(views(ys@).len() == ys.len());
            if ys.len() == 0 {
                return Err(SErr::UnexpectedForm(vals[0].clone()));
            } else if ys.len() == 1 {
                (**y).clone()
            } else {
                Expr::DottedList(clone_from(ys, 1), Box::new((**y).clone()))
            }
        },
        x => {
            return Err(SErr::UnexpectedForm(x.clone()));
        },
    };
    Ok(result)
}

pub fn cdr(args: Args, store: &mut Store, depth: usize) -> (r: SResult<Expr>)
    ensures
        outcome_of(final(store)@, r) == eager_spec(
            old(store)@,
            Primitive::Cdr,
            args@,
            depth as nat,
        ),
    decreases depth, 3nat, args, 0nat,
{
    match args.eval(store, depth) {
        Ok(vals) => cdr_value(&vals),
        Err(e) => Err(e),
    }
}

/// The elements of a proper list; anything else is a type mismatch.
pub fn into_list(v: &Expr) -> (r: SResult<Vec<Expr>>)
    ensures
        match list_items(v@) {
            Ok(xs) => r is Ok && views(r->Ok_0@) == xs,
            Err(e) => r is Err && r->Err_0@ == e,
        },
{
    match v {
        Expr::List(xs) => Ok(clone_exprs(xs)),
        x => Err(SErr::TypeMismatch(Kind::List, x.clone())),
    }
}

/// The value of an index, cut down to `len`: an integer that is not negative.
pub fn into_index(v: &Expr, len: usize) -> (r: SResult<usize>)
    ensures
        match index_of(v@) {
            Ok(n) => r is Ok && r->Ok_0 == (if n < len { n } else { len as nat }),
            Err(e) => r is Err && r->Err_0@ == e,
        },
{
    match v {
        Expr::Atom(Token::Integer(i)) => {
            if *i < 0 {
                Err(SErr::TypeMismatch(Kind::Integer, v.clone()))
            } else {
                let wide: u64 = *i as u64;
                if wide < len as u64 {
                    Ok(wide as usize)
                } else {
                    Ok(len)
                }
            }
        },
        x => Err(SErr::TypeMismatch(Kind::Integer, x.clone())),
    }
}

/// A copy of the expressions from index `from` up to index `to`.
pub fn clone_between(xs: &Vec<Expr>, from: usize, to: usize) -> (r: Vec<Expr>)
    requires
        from <= to <= xs.len(),
    ensures
        views(r@) == views(xs@).subrange(from as int, to as int),
{
    let mut r: Vec<Expr> = Vec::new();
    let mut i: usize = from;
    while i < to
        invariant
            from <= i <= to <= xs.len(),
            r.len() == i - from,
            forall|j: int| 0 <= j < r.len() ==> r[j]@ == xs[from + j]@,
        decreases to - i,
    {
        r.push(xs[i].clone());
        i += 1;
    }
    assert(views(r@) =~= views(xs@).subrange(from as int, to as int));
    r
}

/// What `list-copy` computes from the values of its arguments.
pub fn list_copy_value(vals: &Vec<Expr>) -> (r: SResult<Expr>)
    ensures
        result_view(r) == list_copy_spec(views(vals@)),
{
    let n = vals.len();
    if n == 0 || n > 3 {
        return Err(SErr::WrongArgCount(3, n));
    }
    assert(views(vals@)[0] == vals[0]@);
    let xs = match &vals[0] {
        Expr::List(xs) => xs,
        x => {
            return Err(SErr::TypeMismatch(Kind::List, x.clone()));
        },
    };
    let len = xs.len();
    if n == 1 {
        assert(views(xs@).subrange(0, len as int) =~= views(xs@));
        return Ok(Expr::List(clone_between(xs, 0, len)));
    }
    assert(views(vals@)[1] == vals[1]@);
    let start = match into_index(&vals[1], len) {
        Ok(s) => s,
        Err(e) => {
            return Err(e);
        },
    };
    if n == 2 {
        return Ok(Expr::List(clone_between(xs, start, len)));
    }
    assert(views(vals@)[2] == vals[2]@);
    let end = match into_index(&vals[2], len) {
        Ok(s) => s,
        Err(e) => {
            return Err(e);
        },
    };
    if precedes(&vals[2], &vals[1]) {
        return Err(SErr::UnexpectedForm(vals[2].clone()));
    }
    let from = if start < end {
        start
    } else {
        end
    };
    Ok(Expr::List(clone_between(xs, from, end)))
}

/// Whether both are integers and the first is less than the second.
fn precedes(a: &Expr, b: &Expr) -> (r: bool)
    ensures
        r == (a@ matches SpecExpr::Atom(SpecToken::Integer(x)) && b@ matches SpecExpr::Atom(
            SpecToken::Integer(y),
        ) && x < y),
{
    match (a, b) {
        (Expr::Atom(Token::Integer(x)), Expr::Atom(Token::Integer(y))) => *x < *y,
        _ => false,
    }
}

/// `list-copy`
pub fn list_copy(args: Args, store: &mut Store, depth: usize) -> (r: SResult<Expr>)
    ensures
        outcome_of(final(store)@, r) == eager_spec(
            old(store)@,
            Primitive::ListCopy,
            args@,
            depth as nat,
        ),
    decreases depth, 3nat, args, 0nat,
{
    match args.eval(store, depth) {
        Ok(vals) => list_copy_value(&vals),
        Err(e) => Err(e),
    }
}

/// What `append` computes from the values of its arguments.
pub fn append_value(vals: &Vec<Expr>) -> (r: SResult<Expr>)
    ensures
        result_view(r) == append_spec(views(vals@)),
{
    let len = vals.len();
    let mut list: Vec<Expr> = Vec::new();
    assert(views(list@) =~= Seq::<SpecExpr>::empty());
    if len == 0 {
        return Ok(Expr::List(list));
    }
    let mut i: usize = 0;
    while i < len - 1
        invariant
            len == vals.len(),
            len > 0,
            i <= len - 1,
            append_from(views(vals@), i as int, views(list@)) == append_from(
                views(vals@),
                0,
                Seq::empty(),
            ),
        decreases len - i,
    {
        assert(views(vals@)[i as int] == vals[i as int]@);
        match into_list(&vals[i]) {
            Ok(xs) => {
                let mut xs = xs;
                assert(views(list@ + xs@) =~= views(list@) + views(xs@));
                list.append(&mut xs);
            },
            Err(e) => {
                return Err(e);
            },
        }
        i += 1;
    }
    assert(views(vals@)[i as int] == vals[i as int]@);
    Ok(Expr::dottedlist(list, vals[i].clone()))
}

pub fn append(args: Args, store: &mut Store, depth: usize) -> (r: SResult<Expr>)
    ensures
        outcome_of(final(store)@, r) == eager_spec(
            old(store)@,
            Primitive::Append,
            args@,
            depth as nat,
        ),
    decreases depth, 3nat, args, 0nat,
{
    match args.eval(store, depth) {
        Ok(vals) => append_value(&vals),
        Err(e) => Err(e),
    }
}

} // verus!
