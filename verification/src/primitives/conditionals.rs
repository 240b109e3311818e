//! Forms that choose: `cond` and `case`.

use vstd::prelude::*;
use crate::env::{EnvRef, SpecStore, Store};
use crate::evaluator::{Args, eval, eval_sequence};
use crate::lexer::Token;
use crate::parser::{Expr, SpecExpr, views};
use crate::primitives::to_bool;
use crate::primitives::equivalence::same;
use crate::semantics::{
    Outcome, SpecArgs, done, eval_body_from, eval_spec, fail, outcome_of, symbol, truthy,
};
use crate::serr::{SErr, SResult, SpecErr};

verus! {

/// The clauses of `cond` from index `i` on. A clause is `(test body ...)`:
/// the first clause whose test is true, or is the symbol `else`, has its
/// body evaluated; without a body, the value of the test is the value. With
/// no such clause there is no value.
pub open spec fn cond_from(st: SpecStore, clauses: Seq<SpecExpr>, i: int, env: EnvRef, d: nat)
    -> Outcome
    decreases d, 2nat, clauses, clauses.len() - i,
{
    if 0 <= i < clauses.len() {
        match clauses[i] {
            SpecExpr::List(xs) => if xs.len() == 0 {
                fail(st, SpecErr::UnexpectedForm(clauses[i]))
            } else if xs[0] == symbol("else"@) {
                eval_body_from(st, xs, 1, SpecExpr::Unspecified, env, d)
            } else {
                let o = eval_spec(st, xs[0], env, d);
                match o.result {
                    Ok(v) => if truthy(v) {
                        eval_body_from(o.store, xs, 1, v, env, d)
                    } else {
                        cond_from(o.store, clauses, i + 1, env, d)
                    },
                    Err(_) => o,
                }
            },
            x => fail(st, SpecErr::UnexpectedForm(x)),
        }
    } else {
        done(st, SpecExpr::Unspecified)
    }
}

/// Whether a clause of `case` is for `key`: whether it begins with the
/// symbol `else`, or with a list that holds `key`.
pub open spec fn is_for(head: SpecExpr, key: SpecExpr) -> bool {
    head == symbol("else"@) || (head matches SpecExpr::List(datums) && datums.contains(key))
}

/// The clauses of `case` from index `i` on. A clause is `((datum ...) body
/// ...)` or `(else body ...)`: the first clause that is for `key` has its
/// body evaluated. With no such clause there is no value.
pub open spec fn case_from(
    st: SpecStore,
    key: SpecExpr,
    clauses: Seq<SpecExpr>,
    i: int,
    env: EnvRef,
    d: nat,
) -> Outcome
    decreases d, 2nat, clauses, clauses.len() - i,
{
    if 0 <= i < clauses.len() {
        match clauses[i] {
            SpecExpr::List(xs) => if xs.len() == 0 {
                fail(st, SpecErr::UnexpectedForm(clauses[i]))
            } else if is_for(xs[0], key) {
                eval_body_from(st, xs, 1, SpecExpr::Unspecified, env, d)
            } else if xs[0] is List {
                case_from(st, key, clauses, i + 1, env, d)
            } else {
                fail(st, SpecErr::UnexpectedForm(clauses[i]))
            },
            x => fail(st, SpecErr::UnexpectedForm(x)),
        }
    } else {
        done(st, SpecExpr::Unspecified)
    }
}

/// `(case key clause ...)` evaluates `key` and then the body of the first
/// clause that is for its value.
pub open spec fn case_spec(st: SpecStore, args: SpecArgs, d: nat) -> Outcome
    decreases d, 3nat, args, 0nat,
{
    if args.items.len() == 0 {
        fail(st, SpecErr::WrongArgCount(2, 0))
    } else {
        let o = eval_spec(st, args.items[0], args.env, d);
        match o.result {
            Ok(key) => case_from(o.store, key, args.items, 1, args.env, d),
            Err(_) => o,
        }
    }
}

/// Whether the expression is the symbol `else`.
fn is_else(e: &Expr) -> (b: bool)
    ensures
        b == (e@ == symbol("else"@)),
{
    match e {
        Expr::Atom(Token::Symbol(s)) => *s == "else".to_owned(),
        _ => false,
    }
}

/// `cond`
pub fn cond(args: Args, store: &mut Store, depth: usize) -> (r: SResult<Expr>)
    ensures
        outcome_of(final(store)@, r) == cond_from(
            old(store)@,
            args@.items,
            0,
            args@.env,
            depth as nat,
        ),
    decreases depth, 2nat, args, 0nat,
{
    let mut i: usize = 0;
    while i < args.vec.len()
        invariant
            i <= args.vec.len(),
            cond_from(store@, args@.items, i as int, args.env, depth as nat) == cond_from(
                old(store)@,
                args@.items,
                0,
                args.env,
                depth as nat,
            ),
        decreases args.vec.len() - i,
    {
        assert(args@.items[i as int] == args.vec[i as int]@);
        match &args.vec[i] {
            Expr::List(xs) => {
                assert(views(xs@).len() == xs.len());
                if xs.len() == 0 {
                    return Err(SErr::UnexpectedForm(args.vec[i].clone()));
                }
                assert(views(xs@)[0] == xs[0]@);
                if is_else(&xs[0]) {
                    return eval_sequence(xs, 1, Expr::Unspecified, args.env, store, depth);
                }
                match eval(&xs[0], args.env, store, depth) {
                    Ok(v) => {
                        if to_bool(&v) {
                            return eval_sequence(xs, 1, v, args.env, store, depth);
                        }
                    },
                    Err(e) => {
                        return Err(e);
                    },
                }
            },
            x => {
                return Err(SErr::UnexpectedForm(x.clone()));
            },
        }
        i += 1;
    }
    Ok(Expr::Unspecified)
}

/// Whether one of the values is `key`.
fn holds(datums: &Vec<Expr>, key: &Expr) -> (b: bool)
    ensures
        b == views(datums@).contains(key@),
{
    let mut i: usize = 0;
    while i < datums.len()
        invariant
            i <= datums.len(),
            forall|j: int| 0 <= j < i ==> datums[j]@ != key@,
        decreases datums.len() - i,
    {
        if same(&datums[i], key) {
            assert(views(datums@)[i as int] == key@);
            return true;
        }
        i += 1;
    }
    assert(!views(datums@).contains(key@)) by {
        if views(datums@).contains(key@) {
            let j = choose|j: int| 0 <= j < views(datums@).len() && views(datums@)[j] == key@;
            assert(datums[j]@ != key@);
        }
    }
    false
}

/// `case`
pub fn case(args: Args, store: &mut Store, depth: usize) -> (r: SResult<Expr>)
    ensures
        outcome_of(final(store)@, r) == case_spec(old(store)@, args@, depth as nat),
    decreases depth, 3nat, args, 0nat,
{
    if args.vec.len() == 0 {
        return Err(SErr::WrongArgCount(2, 0));
    }
    assert(args@.items[0] == args.vec[0]@);
    let key = match eval(&args.vec[0], args.env, store, depth) {
        Ok(key) => key,
        Err(e) => {
            return Err(e);
        },
    };
    let mut i: usize = 1;
    while i < args.vec.len()
        invariant
            1 <= i <= args.vec.len(),
            case_from(store@, key@, args@.items, i as int, args.env, depth as nat)
                == case_spec(old(store)@, args@, depth as nat),
        decreases args.vec.len() - i,
    {
        assert(args@.items[i as int] == args.vec[i as int]@);
        match &args.vec[i] {
            Expr::List(xs) => {
                assert(views(xs@).len() == xs.len());
                if xs.len() == 0 {
                    return Err(SErr::UnexpectedForm(args.vec[i].clone()));
                }
                assert(views(xs@)[0] == xs[0]@);
                let chosen = if is_else(&xs[0]) {
                    true
                } else {
                    match &xs[0] {
                        Expr::List(datums) => holds(datums, &key),
                        _ => {
                            return Err(SErr::UnexpectedForm(args.vec[i].clone()));
                        },
                    }
                };
                if chosen {
                    return eval_sequence(xs, 1, Expr::Unspecified, args.env, store, depth);
                }
            },
            x => {
                return Err(SErr::UnexpectedForm(x.clone()));
            },
        }
        i += 1;
    }
    Ok(Expr::Unspecified)
}

} // verus!
