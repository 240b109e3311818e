//! What evaluation means.
//!
//! These functions define, as mathematics over the views of stores and
//! expressions, the outcome of every operation of the interpreter. Each
//! executable function of `evaluator`, `procedure` and `primitives` is
//! proved to compute the function that its contract names.
//!
//! Evaluation of a program need not end, so every function takes a depth: the
//! number of times `eval` may still nest. At depth zero `eval` fails with
//! `DepthExceeded`.

use vstd::prelude::*;
use crate::env::{
    EnvRef, SpecScope, SpecStore, assign, define, has_scope, lookup, pack_from, resolve,
};
use crate::evaluator::Extra;
use crate::lexer::SpecToken;
use crate::parser::{Expr, SpecExpr, views};
use crate::procedure::{Primitive, SpecParam, SpecProc};
use crate::serr::{Kind, SResult, SpecErr, result_view};

verus! {

/// A store and the result reached in it.
pub ghost struct Outcome {
    pub store: SpecStore,
    pub result: Result<SpecExpr, SpecErr>,
}

/// A store and the results reached in it, for several expressions.
pub ghost struct OutcomeList {
    pub store: SpecStore,
    pub result: Result<Seq<SpecExpr>, SpecErr>,
}

/// The arguments of a call: the expressions as written, the scope of the
/// caller, and the extra datum.
pub ghost struct SpecArgs {
    pub env: EnvRef,
    pub extra: Extra,
    pub items: Seq<SpecExpr>,
}

pub open spec fn done(st: SpecStore, v: SpecExpr) -> Outcome {
    Outcome { store: st, result: Ok(v) }
}

pub open spec fn fail(st: SpecStore, e: SpecErr) -> Outcome {
    Outcome { store: st, result: Err(e) }
}

/// The outcome that a store and a result stand for.
pub open spec fn outcome_of(st: SpecStore, r: SResult<Expr>) -> Outcome {
    Outcome { store: st, result: result_view(r) }
}

/// The outcome that a store and a result of several values stand for.
pub open spec fn outcome_list_of(st: SpecStore, r: SResult<Vec<Expr>>) -> OutcomeList {
    OutcomeList {
        store: st,
        result: match r {
            Ok(vs) => Ok(views(vs@)),
            Err(e) => Err(e@),
        },
    }
}

pub open spec fn symbol(name: Seq<char>) -> SpecExpr {
    SpecExpr::Atom(SpecToken::Symbol(name))
}

pub open spec fn boolean(b: bool) -> SpecExpr {
    SpecExpr::Atom(SpecToken::Boolean(b))
}

/// Every value but `#f` counts as true.
pub open spec fn truthy(v: SpecExpr) -> bool {
    v != boolean(false)
}

/// All but the first element.
pub open spec fn tail_of(xs: Seq<SpecExpr>) -> Seq<SpecExpr> {
    xs.subrange(1, xs.len() as int)
}

/// The improper list of `heads` followed by `tail`, in its normal form: a
/// tail that is itself a list is spliced in, and with no heads the tail
/// stands alone.
pub open spec fn dotted(heads: Seq<SpecExpr>, tail: SpecExpr) -> SpecExpr {
    match tail {
        SpecExpr::List(xs) => SpecExpr::List(heads + xs),
        SpecExpr::DottedList(xs, t) => SpecExpr::DottedList(heads + xs, t),
        _ => if heads.len() == 0 {
            tail
        } else {
            SpecExpr::DottedList(heads, Box::new(tail))
        },
    }
}

// ---------------------------------------------------------------------
// Compound procedures
// ---------------------------------------------------------------------

/// The names of `xs` from index `i` on, after `acc`, if all are symbols;
/// else the first that is none, as a type mismatch.
pub open spec fn symbol_names_from(xs: Seq<SpecExpr>, i: int, acc: Seq<Seq<char>>) -> Result<
    Seq<Seq<char>>,
    SpecErr,
>
    decreases xs.len() - i,
{
    if 0 <= i < xs.len() {
        match xs[i] {
            SpecExpr::Atom(SpecToken::Symbol(s)) => symbol_names_from(xs, i + 1, acc.push(s)),
            x => Err(SpecErr::TypeMismatch(Kind::Symbol, x)),
        }
    } else {
        Ok(acc)
    }
}

/// The parameter specification that a parameter expression stands for.
pub open spec fn param_spec(params_expr: SpecExpr) -> Result<SpecParam, SpecErr> {
    match params_expr {
        SpecExpr::Atom(SpecToken::Symbol(x)) => Ok(SpecParam::Single(x)),
        SpecExpr::List(xs) => match symbol_names_from(xs, 0, Seq::empty()) {
            Ok(names) => Ok(SpecParam::Fixed(names)),
            Err(e) => Err(e),
        },
        SpecExpr::DottedList(xs, y) => match symbol_names_from(xs, 0, Seq::empty()) {
            Ok(names) => match *y {
                SpecExpr::Atom(SpecToken::Symbol(rest)) => Ok(SpecParam::Multi(names, rest)),
                other => Err(SpecErr::TypeMismatch(Kind::Symbol, other)),
            },
            Err(e) => Err(e),
        },
        x => Err(SpecErr::TypeMismatch(Kind::ParameterList, x)),
    }
}

/// The closure made from a parameter expression and a body in the scope
/// `env`. A body without expressions is refused.
pub open spec fn new_compound_spec(params_expr: SpecExpr, body: Seq<SpecExpr>, env: EnvRef) -> Result<
    SpecExpr,
    SpecErr,
> {
    match param_spec(params_expr) {
        Err(e) => Err(e),
        Ok(params) => if body.len() == 0 {
            Err(SpecErr::UnexpectedForm(SpecExpr::List(body)))
        } else {
            Ok(SpecExpr::Procedure(SpecProc::Compound(params, body, env)))
        },
    }
}

/// The error, if any, of calling a procedure of these parameters with `n`
/// arguments.
pub open spec fn arity_error(params: SpecParam, n: nat) -> Option<SpecErr> {
    match params {
        SpecParam::Single(_) => None,
        SpecParam::Fixed(names) => if names.len() == n {
            None
        } else {
            Some(SpecErr::WrongArgCount(names.len() as usize, n as usize))
        },
        SpecParam::Multi(names, _) => if names.len() <= n {
            None
        } else {
            Some(SpecErr::WrongArgCount(names.len() as usize, n as usize))
        },
    }
}

/// The bindings of a fresh call frame.
pub open spec fn bind_params(params: SpecParam, vals: Seq<SpecExpr>) -> Map<Seq<char>, SpecExpr> {
    match params {
        SpecParam::Single(name) => Map::empty().insert(name, SpecExpr::List(vals)),
        SpecParam::Fixed(names) => pack_from(Map::empty(), names, vals, 0),
        SpecParam::Multi(names, rest) => pack_from(Map::empty(), names, vals, 0).insert(
            rest,
            SpecExpr::List(vals.subrange(names.len() as int, vals.len() as int)),
        ),
    }
}

// ---------------------------------------------------------------------
// Evaluation
// ---------------------------------------------------------------------

/// The outcome of evaluating `e` in scope `env`.
pub open spec fn eval_spec(st: SpecStore, e: SpecExpr, env: EnvRef, d: nat) -> Outcome
    decreases d, 0nat, e, 0nat,
{
    if d == 0 {
        fail(st, SpecErr::DepthExceeded)
    } else {
        match e {
            SpecExpr::Atom(SpecToken::Symbol(name)) => match lookup(st, env, name) {
                None => fail(st, SpecErr::UnboundVariable(name)),
                Some(SpecExpr::Lazy(inner, cenv)) => eval_spec(st, *inner, cenv, (d - 1) as nat),
                Some(v) => done(st, v),
            },
            SpecExpr::Lazy(inner, cenv) => eval_spec(st, *inner, cenv, (d - 1) as nat),
            SpecExpr::List(items) => if items.len() == 0 {
                fail(st, SpecErr::UnexpectedForm(e))
            } else {
                let args = SpecArgs { env, extra: Extra::Nothing, items: tail_of(items) };
                match items[0] {
                    SpecExpr::Atom(SpecToken::Symbol(name)) => call_procedure_spec(
                        st,
                        name,
                        args,
                        (d - 1) as nat,
                    ),
                    head => {
                        let o = eval_spec(st, head, env, (d - 1) as nat);
                        match o.result {
                            Ok(SpecExpr::Procedure(p)) => apply_spec(
                                o.store,
                                p,
                                args,
                                (d - 1) as nat,
                            ),
                            Ok(v) => fail(o.store, SpecErr::NotApplicable(v)),
                            Err(_) => o,
                        }
                    },
                }
            },
            SpecExpr::DottedList(_, _) => fail(st, SpecErr::UnexpectedForm(e)),
            _ => done(st, e),
        }
    }
}

/// The outcome of calling what `name` is bound to.
pub open spec fn call_procedure_spec(st: SpecStore, name: Seq<char>, args: SpecArgs, d: nat) -> Outcome
    decreases d, 6nat, args, 0nat,
{
    match lookup(st, args.env, name) {
        None => fail(st, SpecErr::UnboundVariable(name)),
        Some(SpecExpr::Procedure(p)) => apply_spec(st, p, args, d),
        Some(SpecExpr::Lazy(inner, cenv)) => {
            let o = eval_spec(st, *inner, cenv, d);
            match o.result {
                Ok(SpecExpr::Procedure(p)) => apply_spec(o.store, p, args, d),
                Ok(v) => fail(o.store, SpecErr::NotApplicable(v)),
                Err(_) => o,
            }
        },
        Some(v) => fail(st, SpecErr::NotApplicable(v)),
    }
}

/// The outcome of applying a procedure to arguments not yet evaluated.
pub open spec fn apply_spec(st: SpecStore, p: SpecProc, args: SpecArgs, d: nat) -> Outcome
    decreases d, 5nat, args, 0nat,
{
    match p {
        SpecProc::Primitive(f) => apply_primitive_spec(st, f, args, d),
        SpecProc::Compound(params, body, cenv) => apply_compound_spec(
            st,
            params,
            body,
            cenv,
            args,
            d,
        ),
    }
}

/// The outcome of calling a closure: the arity is checked, the arguments
/// are evaluated in the caller's scope, a fresh scope is made under the
/// scope that the closure captured, and the body is evaluated there.
pub open spec fn apply_compound_spec(
    st: SpecStore,
    params: SpecParam,
    body: Seq<SpecExpr>,
    cenv: EnvRef,
    args: SpecArgs,
    d: nat,
) -> Outcome
    decreases d, 4nat, args, 0nat,
{
    match arity_error(params, args.items.len()) {
        Some(e) => fail(st, e),
        None => {
            let o = eval_all_from(st, args.items, 0, Seq::empty(), args.env, d);
            match o.result {
                Err(e) => fail(o.store, e),
                Ok(vals) => {
                    let frame = SpecScope { parent: cenv, vars: bind_params(params, vals) };
                    eval_body_from(
                        o.store.push(frame),
                        body,
                        0,
                        SpecExpr::Unspecified,
                        EnvRef::Scope(o.store.len() as usize),
                        d,
                    )
                },
            }
        },
    }
}

/// The outcome of evaluating `items` from index `i` on, in order, after the
/// values `acc`. The first failure ends it.
pub open spec fn eval_all_from(
    st: SpecStore,
    items: Seq<SpecExpr>,
    i: int,
    acc: Seq<SpecExpr>,
    env: EnvRef,
    d: nat,
) -> OutcomeList
    decreases d, 1nat, items, items.len() - i,
{
    if 0 <= i < items.len() {
        let o = eval_spec(st, items[i], env, d);
        match o.result {
            Ok(v) => eval_all_from(o.store, items, i + 1, acc.push(v), env, d),
            Err(e) => OutcomeList { store: o.store, result: Err(e) },
        }
    } else {
        OutcomeList { store: st, result: Ok(acc) }
    }
}

/// Evaluating all of `items` from index `i` on gives one value for each.
pub proof fn lemma_eval_all_len(
    st: SpecStore,
    items: Seq<SpecExpr>,
    i: int,
    acc: Seq<SpecExpr>,
    env: EnvRef,
    d: nat,
)
    requires
        0 <= i <= items.len(),
    ensures
        eval_all_from(st, items, i, acc, env, d).result matches Ok(vs) ==> vs.len() == acc.len()
            + items.len() - i,
    decreases items.len() - i,
{
    if i < items.len() {
        let o = eval_spec(st, items[i], env, d);
        match o.result {
            Ok(v) => lemma_eval_all_len(o.store, items, i + 1, acc.push(v), env, d),
            Err(_) => {},
        }
    }
}

/// The outcome of evaluating the expressions of a body from index `i` on:
/// the value of the last one, or `last` if none is left.
pub open spec fn eval_body_from(
    st: SpecStore,
    body: Seq<SpecExpr>,
    i: int,
    last: SpecExpr,
    env: EnvRef,
    d: nat,
) -> Outcome
    decreases d, 1nat, body, body.len() - i,
{
    if 0 <= i < body.len() {
        let o = eval_spec(st, body[i], env, d);
        match o.result {
            Ok(v) => eval_body_from(o.store, body, i + 1, v, env, d),
            Err(_) => o,
        }
    } else {
        done(st, last)
    }
}

// ---------------------------------------------------------------------
// Special forms
// ---------------------------------------------------------------------

/// The outcome of binding `name` to `v` in the scope `env` itself.
pub open spec fn bind_in(st: SpecStore, env: EnvRef, name: Seq<char>, v: SpecExpr) -> Outcome {
    if has_scope(st, env) {
        done(define(st, env, name, v), v)
    } else {
        fail(st, SpecErr::UnboundVariable(name))
    }
}

/// `(define name expr)` evaluates `expr` in the current scope, binds `name`
/// there and has the bound value as its own. `(define (name . params) body
/// ...)` binds `name` to the closure of `params` and `body`.
pub open spec fn define_spec(st: SpecStore, args: SpecArgs, d: nat) -> Outcome
    decreases d, 3nat, args, 0nat,
{
    let items = args.items;
    if items.len() == 0 {
        fail(st, SpecErr::WrongArgCount(2, 0))
    } else {
        match items[0] {
            SpecExpr::Atom(SpecToken::Symbol(name)) => if items.len() != 2 {
                fail(st, SpecErr::WrongArgCount(2, items.len() as usize))
            } else {
                let o = eval_spec(st, items[1], args.env, d);
                match o.result {
                    Ok(v) => bind_in(o.store, args.env, name, v),
                    Err(_) => o,
                }
            },
            SpecExpr::List(sig) => if sig.len() > 0 && sig[0] is Atom && sig[0]->Atom_0 is Symbol {
                match new_compound_spec(SpecExpr::List(tail_of(sig)), tail_of(items), args.env) {
                    Ok(p) => bind_in(st, args.env, sig[0]->Atom_0->Symbol_0, p),
                    Err(e) => fail(st, e),
                }
            } else {
                fail(st, SpecErr::TypeMismatch(Kind::Symbol, items[0]))
            },
            SpecExpr::DottedList(sig, rest) => if sig.len() > 0 && sig[0] is Atom
                && sig[0]->Atom_0 is Symbol {
                match new_compound_spec(dotted(tail_of(sig), *rest), tail_of(items), args.env) {
                    Ok(p) => bind_in(st, args.env, sig[0]->Atom_0->Symbol_0, p),
                    Err(e) => fail(st, e),
                }
            } else {
                fail(st, SpecErr::TypeMismatch(Kind::Symbol, items[0]))
            },
            x => fail(st, SpecErr::TypeMismatch(Kind::Symbol, x)),
        }
    }
}

/// `(set! name expr)` evaluates `expr`, then overwrites `name` in the
/// nearest scope that binds it; with no such scope it fails.
pub open spec fn assign_spec(st: SpecStore, args: SpecArgs, d: nat) -> Outcome
    decreases d, 3nat, args, 0nat,
{
    let items = args.items;
    if items.len() != 2 {
        fail(st, SpecErr::WrongArgCount(2, items.len() as usize))
    } else {
        match items[0] {
            SpecExpr::Atom(SpecToken::Symbol(name)) => {
                let o = eval_spec(st, items[1], args.env, d);
                match o.result {
                    Ok(v) => if resolve(o.store, args.env, name) is Some {
                        done(assign(o.store, args.env, name, v), SpecExpr::Unspecified)
                    } else {
                        fail(o.store, SpecErr::UnboundVariable(name))
                    },
                    Err(_) => o,
                }
            },
            x => fail(st, SpecErr::TypeMismatch(Kind::Symbol, x)),
        }
    }
}

/// `(lambda params body ...)` makes a closure over the current scope,
/// evaluating nothing.
pub open spec fn lambda_value(args: SpecArgs) -> Result<SpecExpr, SpecErr> {
    if args.items.len() == 0 {
        Err(SpecErr::WrongArgCount(2, 0))
    } else {
        new_compound_spec(args.items[0], tail_of(args.items), args.env)
    }
}

/// `(quote x)` is `x`, as written.
pub open spec fn quote_value(args: SpecArgs) -> Result<SpecExpr, SpecErr> {
    if args.items.len() != 1 {
        Err(SpecErr::WrongArgCount(1, args.items.len() as usize))
    } else {
        Ok(args.items[0])
    }
}

/// `(if c a b)` evaluates `c`, then exactly one of `a` and `b`. Without `b`,
/// a false `c` gives no value.
pub open spec fn if_spec(st: SpecStore, args: SpecArgs, d: nat) -> Outcome
    decreases d, 3nat, args, 0nat,
{
    let items = args.items;
    if items.len() != 2 && items.len() != 3 {
        fail(st, SpecErr::WrongArgCount(3, items.len() as usize))
    } else {
        let o = eval_spec(st, items[0], args.env, d);
        match o.result {
            Ok(c) => if truthy(c) {
                eval_spec(o.store, items[1], args.env, d)
            } else if items.len() == 3 {
                eval_spec(o.store, items[2], args.env, d)
            } else {
                done(o.store, SpecExpr::Unspecified)
            },
            Err(_) => o,
        }
    }
}

/// `(and e ...)` from index `i` on: the first false value, else the last
/// value, else `last`.
pub open spec fn and_from(
    st: SpecStore,
    items: Seq<SpecExpr>,
    i: int,
    last: SpecExpr,
    env: EnvRef,
    d: nat,
) -> Outcome
    decreases d, 1nat, items, items.len() - i,
{
    if 0 <= i < items.len() {
        let o = eval_spec(st, items[i], env, d);
        match o.result {
            Ok(v) => if truthy(v) {
                and_from(o.store, items, i + 1, v, env, d)
            } else {
                o
            },
            Err(_) => o,
        }
    } else {
        done(st, last)
    }
}

/// `(or e ...)` from index `i` on: the first true value, else the last
/// value, else `last`.
pub open spec fn or_from(
    st: SpecStore,
    items: Seq<SpecExpr>,
    i: int,
    last: SpecExpr,
    env: EnvRef,
    d: nat,
) -> Outcome
    decreases d, 1nat, items, items.len() - i,
{
    if 0 <= i < items.len() {
        let o = eval_spec(st, items[i], env, d);
        match o.result {
            Ok(v) => if truthy(v) {
                o
            } else {
                or_from(o.store, items, i + 1, v, env, d)
            },
            Err(_) => o,
        }
    } else {
        done(st, last)
    }
}

// ---------------------------------------------------------------------
// Quasiquotation
// ---------------------------------------------------------------------

/// Whether `e` is the two-element list that begins with the symbol `name`.
pub open spec fn is_tagged(e: SpecExpr, name: Seq<char>) -> bool {
    e matches SpecExpr::List(items) && items.len() == 2 && items[0] == symbol(name)
}

/// The two-element list of `head` and `v`.
pub open spec fn pair_list(head: SpecExpr, v: SpecExpr) -> SpecExpr {
    SpecExpr::List(seq![head, v])
}

/// Whether exactly two elements stand from index `i` on, the first of them
/// the symbol `name`: whether what is left of the list is the form `(name
/// x)`.
pub open spec fn tagged_at(items: Seq<SpecExpr>, i: int, name: Seq<char>) -> bool {
    0 <= i && i + 2 == items.len() && items[i] == symbol(name)
}

/// The list of `acc`, the element `head` and the value of `o`.
pub open spec fn close_list(acc: Seq<SpecExpr>, head: SpecExpr, o: Outcome) -> Outcome {
    Outcome {
        store: o.store,
        result: match o.result {
            Ok(v) => Ok(SpecExpr::List(acc.push(head).push(v))),
            Err(e) => Err(e),
        },
    }
}

/// The outcome of a template at nesting level `level`, which is at least 1.
///
/// The template stays as written, but for each `(unquote x)` at level 1,
/// which is replaced by the value of `x`, and each element `(unquote-splicing
/// x)` at level 1, which is replaced by the elements of the value of `x`. A
/// nested `quasiquote` raises the level for what it holds, an `unquote`
/// lowers it. A level that no machine word can count ends the evaluation
/// as too deep.
pub open spec fn quasi(st: SpecStore, e: SpecExpr, level: nat, env: EnvRef, d: nat) -> Outcome
    decreases d, 1nat, e, 0nat,
{
    match e {
        SpecExpr::List(items) => quasi_tail(st, items, 0, Seq::empty(), level, env, d),
        SpecExpr::DottedList(items, rest) => {
            let o = quasi_list(st, items, 0, Seq::empty(), level, env, d);
            match o.result {
                Ok(vs) => {
                    let o2 = quasi(o.store, *rest, level, env, d);
                    match o2.result {
                        Ok(t) => done(o2.store, dotted(vs, t)),
                        Err(_) => o2,
                    }
                },
                Err(err) => fail(o.store, err),
            }
        },
        _ => done(st, e),
    }
}

/// The outcome of a proper list as a template, from index `i` on, after
/// `acc`. A list is a chain of pairs, so what is left of it at any index
/// may itself be one of the forms `(unquote x)`, `(unquote-splicing x)` and
/// `(quasiquote x)`: the first, at level 1, makes the value of `x` the tail
/// of the result.
pub open spec fn quasi_tail(
    st: SpecStore,
    items: Seq<SpecExpr>,
    i: int,
    acc: Seq<SpecExpr>,
    level: nat,
    env: EnvRef,
    d: nat,
) -> Outcome
    decreases d, 1nat, items, items.len() - i,
{
    if 0 <= i < items.len() {
        if tagged_at(items, i, "unquote"@) {
            if level <= 1 {
                let o = eval_spec(st, items[i + 1], env, d);
                match o.result {
                    Ok(v) => done(o.store, dotted(acc, v)),
                    Err(_) => o,
                }
            } else {
                close_list(acc, items[i], quasi(st, items[i + 1], (level - 1) as nat, env, d))
            }
        } else if tagged_at(items, i, "unquote-splicing"@) {
            if level <= 1 {
                fail(st, SpecErr::UnexpectedForm(SpecExpr::List(items.subrange(i, i + 2))))
            } else {
                close_list(acc, items[i], quasi(st, items[i + 1], (level - 1) as nat, env, d))
            }
        } else if tagged_at(items, i, "quasiquote"@) {
            if level >= usize::MAX {
                fail(st, SpecErr::DepthExceeded)
            } else {
                close_list(acc, items[i], quasi(st, items[i + 1], level + 1, env, d))
            }
        } else {
            let o = quasi_item(st, items[i], acc, level, env, d);
            match o.result {
                Ok(acc2) => quasi_tail(o.store, items, i + 1, acc2, level, env, d),
                Err(err) => fail(o.store, err),
            }
        }
    } else {
        done(st, SpecExpr::List(acc))
    }
}

/// The values `acc` followed by what one element of a template gives: at
/// level 1 an element `(unquote-splicing x)` gives the elements of the value
/// of `x`, which must be a list; any other element gives its one value.
pub open spec fn quasi_item(
    st: SpecStore,
    item: SpecExpr,
    acc: Seq<SpecExpr>,
    level: nat,
    env: EnvRef,
    d: nat,
) -> OutcomeList
    decreases d, 1nat, item, 1nat,
{
    if level <= 1 && is_tagged(item, "unquote-splicing"@) {
        let o = eval_spec(st, item->List_0[1], env, d);
        match o.result {
            Ok(SpecExpr::List(vs)) => OutcomeList { store: o.store, result: Ok(acc + vs) },
            Ok(v) => OutcomeList {
                store: o.store,
                result: Err(SpecErr::TypeMismatch(Kind::List, v)),
            },
            Err(err) => OutcomeList { store: o.store, result: Err(err) },
        }
    } else {
        let o = quasi(st, item, level, env, d);
        match o.result {
            Ok(v) => OutcomeList { store: o.store, result: Ok(acc.push(v)) },
            Err(err) => OutcomeList { store: o.store, result: Err(err) },
        }
    }
}

/// The outcome of the heads of an improper list as a template, from index
/// `i` on, after `acc`.
pub open spec fn quasi_list(
    st: SpecStore,
    items: Seq<SpecExpr>,
    i: int,
    acc: Seq<SpecExpr>,
    level: nat,
    env: EnvRef,
    d: nat,
) -> OutcomeList
    decreases d, 1nat, items, items.len() - i,
{
    if 0 <= i < items.len() {
        let o = quasi_item(st, items[i], acc, level, env, d);
        match o.result {
            Ok(acc2) => quasi_list(o.store, items, i + 1, acc2, level, env, d),
            Err(_) => o,
        }
    } else {
        OutcomeList { store: st, result: Ok(acc) }
    }
}

/// The nesting level at which a call is made, given its extra datum.
pub open spec fn level_of(extra: Extra) -> nat {
    match extra {
        Extra::QQLevel(n) => n as nat,
        Extra::Nothing => 0,
    }
}

/// `(quasiquote x)` is the template `x`, one level deeper than the call.
pub open spec fn quasiquote_spec(st: SpecStore, args: SpecArgs, d: nat) -> Outcome
    decreases d, 3nat, args, 0nat,
{
    if args.items.len() != 1 {
        fail(st, SpecErr::WrongArgCount(1, args.items.len() as usize))
    } else if level_of(args.extra) >= usize::MAX {
        fail(st, SpecErr::DepthExceeded)
    } else {
        quasi(st, args.items[0], level_of(args.extra) + 1, args.env, d)
    }
}

/// `(unquote x)`, met at the level that the extra datum gives. Outside any
/// `quasiquote` it is an error; at level 1 it is the value of `x`; deeper, it
/// stays, with `x` taken as a template one level down.
pub open spec fn unquote_spec(st: SpecStore, args: SpecArgs, d: nat) -> Outcome
    decreases d, 3nat, args, 0nat,
{
    let whole = SpecExpr::List(seq![symbol("unquote"@)] + args.items);
    match args.extra {
        Extra::QQLevel(n) => if n == 0 {
            fail(st, SpecErr::UnexpectedForm(whole))
        } else if args.items.len() != 1 {
            fail(st, SpecErr::WrongArgCount(1, args.items.len() as usize))
        } else if n == 1 {
            eval_spec(st, args.items[0], args.env, d)
        } else {
            close_list(
                Seq::empty(),
                symbol("unquote"@),
                quasi(st, args.items[0], (n - 1) as nat, args.env, d),
            )
        },
        Extra::Nothing => fail(st, SpecErr::UnexpectedForm(whole)),
    }
}

// ---------------------------------------------------------------------
// Primitives
// ---------------------------------------------------------------------

/// Whether the primitive is a special form: whether it gets its arguments
/// as written.
pub open spec fn is_special_form(f: Primitive) -> bool {
    match f {
        Primitive::Define
        | Primitive::Assign
        | Primitive::Lambda
        | Primitive::Quote
        | Primitive::Quasiquote
        | Primitive::Unquote
        | Primitive::If
        | Primitive::And
        | Primitive::Or
        | Primitive::Let
        | Primitive::LetStar
        | Primitive::LetRec
        | Primitive::Cond
        | Primitive::Case => true,
        _ => false,
    }
}

/// The outcome of a primitive that evaluates all its arguments, in order,
/// and then computes on the values.
pub open spec fn eager_spec(st: SpecStore, f: Primitive, args: SpecArgs, d: nat) -> Outcome
    decreases d, 3nat, args, 0nat,
{
    let o = eval_all_from(st, args.items, 0, Seq::empty(), args.env, d);
    match o.result {
        Ok(vals) => Outcome { store: o.store, result: crate::primitives::value_spec(f, vals) },
        Err(e) => fail(o.store, e),
    }
}

/// The outcome of applying a primitive.
pub open spec fn apply_primitive_spec(st: SpecStore, f: Primitive, args: SpecArgs, d: nat) -> Outcome
    decreases d, 4nat, args, 0nat,
{
    match f {
        Primitive::Define => define_spec(st, args, d),
        Primitive::Assign => assign_spec(st, args, d),
        Primitive::Lambda => Outcome { store: st, result: lambda_value(args) },
        Primitive::Quote => Outcome { store: st, result: quote_value(args) },
        Primitive::Quasiquote => quasiquote_spec(st, args, d),
        Primitive::Unquote => unquote_spec(st, args, d),
        Primitive::If => if_spec(st, args, d),
        Primitive::And => and_from(st, args.items, 0, boolean(true), args.env, d),
        Primitive::Or => or_from(st, args.items, 0, boolean(false), args.env, d),
        Primitive::Let => crate::primitives::lang::let_spec(st, args, d),
        Primitive::LetStar => crate::primitives::lang::let_star_spec(st, args, d),
        Primitive::LetRec => crate::primitives::lang::let_rec_spec(st, args, d),
        Primitive::Cond => crate::primitives::conditionals::cond_from(
            st,
            args.items,
            0,
            args.env,
            d,
        ),
        Primitive::Case => crate::primitives::conditionals::case_spec(st, args, d),
        Primitive::Apply => crate::primitives::lang::apply_form_spec(st, args, d),
        _ => eager_spec(st, f, args, d),
    }
}

} // verus!
