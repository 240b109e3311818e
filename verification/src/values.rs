//! Evaluation yields values: a deferred expression is forced where it is
//! read, so that no caller is ever handed one.
//!
//! This holds of programs and stores in which deferred expressions stand
//! where the language puts them, as what a name is bound to, and nowhere
//! inside an expression or a value. What the parser reads is of that kind,
//! and so is every store that evaluation makes from one of that kind.

use vstd::prelude::*;
use crate::env::{
    EnvRef, SpecScope, SpecStore, assign, define, lemma_resolve_in_range, lookup, pack_from,
    resolve,
};
use crate::evaluator::Extra;
use crate::laws::fresh_store;
use crate::lexer::{SpecToken, lex};
use crate::number::Exact;
use crate::parser::{MAX_NESTING, SpecExpr, parse_spec};
use crate::primitives::{primitive, table, value_spec};
use crate::primitives::boolean::all_same_from;
use crate::primitives::conditionals::{case_from, cond_from};
use crate::primitives::lang::{
    OutcomeVars, binding_parts, bindings_of, deferred_from, let_bind_from, let_star_from, quoted,
    quoted_all,
};
use crate::primitives::list::{append_from, clipped};
use crate::primitives::numeric::fold_from;
use crate::procedure::{Primitive, SpecParam, SpecProc};
use crate::repl::{SpecReply, SpecSession, result_name, run_from, run_spec};
use crate::roundtrip::{lemma_lex_printable, lemma_parse_all_writable, writable};
use crate::semantics::{
    Outcome, OutcomeList, SpecArgs, and_from, apply_primitive_spec, apply_spec, arity_error,
    bind_in, bind_params, boolean, call_procedure_spec, dotted, eval_all_from, eval_body_from,
    eval_spec, is_tagged, lemma_eval_all_len, level_of, new_compound_spec, or_from, quasi,
    quasi_item, quasi_list, quasi_tail, tagged_at, tail_of,
};

verus! {

/// No deferred expression stands anywhere in the expression.
pub open spec fn lazy_free(e: SpecExpr) -> bool
    decreases e,
{
    match e {
        SpecExpr::Atom(_) => true,
        SpecExpr::List(items) => forall|i: int|
            0 <= i < items.len() ==> lazy_free(#[trigger] items[i]),
        SpecExpr::DottedList(items, tail) => {
            &&& forall|i: int| 0 <= i < items.len() ==> lazy_free(#[trigger] items[i])
            &&& lazy_free(*tail)
        },
        SpecExpr::Procedure(SpecProc::Primitive(_)) => true,
        SpecExpr::Procedure(SpecProc::Compound(_, body, _)) => forall|i: int|
            0 <= i < body.len() ==> lazy_free(#[trigger] body[i]),
        SpecExpr::Lazy(_, _) => false,
        SpecExpr::Unspecified => true,
    }
}

pub open spec fn all_lazy_free(es: Seq<SpecExpr>) -> bool {
    forall|i: int| 0 <= i < es.len() ==> lazy_free(#[trigger] es[i])
}

/// What a name may be bound to: a value, or a deferred expression that
/// holds no other.
pub open spec fn binding_ok(v: SpecExpr) -> bool {
    lazy_free(v) || (v matches SpecExpr::Lazy(inner, _) && lazy_free(*inner))
}

pub open spec fn vars_ok(vars: Map<Seq<char>, SpecExpr>) -> bool {
    forall|k: Seq<char>| vars.contains_key(k) ==> binding_ok(#[trigger] vars[k])
}

/// Every name of every scope is bound to a value or to a deferred
/// expression.
pub open spec fn store_ok(st: SpecStore) -> bool {
    forall|i: int| 0 <= i < st.len() ==> vars_ok((#[trigger] st[i]).vars)
}

/// The store is of that kind, and the result, if there is one, is a value.
pub open spec fn good(o: Outcome) -> bool {
    store_ok(o.store) && (o.result matches Ok(v) ==> lazy_free(v))
}

pub open spec fn good_list(o: OutcomeList) -> bool {
    store_ok(o.store) && (o.result matches Ok(vs) ==> all_lazy_free(vs))
}

pub open spec fn good_vars(o: OutcomeVars) -> bool {
    store_ok(o.store) && (o.result matches Ok(vars) ==> vars_ok(vars))
}

pub open spec fn args_ok(args: SpecArgs) -> bool {
    all_lazy_free(args.items)
}

// ---------------------------------------------------------------------
// Sequences and stores
// ---------------------------------------------------------------------

pub proof fn lemma_concat_lazy_free(a: Seq<SpecExpr>, b: Seq<SpecExpr>)
    requires
        all_lazy_free(a),
        all_lazy_free(b),
    ensures
        all_lazy_free(a + b),
{
    assert forall|i: int| 0 <= i < (a + b).len() implies lazy_free(#[trigger] (a + b)[i]) by {
        if i < a.len() {
            assert((a + b)[i] == a[i]);
        } else {
            assert((a + b)[i] == b[i - a.len()]);
        }
    }
}

pub proof fn lemma_push_lazy_free(a: Seq<SpecExpr>, v: SpecExpr)
    requires
        all_lazy_free(a),
        lazy_free(v),
    ensures
        all_lazy_free(a.push(v)),
{
    assert forall|i: int| 0 <= i < a.push(v).len() implies lazy_free(#[trigger] a.push(v)[i]) by {
        if i < a.len() {
            assert(a.push(v)[i] == a[i]);
        }
    }
}

pub proof fn lemma_subrange_lazy_free(a: Seq<SpecExpr>, i: int, j: int)
    requires
        all_lazy_free(a),
        0 <= i <= j <= a.len(),
    ensures
        all_lazy_free(a.subrange(i, j)),
{
    assert forall|k: int| 0 <= k < a.subrange(i, j).len() implies lazy_free(
        #[trigger] a.subrange(i, j)[k],
    ) by {
        assert(a.subrange(i, j)[k] == a[i + k]);
    }
}

pub proof fn lemma_dotted_lazy_free(heads: Seq<SpecExpr>, tail: SpecExpr)
    requires
        all_lazy_free(heads),
        lazy_free(tail),
    ensures
        lazy_free(dotted(heads, tail)),
{
    match tail {
        SpecExpr::List(xs) => {
            lemma_concat_lazy_free(heads, xs);
        },
        SpecExpr::DottedList(xs, t) => {
            lemma_concat_lazy_free(heads, xs);
        },
        _ => {},
    }
}

pub proof fn lemma_define_ok(st: SpecStore, env: EnvRef, name: Seq<char>, v: SpecExpr)
    requires
        store_ok(st),
        binding_ok(v),
    ensures
        store_ok(define(st, env, name, v)),
        store_ok(assign(st, env, name, v)),
        good(bind_in(st, env, name, v)) || !lazy_free(v),
{
    lemma_resolve_in_range(st, env, name);
    let a = define(st, env, name, v);
    assert forall|i: int| 0 <= i < a.len() implies vars_ok((#[trigger] a[i]).vars) by {
        assert(vars_ok(st[i].vars));
        assert forall|k: Seq<char>| a[i].vars.contains_key(k) implies binding_ok(
            #[trigger] a[i].vars[k],
        ) by {
            if st[i].vars.contains_key(k) {
                assert(binding_ok(st[i].vars[k]));
            }
        }
    }
    let b = assign(st, env, name, v);
    assert forall|i: int| 0 <= i < b.len() implies vars_ok((#[trigger] b[i]).vars) by {
        assert(vars_ok(st[i].vars));
        assert forall|k: Seq<char>| b[i].vars.contains_key(k) implies binding_ok(
            #[trigger] b[i].vars[k],
        ) by {
            if st[i].vars.contains_key(k) {
                assert(binding_ok(st[i].vars[k]));
            }
        }
    }
}

pub proof fn lemma_push_ok(st: SpecStore, frame: SpecScope)
    requires
        store_ok(st),
        vars_ok(frame.vars),
    ensures
        store_ok(st.push(frame)),
{
    let a = st.push(frame);
    assert forall|i: int| 0 <= i < a.len() implies vars_ok((#[trigger] a[i]).vars) by {
        if i < st.len() {
            assert(a[i] == st[i]);
            assert(vars_ok(st[i].vars));
        }
    }
}

pub proof fn lemma_insert_ok(vars: Map<Seq<char>, SpecExpr>, name: Seq<char>, v: SpecExpr)
    requires
        vars_ok(vars),
        binding_ok(v),
    ensures
        vars_ok(vars.insert(name, v)),
{
    assert forall|k: Seq<char>| vars.insert(name, v).contains_key(k) implies binding_ok(
        #[trigger] vars.insert(name, v)[k],
    ) by {
        if k != name {
            assert(binding_ok(vars[k]));
        }
    }
}

pub proof fn lemma_lookup_ok(st: SpecStore, env: EnvRef, name: Seq<char>)
    requires
        store_ok(st),
    ensures
        lookup(st, env, name) matches Some(v) ==> binding_ok(v),
{
    lemma_resolve_in_range(st, env, name);
    match resolve(st, env, name) {
        Some(i) => {
            assert(vars_ok(st[i as int].vars));
        },
        None => {},
    }
}

pub proof fn lemma_pack_ok(
    vars: Map<Seq<char>, SpecExpr>,
    names: Seq<Seq<char>>,
    vals: Seq<SpecExpr>,
    i: int,
)
    requires
        vars_ok(vars),
        all_lazy_free(vals),
    ensures
        vars_ok(pack_from(vars, names, vals, i)),
    decreases names.len() - i,
{
    if 0 <= i < names.len() && i < vals.len() {
        lemma_insert_ok(vars, names[i], vals[i]);
        lemma_pack_ok(vars.insert(names[i], vals[i]), names, vals, i + 1);
    }
}

pub proof fn lemma_bind_params_ok(params: SpecParam, vals: Seq<SpecExpr>)
    requires
        all_lazy_free(vals),
        arity_error(params, vals.len()) is None,
    ensures
        vars_ok(bind_params(params, vals)),
{
    let none = Map::<Seq<char>, SpecExpr>::empty();
    match params {
        SpecParam::Single(name) => {
            lemma_insert_ok(none, name, SpecExpr::List(vals));
        },
        SpecParam::Fixed(names) => {
            lemma_pack_ok(none, names, vals, 0);
        },
        SpecParam::Multi(names, rest) => {
            lemma_pack_ok(none, names, vals, 0);
            let tail = vals.subrange(names.len() as int, vals.len() as int);
            lemma_subrange_lazy_free(vals, names.len() as int, vals.len() as int);
            lemma_insert_ok(pack_from(none, names, vals, 0), rest, SpecExpr::List(tail));
        },
    }
}

pub proof fn lemma_new_compound_ok(params_expr: SpecExpr, body: Seq<SpecExpr>, env: EnvRef)
    requires
        all_lazy_free(body),
    ensures
        new_compound_spec(params_expr, body, env) matches Ok(p) ==> lazy_free(p),
{
}

// ---------------------------------------------------------------------
// What the primitives compute from values
// ---------------------------------------------------------------------

proof fn lemma_append_ok(vals: Seq<SpecExpr>, i: int, acc: Seq<SpecExpr>)
    requires
        all_lazy_free(vals),
        all_lazy_free(acc),
        0 <= i,
    ensures
        append_from(vals, i, acc) matches Ok(v) ==> lazy_free(v),
    decreases vals.len() - i,
{
    if i < vals.len() - 1 {
        match vals[i] {
            SpecExpr::List(xs) => {
                assert(lazy_free(vals[i]));
                lemma_concat_lazy_free(acc, xs);
                lemma_append_ok(vals, i + 1, acc + xs);
            },
            _ => {},
        }
    } else if i == vals.len() - 1 {
        assert(lazy_free(vals[i]));
        lemma_dotted_lazy_free(acc, vals[i]);
    }
}

proof fn lemma_all_same_ok(vals: Seq<SpecExpr>, i: int, control: SpecExpr)
    ensures
        all_same_from(vals, i, control) matches Ok(v) ==> lazy_free(v),
    decreases vals.len() - i,
{
    if 0 <= i < vals.len() {
        lemma_all_same_ok(vals, i + 1, control);
    }
}

proof fn lemma_fold_ok(f: Primitive, vals: Seq<SpecExpr>, i: int, acc: Exact)
    ensures
        fold_from(f, vals, i, acc) matches Ok(v) ==> lazy_free(v),
    decreases vals.len() - i,
{
    if 0 <= i < vals.len() {
        match crate::primitives::numeric::exact_of(vals[i]) {
            Some(y) => match crate::primitives::numeric::combine(f, acc, y) {
                Ok(z) => lemma_fold_ok(f, vals, i + 1, z),
                Err(_) => {},
            },
            None => {},
        }
    }
}

/// A primitive that computes on values gives a value.
pub proof fn lemma_value_spec_ok(f: Primitive, vals: Seq<SpecExpr>)
    requires
        all_lazy_free(vals),
    ensures
        value_spec(f, vals) matches Ok(v) ==> lazy_free(v),
{
    match f {
        Primitive::Add | Primitive::Sub | Primitive::Mul | Primitive::Div => {
            lemma_fold_ok(f, vals, 0, crate::primitives::numeric::identity(f));
            if vals.len() >= 2 {
                match crate::primitives::numeric::exact_of(vals[0]) {
                    Some(x) => lemma_fold_ok(f, vals, 1, x),
                    None => {},
                }
            }
        },
        Primitive::Cons => {
            if vals.len() == 2 {
                assert(lazy_free(vals[0]) && lazy_free(vals[1]));
                let one = seq![vals[0]];
                assert(all_lazy_free(one));
                match vals[1] {
                    SpecExpr::List(xs) => lemma_concat_lazy_free(one, xs),
                    SpecExpr::DottedList(xs, y) => lemma_concat_lazy_free(one, xs),
                    _ => {},
                }
            }
        },
        Primitive::Car => {
            if vals.len() == 1 {
                assert(lazy_free(vals[0]));
            }
        },
        Primitive::Cdr => {
            if vals.len() == 1 {
                assert(lazy_free(vals[0]));
                match vals[0] {
                    SpecExpr::List(ys) => {
                        if ys.len() > 0 {
                            lemma_subrange_lazy_free(ys, 1, ys.len() as int);
                        }
                    },
                    SpecExpr::DottedList(ys, y) => {
                        if ys.len() > 0 {
                            lemma_subrange_lazy_free(ys, 1, ys.len() as int);
                        }
                    },
                    _ => {},
                }
            }
        },
        Primitive::ListCopy => {
            if 1 <= vals.len() <= 3 {
                assert(lazy_free(vals[0]));
                match vals[0] {
                    SpecExpr::List(xs) => {
                        assert forall|s: nat, e: nat| all_lazy_free(#[trigger] clipped(xs, s, e)) by {
                            let e2 = if e < xs.len() {
                                e
                            } else {
                                xs.len()
                            };
                            let s2 = if s < e2 {
                                s
                            } else {
                                e2
                            };
                            lemma_subrange_lazy_free(xs, s2 as int, e2 as int);
                        }
                    },
                    _ => {},
                }
            }
        },
        Primitive::Append => {
            lemma_append_ok(vals, 0, Seq::empty());
        },
        Primitive::BooleanEq => {
            if vals.len() > 0 {
                lemma_all_same_ok(vals, 1, vals[0]);
            }
        },
        _ => {},
    }
}

// ---------------------------------------------------------------------
// Evaluation
// ---------------------------------------------------------------------

pub proof fn values_eval(st: SpecStore, e: SpecExpr, env: EnvRef, d: nat)
    requires
        store_ok(st),
        lazy_free(e),
    ensures
        good(eval_spec(st, e, env, d)),
    decreases d, 0nat, e, 0nat,
{
    if d > 0 {
        let below = (d - 1) as nat;
        match e {
            SpecExpr::Atom(SpecToken::Symbol(name)) => {
                lemma_lookup_ok(st, env, name);
                match lookup(st, env, name) {
                    Some(SpecExpr::Lazy(inner, cenv)) => values_eval(st, *inner, cenv, below),
                    _ => {},
                }
            },
            SpecExpr::List(items) => {
                if items.len() > 0 {
                    lemma_subrange_lazy_free(items, 1, items.len() as int);
                    let args = SpecArgs { env, extra: Extra::Nothing, items: tail_of(items) };
                    match items[0] {
                        SpecExpr::Atom(SpecToken::Symbol(name)) => {
                            values_call_procedure(st, name, args, below);
                        },
                        head => {
                            assert(lazy_free(items[0]));
                            values_eval(st, head, env, below);
                            let o = eval_spec(st, head, env, below);
                            match o.result {
                                Ok(SpecExpr::Procedure(p)) => {
                                    values_apply(o.store, p, args, below);
                                },
                                _ => {},
                            }
                        },
                    }
                }
            },
            _ => {},
        }
    }
}

pub proof fn values_call_procedure(st: SpecStore, name: Seq<char>, args: SpecArgs, d: nat)
    requires
        store_ok(st),
        args_ok(args),
    ensures
        good(call_procedure_spec(st, name, args, d)),
    decreases d, 6nat, args, 0nat,
{
    lemma_lookup_ok(st, args.env, name);
    match lookup(st, args.env, name) {
        Some(SpecExpr::Procedure(p)) => values_apply(st, p, args, d),
        Some(SpecExpr::Lazy(inner, cenv)) => {
            values_eval(st, *inner, cenv, d);
            let o = eval_spec(st, *inner, cenv, d);
            match o.result {
                Ok(SpecExpr::Procedure(p)) => values_apply(o.store, p, args, d),
                _ => {},
            }
        },
        _ => {},
    }
}

pub proof fn values_apply(st: SpecStore, p: SpecProc, args: SpecArgs, d: nat)
    requires
        store_ok(st),
        args_ok(args),
        lazy_free(SpecExpr::Procedure(p)),
    ensures
        good(apply_spec(st, p, args, d)),
    decreases d, 5nat, args, 0nat,
{
    match p {
        SpecProc::Primitive(f) => values_apply_primitive(st, f, args, d),
        SpecProc::Compound(params, body, cenv) => {
            if arity_error(params, args.items.len()) is None {
                values_eval_all(st, args.items, 0, Seq::empty(), args.env, d);
                let o = eval_all_from(st, args.items, 0, Seq::empty(), args.env, d);
                match o.result {
                    Ok(vals) => {
                        lemma_eval_all_len(st, args.items, 0, Seq::empty(), args.env, d);
                        lemma_bind_params_ok(params, vals);
                        let frame = SpecScope { parent: cenv, vars: bind_params(params, vals) };
                        lemma_push_ok(o.store, frame);
                        values_eval_body(
                            o.store.push(frame),
                            body,
                            0,
                            SpecExpr::Unspecified,
                            EnvRef::Scope(o.store.len() as usize),
                            d,
                        );
                    },
                    Err(_) => {},
                }
            }
        },
    }
}

pub proof fn values_eval_all(
    st: SpecStore,
    items: Seq<SpecExpr>,
    i: int,
    acc: Seq<SpecExpr>,
    env: EnvRef,
    d: nat,
)
    requires
        store_ok(st),
        all_lazy_free(items),
        all_lazy_free(acc),
    ensures
        good_list(eval_all_from(st, items, i, acc, env, d)),
    decreases d, 1nat, items, items.len() - i,
{
    if 0 <= i < items.len() {
        values_eval(st, items[i], env, d);
        let o = eval_spec(st, items[i], env, d);
        match o.result {
            Ok(v) => {
                lemma_push_lazy_free(acc, v);
                values_eval_all(o.store, items, i + 1, acc.push(v), env, d);
            },
            Err(_) => {},
        }
    }
}

pub proof fn values_eval_body(
    st: SpecStore,
    body: Seq<SpecExpr>,
    i: int,
    last: SpecExpr,
    env: EnvRef,
    d: nat,
)
    requires
        store_ok(st),
        all_lazy_free(body),
        lazy_free(last),
    ensures
        good(eval_body_from(st, body, i, last, env, d)),
    decreases d, 1nat, body, body.len() - i,
{
    if 0 <= i < body.len() {
        values_eval(st, body[i], env, d);
        let o = eval_spec(st, body[i], env, d);
        match o.result {
            Ok(v) => values_eval_body(o.store, body, i + 1, v, env, d),
            Err(_) => {},
        }
    }
}

pub proof fn values_and(
    st: SpecStore,
    items: Seq<SpecExpr>,
    i: int,
    last: SpecExpr,
    env: EnvRef,
    d: nat,
)
    requires
        store_ok(st),
        all_lazy_free(items),
        lazy_free(last),
    ensures
        good(and_from(st, items, i, last, env, d)),
    decreases d, 1nat, items, items.len() - i,
{
    if 0 <= i < items.len() {
        values_eval(st, items[i], env, d);
        let o = eval_spec(st, items[i], env, d);
        match o.result {
            Ok(v) => values_and(o.store, items, i + 1, v, env, d),
            Err(_) => {},
        }
    }
}

pub proof fn values_or(
    st: SpecStore,
    items: Seq<SpecExpr>,
    i: int,
    last: SpecExpr,
    env: EnvRef,
    d: nat,
)
    requires
        store_ok(st),
        all_lazy_free(items),
        lazy_free(last),
    ensures
        good(or_from(st, items, i, last, env, d)),
    decreases d, 1nat, items, items.len() - i,
{
    if 0 <= i < items.len() {
        values_eval(st, items[i], env, d);
        let o = eval_spec(st, items[i], env, d);
        match o.result {
            Ok(v) => values_or(o.store, items, i + 1, v, env, d),
            Err(_) => {},
        }
    }
}

pub proof fn values_quasi(st: SpecStore, e: SpecExpr, level: nat, env: EnvRef, d: nat)
    requires
        store_ok(st),
        lazy_free(e),
    ensures
        good(quasi(st, e, level, env, d)),
    decreases d, 1nat, e, 0nat,
{
    match e {
        SpecExpr::List(items) => values_quasi_tail(st, items, 0, Seq::empty(), level, env, d),
        SpecExpr::DottedList(items, rest) => {
            values_quasi_list(st, items, 0, Seq::empty(), level, env, d);
            let o = quasi_list(st, items, 0, Seq::empty(), level, env, d);
            match o.result {
                Ok(vs) => {
                    values_quasi(o.store, *rest, level, env, d);
                    let o2 = quasi(o.store, *rest, level, env, d);
                    match o2.result {
                        Ok(t) => lemma_dotted_lazy_free(vs, t),
                        Err(_) => {},
                    }
                },
                Err(_) => {},
            }
        },
        _ => {},
    }
}

pub proof fn values_quasi_tail(
    st: SpecStore,
    items: Seq<SpecExpr>,
    i: int,
    acc: Seq<SpecExpr>,
    level: nat,
    env: EnvRef,
    d: nat,
)
    requires
        store_ok(st),
        all_lazy_free(items),
        all_lazy_free(acc),
    ensures
        good(quasi_tail(st, items, i, acc, level, env, d)),
    decreases d, 1nat, items, items.len() - i,
{
    if 0 <= i < items.len() {
        assert(lazy_free(items[i]));
        if tagged_at(items, i, "unquote"@) || tagged_at(items, i, "unquote-splicing"@) || tagged_at(
            items,
            i,
            "quasiquote"@,
        ) {
            assert(lazy_free(items[i + 1]));
            values_eval(st, items[i + 1], env, d);
            let o = eval_spec(st, items[i + 1], env, d);
            match o.result {
                Ok(v) => lemma_dotted_lazy_free(acc, v),
                Err(_) => {},
            }
            if level > 1 {
                values_quasi(st, items[i + 1], (level - 1) as nat, env, d);
                let o = quasi(st, items[i + 1], (level - 1) as nat, env, d);
                match o.result {
                    Ok(v) => {
                        lemma_push_lazy_free(acc, items[i]);
                        lemma_push_lazy_free(acc.push(items[i]), v);
                    },
                    Err(_) => {},
                }
            }
            values_quasi(st, items[i + 1], level + 1, env, d);
            let o = quasi(st, items[i + 1], level + 1, env, d);
            match o.result {
                Ok(v) => {
                    lemma_push_lazy_free(acc, items[i]);
                    lemma_push_lazy_free(acc.push(items[i]), v);
                },
                Err(_) => {},
            }
        } else {
            values_quasi_item(st, items[i], acc, level, env, d);
            let o = quasi_item(st, items[i], acc, level, env, d);
            match o.result {
                Ok(acc2) => values_quasi_tail(o.store, items, i + 1, acc2, level, env, d),
                Err(_) => {},
            }
        }
    }
}

pub proof fn values_quasi_item(
    st: SpecStore,
    item: SpecExpr,
    acc: Seq<SpecExpr>,
    level: nat,
    env: EnvRef,
    d: nat,
)
    requires
        store_ok(st),
        lazy_free(item),
        all_lazy_free(acc),
    ensures
        good_list(quasi_item(st, item, acc, level, env, d)),
    decreases d, 1nat, item, 1nat,
{
    if level <= 1 && is_tagged(item, "unquote-splicing"@) {
        let inner = item->List_0[1];
        assert(lazy_free(inner));
        values_eval(st, inner, env, d);
        let o = eval_spec(st, inner, env, d);
        match o.result {
            Ok(SpecExpr::List(vs)) => lemma_concat_lazy_free(acc, vs),
            _ => {},
        }
    } else {
        values_quasi(st, item, level, env, d);
        let o = quasi(st, item, level, env, d);
        match o.result {
            Ok(v) => lemma_push_lazy_free(acc, v),
            Err(_) => {},
        }
    }
}

pub proof fn values_quasi_list(
    st: SpecStore,
    items: Seq<SpecExpr>,
    i: int,
    acc: Seq<SpecExpr>,
    level: nat,
    env: EnvRef,
    d: nat,
)
    requires
        store_ok(st),
        all_lazy_free(items),
        all_lazy_free(acc),
    ensures
        good_list(quasi_list(st, items, i, acc, level, env, d)),
    decreases d, 1nat, items, items.len() - i,
{
    if 0 <= i < items.len() {
        values_quasi_item(st, items[i], acc, level, env, d);
        let o = quasi_item(st, items[i], acc, level, env, d);
        match o.result {
            Ok(acc2) => values_quasi_list(o.store, items, i + 1, acc2, level, env, d),
            Err(_) => {},
        }
    }
}

/// The parts of a binding of a form that holds no deferred expression hold
/// none.
proof fn lemma_binding_parts_ok(b: SpecExpr)
    requires
        lazy_free(b),
    ensures
        binding_parts(b) matches Ok((_, init)) ==> lazy_free(init),
{
    match b {
        SpecExpr::List(xs) => {
            if xs.len() == 2 {
                assert(lazy_free(xs[1]));
            }
        },
        _ => {},
    }
}

pub proof fn values_let_bind(
    st: SpecStore,
    bs: Seq<SpecExpr>,
    i: int,
    vars: Map<Seq<char>, SpecExpr>,
    env: EnvRef,
    d: nat,
)
    requires
        store_ok(st),
        all_lazy_free(bs),
        vars_ok(vars),
    ensures
        good_vars(let_bind_from(st, bs, i, vars, env, d)),
    decreases d, 1nat, bs, bs.len() - i,
{
    if 0 <= i < bs.len() {
        lemma_binding_parts_ok(bs[i]);
        match binding_parts(bs[i]) {
            Ok((name, init)) => {
                values_eval(st, init, env, d);
                let o = eval_spec(st, init, env, d);
                match o.result {
                    Ok(v) => {
                        lemma_insert_ok(vars, name, v);
                        values_let_bind(o.store, bs, i + 1, vars.insert(name, v), env, d);
                    },
                    Err(_) => {},
                }
            },
            Err(_) => {},
        }
    }
}

pub proof fn values_let_star(st: SpecStore, bs: Seq<SpecExpr>, i: int, scope: EnvRef, d: nat)
    requires
        store_ok(st),
        all_lazy_free(bs),
    ensures
        good(let_star_from(st, bs, i, scope, d)),
    decreases d, 1nat, bs, bs.len() - i,
{
    if 0 <= i < bs.len() {
        lemma_binding_parts_ok(bs[i]);
        match binding_parts(bs[i]) {
            Ok((name, init)) => {
                values_eval(st, init, scope, d);
                let o = eval_spec(st, init, scope, d);
                match o.result {
                    Ok(v) => {
                        lemma_define_ok(o.store, scope, name, v);
                        values_let_star(define(o.store, scope, name, v), bs, i + 1, scope, d);
                    },
                    Err(_) => {},
                }
            },
            Err(_) => {},
        }
    }
}

proof fn lemma_deferred_ok(
    bs: Seq<SpecExpr>,
    i: int,
    vars: Map<Seq<char>, SpecExpr>,
    scope: EnvRef,
)
    requires
        all_lazy_free(bs),
        vars_ok(vars),
    ensures
        deferred_from(bs, i, vars, scope) matches Ok(all) ==> vars_ok(all),
    decreases bs.len() - i,
{
    if 0 <= i < bs.len() {
        lemma_binding_parts_ok(bs[i]);
        match binding_parts(bs[i]) {
            Ok((name, init)) => {
                let thunk = SpecExpr::Lazy(Box::new(init), scope);
                lemma_insert_ok(vars, name, thunk);
                lemma_deferred_ok(bs, i + 1, vars.insert(name, thunk), scope);
            },
            Err(_) => {},
        }
    }
}

pub proof fn values_cond(st: SpecStore, clauses: Seq<SpecExpr>, i: int, env: EnvRef, d: nat)
    requires
        store_ok(st),
        all_lazy_free(clauses),
    ensures
        good(cond_from(st, clauses, i, env, d)),
    decreases d, 2nat, clauses, clauses.len() - i,
{
    if 0 <= i < clauses.len() {
        assert(lazy_free(clauses[i]));
        match clauses[i] {
            SpecExpr::List(xs) => {
                if xs.len() > 0 {
                    assert(lazy_free(xs[0]));
                    values_eval_body(st, xs, 1, SpecExpr::Unspecified, env, d);
                    values_eval(st, xs[0], env, d);
                    let o = eval_spec(st, xs[0], env, d);
                    match o.result {
                        Ok(v) => {
                            values_eval_body(o.store, xs, 1, v, env, d);
                            values_cond(o.store, clauses, i + 1, env, d);
                        },
                        Err(_) => {},
                    }
                }
            },
            _ => {},
        }
    }
}

pub proof fn values_case(
    st: SpecStore,
    key: SpecExpr,
    clauses: Seq<SpecExpr>,
    i: int,
    env: EnvRef,
    d: nat,
)
    requires
        store_ok(st),
        all_lazy_free(clauses),
    ensures
        good(case_from(st, key, clauses, i, env, d)),
    decreases d, 2nat, clauses, clauses.len() - i,
{
    if 0 <= i < clauses.len() {
        assert(lazy_free(clauses[i]));
        match clauses[i] {
            SpecExpr::List(xs) => {
                if xs.len() > 0 {
                    values_eval_body(st, xs, 1, SpecExpr::Unspecified, env, d);
                    values_case(st, key, clauses, i + 1, env, d);
                }
            },
            _ => {},
        }
    }
}

proof fn lemma_quoted_all_ok(vs: Seq<SpecExpr>)
    requires
        all_lazy_free(vs),
    ensures
        all_lazy_free(quoted_all(vs)),
{
    assert forall|i: int| 0 <= i < quoted_all(vs).len() implies lazy_free(
        #[trigger] quoted_all(vs)[i],
    ) by {
        let q = quoted(vs[i]);
        assert(lazy_free(vs[i]));
        assert forall|k: int| 0 <= k < q->List_0.len() implies lazy_free(
            #[trigger] q->List_0[k],
        ) by {}
    }
}

pub proof fn values_apply_primitive(st: SpecStore, f: Primitive, args: SpecArgs, d: nat)
    requires
        store_ok(st),
        args_ok(args),
    ensures
        good(apply_primitive_spec(st, f, args, d)),
    decreases d, 4nat, args, 0nat,
{
    let items = args.items;
    let env = args.env;
    match f {
        Primitive::Define => {
            if items.len() > 0 {
                assert(lazy_free(items[0]));
                lemma_subrange_lazy_free(items, 1, items.len() as int);
                match items[0] {
                    SpecExpr::Atom(SpecToken::Symbol(name)) => {
                        if items.len() == 2 {
                            assert(lazy_free(items[1]));
                            values_eval(st, items[1], env, d);
                            let o = eval_spec(st, items[1], env, d);
                            match o.result {
                                Ok(v) => lemma_define_ok(o.store, env, name, v),
                                Err(_) => {},
                            }
                        }
                    },
                    SpecExpr::List(sig) => {
                        if sig.len() > 0 && sig[0] is Atom && sig[0]->Atom_0 is Symbol {
                            let name = sig[0]->Atom_0->Symbol_0;
                            let made = new_compound_spec(
                                SpecExpr::List(tail_of(sig)),
                                tail_of(items),
                                env,
                            );
                            lemma_new_compound_ok(
                                SpecExpr::List(tail_of(sig)),
                                tail_of(items),
                                env,
                            );
                            match made {
                                Ok(p) => lemma_define_ok(st, env, name, p),
                                Err(_) => {},
                            }
                        }
                    },
                    SpecExpr::DottedList(sig, rest) => {
                        if sig.len() > 0 && sig[0] is Atom && sig[0]->Atom_0 is Symbol {
                            let name = sig[0]->Atom_0->Symbol_0;
                            let made = new_compound_spec(
                                dotted(tail_of(sig), *rest),
                                tail_of(items),
                                env,
                            );
                            lemma_new_compound_ok(dotted(tail_of(sig), *rest), tail_of(items), env);
                            match made {
                                Ok(p) => lemma_define_ok(st, env, name, p),
                                Err(_) => {},
                            }
                        }
                    },
                    _ => {},
                }
            }
        },
        Primitive::Assign => {
            if items.len() == 2 {
                assert(lazy_free(items[1]));
                values_eval(st, items[1], env, d);
                let o = eval_spec(st, items[1], env, d);
                match (items[0], o.result) {
                    (SpecExpr::Atom(SpecToken::Symbol(name)), Ok(v)) => {
                        lemma_define_ok(o.store, env, name, v);
                    },
                    _ => {},
                }
            }
        },
        Primitive::Lambda => {
            if items.len() > 0 {
                lemma_subrange_lazy_free(items, 1, items.len() as int);
                lemma_new_compound_ok(items[0], tail_of(items), env);
            }
        },
        Primitive::Quote => {
            if items.len() == 1 {
                assert(lazy_free(items[0]));
            }
        },
        Primitive::Quasiquote => {
            if items.len() == 1 {
                assert(lazy_free(items[0]));
                values_quasi(st, items[0], level_of(args.extra) + 1, env, d);
            }
        },
        Primitive::Unquote => {
            if items.len() == 1 {
                assert(lazy_free(items[0]));
                values_eval(st, items[0], env, d);
                match args.extra {
                    Extra::QQLevel(n) => {
                        if n > 1 {
                            values_quasi(st, items[0], (n - 1) as nat, env, d);
                            let o = quasi(st, items[0], (n - 1) as nat, env, d);
                            match o.result {
                                Ok(v) => {
                                    let none = Seq::<SpecExpr>::empty();
                                    lemma_push_lazy_free(none, crate::semantics::symbol("unquote"@));
                                    lemma_push_lazy_free(
                                        none.push(crate::semantics::symbol("unquote"@)),
                                        v,
                                    );
                                },
                                Err(_) => {},
                            }
                        }
                    },
                    Extra::Nothing => {},
                }
            }
        },
        Primitive::If => {
            if items.len() == 2 || items.len() == 3 {
                assert(lazy_free(items[0]) && lazy_free(items[1]));
                values_eval(st, items[0], env, d);
                let o = eval_spec(st, items[0], env, d);
                if o.result is Ok {
                    values_eval(o.store, items[1], env, d);
                    if items.len() == 3 {
                        assert(lazy_free(items[2]));
                        values_eval(o.store, items[2], env, d);
                    }
                }
            }
        },
        Primitive::And => values_and(st, items, 0, boolean(true), env, d),
        Primitive::Or => values_or(st, items, 0, boolean(false), env, d),
        Primitive::Let => {
            match bindings_of(args) {
                Ok(bs) => {
                    assert(lazy_free(items[0]));
                    values_let_bind(st, bs, 0, Map::empty(), env, d);
                    let o = let_bind_from(st, bs, 0, Map::empty(), env, d);
                    match o.result {
                        Ok(vars) => {
                            let frame = SpecScope { parent: env, vars };
                            lemma_push_ok(o.store, frame);
                            values_eval_body(
                                o.store.push(frame),
                                items,
                                1,
                                SpecExpr::Unspecified,
                                EnvRef::Scope(o.store.len() as usize),
                                d,
                            );
                        },
                        Err(_) => {},
                    }
                },
                Err(_) => {},
            }
        },
        Primitive::LetStar => {
            match bindings_of(args) {
                Ok(bs) => {
                    assert(lazy_free(items[0]));
                    let scope = EnvRef::Scope(st.len() as usize);
                    let frame = SpecScope { parent: env, vars: Map::empty() };
                    lemma_push_ok(st, frame);
                    values_let_star(st.push(frame), bs, 0, scope, d);
                    let o = let_star_from(st.push(frame), bs, 0, scope, d);
                    if o.result is Ok {
                        values_eval_body(o.store, items, 1, SpecExpr::Unspecified, scope, d);
                    }
                },
                Err(_) => {},
            }
        },
        Primitive::LetRec => {
            match bindings_of(args) {
                Ok(bs) => {
                    assert(lazy_free(items[0]));
                    let scope = EnvRef::Scope(st.len() as usize);
                    lemma_deferred_ok(bs, 0, Map::empty(), scope);
                    match deferred_from(bs, 0, Map::empty(), scope) {
                        Ok(vars) => {
                            let frame = SpecScope { parent: env, vars };
                            lemma_push_ok(st, frame);
                            values_eval_body(
                                st.push(frame),
                                items,
                                1,
                                SpecExpr::Unspecified,
                                scope,
                                d,
                            );
                        },
                        Err(_) => {},
                    }
                },
                Err(_) => {},
            }
        },
        Primitive::Cond => values_cond(st, items, 0, env, d),
        Primitive::Case => {
            if items.len() > 0 {
                assert(lazy_free(items[0]));
                values_eval(st, items[0], env, d);
                let o = eval_spec(st, items[0], env, d);
                match o.result {
                    Ok(key) => values_case(o.store, key, items, 1, env, d),
                    Err(_) => {},
                }
            }
        },
        Primitive::Apply => {
            values_eval_all(st, items, 0, Seq::empty(), env, d);
            let o = eval_all_from(st, items, 0, Seq::empty(), env, d);
            match o.result {
                Ok(vals) => {
                    if vals.len() >= 2 && d > 0 {
                        assert(lazy_free(vals[0]));
                        assert(lazy_free(vals[vals.len() - 1]));
                        match (vals[0], vals.last()) {
                            (SpecExpr::Procedure(p), SpecExpr::List(xs)) => {
                                lemma_subrange_lazy_free(vals, 1, vals.len() - 1);
                                lemma_concat_lazy_free(vals.subrange(1, vals.len() - 1), xs);
                                lemma_quoted_all_ok(vals.subrange(1, vals.len() - 1) + xs);
                                let inner = SpecArgs {
                                    env,
                                    extra: Extra::Nothing,
                                    items: quoted_all(vals.subrange(1, vals.len() - 1) + xs),
                                };
                                values_apply(o.store, p, inner, (d - 1) as nat);
                            },
                            _ => {},
                        }
                    }
                },
                Err(_) => {},
            }
        },
        _ => {
            values_eval_all(st, items, 0, Seq::empty(), env, d);
            let o = eval_all_from(st, items, 0, Seq::empty(), env, d);
            match o.result {
                Ok(vals) => lemma_value_spec_ok(f, vals),
                Err(_) => {},
            }
        },
    }
}

// ---------------------------------------------------------------------
// Laws
// ---------------------------------------------------------------------

/// Evaluation yields values: in a store that binds names to values and to
/// deferred expressions only, an expression that holds no deferred
/// expression has a value that is none, and leaves a store of that kind.
/// So what a symbol is looked up to is a value, never a deferred
/// expression.
pub proof fn law_evaluation_yields_values(st: SpecStore, e: SpecExpr, env: EnvRef, d: nat)
    requires
        store_ok(st),
        lazy_free(e),
    ensures
        store_ok(eval_spec(st, e, env, d).store),
        eval_spec(st, e, env, d).result matches Ok(v) ==> !(v is Lazy) && lazy_free(v),
{
    values_eval(st, e, env, d);
}

/// What the parser gives holds no deferred expression.
pub proof fn lemma_writable_lazy_free(e: SpecExpr)
    requires
        writable(e),
    ensures
        lazy_free(e),
    decreases e,
{
    match e {
        SpecExpr::List(items) => {
            assert forall|i: int| 0 <= i < items.len() implies lazy_free(#[trigger] items[i]) by {
                lemma_writable_lazy_free(items[i]);
            }
        },
        SpecExpr::DottedList(items, tail) => {
            assert forall|i: int| 0 <= i < items.len() implies lazy_free(#[trigger] items[i]) by {
                lemma_writable_lazy_free(items[i]);
            }
            lemma_writable_lazy_free(*tail);
        },
        _ => {},
    }
}

/// The store of a fresh session binds names to values only.
pub proof fn lemma_fresh_store_ok()
    ensures
        store_ok(fresh_store()),
{
    assert forall|k: Seq<char>| table().contains_key(k) implies binding_ok(
        #[trigger] table()[k],
    ) by {
        lemma_table_values(k);
    }
}

/// Every value of the table is a primitive.
proof fn lemma_table_values(k: Seq<char>)
    requires
        table().contains_key(k),
    ensures
        table()[k] matches SpecExpr::Procedure(SpecProc::Primitive(_)),
{
}

/// A session yields values: from a store of the kind above, what a line of
/// input leaves is a store of that kind, and every value in the replies
/// holds no deferred expression.
pub proof fn law_session_yields_values(s: SpecSession, line: Seq<char>)
    requires
        store_ok(s.store),
    ensures
        store_ok(run_spec(s, line).0.store),
        forall|i: int|
            0 <= i < run_spec(s, line).1.len() ==> (#[trigger] run_spec(s, line).1[i]
                matches SpecReply::Value(_, v) ==> lazy_free(v)),
{
    match lex(line) {
        Ok(ts) => {
            match parse_spec(ts) {
                Ok(exprs) => {
                    lemma_lex_printable(line, 0, Seq::empty());
                    lemma_parse_all_writable(ts, 0, Seq::empty(), MAX_NESTING as nat);
                    assert forall|i: int| 0 <= i < exprs.len() implies lazy_free(
                        #[trigger] exprs[i],
                    ) by {
                        lemma_writable_lazy_free(exprs[i]);
                    }
                    lemma_run_from_ok(s, exprs, 0, Seq::empty());
                },
                Err(_) => {},
            }
        },
        Err(_) => {},
    }
}

/// A fresh session yields values: every value in the replies to its first
/// line holds no deferred expression, and the same goes for every line
/// after it, by the law above.
pub proof fn law_fresh_session_yields_values(depth: usize, line: Seq<char>)
    ensures
        ({
            let s = SpecSession { store: fresh_store(), env: EnvRef::Scope(0), count: 0, depth };
            &&& store_ok(s.store)
            &&& store_ok(run_spec(s, line).0.store)
            &&& replies_ok(run_spec(s, line).1)
        }),
{
    let s = SpecSession { store: fresh_store(), env: EnvRef::Scope(0), count: 0, depth };
    lemma_fresh_store_ok();
    law_session_yields_values(s, line);
}

pub open spec fn replies_ok(rs: Seq<SpecReply>) -> bool {
    forall|i: int| 0 <= i < rs.len() ==> (#[trigger] rs[i] matches SpecReply::Value(_, v)
        ==> lazy_free(v))
}

proof fn lemma_run_from_ok(s: SpecSession, exprs: Seq<SpecExpr>, i: int, replies: Seq<SpecReply>)
    requires
        store_ok(s.store),
        all_lazy_free(exprs),
        replies_ok(replies),
    ensures
        store_ok(run_from(s, exprs, i, replies).0.store),
        replies_ok(run_from(s, exprs, i, replies).1),
    decreases exprs.len() - i,
{
    if 0 <= i < exprs.len() {
        values_eval(s.store, exprs[i], s.env, s.depth as nat);
        let o = eval_spec(s.store, exprs[i], s.env, s.depth as nat);
        match o.result {
            Ok(v) => {
                lemma_define_ok(o.store, s.env, result_name(s.count), v);
                let next = SpecSession {
                    store: define(o.store, s.env, result_name(s.count), v),
                    env: s.env,
                    count: crate::repl::next_count(s.count),
                    depth: s.depth,
                };
                let reply = SpecReply::Value(result_name(s.count), v);
                assert forall|k: int| 0 <= k < replies.push(reply).len() implies (
                #[trigger] replies.push(reply)[k] matches SpecReply::Value(_, w) ==> lazy_free(
                    w,
                )) by {
                    if k < replies.len() {
                        assert(replies.push(reply)[k] == replies[k]);
                    }
                }
                lemma_run_from_ok(next, exprs, i + 1, replies.push(reply));
            },
            Err(e) => {
                let next = SpecSession {
                    store: o.store,
                    env: s.env,
                    count: s.count,
                    depth: s.depth,
                };
                let reply = SpecReply::Failure(e);
                assert forall|k: int| 0 <= k < replies.push(reply).len() implies (
                #[trigger] replies.push(reply)[k] matches SpecReply::Value(_, w) ==> lazy_free(
                    w,
                )) by {
                    if k < replies.len() {
                        assert(replies.push(reply)[k] == replies[k]);
                    }
                }
                lemma_run_from_ok(next, exprs, i + 1, replies.push(reply));
            },
        }
    }
}

} // verus!
