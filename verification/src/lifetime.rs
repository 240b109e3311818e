//! Scopes stay: evaluation adds scopes and binds names in them, but never
//! removes a scope and never moves one under another parent. So a handle
//! that names a scope names the same scope, in the same chain, for as long
//! as the store lives, whoever holds the handle.

use vstd::prelude::*;
use crate::env::{EnvRef, SpecScope, SpecStore, assign, define, lemma_resolve_in_range, lookup};
use crate::evaluator::Extra;
use crate::lexer::SpecToken;
use crate::parser::SpecExpr;
use crate::primitives::conditionals::{case_from, cond_from};
use crate::primitives::lang::{
    binding_parts, bindings_of, deferred_from, let_bind_from, let_star_from, quoted_all,
};
use crate::procedure::{Primitive, SpecParam, SpecProc};
use crate::semantics::{
    SpecArgs, and_from, apply_compound_spec, apply_primitive_spec, apply_spec, bind_in, bind_params,
    boolean, call_procedure_spec, eval_all_from, eval_body_from, eval_spec, is_tagged, level_of,
    or_from, quasi, quasi_item, quasi_list, quasi_tail, tagged_at,
};

verus! {

/// The store `b` has every scope of the store `a`, at the same index and
/// under the same parent.
pub open spec fn extends(a: SpecStore, b: SpecStore) -> bool {
    &&& a.len() <= b.len()
    &&& forall|i: int| 0 <= i < a.len() ==> (#[trigger] b[i]).parent == a[i].parent
}

pub proof fn lemma_extends_chain(a: SpecStore, b: SpecStore, c: SpecStore)
    requires
        extends(a, b),
        extends(b, c),
    ensures
        extends(a, c),
{
    assert forall|i: int| 0 <= i < a.len() implies (#[trigger] c[i]).parent == a[i].parent by {
        assert(b[i].parent == a[i].parent);
    }
}

/// Binding, assigning and adding a scope extend the store.
pub proof fn lemma_extends_steps(
    st: SpecStore,
    env: EnvRef,
    name: Seq<char>,
    v: SpecExpr,
    frame: SpecScope,
)
    ensures
        extends(st, st),
        extends(st, define(st, env, name, v)),
        extends(st, assign(st, env, name, v)),
        extends(st, st.push(frame)),
{
    lemma_resolve_in_range(st, env, name);
}

pub proof fn stays_eval(st: SpecStore, e: SpecExpr, env: EnvRef, d: nat)
    ensures
        extends(st, eval_spec(st, e, env, d).store),
    decreases d, 0nat, e, 0nat,
{
    if d > 0 {
        let below = (d - 1) as nat;
        match e {
            SpecExpr::Atom(SpecToken::Symbol(name)) => {
                match lookup(st, env, name) {
                    Some(SpecExpr::Lazy(inner, cenv)) => stays_eval(st, *inner, cenv, below),
                    _ => {},
                }
            },
            SpecExpr::Lazy(inner, cenv) => stays_eval(st, *inner, cenv, below),
            SpecExpr::List(items) => {
                if items.len() > 0 {
                    let args = SpecArgs {
                        env,
                        extra: Extra::Nothing,
                        items: items.subrange(1, items.len() as int),
                    };
                    match items[0] {
                        SpecExpr::Atom(SpecToken::Symbol(name)) => {
                            stays_call_procedure(st, name, args, below);
                        },
                        head => {
                            stays_eval(st, head, env, below);
                            let o = eval_spec(st, head, env, below);
                            match o.result {
                                Ok(SpecExpr::Procedure(p)) => {
                                    stays_apply(o.store, p, args, below);
                                    lemma_extends_chain(
                                        st,
                                        o.store,
                                        apply_spec(o.store, p, args, below).store,
                                    );
                                },
                                _ => {},
                            }
                        },
                    }
                }
            },
            _ => {},
        }
    }
}

pub proof fn stays_call_procedure(st: SpecStore, name: Seq<char>, args: SpecArgs, d: nat)
    ensures
        extends(st, call_procedure_spec(st, name, args, d).store),
    decreases d, 6nat, args, 0nat,
{
    match lookup(st, args.env, name) {
        Some(SpecExpr::Procedure(p)) => stays_apply(st, p, args, d),
        Some(SpecExpr::Lazy(inner, cenv)) => {
            stays_eval(st, *inner, cenv, d);
            let o = eval_spec(st, *inner, cenv, d);
            match o.result {
                Ok(SpecExpr::Procedure(p)) => {
                    stays_apply(o.store, p, args, d);
                    lemma_extends_chain(st, o.store, apply_spec(o.store, p, args, d).store);
                },
                _ => {},
            }
        },
        _ => {},
    }
}

pub proof fn stays_apply(st: SpecStore, p: SpecProc, args: SpecArgs, d: nat)
    ensures
        extends(st, apply_spec(st, p, args, d).store),
    decreases d, 5nat, args, 0nat,
{
    match p {
        SpecProc::Primitive(f) => stays_apply_primitive(st, f, args, d),
        SpecProc::Compound(params, body, cenv) => stays_apply_compound(
            st,
            params,
            body,
            cenv,
            args,
            d,
        ),
    }
}

pub proof fn stays_apply_compound(
    st: SpecStore,
    params: SpecParam,
    body: Seq<SpecExpr>,
    cenv: EnvRef,
    args: SpecArgs,
    d: nat,
)
    ensures
        extends(st, apply_compound_spec(st, params, body, cenv, args, d).store),
    decreases d, 4nat, args, 0nat,
{
    stays_eval_all(st, args.items, 0, Seq::empty(), args.env, d);
    let o = eval_all_from(st, args.items, 0, Seq::empty(), args.env, d);
    match o.result {
        Ok(vals) => {
            let frame = SpecScope {
                parent: cenv,
                vars: bind_params(params, vals),
            };
            let st1 = o.store.push(frame);
            let inner = EnvRef::Scope(o.store.len() as usize);
            stays_eval_body(st1, body, 0, SpecExpr::Unspecified, inner, d);
            lemma_extends_chain(st, o.store, st1);
            lemma_extends_chain(
                st,
                st1,
                eval_body_from(st1, body, 0, SpecExpr::Unspecified, inner, d).store,
            );
        },
        Err(_) => {},
    }
}

pub proof fn stays_eval_all(
    st: SpecStore,
    items: Seq<SpecExpr>,
    i: int,
    acc: Seq<SpecExpr>,
    env: EnvRef,
    d: nat,
)
    ensures
        extends(st, eval_all_from(st, items, i, acc, env, d).store),
    decreases d, 1nat, items, items.len() - i,
{
    if 0 <= i < items.len() {
        stays_eval(st, items[i], env, d);
        let o = eval_spec(st, items[i], env, d);
        match o.result {
            Ok(v) => {
                stays_eval_all(o.store, items, i + 1, acc.push(v), env, d);
                lemma_extends_chain(
                    st,
                    o.store,
                    eval_all_from(o.store, items, i + 1, acc.push(v), env, d).store,
                );
            },
            Err(_) => {},
        }
    }
}

pub proof fn stays_eval_body(
    st: SpecStore,
    body: Seq<SpecExpr>,
    i: int,
    last: SpecExpr,
    env: EnvRef,
    d: nat,
)
    ensures
        extends(st, eval_body_from(st, body, i, last, env, d).store),
    decreases d, 1nat, body, body.len() - i,
{
    if 0 <= i < body.len() {
        stays_eval(st, body[i], env, d);
        let o = eval_spec(st, body[i], env, d);
        match o.result {
            Ok(v) => {
                stays_eval_body(o.store, body, i + 1, v, env, d);
                lemma_extends_chain(
                    st,
                    o.store,
                    eval_body_from(o.store, body, i + 1, v, env, d).store,
                );
            },
            Err(_) => {},
        }
    }
}

pub proof fn stays_and(
    st: SpecStore,
    items: Seq<SpecExpr>,
    i: int,
    last: SpecExpr,
    env: EnvRef,
    d: nat,
)
    ensures
        extends(st, and_from(st, items, i, last, env, d).store),
    decreases d, 1nat, items, items.len() - i,
{
    if 0 <= i < items.len() {
        stays_eval(st, items[i], env, d);
        let o = eval_spec(st, items[i], env, d);
        match o.result {
            Ok(v) => {
                stays_and(o.store, items, i + 1, v, env, d);
                lemma_extends_chain(st, o.store, and_from(o.store, items, i + 1, v, env, d).store);
            },
            Err(_) => {},
        }
    }
}

pub proof fn stays_or(
    st: SpecStore,
    items: Seq<SpecExpr>,
    i: int,
    last: SpecExpr,
    env: EnvRef,
    d: nat,
)
    ensures
        extends(st, or_from(st, items, i, last, env, d).store),
    decreases d, 1nat, items, items.len() - i,
{
    if 0 <= i < items.len() {
        stays_eval(st, items[i], env, d);
        let o = eval_spec(st, items[i], env, d);
        match o.result {
            Ok(v) => {
                stays_or(o.store, items, i + 1, v, env, d);
                lemma_extends_chain(st, o.store, or_from(o.store, items, i + 1, v, env, d).store);
            },
            Err(_) => {},
        }
    }
}

pub proof fn stays_quasi(st: SpecStore, e: SpecExpr, level: nat, env: EnvRef, d: nat)
    ensures
        extends(st, quasi(st, e, level, env, d).store),
    decreases d, 1nat, e, 0nat,
{
    match e {
        SpecExpr::List(items) => stays_quasi_tail(st, items, 0, Seq::empty(), level, env, d),
        SpecExpr::DottedList(items, rest) => {
            stays_quasi_list(st, items, 0, Seq::empty(), level, env, d);
            let o = quasi_list(st, items, 0, Seq::empty(), level, env, d);
            match o.result {
                Ok(_) => {
                    stays_quasi(o.store, *rest, level, env, d);
                    lemma_extends_chain(st, o.store, quasi(o.store, *rest, level, env, d).store);
                },
                Err(_) => {},
            }
        },
        _ => {},
    }
}

pub proof fn stays_quasi_tail(
    st: SpecStore,
    items: Seq<SpecExpr>,
    i: int,
    acc: Seq<SpecExpr>,
    level: nat,
    env: EnvRef,
    d: nat,
)
    ensures
        extends(st, quasi_tail(st, items, i, acc, level, env, d).store),
    decreases d, 1nat, items, items.len() - i,
{
    if 0 <= i < items.len() {
        if tagged_at(items, i, "unquote"@) {
            if level <= 1 {
                stays_eval(st, items[i + 1], env, d);
            } else {
                stays_quasi(st, items[i + 1], (level - 1) as nat, env, d);
            }
        } else if tagged_at(items, i, "unquote-splicing"@) {
            if level > 1 {
                stays_quasi(st, items[i + 1], (level - 1) as nat, env, d);
            }
        } else if tagged_at(items, i, "quasiquote"@) {
            if level < usize::MAX {
                stays_quasi(st, items[i + 1], level + 1, env, d);
            }
        } else {
            stays_quasi_item(st, items[i], acc, level, env, d);
            let o = quasi_item(st, items[i], acc, level, env, d);
            match o.result {
                Ok(acc2) => {
                    stays_quasi_tail(o.store, items, i + 1, acc2, level, env, d);
                    lemma_extends_chain(
                        st,
                        o.store,
                        quasi_tail(o.store, items, i + 1, acc2, level, env, d).store,
                    );
                },
                Err(_) => {},
            }
        }
    }
}

pub proof fn stays_quasi_item(
    st: SpecStore,
    item: SpecExpr,
    acc: Seq<SpecExpr>,
    level: nat,
    env: EnvRef,
    d: nat,
)
    ensures
        extends(st, quasi_item(st, item, acc, level, env, d).store),
    decreases d, 1nat, item, 1nat,
{
    if level <= 1 && is_tagged(item, "unquote-splicing"@) {
        stays_eval(st, item->List_0[1], env, d);
    } else {
        stays_quasi(st, item, level, env, d);
    }
}

pub proof fn stays_quasi_list(
    st: SpecStore,
    items: Seq<SpecExpr>,
    i: int,
    acc: Seq<SpecExpr>,
    level: nat,
    env: EnvRef,
    d: nat,
)
    ensures
        extends(st, quasi_list(st, items, i, acc, level, env, d).store),
    decreases d, 1nat, items, items.len() - i,
{
    if 0 <= i < items.len() {
        stays_quasi_item(st, items[i], acc, level, env, d);
        let o = quasi_item(st, items[i], acc, level, env, d);
        match o.result {
            Ok(acc2) => {
                stays_quasi_list(o.store, items, i + 1, acc2, level, env, d);
                lemma_extends_chain(
                    st,
                    o.store,
                    quasi_list(o.store, items, i + 1, acc2, level, env, d).store,
                );
            },
            Err(_) => {},
        }
    }
}

pub proof fn stays_let_bind(
    st: SpecStore,
    bs: Seq<SpecExpr>,
    i: int,
    vars: Map<Seq<char>, SpecExpr>,
    env: EnvRef,
    d: nat,
)
    ensures
        extends(st, let_bind_from(st, bs, i, vars, env, d).store),
    decreases d, 1nat, bs, bs.len() - i,
{
    if 0 <= i < bs.len() {
        match binding_parts(bs[i]) {
            Ok((name, init)) => {
                stays_eval(st, init, env, d);
                let o = eval_spec(st, init, env, d);
                match o.result {
                    Ok(v) => {
                        stays_let_bind(o.store, bs, i + 1, vars.insert(name, v), env, d);
                        lemma_extends_chain(
                            st,
                            o.store,
                            let_bind_from(o.store, bs, i + 1, vars.insert(name, v), env, d).store,
                        );
                    },
                    Err(_) => {},
                }
            },
            Err(_) => {},
        }
    }
}

pub proof fn stays_let_star(st: SpecStore, bs: Seq<SpecExpr>, i: int, scope: EnvRef, d: nat)
    ensures
        extends(st, let_star_from(st, bs, i, scope, d).store),
    decreases d, 1nat, bs, bs.len() - i,
{
    if 0 <= i < bs.len() {
        match binding_parts(bs[i]) {
            Ok((name, init)) => {
                stays_eval(st, init, scope, d);
                let o = eval_spec(st, init, scope, d);
                match o.result {
                    Ok(v) => {
                        let st1 = define(o.store, scope, name, v);
                        lemma_extends_steps(o.store, scope, name, v, arbitrary());
                        stays_let_star(st1, bs, i + 1, scope, d);
                        lemma_extends_chain(st, o.store, st1);
                        lemma_extends_chain(
                            st,
                            st1,
                            let_star_from(st1, bs, i + 1, scope, d).store,
                        );
                    },
                    Err(_) => {},
                }
            },
            Err(_) => {},
        }
    }
}

pub proof fn stays_cond(st: SpecStore, clauses: Seq<SpecExpr>, i: int, env: EnvRef, d: nat)
    ensures
        extends(st, cond_from(st, clauses, i, env, d).store),
    decreases d, 2nat, clauses, clauses.len() - i,
{
    if 0 <= i < clauses.len() {
        match clauses[i] {
            SpecExpr::List(xs) => {
                if xs.len() > 0 {
                    stays_eval_body(st, xs, 1, SpecExpr::Unspecified, env, d);
                    stays_eval(st, xs[0], env, d);
                    let o = eval_spec(st, xs[0], env, d);
                    match o.result {
                        Ok(v) => {
                            stays_eval_body(o.store, xs, 1, v, env, d);
                            stays_cond(o.store, clauses, i + 1, env, d);
                            lemma_extends_chain(
                                st,
                                o.store,
                                eval_body_from(o.store, xs, 1, v, env, d).store,
                            );
                            lemma_extends_chain(
                                st,
                                o.store,
                                cond_from(o.store, clauses, i + 1, env, d).store,
                            );
                        },
                        Err(_) => {},
                    }
                }
            },
            _ => {},
        }
    }
}

pub proof fn stays_case(
    st: SpecStore,
    key: SpecExpr,
    clauses: Seq<SpecExpr>,
    i: int,
    env: EnvRef,
    d: nat,
)
    ensures
        extends(st, case_from(st, key, clauses, i, env, d).store),
    decreases d, 2nat, clauses, clauses.len() - i,
{
    if 0 <= i < clauses.len() {
        match clauses[i] {
            SpecExpr::List(xs) => {
                if xs.len() > 0 {
                    stays_eval_body(st, xs, 1, SpecExpr::Unspecified, env, d);
                    stays_case(st, key, clauses, i + 1, env, d);
                }
            },
            _ => {},
        }
    }
}

pub proof fn stays_apply_primitive(st: SpecStore, f: Primitive, args: SpecArgs, d: nat)
    ensures
        extends(st, apply_primitive_spec(st, f, args, d).store),
    decreases d, 4nat, args, 0nat,
{
    let items = args.items;
    let env = args.env;
    match f {
        Primitive::Define => {
            if items.len() == 2 {
                stays_eval(st, items[1], env, d);
                let o = eval_spec(st, items[1], env, d);
                if o.result is Ok && items[0] is Atom && items[0]->Atom_0 is Symbol {
                    let name = items[0]->Atom_0->Symbol_0;
                    lemma_extends_steps(o.store, env, name, o.result->Ok_0, arbitrary());
                    lemma_extends_chain(
                        st,
                        o.store,
                        bind_in(o.store, env, name, o.result->Ok_0).store,
                    );
                }
            }
            if items.len() > 0 {
                match items[0] {
                    SpecExpr::List(sig) => {
                        if sig.len() > 0 && sig[0] is Atom && sig[0]->Atom_0 is Symbol {
                            let name = sig[0]->Atom_0->Symbol_0;
                            assert forall|v: SpecExpr| extends(st, bind_in(st, env, name, v).store) by {
                                lemma_extends_steps(st, env, name, v, arbitrary());
                            }
                        }
                    },
                    SpecExpr::DottedList(sig, _) => {
                        if sig.len() > 0 && sig[0] is Atom && sig[0]->Atom_0 is Symbol {
                            let name = sig[0]->Atom_0->Symbol_0;
                            assert forall|v: SpecExpr| extends(st, bind_in(st, env, name, v).store) by {
                                lemma_extends_steps(st, env, name, v, arbitrary());
                            }
                        }
                    },
                    _ => {},
                }
            }
        },
        Primitive::Assign => {
            if items.len() == 2 {
                stays_eval(st, items[1], env, d);
                let o = eval_spec(st, items[1], env, d);
                if o.result is Ok && items[0] is Atom && items[0]->Atom_0 is Symbol {
                    let name = items[0]->Atom_0->Symbol_0;
                    lemma_extends_steps(o.store, env, name, o.result->Ok_0, arbitrary());
                    lemma_extends_chain(st, o.store, assign(o.store, env, name, o.result->Ok_0));
                }
            }
        },
        Primitive::Lambda => {},
        Primitive::Quote => {},
        Primitive::Quasiquote => {
            if items.len() == 1 {
                stays_quasi(st, items[0], level_of(args.extra) + 1, env, d);
            }
        },
        Primitive::Unquote => {
            if items.len() == 1 {
                stays_eval(st, items[0], env, d);
                match args.extra {
                    Extra::QQLevel(n) => {
                        if n > 1 {
                            stays_quasi(st, items[0], (n - 1) as nat, env, d);
                        }
                    },
                    Extra::Nothing => {},
                }
            }
        },
        Primitive::If => {
            if items.len() == 2 || items.len() == 3 {
                stays_eval(st, items[0], env, d);
                let o = eval_spec(st, items[0], env, d);
                if o.result is Ok {
                    stays_eval(o.store, items[1], env, d);
                    lemma_extends_chain(st, o.store, eval_spec(o.store, items[1], env, d).store);
                    if items.len() == 3 {
                        stays_eval(o.store, items[2], env, d);
                        lemma_extends_chain(
                            st,
                            o.store,
                            eval_spec(o.store, items[2], env, d).store,
                        );
                    }
                }
            }
        },
        Primitive::And => stays_and(st, items, 0, boolean(true), env, d),
        Primitive::Or => stays_or(st, items, 0, boolean(false), env, d),
        Primitive::Let => {
            match bindings_of(args) {
                Ok(bs) => {
                    stays_let_bind(st, bs, 0, Map::empty(), env, d);
                    let o = let_bind_from(st, bs, 0, Map::empty(), env, d);
                    match o.result {
                        Ok(vars) => {
                            let st1 = o.store.push(SpecScope { parent: env, vars });
                            let inner = EnvRef::Scope(o.store.len() as usize);
                            stays_eval_body(st1, items, 1, SpecExpr::Unspecified, inner, d);
                            lemma_extends_chain(st, o.store, st1);
                            lemma_extends_chain(
                                st,
                                st1,
                                eval_body_from(st1, items, 1, SpecExpr::Unspecified, inner, d).store,
                            );
                        },
                        Err(_) => {},
                    }
                },
                Err(_) => {},
            }
        },
        Primitive::LetStar => {
            match bindings_of(args) {
                Ok(bs) => {
                    let scope = EnvRef::Scope(st.len() as usize);
                    let st1 = st.push(SpecScope { parent: env, vars: Map::empty() });
                    stays_let_star(st1, bs, 0, scope, d);
                    let o = let_star_from(st1, bs, 0, scope, d);
                    lemma_extends_chain(st, st1, o.store);
                    if o.result is Ok {
                        stays_eval_body(o.store, items, 1, SpecExpr::Unspecified, scope, d);
                        lemma_extends_chain(
                            st,
                            o.store,
                            eval_body_from(o.store, items, 1, SpecExpr::Unspecified, scope, d).store,
                        );
                    }
                },
                Err(_) => {},
            }
        },
        Primitive::LetRec => {
            match bindings_of(args) {
                Ok(bs) => {
                    let scope = EnvRef::Scope(st.len() as usize);
                    match deferred_from(bs, 0, Map::empty(), scope) {
                        Ok(vars) => {
                            let st1 = st.push(SpecScope { parent: env, vars });
                            stays_eval_body(st1, items, 1, SpecExpr::Unspecified, scope, d);
                            lemma_extends_chain(
                                st,
                                st1,
                                eval_body_from(st1, items, 1, SpecExpr::Unspecified, scope, d).store,
                            );
                        },
                        Err(_) => {},
                    }
                },
                Err(_) => {},
            }
        },
        Primitive::Cond => stays_cond(st, items, 0, env, d),
        Primitive::Case => {
            if items.len() > 0 {
                stays_eval(st, items[0], env, d);
                let o = eval_spec(st, items[0], env, d);
                match o.result {
                    Ok(key) => {
                        stays_case(o.store, key, items, 1, env, d);
                        lemma_extends_chain(
                            st,
                            o.store,
                            case_from(o.store, key, items, 1, env, d).store,
                        );
                    },
                    Err(_) => {},
                }
            }
        },
        Primitive::Apply => {
            stays_eval_all(st, items, 0, Seq::empty(), env, d);
            let o = eval_all_from(st, items, 0, Seq::empty(), env, d);
            match o.result {
                Ok(vals) => {
                    if vals.len() >= 2 && d > 0 {
                        match (vals[0], vals.last()) {
                            (SpecExpr::Procedure(p), SpecExpr::List(xs)) => {
                                let inner = SpecArgs {
                                    env,
                                    extra: Extra::Nothing,
                                    items: quoted_all(
                                        vals.subrange(1, vals.len() - 1) + xs,
                                    ),
                                };
                                stays_apply(o.store, p, inner, (d - 1) as nat);
                                lemma_extends_chain(
                                    st,
                                    o.store,
                                    apply_spec(o.store, p, inner, (d - 1) as nat).store,
                                );
                            },
                            _ => {},
                        }
                    }
                },
                Err(_) => {},
            }
        },
        _ => {
            stays_eval_all(st, items, 0, Seq::empty(), env, d);
        },
    }
}

/// Scopes stay: whatever is evaluated, every scope that was in the store
/// before is in the store afterwards, at the same index and under the same
/// parent.
pub proof fn law_scopes_stay(st: SpecStore, e: SpecExpr, env: EnvRef, d: nat)
    ensures
        extends(st, eval_spec(st, e, env, d).store),
{
    stays_eval(st, e, env, d);
}

} // verus!
