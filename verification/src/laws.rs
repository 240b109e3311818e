//! Laws of the language, proved of its semantics.

use vstd::prelude::*;
use crate::env::{
    EnvRef, SpecScope, SpecStore, assign, define, has_scope, lemma_resolve_in_range, lookup,
    resolve,
};
use crate::evaluator::Extra;
use crate::lexer::{SpecToken, token_order};
use crate::number::{Scaled, pow10, scaled_order};
use crate::parser::SpecExpr;
use crate::primitives::{lemma_table, primitive, table};
use crate::primitives::lang::quoted;
use crate::procedure::{Primitive, SpecParam, SpecProc};
use crate::semantics::{
    SpecArgs, apply_compound_spec, apply_primitive_spec, apply_spec, arity_error, bind_params,
    call_procedure_spec, done, eager_spec, eval_all_from, eval_body_from, eval_spec, fail,
    is_special_form, lemma_eval_all_len, symbol,
};
use crate::serr::SpecErr;

verus! {

/// A handle that is the null scope or names a scope of the store.
pub open spec fn in_store(st: SpecStore, env: EnvRef) -> bool {
    env is Null || has_scope(st, env)
}

/// A new scope changes nothing for a search that starts in the store as it
/// was.
pub proof fn lemma_resolve_push(st: SpecStore, frame: SpecScope, env: EnvRef, name: Seq<char>)
    requires
        in_store(st, env),
    ensures
        resolve(st.push(frame), env, name) == resolve(st, env, name),
        lookup(st.push(frame), env, name) == lookup(st, env, name),
    decreases
        (match env {
            EnvRef::Null => 0int,
            EnvRef::Scope(i) => i + 1,
        }),
{
    match env {
        EnvRef::Null => {},
        EnvRef::Scope(i) => {
            assert(st.push(frame)[i as int] == st[i as int]);
            if !st[i as int].vars.contains_key(name) {
                match st[i as int].parent {
                    EnvRef::Null => {},
                    EnvRef::Scope(j) => {
                        if j < i {
                            lemma_resolve_push(st, frame, EnvRef::Scope(j), name);
                        }
                    },
                }
            }
            lemma_resolve_in_range(st, env, name);
        },
    }
}

/// Overwriting a name in a scope that binds it moves no search: every name
/// is found where it was found before.
pub proof fn lemma_resolve_overwrite(
    st: SpecStore,
    i: usize,
    name: Seq<char>,
    v: SpecExpr,
    env: EnvRef,
    other: Seq<char>,
)
    requires
        i < st.len(),
        st[i as int].vars.contains_key(name),
    ensures
        resolve(define(st, EnvRef::Scope(i), name, v), env, other) == resolve(st, env, other),
    decreases
        (match env {
            EnvRef::Null => 0int,
            EnvRef::Scope(k) => k + 1,
        }),
{
    let st2 = define(st, EnvRef::Scope(i), name, v);
    match env {
        EnvRef::Null => {},
        EnvRef::Scope(k) => {
            if k < st.len() {
                assert(st2[k as int].parent == st[k as int].parent);
                assert(st2[k as int].vars.contains_key(other) == st[k as int].vars.contains_key(
                    other,
                ));
                if !st[k as int].vars.contains_key(other) {
                    match st[k as int].parent {
                        EnvRef::Null => {},
                        EnvRef::Scope(j) => {
                            if j < k {
                                lemma_resolve_overwrite(st, i, name, v, EnvRef::Scope(j), other);
                            }
                        },
                    }
                }
            }
        },
    }
}

/// Binding touches one scope: `define` changes the scope it is made in and
/// no other, whatever the scopes around it bind.
pub proof fn law_define_is_local(
    st: SpecStore,
    env: EnvRef,
    name: Seq<char>,
    v: SpecExpr,
    other: int,
)
    requires
        0 <= other < st.len(),
        env != EnvRef::Scope(other as usize),
        st.len() <= usize::MAX,
    ensures
        define(st, env, name, v).len() == st.len(),
        define(st, env, name, v)[other] == st[other],
{
}

/// Binding shadows: after `define` in a scope, the name has the new value
/// when looked up from that scope, whatever the scopes around it bind.
pub proof fn law_define_then_lookup(st: SpecStore, env: EnvRef, name: Seq<char>, v: SpecExpr)
    requires
        has_scope(st, env),
    ensures
        lookup(define(st, env, name, v), env, name) == Some(v),
{
}

/// Assignment finds the binding: `set!` changes the nearest scope that
/// binds the name, and there only that name.
pub proof fn law_assign_changes_the_nearest_binding(
    st: SpecStore,
    env: EnvRef,
    name: Seq<char>,
    v: SpecExpr,
)
    requires
        resolve(st, env, name) is Some,
    ensures
        ({
            let i = resolve(st, env, name)->0;
            let after = assign(st, env, name, v);
            &&& after.len() == st.len()
            &&& forall|j: int| 0 <= j < st.len() && j != i ==> after[j] == st[j]
            &&& after[i as int].parent == st[i as int].parent
            &&& after[i as int].vars == st[i as int].vars.insert(name, v)
            &&& lookup(after, env, name) == Some(v)
        }),
{
    let i = resolve(st, env, name)->0;
    lemma_resolve_in_range(st, env, name);
    lemma_resolve_overwrite(st, i, name, v, env, name);
}

/// Quoting: `(quote x)` is `x` as written, whatever `x` is and whatever its
/// symbols are bound to, and evaluating it changes nothing. `q` is any name
/// that the scope binds to the primitive `quote`.
pub proof fn law_quote_is_literal(st: SpecStore, env: EnvRef, q: Seq<char>, x: SpecExpr, d: nat)
    requires
        d >= 1,
        lookup(st, env, q) == Some(primitive(Primitive::Quote)),
    ensures
        eval_spec(st, SpecExpr::List(seq![symbol(q), x]), env, d) == done(st, x),
{
    let items = seq![symbol(q), x];
    assert(items.subrange(1, 2) =~= seq![x]);
    let args = SpecArgs { env, extra: Extra::Nothing, items: seq![x] };
    let p = SpecProc::Primitive(Primitive::Quote);
    let below = (d - 1) as nat;
    assert(apply_primitive_spec(st, Primitive::Quote, args, below) == done(st, x));
    assert(apply_spec(st, p, args, below) == done(st, x));
    assert(call_procedure_spec(st, q, args, below) == done(st, x));
}

/// Arity: a procedure of a fixed number of parameters, called with another
/// number of arguments, fails with `WrongArgCount(expected, got)`. Nothing
/// is evaluated and nothing changes.
pub proof fn law_fixed_arity(
    st: SpecStore,
    names: Seq<Seq<char>>,
    body: Seq<SpecExpr>,
    cenv: EnvRef,
    args: SpecArgs,
    d: nat,
)
    requires
        args.items.len() != names.len(),
    ensures
        apply_spec(st, SpecProc::Compound(SpecParam::Fixed(names), body, cenv), args, d) == fail(
            st,
            SpecErr::WrongArgCount(names.len() as usize, args.items.len() as usize),
        ),
{
}

/// Arity: a procedure with a rest parameter, called with fewer arguments
/// than it has named parameters, fails with `WrongArgCount(expected, got)`.
pub proof fn law_rest_arity(
    st: SpecStore,
    names: Seq<Seq<char>>,
    rest: Seq<char>,
    body: Seq<SpecExpr>,
    cenv: EnvRef,
    args: SpecArgs,
    d: nat,
)
    requires
        args.items.len() < names.len(),
    ensures
        apply_spec(st, SpecProc::Compound(SpecParam::Multi(names, rest), body, cenv), args, d)
            == fail(st, SpecErr::WrongArgCount(names.len() as usize, args.items.len() as usize)),
{
}

/// Arity: a procedure with a rest parameter, called with exactly as many
/// arguments as it has named parameters, binds the rest parameter to the
/// empty list.
pub proof fn law_rest_empty(
    st: SpecStore,
    names: Seq<Seq<char>>,
    rest: Seq<char>,
    args: SpecArgs,
    d: nat,
)
    requires
        args.items.len() == names.len(),
        eval_all_from(st, args.items, 0, Seq::empty(), args.env, d).result is Ok,
    ensures
        ({
            let vals = eval_all_from(st, args.items, 0, Seq::empty(), args.env, d).result->Ok_0;
            let frame = bind_params(SpecParam::Multi(names, rest), vals);
            frame.contains_key(rest) && frame[rest] == SpecExpr::List(Seq::empty())
        }),
{
    lemma_eval_all_len(st, args.items, 0, Seq::empty(), args.env, d);
    let vals = eval_all_from(st, args.items, 0, Seq::empty(), args.env, d).result->Ok_0;
    assert(vals.subrange(names.len() as int, vals.len() as int) =~= Seq::<SpecExpr>::empty());
}

/// Lexical scoping: the scope of the caller matters to a call of a closure
/// only for the values of the arguments. Two calls of one closure, from
/// whatever scopes, whose arguments come to the same values in the same
/// store, have the same outcome.
pub proof fn law_caller_scope_is_irrelevant(
    st: SpecStore,
    params: SpecParam,
    body: Seq<SpecExpr>,
    cenv: EnvRef,
    args1: SpecArgs,
    args2: SpecArgs,
    d: nat,
)
    requires
        args1.items.len() == args2.items.len(),
        eval_all_from(st, args1.items, 0, Seq::empty(), args1.env, d) == eval_all_from(
            st,
            args2.items,
            0,
            Seq::empty(),
            args2.env,
            d,
        ),
    ensures
        apply_compound_spec(st, params, body, cenv, args1, d) == apply_compound_spec(
            st,
            params,
            body,
            cenv,
            args2,
            d,
        ),
{
}

/// Lexical scoping: a free variable of a closure has the value that the
/// scope of its definition gives it, from whatever scope the closure is
/// called. The closure here has the body `x`, and `x` is none of its
/// parameters.
pub proof fn law_free_variable_resolves_where_defined(
    st: SpecStore,
    params: SpecParam,
    x: Seq<char>,
    cenv: EnvRef,
    args: SpecArgs,
    d: nat,
)
    requires
        d >= 1,
        arity_error(params, args.items.len()) is None,
        eval_all_from(st, args.items, 0, Seq::empty(), args.env, d).result is Ok,
        ({
            let o = eval_all_from(st, args.items, 0, Seq::empty(), args.env, d);
            &&& !bind_params(params, o.result->Ok_0).contains_key(x)
            &&& o.store.len() < usize::MAX
            &&& in_store(o.store, cenv)
            &&& lookup(o.store, cenv, x) is Some
            &&& !(lookup(o.store, cenv, x)->0 is Lazy)
        }),
    ensures
        ({
            let o = eval_all_from(st, args.items, 0, Seq::empty(), args.env, d);
            apply_compound_spec(st, params, seq![symbol(x)], cenv, args, d).result == Ok::<
                SpecExpr,
                SpecErr,
            >(lookup(o.store, cenv, x)->0)
        }),
{
    let o = eval_all_from(st, args.items, 0, Seq::empty(), args.env, d);
    let vals = o.result->Ok_0;
    let frame = SpecScope { parent: cenv, vars: bind_params(params, vals) };
    let st2 = o.store.push(frame);
    let inner = EnvRef::Scope(o.store.len() as usize);
    lemma_resolve_push(o.store, frame, cenv, x);
    lemma_frame_lookup(o.store, frame, x);
    let body = seq![symbol(x)];
    let e = eval_spec(st2, body[0], inner, d);
    assert(e == done(st2, lookup(o.store, cenv, x)->0));
    assert(eval_body_from(st2, body, 1, e.result->Ok_0, inner, d) == done(st2, e.result->Ok_0));
}

/// A name that a fresh frame does not bind is looked up, from the frame,
/// as from the frame's parent.
pub proof fn lemma_frame_lookup(st: SpecStore, frame: SpecScope, x: Seq<char>)
    requires
        in_store(st, frame.parent),
        !frame.vars.contains_key(x),
        st.len() <= usize::MAX,
    ensures
        lookup(st.push(frame), EnvRef::Scope(st.len() as usize), x) == lookup(
            st,
            frame.parent,
            x,
        ),
{
    lemma_resolve_push(st, frame, frame.parent, x);
    let st2 = st.push(frame);
    assert(st2[st.len() as int] == frame);
    lemma_resolve_in_range(st, frame.parent, x);
    match resolve(st, frame.parent, x) {
        Some(i) => {
            assert(st2[i as int] == st[i as int]);
        },
        None => {},
    }
}

/// Mutation visibility: after `set!` has overwritten a binding that is
/// visible from the scope that a closure captured, the closure sees the new
/// value on its next call. The closure here takes no arguments and has the
/// body `x`; the `set!` is made from any scope from which `x` is the same
/// binding.
pub proof fn law_mutation_is_visible(
    st: SpecStore,
    cenv: EnvRef,
    x: Seq<char>,
    env2: EnvRef,
    v: SpecExpr,
    args: SpecArgs,
    d: nat,
)
    requires
        d >= 1,
        st.len() < usize::MAX,
        args.items.len() == 0,
        resolve(st, cenv, x) is Some,
        resolve(st, env2, x) == resolve(st, cenv, x),
        !(v is Lazy),
    ensures
        apply_compound_spec(
            assign(st, env2, x, v),
            SpecParam::Fixed(Seq::empty()),
            seq![symbol(x)],
            cenv,
            args,
            d,
        ).result == Ok::<SpecExpr, SpecErr>(v),
{
    let i = resolve(st, cenv, x)->0;
    lemma_resolve_in_range(st, cenv, x);
    let st1 = assign(st, env2, x, v);
    assert(st1 == define(st, EnvRef::Scope(i), x, v));
    lemma_resolve_overwrite(st, i, x, v, cenv, x);
    assert(lookup(st1, cenv, x) == Some(v));
    assert(st1.len() == st.len());
    let frame = SpecScope {
        parent: cenv,
        vars: bind_params(SpecParam::Fixed(Seq::empty()), Seq::empty()),
    };
    assert(frame.vars =~= Map::<Seq<char>, SpecExpr>::empty());
    assert(in_store(st1, cenv)) by {
        match cenv {
            EnvRef::Null => {},
            EnvRef::Scope(k) => {},
        }
    }
    lemma_frame_lookup(st1, frame, x);
    let st2 = st1.push(frame);
    let inner = EnvRef::Scope(st1.len() as usize);
    let body = seq![symbol(x)];
    let e = eval_spec(st2, body[0], inner, d);
    assert(e == done(st2, v));
    assert(eval_body_from(st2, body, 1, v, inner, d) == done(st2, v));
    assert(eval_all_from(st1, args.items, 0, Seq::empty(), args.env, d).result == Ok::<
        Seq<SpecExpr>,
        SpecErr,
    >(Seq::empty()));
}

/// The two calling conventions: a primitive that is no special form, and
/// is not `apply`, evaluates every argument, in order, before it looks at
/// any of them; so a failing argument is the outcome, and no later argument
/// is evaluated.
pub proof fn law_eager_primitives_evaluate_first(
    st: SpecStore,
    f: Primitive,
    args: SpecArgs,
    d: nat,
)
    requires
        !is_special_form(f),
        !(f is Apply),
    ensures
        apply_primitive_spec(st, f, args, d) == eager_spec(st, f, args, d),
        eval_all_from(st, args.items, 0, Seq::empty(), args.env, d).result is Err
            ==> apply_primitive_spec(st, f, args, d).result == Err::<SpecExpr, SpecErr>(
            eval_all_from(st, args.items, 0, Seq::empty(), args.env, d).result->Err_0,
        ),
{
}

/// The store of a fresh session: the global scope, which binds the
/// primitives, and nothing else.
pub open spec fn fresh_store() -> SpecStore {
    seq![SpecScope { parent: EnvRef::Null, vars: table() }]
}

/// Quoting, in the global scope of a fresh session: `(quote x)` is `x`, as
/// written.
pub proof fn law_quote_in_fresh_session(x: SpecExpr, d: nat)
    requires
        d >= 1,
    ensures
        eval_spec(
            fresh_store(),
            SpecExpr::List(seq![symbol("quote"@), x]),
            EnvRef::Scope(0),
            d,
        ) == done(fresh_store(), x),
{
    lemma_table();
    law_quote_is_literal(fresh_store(), EnvRef::Scope(0), "quote"@, x, d);
}

/// A quoted value evaluates to that value, whatever the value is and
/// whatever the scope binds, and changes nothing.
pub proof fn law_quoted_value(st: SpecStore, env: EnvRef, v: SpecExpr, d: nat)
    requires
        d >= 2,
    ensures
        eval_spec(st, quoted(v), env, d) == done(st, v),
{
    let head = primitive(Primitive::Quote);
    let items = seq![head, v];
    assert(items.subrange(1, 2) =~= seq![v]);
    let args = SpecArgs { env, extra: Extra::Nothing, items: seq![v] };
    let below = (d - 1) as nat;
    assert(eval_spec(st, head, env, below) == done(st, head));
    assert(apply_primitive_spec(st, Primitive::Quote, args, below) == done(st, v));
    assert(apply_spec(st, SpecProc::Primitive(Primitive::Quote), args, below) == done(st, v));
}

/// Numeric ordering: the order of two numbers turns round when the numbers
/// change places.
pub proof fn law_order_turns_round(x: Scaled, y: Scaled)
    ensures
        scaled_order(y, x) == -scaled_order(x, y),
{
    if x.e == y.e {
        assert(pow10(0) == 1);
        assert(x.n * y.d * 1 == x.n * y.d) by (nonlinear_arith);
        assert(y.n * x.d * 1 == y.n * x.d) by (nonlinear_arith);
    }
}

/// Numeric ordering: an integer is equal to the decimal and to the
/// fraction of the same value, so that promotion loses nothing.
pub proof fn law_integer_promotes_exactly(i: i64)
    ensures
        token_order(
            SpecToken::Integer(i),
            SpecToken::Float(crate::number::Decimal { m: i, e: 0 }),
        ) == Some(0int),
        token_order(
            SpecToken::Integer(i),
            SpecToken::Fraction(crate::number::Fraction { n: i, d: 1 }),
        ) == Some(0int),
{
    assert(pow10(0) == 1);
    assert(i * 1 * 1 - i * 1 == 0) by (nonlinear_arith);
}

/// Numeric ordering: two numbers are equal in the order exactly when they
/// have the same value, that is, when cross multiplication makes them the
/// same integer.
pub proof fn law_order_zero_is_equal_value(x: Scaled, y: Scaled)
    requires
        x.e >= y.e,
    ensures
        scaled_order(x, y) == 0 <==> x.n * y.d * pow10((x.e - y.e) as nat) == y.n * x.d,
{
}

} // verus!
