//! Forms that make scopes, and `apply`.

use vstd::prelude::*;
use crate::env::{Env, EnvRef, SpecScope, SpecStore, Store, define};
use crate::evaluator::{Args, Extra, eval, eval_sequence};
use crate::lexer::Token;
use crate::parser::{Expr, SpecExpr, views};
use crate::primitives::primitive;
use crate::procedure::{Primitive, ProcedureData};
use crate::semantics::{
    Outcome, SpecArgs, apply_spec, done, eval_all_from, eval_body_from, eval_spec, fail, outcome_of,
};
use crate::serr::{Kind, SErr, SResult, SpecErr};

verus! {

/// The name and the expression of a binding `(name expr)`.
pub open spec fn binding_parts(b: SpecExpr) -> Result<(Seq<char>, SpecExpr), SpecErr> {
    match b {
        SpecExpr::List(xs) => if xs.len() == 2 && xs[0] is Atom && xs[0]->Atom_0 is Symbol {
            Ok((xs[0]->Atom_0->Symbol_0, xs[1]))
        } else {
            Err(SpecErr::UnexpectedForm(b))
        },
        _ => Err(SpecErr::UnexpectedForm(b)),
    }
}

/// The list of bindings that a binding form starts with.
pub open spec fn bindings_of(args: SpecArgs) -> Result<Seq<SpecExpr>, SpecErr> {
    if args.items.len() == 0 {
        Err(SpecErr::WrongArgCount(2, 0))
    } else {
        match args.items[0] {
            SpecExpr::List(bs) => Ok(bs),
            x => Err(SpecErr::TypeMismatch(Kind::List, x)),
        }
    }
}

/// A store and the bindings reached in it.
pub ghost struct OutcomeVars {
    pub store: SpecStore,
    pub result: Result<Map<Seq<char>, SpecExpr>, SpecErr>,
}

/// The bindings of `let` from index `i` on, added to `vars`: each
/// expression is evaluated in the scope `env` of the form itself.
pub open spec fn let_bind_from(
    st: SpecStore,
    bs: Seq<SpecExpr>,
    i: int,
    vars: Map<Seq<char>, SpecExpr>,
    env: EnvRef,
    d: nat,
) -> OutcomeVars
    decreases d, 1nat, bs, bs.len() - i,
{
    if 0 <= i < bs.len() {
        match binding_parts(bs[i]) {
            Err(e) => OutcomeVars { store: st, result: Err(e) },
            Ok((name, init)) => {
                let o = eval_spec(st, init, env, d);
                match o.result {
                    Ok(v) => let_bind_from(o.store, bs, i + 1, vars.insert(name, v), env, d),
                    Err(e) => OutcomeVars { store: o.store, result: Err(e) },
                }
            },
        }
    } else {
        OutcomeVars { store: st, result: Ok(vars) }
    }
}

/// `(let ((name expr) ...) body ...)` evaluates every `expr` in the current
/// scope, binds the names in a fresh scope under it, and evaluates the body
/// there.
pub open spec fn let_spec(st: SpecStore, args: SpecArgs, d: nat) -> Outcome
    decreases d, 3nat, args, 0nat,
{
    match bindings_of(args) {
        Err(e) => fail(st, e),
        Ok(bs) => {
            let o = let_bind_from(st, bs, 0, Map::empty(), args.env, d);
            match o.result {
                Err(e) => fail(o.store, e),
                Ok(vars) => eval_body_from(
                    o.store.push(SpecScope { parent: args.env, vars }),
                    args.items,
                    1,
                    SpecExpr::Unspecified,
                    EnvRef::Scope(o.store.len() as usize),
                    d,
                ),
            }
        },
    }
}

/// The bindings of `let*` from index `i` on: each expression is evaluated
/// in the scope `scope`, where the names before it are bound already, and
/// its name is bound there.
pub open spec fn let_star_from(st: SpecStore, bs: Seq<SpecExpr>, i: int, scope: EnvRef, d: nat)
    -> Outcome
    decreases d, 1nat, bs, bs.len() - i,
{
    if 0 <= i < bs.len() {
        match binding_parts(bs[i]) {
            Err(e) => fail(st, e),
            Ok((name, init)) => {
                let o = eval_spec(st, init, scope, d);
                match o.result {
                    Ok(v) => let_star_from(define(o.store, scope, name, v), bs, i + 1, scope, d),
                    Err(_) => o,
                }
            },
        }
    } else {
        done(st, SpecExpr::Unspecified)
    }
}

/// `(let* ((name expr) ...) body ...)` makes a fresh scope under the
/// current one, binds the names there one after the other, each `expr`
/// seeing the names before it, and evaluates the body there.
pub open spec fn let_star_spec(st: SpecStore, args: SpecArgs, d: nat) -> Outcome
    decreases d, 3nat, args, 0nat,
{
    match bindings_of(args) {
        Err(e) => fail(st, e),
        Ok(bs) => {
            let scope = EnvRef::Scope(st.len() as usize);
            let o = let_star_from(
                st.push(SpecScope { parent: args.env, vars: Map::empty() }),
                bs,
                0,
                scope,
                d,
            );
            match o.result {
                Err(_) => o,
                Ok(_) => eval_body_from(o.store, args.items, 1, SpecExpr::Unspecified, scope, d),
            }
        },
    }
}

/// The bindings of `letrec` from index `i` on, added to `vars`: each name
/// is bound to its expression, deferred, to be evaluated in `scope` when the
/// name is read.
pub open spec fn deferred_from(
    bs: Seq<SpecExpr>,
    i: int,
    vars: Map<Seq<char>, SpecExpr>,
    scope: EnvRef,
) -> Result<Map<Seq<char>, SpecExpr>, SpecErr>
    decreases bs.len() - i,
{
    if 0 <= i < bs.len() {
        match binding_parts(bs[i]) {
            Err(e) => Err(e),
            Ok((name, init)) => deferred_from(
                bs,
                i + 1,
                vars.insert(name, SpecExpr::Lazy(Box::new(init), scope)),
                scope,
            ),
        }
    } else {
        Ok(vars)
    }
}

/// `(letrec ((name expr) ...) body ...)` makes a fresh scope under the
/// current one in which every name is bound to its expression, deferred:
/// the expression is evaluated, in that same scope, each time the name is
/// read. So every `expr` sees every name. Then the body is evaluated there.
pub open spec fn let_rec_spec(st: SpecStore, args: SpecArgs, d: nat) -> Outcome
    decreases d, 3nat, args, 0nat,
{
    match bindings_of(args) {
        Err(e) => fail(st, e),
        Ok(bs) => {
            let scope = EnvRef::Scope(st.len() as usize);
            match deferred_from(bs, 0, Map::empty(), scope) {
                Err(e) => fail(st, e),
                Ok(vars) => eval_body_from(
                    st.push(SpecScope { parent: args.env, vars }),
                    args.items,
                    1,
                    SpecExpr::Unspecified,
                    scope,
                    d,
                ),
            }
        },
    }
}

/// The expression whose value is `v`, whatever `v` is: the call of the
/// primitive `quote`, itself and not its name, on `v`.
pub open spec fn quoted(v: SpecExpr) -> SpecExpr {
    SpecExpr::List(seq![primitive(Primitive::Quote), v])
}

/// Each value, quoted.
pub open spec fn quoted_all(vs: Seq<SpecExpr>) -> Seq<SpecExpr> {
    Seq::new(vs.len(), |i: int| quoted(vs[i]))
}

/// `(apply f x ... xs)` calls the procedure `f` on the values `x ...`
/// followed by the elements of the list `xs`. The arguments are evaluated
/// once, by `apply`; the procedure gets them quoted.
pub open spec fn apply_form_spec(st: SpecStore, args: SpecArgs, d: nat) -> Outcome
    decreases d, 3nat, args, 0nat,
{
    let o = eval_all_from(st, args.items, 0, Seq::empty(), args.env, d);
    match o.result {
        Err(e) => fail(o.store, e),
        Ok(vals) => if vals.len() < 2 {
            fail(o.store, SpecErr::WrongArgCount(2, vals.len() as usize))
        } else {
            match vals[0] {
                SpecExpr::Procedure(p) => match vals.last() {
                    SpecExpr::List(xs) => if d == 0 {
                        fail(o.store, SpecErr::DepthExceeded)
                    } else {
                        apply_spec(
                            o.store,
                            p,
                            SpecArgs {
                                env: args.env,
                                extra: Extra::Nothing,
                                items: quoted_all(vals.subrange(1, vals.len() - 1) + xs),
                            },
                            (d - 1) as nat,
                        )
                    },
                    x => fail(o.store, SpecErr::TypeMismatch(Kind::List, x)),
                },
                v => fail(o.store, SpecErr::NotApplicable(v)),
            }
        },
    }
}

/// The name and the expression of a binding `(name expr)`.
pub fn binding_of(b: &Expr) -> (r: SResult<(String, Expr)>)
    ensures
        match binding_parts(b@) {
            Ok((name, init)) => r is Ok && r->Ok_0.0@ == name && r->Ok_0.1@ == init,
            Err(e) => r is Err && r->Err_0@ == e,
        },
{
    match b {
        Expr::List(xs) => {
            if xs.len() == 2 {
                assert(views(xs@)[0] == xs[0]@);
                assert(views(xs@)[1] == xs[1]@);
                match &xs[0] {
                    Expr::Atom(Token::Symbol(name)) => Ok((name.clone(), xs[1].clone())),
                    _ => Err(SErr::UnexpectedForm(b.clone())),
                }
            } else {
                Err(SErr::UnexpectedForm(b.clone()))
            }
        },
        _ => Err(SErr::UnexpectedForm(b.clone())),
    }
}

/// The list of bindings that a binding form starts with.
fn bindings_in(args: &Args) -> (r: SResult<&Vec<Expr>>)
    ensures
        match bindings_of(args@) {
            Ok(bs) => r is Ok && views(r->Ok_0@) == bs && args.vec.len() >= 1,
            Err(e) => r is Err && r->Err_0@ == e,
        },
{
    if args.vec.len() == 0 {
        return Err(SErr::WrongArgCount(2, 0));
    }
    assert(args@.items[0] == args.vec[0]@);
    match &args.vec[0] {
        Expr::List(bs) => Ok(bs),
        x => Err(SErr::TypeMismatch(Kind::List, x.clone())),
    }
}

/// `let`
pub fn let_(args: Args, store: &mut Store, depth: usize) -> (r: SResult<Expr>)
    ensures
        outcome_of(final(store)@, r) == let_spec(old(store)@, args@, depth as nat),
    decreases depth, 3nat, args, 0nat,
{
    let bs = match bindings_in(&args) {
        Ok(bs) => bs,
        Err(e) => {
            return Err(e);
        },
    };
    let mut inner = Env::new(args.env);
    let mut i: usize = 0;
    while i < bs.len()
        invariant
            i <= bs.len(),
            inner.parent == args.env,
            bindings_of(args@) == Ok::<Seq<SpecExpr>, SpecErr>(views(bs@)),
            let_bind_from(store@, views(bs@), i as int, inner@.vars, args.env, depth as nat)
                == let_bind_from(
                old(store)@,
                views(bs@),
                0,
                Map::empty(),
                args.env,
                depth as nat,
            ),
        decreases bs.len() - i,
    {
        assert(views(bs@)[i as int] == bs[i as int]@);
        let (name, init) = match binding_of(&bs[i]) {
            Ok(parts) => parts,
            Err(e) => {
                return Err(e);
            },
        };
        match eval(&init, args.env, store, depth) {
            Ok(v) => {
                inner.insert(name, v);
            },
            Err(e) => {
                return Err(e);
            },
        }
        i += 1;
    }
    let scope = inner.to_ref(store);
    eval_sequence(&args.vec, 1, Expr::Unspecified, scope, store, depth)
}

/// `let*`
pub fn let_star(args: Args, store: &mut Store, depth: usize) -> (r: SResult<Expr>)
    ensures
        outcome_of(final(store)@, r) == let_star_spec(old(store)@, args@, depth as nat),
    decreases depth, 3nat, args, 0nat,
{
    let bs = match bindings_in(&args) {
        Ok(bs) => bs,
        Err(e) => {
            return Err(e);
        },
    };
    let scope = Env::new(args.env).to_ref(store);
    let ghost start = store@;
    let mut i: usize = 0;
    while i < bs.len()
        invariant
            i <= bs.len(),
            bindings_of(args@) == Ok::<Seq<SpecExpr>, SpecErr>(views(bs@)),
            scope == EnvRef::Scope(old(store)@.len() as usize),
            start == old(store)@.push(SpecScope { parent: args.env, vars: Map::empty() }),
            let_star_from(store@, views(bs@), i as int, scope, depth as nat) == let_star_from(
                start,
                views(bs@),
                0,
                scope,
                depth as nat,
            ),
        decreases bs.len() - i,
    {
        assert(views(bs@)[i as int] == bs[i as int]@);
        let (name, init) = match binding_of(&bs[i]) {
            Ok(parts) => parts,
            Err(e) => {
                return Err(e);
            },
        };
        match eval(&init, scope, store, depth) {
            Ok(v) => {
                store.insert(scope, name, v);
            },
            Err(e) => {
                return Err(e);
            },
        }
        i += 1;
    }
    eval_sequence(&args.vec, 1, Expr::Unspecified, scope, store, depth)
}

/// `letrec`
pub fn let_rec(args: Args, store: &mut Store, depth: usize) -> (r: SResult<Expr>)
    ensures
        outcome_of(final(store)@, r) == let_rec_spec(old(store)@, args@, depth as nat),
    decreases depth, 3nat, args, 0nat,
{
    let bs = match bindings_in(&args) {
        Ok(bs) => bs,
        Err(e) => {
            return Err(e);
        },
    };
    let scope = EnvRef::Scope(store.len());
    let mut inner = Env::new(args.env);
    let mut i: usize = 0;
    while i < bs.len()
        invariant
            i <= bs.len(),
            inner.parent == args.env,
            bindings_of(args@) == Ok::<Seq<SpecExpr>, SpecErr>(views(bs@)),
            scope == EnvRef::Scope(old(store)@.len() as usize),
            store@ == old(store)@,
            deferred_from(views(bs@), i as int, inner@.vars, scope) == deferred_from(
                views(bs@),
                0,
                Map::empty(),
                scope,
            ),
        decreases bs.len() - i,
    {
        assert(views(bs@)[i as int] == bs[i as int]@);
        let (name, init) = match binding_of(&bs[i]) {
            Ok(parts) => parts,
            Err(e) => {
                return Err(e);
            },
        };
        inner.insert(name, Expr::Lazy(Box::new(init), scope));
        i += 1;
    }
    inner.to_ref(store);
    eval_sequence(&args.vec, 1, Expr::Unspecified, scope, store, depth)
}

/// The expression whose value is `v`.
pub fn quote_value_of(v: Expr) -> (r: Expr)
    ensures
        r@ == quoted(v@),
{
    let mut items: Vec<Expr> = Vec::new();
    items.push(ProcedureData::new_primitive(Primitive::Quote));
    items.push(v);
    assert(views(items@) =~= seq![primitive(Primitive::Quote), v@]);
    Expr::List(items)
}

/// Append each of the values from index `from` up to index `to`, quoted.
fn push_quoted(out: &mut Vec<Expr>, vals: &Vec<Expr>, from: usize, to: usize)
    requires
        from <= to <= vals.len(),
    ensures
        views(final(out)@) == views(old(out)@) + quoted_all(
            views(vals@).subrange(from as int, to as int),
        ),
{
    let ghost start = views(out@);
    let ghost part = views(vals@).subrange(from as int, to as int);
    let mut i: usize = from;
    assert(views(out@) =~= start + quoted_all(part).subrange(0, 0));
    while i < to
        invariant
            from <= i <= to <= vals.len(),
            part == views(vals@).subrange(from as int, to as int),
            views(out@) == start + quoted_all(part).subrange(0, i - from),
        decreases to - i,
    {
        let ghost before = views(out@);
        let q = quote_value_of(vals[i].clone());
        assert(q@ == quoted_all(part)[i - from]) by {
            assert(part[i - from] == vals[i as int]@);
        }
        out.push(q);
        assert(views(out@) =~= before.push(q@));
        assert(quoted_all(part).subrange(0, i - from).push(q@) =~= quoted_all(part).subrange(
            0,
            i - from + 1,
        ));
        i += 1;
    }
    assert(quoted_all(part).subrange(0, to - from) =~= quoted_all(part));
}

/// `apply`
pub fn apply(args: Args, store: &mut Store, depth: usize) -> (r: SResult<Expr>)
    ensures
        outcome_of(final(store)@, r) == apply_form_spec(old(store)@, args@, depth as nat),
    decreases depth, 3nat, args, 0nat,
{
    let env = args.env;
    let vals = match args.eval(store, depth) {
        Ok(vals) => vals,
        Err(e) => {
            return Err(e);
        },
    };
    let n = vals.len();
    assert(views(vals@).len() == n);
    if n < 2 {
        return Err(SErr::WrongArgCount(2, n));
    }
    assert(views(vals@)[0] == vals[0]@);
    assert(views(vals@).last() == vals[n - 1]@);
    match &vals[0] {
        Expr::Procedure(p) => {
            match &vals[n - 1] {
                Expr::List(xs) => {
                    if depth == 0 {
                        return Err(SErr::DepthExceeded);
                    }
                    let mut items: Vec<Expr> = Vec::new();
                    assert(views(items@) =~= Seq::<SpecExpr>::empty());
                    push_quoted(&mut items, &vals, 1, n - 1);
                    push_quoted(&mut items, xs, 0, xs.len());
                    proof {
                        let a = views(vals@).subrange(1, n - 1);
                        let b = views(xs@);
                        assert(b.subrange(0, xs.len() as int) =~= b);
                        assert(quoted_all(a) + quoted_all(b) =~= quoted_all(a + b));
                        assert(views(items@) =~= quoted_all(a + b));
                    }
                    p.apply(Args::new(items, &env), store, depth - 1)
                },
                x => Err(SErr::TypeMismatch(Kind::List, x.clone())),
            }
        },
        v => Err(SErr::NotApplicable(v.clone())),
    }
}

} // verus!
