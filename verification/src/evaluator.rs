//! The evaluator: `eval`, the call of a named procedure, and the arguments
//! of a call.

use vstd::prelude::*;
use crate::env::{EnvRef, Store};
use crate::lexer::Token;
use crate::parser::{Expr, SpecExpr, clone_exprs, views};
use crate::semantics::{
    SpecArgs, call_procedure_spec, eval_all_from, eval_body_from, eval_spec, outcome_list_of,
    outcome_of, tail_of,
};
use crate::serr::{SErr, SResult};

verus! {

/// A datum that travels with the arguments of a call.
#[derive(Clone, Copy, Debug, PartialEq, Eq, Structural)]
pub enum Extra {
    /// The call is made inside this many nested `quasiquote`s.
    QQLevel(usize),
    Nothing,
}

/// The arguments of a call, as written, with the scope of the caller.
#[derive(Debug)]
pub struct Args {
    pub env: EnvRef,
    pub extra: Extra,
    pub vec: Vec<Expr>,
}

impl View for Args {
    type V = SpecArgs;

    open spec fn view(&self) -> SpecArgs {
        SpecArgs { env: self.env, extra: self.extra, items: views(self.vec@) }
    }
}

/// A copy of the expressions from index `from` on.
pub fn clone_from(xs: &Vec<Expr>, from: usize) -> (r: Vec<Expr>)
    requires
        from <= xs.len(),
    ensures
        views(r@) == views(xs@).subrange(from as int, xs.len() as int),
{
    let mut r: Vec<Expr> = Vec::new();
    let mut i: usize = from;
    while i < xs.len()
        invariant
            from <= i <= xs.len(),
            r.len() == i - from,
            forall|j: int| 0 <= j < r.len() ==> r[j]@ == xs[from + j]@,
        decreases xs.len() - i,
    {
        r.push(xs[i].clone());
        i += 1;
    }
    assert(views(r@) =~= views(xs@).subrange(from as int, xs.len() as int));
    r
}

/// The value of `sexpr` in the scope `env`.
///
/// A symbol is looked up, and a deferred value found under it is forced. A
/// list is a call: of the procedure that its first element names or
/// evaluates to, on the other elements as written. Everything else but an
/// improper list is its own value. `depth` bounds how deep evaluation may
/// nest.
pub fn eval(sexpr: &Expr, env: EnvRef, store: &mut Store, depth: usize) -> (r: SResult<Expr>)
    ensures
        outcome_of(final(store)@, r) == eval_spec(old(store)@, sexpr@, env, depth as nat),
    decreases depth, 0nat, sexpr, 0nat,
{
    if depth == 0 {
        return Err(SErr::DepthExceeded);
    }
    match sexpr {
        Expr::Atom(Token::Symbol(name)) => {
            match store.get(env, name.as_str()) {
                Err(e) => Err(e),
                Ok(Expr::Lazy(inner, cenv)) => eval(&*inner, cenv, store, depth - 1),
                Ok(v) => Ok(v),
            }
        },
        Expr::Atom(_) => Ok(sexpr.clone()),
        Expr::Procedure(_) => Ok(sexpr.clone()),
        Expr::Unspecified => Ok(Expr::Unspecified),
        Expr::Lazy(inner, cenv) => eval(&**inner, *cenv, store, depth - 1),
        Expr::DottedList(_, _) => Err(SErr::UnexpectedForm(sexpr.clone())),
        Expr::List(xs) => {
            if xs.len() == 0 {
                return Err(SErr::UnexpectedForm(sexpr.clone()));
            }
            // Skip the operator.
            let args = Args::new(clone_from(xs, 1), &env);
            assert(views(xs@)[0] == xs[0]@);
            match &xs[0] {
                Expr::Atom(Token::Symbol(symbol)) => call_procedure(
                    symbol.as_str(),
                    args,
                    store,
                    depth - 1,
                ),
                head => {
                    match eval(head, env, store, depth - 1) {
                        Ok(Expr::Procedure(p)) => p.apply(args, store, depth - 1),
                        Ok(v) => Err(SErr::NotApplicable(v)),
                        Err(e) => Err(e),
                    }
                },
            }
        },
    }
}

/// Call what `op` is bound to in the scope of `args`, on `args`.
pub fn call_procedure(op: &str, args: Args, store: &mut Store, depth: usize) -> (r: SResult<Expr>)
    ensures
        outcome_of(final(store)@, r) == call_procedure_spec(
            old(store)@,
            op@,
            args@,
            depth as nat,
        ),
    decreases depth, 6nat, args, 0nat,
{
    match store.get(args.env, op) {
        Err(e) => Err(e),
        Ok(Expr::Procedure(p)) => p.apply(args, store, depth),
        Ok(Expr::Lazy(inner, cenv)) => {
            match eval(&*inner, cenv, store, depth) {
                Ok(Expr::Procedure(p)) => p.apply(args, store, depth),
                Ok(v) => Err(SErr::NotApplicable(v)),
                Err(e) => Err(e),
            }
        },
        Ok(v) => Err(SErr::NotApplicable(v)),
    }
}

/// Evaluate the expressions from index `from` on, in order, in the scope
/// `env`, and return the value of the last; if there is none, `last`.
pub fn eval_sequence(
    body: &Vec<Expr>,
    from: usize,
    last: Expr,
    env: EnvRef,
    store: &mut Store,
    depth: usize,
) -> (r: SResult<Expr>)
    requires
        from <= body.len(),
    ensures
        outcome_of(final(store)@, r) == eval_body_from(
            old(store)@,
            views(body@),
            from as int,
            last@,
            env,
            depth as nat,
        ),
    decreases depth, 1nat, body, 0nat,
{
    let ghost first = last@;
    let mut last = last;
    let mut i: usize = from;
    while i < body.len()
        invariant
            i <= body.len(),
            eval_body_from(store@, views(body@), i as int, last@, env, depth as nat)
                == eval_body_from(
                old(store)@,
                views(body@),
                from as int,
                first,
                env,
                depth as nat,
            ),
        decreases body.len() - i,
    {
        assert(views(body@)[i as int] == body[i as int]@);
        match eval(&body[i], env, store, depth) {
            Ok(v) => {
                last = v;
            },
            Err(e) => {
                return Err(e);
            },
        }
        i += 1;
    }
    Ok(last)
}

/// Evaluate the expressions of a body in order, in the scope `env`, and
/// return the value of the last; of an empty body, no value.
pub fn eval_body(body: &Vec<Expr>, env: EnvRef, store: &mut Store, depth: usize) -> (r: SResult<
    Expr,
>)
    ensures
        outcome_of(final(store)@, r) == eval_body_from(
            old(store)@,
            views(body@),
            0,
            SpecExpr::Unspecified,
            env,
            depth as nat,
        ),
    decreases depth, 2nat, body, 0nat,
{
    eval_sequence(body, 0, Expr::Unspecified, env, store, depth)
}

impl Args {
    pub fn new_with_extra(vec: Vec<Expr>, extra: Extra, env: &EnvRef) -> (r: Args)
        ensures
            r@ == (SpecArgs { env: *env, extra, items: views(vec@) }),
    {
        Args { env: *env, extra: extra, vec: vec }
    }

    pub fn new(vec: Vec<Expr>, env: &EnvRef) -> (r: Args)
        ensures
            r@ == (SpecArgs { env: *env, extra: Extra::Nothing, items: views(vec@) }),
    {
        Args { env: *env, extra: Extra::Nothing, vec: vec }
    }

    pub fn env(&self) -> (r: EnvRef)
        ensures
            r == self@.env,
    {
        self.env
    }

    pub fn into_all(self) -> (r: Vec<Expr>)
        ensures
            views(r@) == self@.items,
    {
        self.vec
    }

    /// The first argument and the others, if there is a first.
    pub fn into_split(self) -> (r: Option<(Expr, Vec<Expr>)>)
        ensures
            match r {
                Some((head, tail)) => self@.items.len() > 0 && head@ == self@.items[0] && views(
                    tail@,
                ) == tail_of(self@.items),
                None => self@.items.len() == 0,
            },
    {
        let mut vec = self.vec;
        if vec.len() == 0 {
            None
        } else {
            let head = vec.remove(0);
            assert(views(vec@) =~= tail_of(self@.items));
            Some((head, vec))
        }
    }

    pub fn get(&self, i: usize) -> (r: Option<&Expr>)
        ensures
            match r {
                Some(e) => i < self@.items.len() && e@ == self@.items[i as int],
                None => i >= self@.items.len(),
            },
    {
        if i < self.vec.len() {
            Some(&self.vec[i])
        } else {
            None
        }
    }

    pub fn all(&self) -> (r: &Vec<Expr>)
        ensures
            views(r@) == self@.items,
    {
        &self.vec
    }

    /// Evaluate every argument, in order, in the scope of the caller. The
    /// first failure ends the evaluation and is the result.
    pub fn eval(&self, store: &mut Store, depth: usize) -> (r: SResult<Vec<Expr>>)
        ensures
            outcome_list_of(final(store)@, r) == eval_all_from(
                old(store)@,
                self@.items,
                0,
                Seq::empty(),
                self@.env,
                depth as nat,
            ),
        decreases depth, 1nat, self, 0nat,
    {
        let mut out: Vec<Expr> = Vec::new();
        let mut i: usize = 0;
        assert(views(out@) =~= Seq::<SpecExpr>::empty());
        while i < self.vec.len()
            invariant
                i <= self.vec.len(),
                eval_all_from(store@, self@.items, i as int, views(out@), self.env, depth as nat)
                    == eval_all_from(
                    old(store)@,
                    self@.items,
                    0,
                    Seq::empty(),
                    self.env,
                    depth as nat,
                ),
            decreases self.vec.len() - i,
        {
            assert(self@.items[i as int] == self.vec[i as int]@);
            match eval(&self.vec[i], self.env, store, depth) {
                Ok(v) => {
                    assert(views(out@.push(v)) =~= views(out@).push(v@));
                    out.push(v);
                },
                Err(e) => {
                    return Err(e);
                },
            }
            i += 1;
        }
        Ok(out)
    }

    /// The arguments with `f` applied to each.
    pub fn map<F>(self, f: F) -> (r: Args) where F: Fn(Expr) -> Expr
        requires
            forall|x: Expr| f.requires((x,)),
        ensures
            r.env == self.env,
            r.extra == self.extra,
            r.vec.len() == self.vec.len(),
            forall|i: int| 0 <= i < self.vec.len() ==> f.ensures((self.vec[i],), #[trigger] r.vec[i]),
    {
        let env = self.env;
        let extra = self.extra;
        let mut src = self.vec;
        let ghost orig = src@;
        let mut rev: Vec<Expr> = Vec::new();
        while src.len() > 0
            invariant
                src.len() + rev.len() == orig.len(),
                src@ == orig.subrange(0, src.len() as int),
                forall|j: int| 0 <= j < rev.len() ==> rev[j] == orig[orig.len() - 1 - j],
            decreases src.len(),
        {
            let x = src.pop();
            match x {
                Some(x) => {
                    rev.push(x);
                },
                None => {},
            }
        }
        let mut out: Vec<Expr> = Vec::new();
        while rev.len() > 0
            invariant
                out.len() + rev.len() == orig.len(),
                forall|j: int| 0 <= j < rev.len() ==> rev[j] == orig[orig.len() - 1 - j],
                forall|x: Expr| f.requires((x,)),
                forall|i: int| 0 <= i < out.len() ==> f.ensures((orig[i],), #[trigger] out[i]),
            decreases rev.len(),
        {
            let x = rev.pop();
            match x {
                Some(x) => {
                    let y = f(x);
                    out.push(y);
                },
                None => {},
            }
        }
        Args { env: env, extra: extra, vec: out }
    }

    pub fn len(&self) -> (n: usize)
        ensures
            n == self@.items.len(),
    {
        self.vec.len()
    }
}

/// What can be made the arguments of a call.
pub trait ToArgs {
    /// The expressions, as mathematics.
    spec fn items(&self) -> Seq<SpecExpr>;

    /// The arguments that hold a copy of these expressions, for a call from
    /// the scope `env`.
    fn to_args(&self, env: &EnvRef) -> (r: Args)
        ensures
            r@ == (SpecArgs { env: *env, extra: Extra::Nothing, items: self.items() }),
    ;
}

impl ToArgs for Vec<Expr> {
    open spec fn items(&self) -> Seq<SpecExpr> {
        views(self@)
    }

    fn to_args(&self, env: &EnvRef) -> (r: Args) {
        Args::new(clone_exprs(self), env)
    }
}

} // verus!
