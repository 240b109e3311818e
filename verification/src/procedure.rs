//! Procedures: the built-in ones and the closures that `lambda` makes.

use vstd::prelude::*;
use crate::primitives;
use crate::env::{Env, EnvRef, Store};
use crate::evaluator::{Args, clone_from, eval_body};
use crate::lexer::Token;
use crate::parser::{Expr, SpecExpr, views};
use crate::semantics::{
    apply_compound_spec, apply_primitive_spec, apply_spec, lemma_eval_all_len, new_compound_spec,
    outcome_of, param_spec, symbol_names_from,
};
use crate::serr::{Kind, SErr, SResult, result_view};

verus! {

/// The built-in procedures. The first group are special forms, which get
/// their arguments unevaluated; the rest evaluate every argument first.
#[derive(Clone, Copy, Debug, PartialEq, Eq, Structural)]
pub enum Primitive {
    Define,
    Assign,
    Lambda,
    Quote,
    Quasiquote,
    Unquote,
    If,
    And,
    Or,
    Let,
    LetStar,
    LetRec,
    Cond,
    Case,
    Apply,
    Add,
    Sub,
    Mul,
    Div,
    Lt,
    Gt,
    Le,
    Ge,
    NumEq,
    List,
    Cons,
    Car,
    Cdr,
    ListCopy,
    Append,
    Not,
    BooleanQ,
    BooleanEq,
    Equal,
}

/// A `Procedure` may be either primitive or compound (user-defined).
#[derive(Debug, PartialEq)]
pub enum ProcedureData {
    Primitive(PrimitiveData),
    Compound(CompoundData),
}

#[derive(Debug, PartialEq)]
pub struct PrimitiveData {
    pub fun: Primitive,
}

/// A closure: parameters, body, and the scope in which the `lambda` stood.
#[derive(Debug, PartialEq)]
pub struct CompoundData {
    pub params: Param,
    pub body: Vec<Expr>,
    pub env: EnvRef,
}

/// How a compound procedure takes its arguments.
#[derive(Debug, PartialEq)]
pub enum Param {
    /// All arguments, as one list, under one name.
    Single(String),
    /// Exactly as many arguments as names.
    Fixed(Vec<String>),
    /// At least as many arguments as names; the rest, as a list, under the last name.
    Multi(Vec<String>, String),
}

pub ghost enum SpecParam {
    Single(Seq<char>),
    Fixed(Seq<Seq<char>>),
    Multi(Seq<Seq<char>>, Seq<char>),
}

pub ghost enum SpecProc {
    Primitive(Primitive),
    Compound(SpecParam, Seq<SpecExpr>, EnvRef),
}

/// The names of a sequence of strings, each as a sequence of characters.
pub open spec fn names_view(v: Seq<String>) -> Seq<Seq<char>> {
    Seq::new(v.len(), |i: int| v[i]@)
}

/// A copy of each name, in order.
pub fn clone_names(v: &Vec<String>) -> (r: Vec<String>)
    ensures
        names_view(r@) == names_view(v@),
{
    let mut r: Vec<String> = Vec::new();
    let mut i: usize = 0;
    while i < v.len()
        invariant
            i <= v.len(),
            r.len() == i,
            forall|j: int| 0 <= j < i ==> r[j]@ == v[j]@,
        decreases v.len() - i,
    {
        r.push(v[i].clone());
        i += 1;
    }
    assert(names_view(r@) =~= names_view(v@));
    r
}

impl View for Param {
    type V = SpecParam;

    open spec fn view(&self) -> SpecParam {
        match self {
            Param::Single(s) => SpecParam::Single(s@),
            Param::Fixed(ns) => SpecParam::Fixed(names_view(ns@)),
            Param::Multi(ns, r) => SpecParam::Multi(names_view(ns@), r@),
        }
    }
}

impl Clone for Param {
    fn clone(&self) -> (r: Param)
        ensures
            r@ == self@,
    {
        match self {
            Param::Single(s) => Param::Single(s.clone()),
            Param::Fixed(ns) => Param::Fixed(clone_names(ns)),
            Param::Multi(ns, r) => Param::Multi(clone_names(ns), r.clone()),
        }
    }
}

impl View for ProcedureData {
    type V = SpecProc;

    open spec fn view(&self) -> SpecProc {
        match self {
            ProcedureData::Primitive(d) => SpecProc::Primitive(d.fun),
            ProcedureData::Compound(d) => SpecProc::Compound(d.params@, views(d.body@), d.env),
        }
    }
}

/// The names of the expressions, if all are symbols; else the first that
/// is none, as a type mismatch.
pub fn into_symbols(xs: &Vec<Expr>) -> (r: SResult<Vec<String>>)
    ensures
        match symbol_names_from(views(xs@), 0, Seq::empty()) {
            Ok(names) => r is Ok && names_view(r->Ok_0@) == names,
            Err(e) => r is Err && r->Err_0@ == e,
        },
{
    let mut out: Vec<String> = Vec::new();
    let mut i: usize = 0;
    assert(names_view(out@) =~= Seq::<Seq<char>>::empty());
    while i < xs.len()
        invariant
            i <= xs.len(),
            symbol_names_from(views(xs@), i as int, names_view(out@)) == symbol_names_from(
                views(xs@),
                0,
                Seq::empty(),
            ),
        decreases xs.len() - i,
    {
        assert(views(xs@)[i as int] == xs[i as int]@);
        match &xs[i] {
            Expr::Atom(Token::Symbol(s)) => {
                assert(names_view(out@.push(*s)) =~= names_view(out@).push(s@));
                out.push(s.clone());
            },
            x => {
                return Err(SErr::TypeMismatch(Kind::Symbol, x.clone()));
            },
        }
        i += 1;
    }
    Ok(out)
}

/// The parameter specification that a parameter expression stands for.
pub fn into_param(params_expr: Expr) -> (r: SResult<Param>)
    ensures
        match param_spec(params_expr@) {
            Ok(p) => r is Ok && r->Ok_0@ == p,
            Err(e) => r is Err && r->Err_0@ == e,
        },
{
    match params_expr {
        Expr::Atom(Token::Symbol(x)) => Ok(Param::Single(x)),
        Expr::List(xs) => {
            match into_symbols(&xs) {
                Ok(names) => Ok(Param::Fixed(names)),
                Err(e) => Err(e),
            }
        },
        Expr::DottedList(xs, y) => {
            match into_symbols(&xs) {
                Ok(names) => {
                    let tail = *y;
                    assert(tail@ is Atom ==> tail@->Atom_0 == tail->Atom_0@);
                    match tail {
                        Expr::Atom(Token::Symbol(rest)) => Ok(Param::Multi(names, rest)),
                        other => Err(SErr::TypeMismatch(Kind::Symbol, other)),
                    }
                },
                Err(e) => Err(e),
            }
        },
        x => Err(SErr::TypeMismatch(Kind::ParameterList, x)),
    }
}

impl ProcedureData {
    /// Creates a user-defined procedure, an `Expr::Procedure` that holds a
    /// `ProcedureData::Compound`, from a parameter expression and a body.
    ///
    /// A symbol as parameter expression takes all arguments as one list; a
    /// list of symbols takes exactly as many arguments; an improper list of
    /// symbols takes at least as many as it has heads. Anything else is a
    /// type mismatch, and so is a body without expressions an unexpected
    /// form.
    pub fn new_compound(params_expr: Expr, body: Vec<Expr>, env: &EnvRef) -> (r: SResult<Expr>)
        ensures
            result_view(r) == new_compound_spec(params_expr@, views(body@), *env),
    {
        let params = match into_param(params_expr) {
            Ok(p) => p,
            Err(e) => {
                return Err(e);
            },
        };
        if body.len() == 0 {
            return Err(SErr::UnexpectedForm(Expr::List(body)));
        }
        Ok(Expr::Procedure(ProcedureData::Compound(CompoundData { params, body, env: *env })))
    }

    /// Creates a primitive function, an `Expr::Procedure` that holds a
    /// `ProcedureData::Primitive`.
    pub fn new_primitive(fun: Primitive) -> (r: Expr)
        ensures
            r@ == SpecExpr::Procedure(SpecProc::Primitive(fun)),
    {
        Expr::Procedure(ProcedureData::Primitive(PrimitiveData { fun }))
    }

    /// Apply the procedure to arguments not yet evaluated.
    pub fn apply(&self, args: Args, store: &mut Store, depth: usize) -> (r: SResult<Expr>)
        ensures
            outcome_of(final(store)@, r) == apply_spec(old(store)@, self@, args@, depth as nat),
        decreases depth, 5nat, args, 0nat,
    {
        match self {
            ProcedureData::Compound(x) => x.apply(args, store, depth),
            ProcedureData::Primitive(x) => x.apply(args, store, depth),
        }
    }
}

impl CompoundData {
    /// Call the closure: check the number of arguments, evaluate them in
    /// the scope of the caller, bind them in a fresh scope under the scope
    /// that the closure captured, and evaluate the body there.
    pub fn apply(&self, args: Args, store: &mut Store, depth: usize) -> (r: SResult<Expr>)
        ensures
            outcome_of(final(store)@, r) == apply_compound_spec(
                old(store)@,
                self.params@,
                views(self.body@),
                self.env,
                args@,
                depth as nat,
            ),
        decreases depth, 4nat, args, 0nat,
    {
        let mut inner_env = Env::new(self.env);
        match &self.params {
            Param::Single(x) => {
                let vals = match args.eval(store, depth) {
                    Ok(vals) => vals,
                    Err(e) => {
                        return Err(e);
                    },
                };
                inner_env.insert(x.clone(), Expr::List(vals));
            },
            Param::Fixed(xs) => {
                if xs.len() != args.len() {
                    return Err(SErr::WrongArgCount(xs.len(), args.len()));
                }
                let vals = match args.eval(store, depth) {
                    Ok(vals) => vals,
                    Err(e) => {
                        return Err(e);
                    },
                };
                proof {
                    lemma_eval_all_len(old(store)@, args@.items, 0, Seq::empty(), args.env, depth as nat);
                }
                inner_env.pack(xs, vals);
            },
            Param::Multi(xs, y) => {
                if args.len() < xs.len() {
                    return Err(SErr::WrongArgCount(xs.len(), args.len()));
                }
                let vals = match args.eval(store, depth) {
                    Ok(vals) => vals,
                    Err(e) => {
                        return Err(e);
                    },
                };
                proof {
                    lemma_eval_all_len(old(store)@, args@.items, 0, Seq::empty(), args.env, depth as nat);
                }
                let rest = clone_from(&vals, xs.len());
                inner_env.pack(xs, vals);
                inner_env.insert(y.clone(), Expr::List(rest));
            },
        }
        let env_ref = inner_env.to_ref(store);
        eval_body(&self.body, env_ref, store, depth)
    }
}

impl PrimitiveData {
    /// Apply the primitive to arguments not yet evaluated.
    pub fn apply(&self, args: Args, store: &mut Store, depth: usize) -> (r: SResult<Expr>)
        ensures
            outcome_of(final(store)@, r) == apply_primitive_spec(
                old(store)@,
                self.fun,
                args@,
                depth as nat,
            ),
        decreases depth, 4nat, args, 0nat,
    {
        match self.fun {
            Primitive::Define => primitives::do_define(args, store, depth),
            Primitive::Assign => primitives::do_set(args, store, depth),
            Primitive::Lambda => primitives::do_lambda(args),
            Primitive::Quote => primitives::do_quote(args),
            Primitive::Quasiquote => primitives::do_quasiquote(args, store, depth),
            Primitive::Unquote => primitives::do_unquote(args, store, depth),
            Primitive::If => primitives::do_if(args, store, depth),
            Primitive::And => primitives::do_and(args, store, depth),
            Primitive::Or => primitives::do_or(args, store, depth),
            Primitive::Let => primitives::lang::let_(args, store, depth),
            Primitive::LetStar => primitives::lang::let_star(args, store, depth),
            Primitive::LetRec => primitives::lang::let_rec(args, store, depth),
            Primitive::Cond => primitives::conditionals::cond(args, store, depth),
            Primitive::Case => primitives::conditionals::case(args, store, depth),
            Primitive::Apply => primitives::lang::apply(args, store, depth),
            Primitive::Add | Primitive::Sub | Primitive::Mul | Primitive::Div => {
                primitives::do_arithmetic(self.fun, args, store, depth)
            },
            Primitive::Lt | Primitive::Gt | Primitive::Le | Primitive::Ge | Primitive::NumEq => {
                primitives::do_compare(self.fun, args, store, depth)
            },
            Primitive::List => primitives::list::list(args, store, depth),
            Primitive::Cons => primitives::list::cons(args, store, depth),
            Primitive::Car => primitives::list::car(args, store, depth),
            Primitive::Cdr => primitives::list::cdr(args, store, depth),
            Primitive::ListCopy => primitives::list::list_copy(args, store, depth),
            Primitive::Append => primitives::list::append(args, store, depth),
            Primitive::Not => primitives::boolean::not(args, store, depth),
            Primitive::BooleanQ => primitives::boolean::boolean_qm(args, store, depth),
            Primitive::BooleanEq => primitives::boolean::boolean_eq_qm(args, store, depth),
            Primitive::Equal => primitives::equivalence::equal(args, store, depth),
        }
    }
}

} // verus!
