//! The built-in procedures: the table that names them, and the special
//! forms that the evaluator cannot do without. The other forms and the
//! procedures on values have modules of their own.

use vstd::prelude::*;
use crate::env::{EnvRef, EnvValues, Store};
use crate::evaluator::{Args, Extra, clone_from, eval};
use crate::lexer::Token;
use crate::parser::{Expr, SpecExpr, views};
use crate::procedure::{Primitive, ProcedureData, SpecProc};
use crate::semantics::{
    and_from, assign_spec, bind_in, boolean, define_spec, eager_spec, if_spec, lambda_value,
    or_from, outcome_list_of, outcome_of, quasi, quasi_item, quasi_list, quasi_tail,
    quasiquote_spec, quote_value, tagged_at, truthy, unquote_spec,
};
use crate::serr::{Kind, SErr, SResult, SpecErr, result_view};

pub mod boolean;
pub mod conditionals;
pub mod equivalence;
pub mod lang;
pub mod list;
pub mod numeric;
pub mod ordering;

verus! {

/// What a primitive that evaluates its arguments computes from their values.
pub open spec fn value_spec(f: Primitive, vals: Seq<SpecExpr>) -> Result<SpecExpr, SpecErr> {
    match f {
        Primitive::Add | Primitive::Sub | Primitive::Mul | Primitive::Div => numeric::calc_spec(
            f,
            vals,
        ),
        Primitive::Lt
        | Primitive::Gt
        | Primitive::Le
        | Primitive::Ge
        | Primitive::NumEq => ordering::compare_spec(f, vals),
        Primitive::List => Ok(SpecExpr::List(vals)),
        Primitive::Cons => list::cons_spec(vals),
        Primitive::Car => list::car_spec(vals),
        Primitive::Cdr => list::cdr_spec(vals),
        Primitive::ListCopy => list::list_copy_spec(vals),
        Primitive::Append => list::append_spec(vals),
        Primitive::Not => boolean::not_spec(vals),
        Primitive::BooleanQ => boolean::boolean_qm_spec(vals),
        Primitive::BooleanEq => boolean::boolean_eq_qm_spec(vals),
        Primitive::Equal => equivalence::equal_spec(vals),
        _ => Ok(SpecExpr::Unspecified),
    }
}

/// The value that stands for a primitive.
pub open spec fn primitive(f: Primitive) -> SpecExpr {
    SpecExpr::Procedure(SpecProc::Primitive(f))
}

/// The names of the primitives, each with its procedure.
pub open spec fn table() -> Map<Seq<char>, SpecExpr> {
    Map::empty().insert("define"@, primitive(Primitive::Define)).insert(
        "set!"@,
        primitive(Primitive::Assign),
    ).insert("lambda"@, primitive(Primitive::Lambda)).insert(
        "quote"@,
        primitive(Primitive::Quote),
    ).insert("quasiquote"@, primitive(Primitive::Quasiquote)).insert(
        "unquote"@,
        primitive(Primitive::Unquote),
    ).insert("if"@, primitive(Primitive::If)).insert("and"@, primitive(Primitive::And)).insert(
        "or"@,
        primitive(Primitive::Or),
    ).insert("+"@, primitive(Primitive::Add)).insert("-"@, primitive(Primitive::Sub)).insert(
        "*"@,
        primitive(Primitive::Mul),
    ).insert("/"@, primitive(Primitive::Div)).insert("<"@, primitive(Primitive::Lt)).insert(
        ">"@,
        primitive(Primitive::Gt),
    ).insert("<="@, primitive(Primitive::Le)).insert(">="@, primitive(Primitive::Ge)).insert(
        "="@,
        primitive(Primitive::NumEq),
    ).insert("list"@, primitive(Primitive::List)).insert(
        "cons"@,
        primitive(Primitive::Cons),
    ).insert("car"@, primitive(Primitive::Car)).insert("cdr"@, primitive(Primitive::Cdr)).insert(
        "list-copy"@,
        primitive(Primitive::ListCopy),
    ).insert("append"@, primitive(Primitive::Append)).insert(
        "not"@,
        primitive(Primitive::Not),
    ).insert("boolean?"@, primitive(Primitive::BooleanQ)).insert(
        "boolean=?"@,
        primitive(Primitive::BooleanEq),
    ).insert("eq?"@, primitive(Primitive::Equal)).insert(
        "eqv?"@,
        primitive(Primitive::Equal),
    ).insert("equal?"@, primitive(Primitive::Equal)).insert(
        "let"@,
        primitive(Primitive::Let),
    ).insert("let*"@, primitive(Primitive::LetStar)).insert(
        "letrec"@,
        primitive(Primitive::LetRec),
    ).insert("cond"@, primitive(Primitive::Cond)).insert(
        "case"@,
        primitive(Primitive::Case),
    ).insert("apply"@, primitive(Primitive::Apply))
}

/// Every name of the table is bound to its own primitive.
pub proof fn lemma_table()
    ensures
        table().contains_key("define"@) && table()["define"@] == primitive(Primitive::Define),
        table().contains_key("set!"@) && table()["set!"@] == primitive(Primitive::Assign),
        table().contains_key("lambda"@) && table()["lambda"@] == primitive(Primitive::Lambda),
        table().contains_key("quote"@) && table()["quote"@] == primitive(Primitive::Quote),
        table().contains_key("quasiquote"@) && table()["quasiquote"@] == primitive(Primitive::Quasiquote),
        table().contains_key("unquote"@) && table()["unquote"@] == primitive(Primitive::Unquote),
        table().contains_key("if"@) && table()["if"@] == primitive(Primitive::If),
        table().contains_key("and"@) && table()["and"@] == primitive(Primitive::And),
        table().contains_key("or"@) && table()["or"@] == primitive(Primitive::Or),
        table().contains_key("+"@) && table()["+"@] == primitive(Primitive::Add),
        table().contains_key("-"@) && table()["-"@] == primitive(Primitive::Sub),
        table().contains_key("*"@) && table()["*"@] == primitive(Primitive::Mul),
        table().contains_key("/"@) && table()["/"@] == primitive(Primitive::Div),
        table().contains_key("<"@) && table()["<"@] == primitive(Primitive::Lt),
        table().contains_key(">"@) && table()[">"@] == primitive(Primitive::Gt),
        table().contains_key("<="@) && table()["<="@] == primitive(Primitive::Le),
        table().contains_key(">="@) && table()[">="@] == primitive(Primitive::Ge),
        table().contains_key("="@) && table()["="@] == primitive(Primitive::NumEq),
        table().contains_key("list"@) && table()["list"@] == primitive(Primitive::List),
        table().contains_key("cons"@) && table()["cons"@] == primitive(Primitive::Cons),
        table().contains_key("car"@) && table()["car"@] == primitive(Primitive::Car),
        table().contains_key("cdr"@) && table()["cdr"@] == primitive(Primitive::Cdr),
        table().contains_key("list-copy"@) && table()["list-copy"@] == primitive(Primitive::ListCopy),
        table().contains_key("append"@) && table()["append"@] == primitive(Primitive::Append),
        table().contains_key("not"@) && table()["not"@] == primitive(Primitive::Not),
        table().contains_key("boolean?"@) && table()["boolean?"@] == primitive(Primitive::BooleanQ),
        table().contains_key("boolean=?"@) && table()["boolean=?"@] == primitive(Primitive::BooleanEq),
        table().contains_key("eq?"@) && table()["eq?"@] == primitive(Primitive::Equal),
        table().contains_key("eqv?"@) && table()["eqv?"@] == primitive(Primitive::Equal),
        table().contains_key("equal?"@) && table()["equal?"@] == primitive(Primitive::Equal),
        table().contains_key("let"@) && table()["let"@] == primitive(Primitive::Let),
        table().contains_key("let*"@) && table()["let*"@] == primitive(Primitive::LetStar),
        table().contains_key("letrec"@) && table()["letrec"@] == primitive(Primitive::LetRec),
        table().contains_key("cond"@) && table()["cond"@] == primitive(Primitive::Cond),
        table().contains_key("case"@) && table()["case"@] == primitive(Primitive::Case),
        table().contains_key("apply"@) && table()["apply"@] == primitive(Primitive::Apply),
{
    reveal_strlit("define");
    assert("define"@ =~= seq!['d', 'e', 'f', 'i', 'n', 'e']);
    reveal_strlit("set!");
    assert("set!"@ =~= seq!['s', 'e', 't', '!']);
    reveal_strlit("lambda");
    assert("lambda"@ =~= seq!['l', 'a', 'm', 'b', 'd', 'a']);
    reveal_strlit("quote");
    assert("quote"@ =~= seq!['q', 'u', 'o', 't', 'e']);
    reveal_strlit("quasiquote");
    assert("quasiquote"@ =~= seq!['q', 'u', 'a', 's', 'i', 'q', 'u', 'o', 't', 'e']);
    reveal_strlit("unquote");
    assert("unquote"@ =~= seq!['u', 'n', 'q', 'u', 'o', 't', 'e']);
    reveal_strlit("if");
    assert("if"@ =~= seq!['i', 'f']);
    assert("if"@[0] == 'i');
    assert("if"@[1] == 'f');
    reveal_strlit("and");
    assert("and"@ =~= seq!['a', 'n', 'd']);
    reveal_strlit("or");
    assert("or"@ =~= seq!['o', 'r']);
    assert("or"@[0] == 'o');
    assert("or"@[1] == 'r');
    reveal_strlit("+");
    assert("+"@ =~= seq!['+']);
    assert("+"@[0] == '+');
    reveal_strlit("-");
    assert("-"@ =~= seq!['-']);
    assert("-"@[0] == '-');
    reveal_strlit("*");
    assert("*"@ =~= seq!['*']);
    assert("*"@[0] == '*');
    reveal_strlit("/");
    assert("/"@ =~= seq!['/']);
    assert("/"@[0] == '/');
    reveal_strlit("<");
    assert("<"@ =~= seq!['<']);
    assert("<"@[0] == '<');
    reveal_strlit(">");
    assert(">"@ =~= seq!['>']);
    assert(">"@[0] == '>');
    reveal_strlit("<=");
    assert("<="@ =~= seq!['<', '=']);
    assert("<="@[0] == '<');
    assert("<="@[1] == '=');
    reveal_strlit(">=");
    assert(">="@ =~= seq!['>', '=']);
    assert(">="@[0] == '>');
    assert(">="@[1] == '=');
    reveal_strlit("=");
    assert("="@ =~= seq!['=']);
    assert("="@[0] == '=');
    reveal_strlit("list");
    assert("list"@ =~= seq!['l', 'i', 's', 't']);
    reveal_strlit("cons");
    assert("cons"@ =~= seq!['c', 'o', 'n', 's']);
    reveal_strlit("car");
    assert("car"@ =~= seq!['c', 'a', 'r']);
    reveal_strlit("cdr");
    assert("cdr"@ =~= seq!['c', 'd', 'r']);
    reveal_strlit("list-copy");
    assert("list-copy"@ =~= seq!['l', 'i', 's', 't', '-', 'c', 'o', 'p', 'y']);
    reveal_strlit("append");
    assert("append"@ =~= seq!['a', 'p', 'p', 'e', 'n', 'd']);
    reveal_strlit("not");
    assert("not"@ =~= seq!['n', 'o', 't']);
    reveal_strlit("boolean?");
    assert("boolean?"@ =~= seq!['b', 'o', 'o', 'l', 'e', 'a', 'n', '?']);
    reveal_strlit("boolean=?");
    assert("boolean=?"@ =~= seq!['b', 'o', 'o', 'l', 'e', 'a', 'n', '=', '?']);
    reveal_strlit("eq?");
    assert("eq?"@ =~= seq!['e', 'q', '?']);
    reveal_strlit("eqv?");
    assert("eqv?"@ =~= seq!['e', 'q', 'v', '?']);
    reveal_strlit("equal?");
    assert("equal?"@ =~= seq!['e', 'q', 'u', 'a', 'l', '?']);
    reveal_strlit("let");
    assert("let"@ =~= seq!['l', 'e', 't']);
    reveal_strlit("let*");
    assert("let*"@ =~= seq!['l', 'e', 't', '*']);
    reveal_strlit("letrec");
    assert("letrec"@ =~= seq!['l', 'e', 't', 'r', 'e', 'c']);
    reveal_strlit("cond");
    assert("cond"@ =~= seq!['c', 'o', 'n', 'd']);
    reveal_strlit("case");
    assert("case"@ =~= seq!['c', 'a', 's', 'e']);
    reveal_strlit("apply");
    assert("apply"@ =~= seq!['a', 'p', 'p', 'l', 'y']);
}

/// The bindings of the global scope before any program has run: every
/// primitive under its name.
pub fn env() -> (r: EnvValues)
    ensures
        r@ == table(),
{
    let mut values = EnvValues::new();
    values.insert("define".to_owned(), ProcedureData::new_primitive(Primitive::Define));
    values.insert("set!".to_owned(), ProcedureData::new_primitive(Primitive::Assign));
    values.insert("lambda".to_owned(), ProcedureData::new_primitive(Primitive::Lambda));
    values.insert("quote".to_owned(), ProcedureData::new_primitive(Primitive::Quote));
    values.insert("quasiquote".to_owned(), ProcedureData::new_primitive(Primitive::Quasiquote));
    values.insert("unquote".to_owned(), ProcedureData::new_primitive(Primitive::Unquote));
    values.insert("if".to_owned(), ProcedureData::new_primitive(Primitive::If));
    values.insert("and".to_owned(), ProcedureData::new_primitive(Primitive::And));
    values.insert("or".to_owned(), ProcedureData::new_primitive(Primitive::Or));
    values.insert("+".to_owned(), ProcedureData::new_primitive(Primitive::Add));
    values.insert("-".to_owned(), ProcedureData::new_primitive(Primitive::Sub));
    values.insert("*".to_owned(), ProcedureData::new_primitive(Primitive::Mul));
    values.insert("/".to_owned(), ProcedureData::new_primitive(Primitive::Div));
    values.insert("<".to_owned(), ProcedureData::new_primitive(Primitive::Lt));
    values.insert(">".to_owned(), ProcedureData::new_primitive(Primitive::Gt));
    values.insert("<=".to_owned(), ProcedureData::new_primitive(Primitive::Le));
    values.insert(">=".to_owned(), ProcedureData::new_primitive(Primitive::Ge));
    values.insert("=".to_owned(), ProcedureData::new_primitive(Primitive::NumEq));
    values.insert("list".to_owned(), ProcedureData::new_primitive(Primitive::List));
    values.insert("cons".to_owned(), ProcedureData::new_primitive(Primitive::Cons));
    values.insert("car".to_owned(), ProcedureData::new_primitive(Primitive::Car));
    values.insert("cdr".to_owned(), ProcedureData::new_primitive(Primitive::Cdr));
    values.insert("list-copy".to_owned(), ProcedureData::new_primitive(Primitive::ListCopy));
    values.insert("append".to_owned(), ProcedureData::new_primitive(Primitive::Append));
    values.insert("not".to_owned(), ProcedureData::new_primitive(Primitive::Not));
    values.insert("boolean?".to_owned(), ProcedureData::new_primitive(Primitive::BooleanQ));
    values.insert("boolean=?".to_owned(), ProcedureData::new_primitive(Primitive::BooleanEq));
    values.insert("eq?".to_owned(), ProcedureData::new_primitive(Primitive::Equal));
    values.insert("eqv?".to_owned(), ProcedureData::new_primitive(Primitive::Equal));
    values.insert("equal?".to_owned(), ProcedureData::new_primitive(Primitive::Equal));
    values.insert("let".to_owned(), ProcedureData::new_primitive(Primitive::Let));
    values.insert("let*".to_owned(), ProcedureData::new_primitive(Primitive::LetStar));
    values.insert("letrec".to_owned(), ProcedureData::new_primitive(Primitive::LetRec));
    values.insert("cond".to_owned(), ProcedureData::new_primitive(Primitive::Cond));
    values.insert("case".to_owned(), ProcedureData::new_primitive(Primitive::Case));
    values.insert("apply".to_owned(), ProcedureData::new_primitive(Primitive::Apply));
    values
}

/// Anything other than `#f` is treated as true.
pub fn to_bool(x: &Expr) -> (b: bool)
    ensures
        b == truthy(x@),
{
    match x {
        Expr::Atom(Token::Boolean(x)) => *x,
        _ => true,
    }
}

/// Bind `name` to `v` in the scope `env` itself, and return `v`.
fn bind(store: &mut Store, env: EnvRef, name: String, v: Expr) -> (r: SResult<Expr>)
    ensures
        outcome_of(final(store)@, r) == bind_in(old(store)@, env, name@, v@),
{
    if store.insert(env, name.clone(), v.clone()) {
        Ok(v)
    } else {
        Err(SErr::UnboundVariable(name))
    }
}

/// `(if c a b)`: evaluate `c`, then exactly one of `a` and `b`.
pub fn do_if(args: Args, store: &mut Store, depth: usize) -> (r: SResult<Expr>)
    ensures
        outcome_of(final(store)@, r) == if_spec(old(store)@, args@, depth as nat),
    decreases depth, 3nat, args, 0nat,
{
    let n = args.len();
    if n != 2 && n != 3 {
        return Err(SErr::WrongArgCount(3, n));
    }
    assert(args@.items[0] == args.vec[0]@);
    assert(args@.items[1] == args.vec[1]@);
    let condition = match eval(&args.vec[0], args.env, store, depth) {
        Ok(c) => c,
        Err(e) => {
            return Err(e);
        },
    };
    if to_bool(&condition) {
        eval(&args.vec[1], args.env, store, depth)
    } else if n == 3 {
        assert(args@.items[2] == args.vec[2]@);
        eval(&args.vec[2], args.env, store, depth)
    } else {
        Ok(Expr::Unspecified)
    }
}

/// `(define name expr)` and `(define (name . params) body ...)`.
pub fn do_define(args: Args, store: &mut Store, depth: usize) -> (r: SResult<Expr>)
    ensures
        outcome_of(final(store)@, r) == define_spec(old(store)@, args@, depth as nat),
    decreases depth, 3nat, args, 0nat,
{
    let n = args.len();
    if n == 0 {
        return Err(SErr::WrongArgCount(2, 0));
    }
    assert(args@.items[0] == args.vec[0]@);
    match &args.vec[0] {
        Expr::Atom(Token::Symbol(name)) => {
            if n != 2 {
                return Err(SErr::WrongArgCount(2, n));
            }
            assert(args@.items[1] == args.vec[1]@);
            match eval(&args.vec[1], args.env, store, depth) {
                Ok(v) => bind(store, args.env, name.clone(), v),
                Err(e) => Err(e),
            }
        },
        Expr::List(sig) => {
            if sig.len() == 0 {
                return Err(SErr::TypeMismatch(Kind::Symbol, args.vec[0].clone()));
            }
            assert(views(sig@)[0] == sig[0]@);
            match &sig[0] {
                Expr::Atom(Token::Symbol(name)) => {
                    let params = Expr::List(clone_from(sig, 1));
                    let body = clone_from(&args.vec, 1);
                    match ProcedureData::new_compound(params, body, &args.env) {
                        Ok(p) => bind(store, args.env, name.clone(), p),
                        Err(e) => Err(e),
                    }
                },
                _ => Err(SErr::TypeMismatch(Kind::Symbol, args.vec[0].clone())),
            }
        },
        Expr::DottedList(sig, rest) => {
            if sig.len() == 0 {
                return Err(SErr::TypeMismatch(Kind::Symbol, args.vec[0].clone()));
            }
            assert(views(sig@)[0] == sig[0]@);
            match &sig[0] {
                Expr::Atom(Token::Symbol(name)) => {
                    let params = Expr::dottedlist(clone_from(sig, 1), (**rest).clone());
                    let body = clone_from(&args.vec, 1);
                    match ProcedureData::new_compound(params, body, &args.env) {
                        Ok(p) => bind(store, args.env, name.clone(), p),
                        Err(e) => Err(e),
                    }
                },
                _ => Err(SErr::TypeMismatch(Kind::Symbol, args.vec[0].clone())),
            }
        },
        x => Err(SErr::TypeMismatch(Kind::Symbol, x.clone())),
    }
}

/// `(set! name expr)`: overwrite `name` where it is bound.
pub fn do_set(args: Args, store: &mut Store, depth: usize) -> (r: SResult<Expr>)
    ensures
        outcome_of(final(store)@, r) == assign_spec(old(store)@, args@, depth as nat),
    decreases depth, 3nat, args, 0nat,
{
    let n = args.len();
    if n != 2 {
        return Err(SErr::WrongArgCount(2, n));
    }
    assert(args@.items[0] == args.vec[0]@);
    assert(args@.items[1] == args.vec[1]@);
    match &args.vec[0] {
        Expr::Atom(Token::Symbol(name)) => {
            match eval(&args.vec[1], args.env, store, depth) {
                Ok(v) => {
                    match store.set(args.env, name.as_str(), v) {
                        Ok(()) => Ok(Expr::Unspecified),
                        Err(e) => Err(e),
                    }
                },
                Err(e) => Err(e),
            }
        },
        x => Err(SErr::TypeMismatch(Kind::Symbol, x.clone())),
    }
}

/// `(lambda params body ...)`: a closure over the scope of the call.
pub fn do_lambda(args: Args) -> (r: SResult<Expr>)
    ensures
        result_view(r) == lambda_value(args@),
{
    if args.len() == 0 {
        return Err(SErr::WrongArgCount(2, 0));
    }
    assert(args@.items[0] == args.vec[0]@);
    let params_expr = args.vec[0].clone();
    let body = clone_from(&args.vec, 1);
    ProcedureData::new_compound(params_expr, body, &args.env)
}

/// `(quote x)`: `x`, as written.
pub fn do_quote(args: Args) -> (r: SResult<Expr>)
    ensures
        result_view(r) == quote_value(args@),
{
    if args.len() != 1 {
        return Err(SErr::WrongArgCount(1, args.len()));
    }
    assert(args@.items[0] == args.vec[0]@);
    Ok(args.vec[0].clone())
}

/// `(and e ...)`: the first false value, else the last value, else `#t`.
pub fn do_and(args: Args, store: &mut Store, depth: usize) -> (r: SResult<Expr>)
    ensures
        outcome_of(final(store)@, r) == and_from(
            old(store)@,
            args@.items,
            0,
            boolean(true),
            args@.env,
            depth as nat,
        ),
    decreases depth, 1nat, args, 0nat,
{
    let mut last = Expr::boolean(true);
    let mut i: usize = 0;
    while i < args.vec.len()
        invariant
            i <= args.vec.len(),
            and_from(store@, args@.items, i as int, last@, args.env, depth as nat) == and_from(
                old(store)@,
                args@.items,
                0,
                boolean(true),
                args.env,
                depth as nat,
            ),
        decreases args.vec.len() - i,
    {
        assert(args@.items[i as int] == args.vec[i as int]@);
        match eval(&args.vec[i], args.env, store, depth) {
            Ok(v) => {
                if !to_bool(&v) {
                    return Ok(v);
                }
                last = v;
            },
            Err(e) => {
                return Err(e);
            },
        }
        i += 1;
    }
    Ok(last)
}

/// `(or e ...)`: the first true value, else the last value, else `#f`.
pub fn do_or(args: Args, store: &mut Store, depth: usize) -> (r: SResult<Expr>)
    ensures
        outcome_of(final(store)@, r) == or_from(
            old(store)@,
            args@.items,
            0,
            boolean(false),
            args@.env,
            depth as nat,
        ),
    decreases depth, 1nat, args, 0nat,
{
    let mut last = Expr::boolean(false);
    let mut i: usize = 0;
    while i < args.vec.len()
        invariant
            i <= args.vec.len(),
            or_from(store@, args@.items, i as int, last@, args.env, depth as nat) == or_from(
                old(store)@,
                args@.items,
                0,
                boolean(false),
                args.env,
                depth as nat,
            ),
        decreases args.vec.len() - i,
    {
        assert(args@.items[i as int] == args.vec[i as int]@);
        match eval(&args.vec[i], args.env, store, depth) {
            Ok(v) => {
                if to_bool(&v) {
                    return Ok(v);
                }
                last = v;
            },
            Err(e) => {
                return Err(e);
            },
        }
        i += 1;
    }
    Ok(last)
}

/// `+`, `-`, `*` and `/`, on exact numbers.
pub fn do_arithmetic(op: Primitive, args: Args, store: &mut Store, depth: usize) -> (r: SResult<
    Expr,
>)
    requires
        numeric::is_arithmetic(op),
    ensures
        outcome_of(final(store)@, r) == eager_spec(old(store)@, op, args@, depth as nat),
    decreases depth, 3nat, args, 0nat,
{
    match args.eval(store, depth) {
        Ok(vals) => numeric::calc(op, &vals),
        Err(e) => Err(e),
    }
}

/// `<`, `>`, `<=`, `>=` and `=`, on two atoms that can be compared.
pub fn do_compare(op: Primitive, args: Args, store: &mut Store, depth: usize) -> (r: SResult<Expr>)
    requires
        ordering::is_comparison(op),
    ensures
        outcome_of(final(store)@, r) == eager_spec(old(store)@, op, args@, depth as nat),
    decreases depth, 3nat, args, 0nat,
{
    match args.eval(store, depth) {
        Ok(vals) => ordering::compare(op, &vals),
        Err(e) => Err(e),
    }
}

/// Whether exactly two elements stand from index `i` on, the first of them
/// the symbol `name`.
fn is_tagged_at(items: &Vec<Expr>, i: usize, name: &str) -> (b: bool)
    requires
        i < items.len(),
    ensures
        b == tagged_at(views(items@), i as int, name@),
{
    assert(views(items@)[i as int] == items[i as int]@);
    if items.len() - i == 2 {
        match &items[i] {
            Expr::Atom(Token::Symbol(s)) => *s == name.to_owned(),
            _ => false,
        }
    } else {
        false
    }
}

/// The list of `acc`, the element `head` and the value `v`.
fn closed(acc: Vec<Expr>, head: Expr, v: Expr) -> (r: Expr)
    ensures
        r@ == SpecExpr::List(views(acc@).push(head@).push(v@)),
{
    let ghost before = views(acc@);
    let mut acc = acc;
    acc.push(head);
    acc.push(v);
    assert(views(acc@) =~= before.push(head@).push(v@));
    Expr::List(acc)
}

/// The value of a template at nesting level `level`: the template as
/// written, but for what is unquoted at level 1.
pub fn quasi_eval(e: &Expr, level: usize, env: EnvRef, store: &mut Store, depth: usize) -> (r:
    SResult<Expr>)
    ensures
        outcome_of(final(store)@, r) == quasi(old(store)@, e@, level as nat, env, depth as nat),
    decreases depth, 1nat, e, 0nat,
{
    match e {
        Expr::List(items) => quasi_proper(items, level, env, store, depth),
        Expr::DottedList(items, rest) => {
            match quasi_items(items, level, env, store, depth) {
                Ok(vs) => {
                    match quasi_eval(&**rest, level, env, store, depth) {
                        Ok(t) => Ok(Expr::dottedlist(vs, t)),
                        Err(err) => Err(err),
                    }
                },
                Err(err) => Err(err),
            }
        },
        _ => Ok(e.clone()),
    }
}

/// The value of a proper list as a template.
pub fn quasi_proper(
    items: &Vec<Expr>,
    level: usize,
    env: EnvRef,
    store: &mut Store,
    depth: usize,
) -> (r: SResult<Expr>)
    ensures
        outcome_of(final(store)@, r) == quasi_tail(
            old(store)@,
            views(items@),
            0,
            Seq::empty(),
            level as nat,
            env,
            depth as nat,
        ),
    decreases depth, 1nat, items, 0nat,
{
    let mut out: Vec<Expr> = Vec::new();
    let mut i: usize = 0;
    assert(views(out@) =~= Seq::<SpecExpr>::empty());
    while i < items.len()
        invariant
            i <= items.len(),
            quasi_tail(
                store@,
                views(items@),
                i as int,
                views(out@),
                level as nat,
                env,
                depth as nat,
            ) == quasi_tail(
                old(store)@,
                views(items@),
                0,
                Seq::empty(),
                level as nat,
                env,
                depth as nat,
            ),
        decreases items.len() - i,
    {
        assert(views(items@)[i as int] == items[i as int]@);
        if is_tagged_at(items, i, "unquote") {
            assert(views(items@)[i + 1] == items[i + 1]@);
            if level <= 1 {
                return match eval(&items[i + 1], env, store, depth) {
                    Ok(v) => Ok(Expr::dottedlist(out, v)),
                    Err(err) => Err(err),
                };
            } else {
                return match quasi_eval(&items[i + 1], level - 1, env, store, depth) {
                    Ok(v) => Ok(closed(out, items[i].clone(), v)),
                    Err(err) => Err(err),
                };
            }
        } else if is_tagged_at(items, i, "unquote-splicing") {
            assert(views(items@)[i + 1] == items[i + 1]@);
            if level <= 1 {
                let form = crate::primitives::list::clone_between(items, i, i + 2);
                return Err(SErr::UnexpectedForm(Expr::List(form)));
            } else {
                return match quasi_eval(&items[i + 1], level - 1, env, store, depth) {
                    Ok(v) => Ok(closed(out, items[i].clone(), v)),
                    Err(err) => Err(err),
                };
            }
        } else if is_tagged_at(items, i, "quasiquote") {
            assert(views(items@)[i + 1] == items[i + 1]@);
            if level == usize::MAX {
                return Err(SErr::DepthExceeded);
            } else {
                return match quasi_eval(&items[i + 1], level + 1, env, store, depth) {
                    Ok(v) => Ok(closed(out, items[i].clone(), v)),
                    Err(err) => Err(err),
                };
            }
        } else {
            match quasi_one(&items[i], out, level, env, store, depth) {
                Ok(next) => {
                    out = next;
                },
                Err(err) => {
                    return Err(err);
                },
            }
        }
        i += 1;
    }
    Ok(Expr::List(out))
}

/// The values `acc` followed by what one element of a template gives.
pub fn quasi_one(
    item: &Expr,
    acc: Vec<Expr>,
    level: usize,
    env: EnvRef,
    store: &mut Store,
    depth: usize,
) -> (r: SResult<Vec<Expr>>)
    ensures
        outcome_list_of(final(store)@, r) == quasi_item(
            old(store)@,
            item@,
            views(acc@),
            level as nat,
            env,
            depth as nat,
        ),
    decreases depth, 1nat, item, 1nat,
{
    let mut acc = acc;
    if level <= 1 && item.is_tagged("unquote-splicing") {
        match item {
            Expr::List(inner) => {
                assert(views(inner@)[1] == inner[1]@);
                match eval(&inner[1], env, store, depth) {
                    Ok(Expr::List(vs)) => {
                        let mut vs = vs;
                        assert(views(acc@ + vs@) =~= views(acc@) + views(vs@));
                        acc.append(&mut vs);
                        Ok(acc)
                    },
                    Ok(v) => Err(SErr::TypeMismatch(Kind::List, v)),
                    Err(err) => Err(err),
                }
            },
            _ => Ok(acc),
        }
    } else {
        match quasi_eval(item, level, env, store, depth) {
            Ok(v) => {
                assert(views(acc@.push(v)) =~= views(acc@).push(v@));
                acc.push(v);
                Ok(acc)
            },
            Err(err) => Err(err),
        }
    }
}

/// The values of the heads of an improper list as a template.
pub fn quasi_items(
    items: &Vec<Expr>,
    level: usize,
    env: EnvRef,
    store: &mut Store,
    depth: usize,
) -> (r: SResult<Vec<Expr>>)
    ensures
        outcome_list_of(final(store)@, r) == quasi_list(
            old(store)@,
            views(items@),
            0,
            Seq::empty(),
            level as nat,
            env,
            depth as nat,
        ),
    decreases depth, 1nat, items, 0nat,
{
    let mut out: Vec<Expr> = Vec::new();
    let mut i: usize = 0;
    assert(views(out@) =~= Seq::<SpecExpr>::empty());
    while i < items.len()
        invariant
            i <= items.len(),
            quasi_list(
                store@,
                views(items@),
                i as int,
                views(out@),
                level as nat,
                env,
                depth as nat,
            ) == quasi_list(
                old(store)@,
                views(items@),
                0,
                Seq::empty(),
                level as nat,
                env,
                depth as nat,
            ),
        decreases items.len() - i,
    {
        assert(views(items@)[i as int] == items[i as int]@);
        match quasi_one(&items[i], out, level, env, store, depth) {
            Ok(next) => {
                out = next;
            },
            Err(err) => {
                return Err(err);
            },
        }
        i += 1;
    }
    Ok(out)
}

/// `(quasiquote x)`: the template `x`, one level deeper than the call.
pub fn do_quasiquote(args: Args, store: &mut Store, depth: usize) -> (r: SResult<Expr>)
    ensures
        outcome_of(final(store)@, r) == quasiquote_spec(old(store)@, args@, depth as nat),
    decreases depth, 3nat, args, 0nat,
{
    if args.len() != 1 {
        return Err(SErr::WrongArgCount(1, args.len()));
    }
    let level: usize = match args.extra {
        Extra::QQLevel(n) => n,
        Extra::Nothing => 0,
    };
    if level == usize::MAX {
        return Err(SErr::DepthExceeded);
    }
    assert(args@.items[0] == args.vec[0]@);
    quasi_eval(&args.vec[0], level + 1, args.env, store, depth)
}

/// `(unquote x)`: an error outside `quasiquote`; inside, the value of `x`
/// at level 1 and the form itself, one level down, at a deeper level.
pub fn do_unquote(args: Args, store: &mut Store, depth: usize) -> (r: SResult<Expr>)
    ensures
        outcome_of(final(store)@, r) == unquote_spec(old(store)@, args@, depth as nat),
    decreases depth, 3nat, args, 0nat,
{
    let level: usize = match args.extra {
        Extra::QQLevel(n) => n,
        Extra::Nothing => 0,
    };
    if level == 0 {
        let mut whole: Vec<Expr> = Vec::new();
        whole.push(Expr::symbol("unquote"));
        let mut rest = clone_from(&args.vec, 0);
        assert(views(rest@) =~= args@.items);
        assert(views(whole@) =~= seq![crate::semantics::symbol("unquote"@)]);
        assert(views(whole@ + rest@) =~= views(whole@) + views(rest@));
        whole.append(&mut rest);
        return Err(SErr::UnexpectedForm(Expr::List(whole)));
    }
    if args.len() != 1 {
        return Err(SErr::WrongArgCount(1, args.len()));
    }
    assert(args@.items[0] == args.vec[0]@);
    if level == 1 {
        eval(&args.vec[0], args.env, store, depth)
    } else {
        let none: Vec<Expr> = Vec::new();
        assert(views(none@) =~= Seq::<SpecExpr>::empty());
        match quasi_eval(&args.vec[0], level - 1, args.env, store, depth) {
            Ok(v) => Ok(closed(none, Expr::symbol("unquote"), v)),
            Err(e) => Err(e),
        }
    }
}

} // verus!
