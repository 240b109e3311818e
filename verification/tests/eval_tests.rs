use scheme_core::env::{Env, EnvRef, Store};
use scheme_core::evaluator::{call_procedure, eval, eval_body, Args, Extra, ToArgs};
use scheme_core::lexer::{tokenize, Token};
use scheme_core::number::{Decimal, Fraction};
use scheme_core::parser::{parse, Expr};
use scheme_core::primitives;
use scheme_core::procedure::{CompoundData, Param, Primitive, PrimitiveData, ProcedureData};
use scheme_core::serr::{Kind, SErr, SResult};

const DEPTH: usize = 200;

fn global(store: &mut Store) -> EnvRef {
    Env::with_values(Env::null(), primitives::env()).to_ref(store)
}

fn read(text: &str) -> Vec<Expr> {
    parse(tokenize(text).expect("lexes")).expect("parses")
}

fn run(text: &str, env: EnvRef, store: &mut Store) -> Vec<SResult<Expr>> {
    read(text).iter().map(|e| eval(e, env, store, DEPTH)).collect()
}

/// The value of the last expression of `text`, in a fresh global scope.
fn value(text: &str) -> SResult<Expr> {
    let mut store = Store::new();
    let env = global(&mut store);
    run(text, env, &mut store).pop().expect("one expression at least")
}

fn num(i: i64) -> Expr {
    Expr::Atom(Token::Integer(i))
}

fn sym(s: &str) -> Expr {
    Expr::Atom(Token::Symbol(s.to_string()))
}

fn boolean(b: bool) -> Expr {
    Expr::Atom(Token::Boolean(b))
}

fn list(items: Vec<Expr>) -> Expr {
    Expr::List(items)
}

#[test]
fn define_then_use() {
    let mut store = Store::new();
    let env = global(&mut store);
    let results = run("(define x 5) (+ x 1)", env, &mut store);
    assert_eq!(results, vec![Ok(num(5)), Ok(num(6))]);
    assert_eq!(store.get(env, "x"), Ok(num(5)));
}

#[test]
fn rest_parameter_collects_the_tail() {
    assert_eq!(value("((lambda (a . b) b) 1 2 3)"), Ok(list(vec![num(2), num(3)])));
}

#[test]
fn car_of_empty_list_is_an_error_value() {
    let mut store = Store::new();
    let env = global(&mut store);
    let results = run("(car '()) (+ 1 1)", env, &mut store);
    assert_eq!(results[0], Err(SErr::UnexpectedForm(list(vec![]))));
    assert_eq!(results[1], Ok(num(2)));
}

#[test]
fn quote_returns_its_argument_unevaluated() {
    assert_eq!(
        value("(define a 1) (define b 2) (quote (a b))"),
        Ok(list(vec![sym("a"), sym("b")]))
    );
    assert_eq!(value("'(+ 1 2)"), Ok(list(vec![sym("+"), num(1), num(2)])));
    assert_eq!(value("(quote)"), Err(SErr::WrongArgCount(1, 0)));
    assert_eq!(value("(quote a b)"), Err(SErr::WrongArgCount(1, 2)));
}

#[test]
fn atoms_evaluate_to_themselves() {
    assert_eq!(value("42"), Ok(num(42)));
    assert_eq!(value("\"text\""), Ok(Expr::Atom(Token::Str("text".to_string()))));
    assert_eq!(value("#\\a"), Ok(Expr::Atom(Token::Chr('a'))));
    assert_eq!(value("#f"), Ok(boolean(false)));
    assert_eq!(value("2.5"), Ok(Expr::Atom(Token::Float(Decimal { m: 25, e: -1 }))));
    let mut store = Store::new();
    let env = global(&mut store);
    assert_eq!(eval(&Expr::Unspecified, env, &mut store, DEPTH), Ok(Expr::Unspecified));
    let car = ProcedureData::new_primitive(Primitive::Car);
    assert_eq!(eval(&car, env, &mut store, DEPTH), Ok(car.clone()));
}

#[test]
fn an_unbound_symbol_is_an_error() {
    assert_eq!(value("nowhere"), Err(SErr::UnboundVariable("nowhere".to_string())));
    assert_eq!(value("(nowhere 1)"), Err(SErr::UnboundVariable("nowhere".to_string())));
}

#[test]
fn the_empty_list_is_no_call() {
    assert_eq!(value("()"), Err(SErr::UnexpectedForm(list(vec![]))));
}

#[test]
fn an_improper_list_is_no_call() {
    let e = Expr::DottedList(vec![sym("car")], Box::new(num(1)));
    let mut store = Store::new();
    let env = global(&mut store);
    assert_eq!(eval(&e, env, &mut store, DEPTH), Err(SErr::UnexpectedForm(e.clone())));
}

#[test]
fn what_is_no_procedure_cannot_be_called() {
    assert_eq!(value("(1 2)"), Err(SErr::NotApplicable(num(1))));
    assert_eq!(value("(define x 5) (x 1)"), Err(SErr::NotApplicable(num(5))));
    assert_eq!(value("((quote car) '(1))"), Err(SErr::NotApplicable(sym("car"))));
}

#[test]
fn an_operator_that_is_an_expression_is_evaluated() {
    assert_eq!(value("((if #t car cdr) '(1 2))"), Ok(num(1)));
    assert_eq!(value("((lambda (x) (* x x)) 7)"), Ok(num(49)));
}

#[test]
fn depth_zero_evaluates_nothing() {
    let mut store = Store::new();
    let env = global(&mut store);
    assert_eq!(eval(&num(1), env, &mut store, 0), Err(SErr::DepthExceeded));
}

#[test]
fn endless_recursion_ends_as_an_error() {
    let mut store = Store::new();
    let env = global(&mut store);
    let results = run("(define (loop n) (loop (+ n 1))) (loop 0) (+ 1 2)", env, &mut store);
    assert_eq!(results[1], Err(SErr::DepthExceeded));
    assert_eq!(results[2], Ok(num(3)));
}

#[test]
fn recursion_within_the_depth_works() {
    assert_eq!(
        value("(define (fact n) (if (< n 2) 1 (* n (fact (- n 1))))) (fact 10)"),
        Ok(num(3628800))
    );
}

#[test]
fn a_lazy_value_is_forced_when_read() {
    let mut store = Store::new();
    let env = global(&mut store);
    let thunk = Expr::Lazy(Box::new(read("(+ 1 2)").remove(0)), env);
    assert_eq!(eval(&thunk, env, &mut store, DEPTH), Ok(num(3)));
    store.insert(env, "later".to_string(), thunk);
    assert_eq!(run("later", env, &mut store), vec![Ok(num(3))]);
    // it is not memoized: the binding still holds the thunk
    assert!(matches!(store.get(env, "later"), Ok(Expr::Lazy(_, _))));
}

#[test]
fn a_lazy_procedure_can_be_called_by_name() {
    let mut store = Store::new();
    let env = global(&mut store);
    let thunk = Expr::Lazy(Box::new(read("(lambda (x) (+ x 1))").remove(0)), env);
    store.insert(env, "inc".to_string(), thunk);
    assert_eq!(run("(inc 4)", env, &mut store), vec![Ok(num(5))]);
}

#[test]
fn a_lazy_value_is_evaluated_in_its_own_scope() {
    let mut store = Store::new();
    let env = global(&mut store);
    let mut other = Env::new(env);
    other.insert("x".to_string(), num(9));
    let other = other.to_ref(&mut store);
    store.insert(env, "x".to_string(), num(1));
    store.insert(env, "later".to_string(), Expr::Lazy(Box::new(sym("x")), other));
    assert_eq!(run("later", env, &mut store), vec![Ok(num(9))]);
}

#[test]
fn if_takes_one_branch_only() {
    assert_eq!(value("(if #t 1 2)"), Ok(num(1)));
    assert_eq!(value("(if #f 1 2)"), Ok(num(2)));
    assert_eq!(value("(if #f 1)"), Ok(Expr::Unspecified));
    assert_eq!(value("(if #t 1 (car '()))"), Ok(num(1)));
    assert_eq!(value("(if #f (car '()) 2)"), Ok(num(2)));
    assert_eq!(value("(if #t)"), Err(SErr::WrongArgCount(3, 1)));
    assert_eq!(value("(if 1 2 3 4)"), Err(SErr::WrongArgCount(3, 4)));
}

#[test]
fn everything_but_false_is_true() {
    assert_eq!(value("(if 0 'yes 'no)"), Ok(sym("yes")));
    assert_eq!(value("(if '() 'yes 'no)"), Ok(sym("yes")));
    assert_eq!(value("(if \"\" 'yes 'no)"), Ok(sym("yes")));
    assert_eq!(value("(if (not #t) 'yes 'no)"), Ok(sym("no")));
}

#[test]
fn define_returns_the_bound_value() {
    assert_eq!(value("(define x (+ 1 2))"), Ok(num(3)));
    assert_eq!(value("(define x)"), Err(SErr::WrongArgCount(2, 1)));
    assert_eq!(value("(define)"), Err(SErr::WrongArgCount(2, 0)));
    assert_eq!(value("(define 1 2)"), Err(SErr::TypeMismatch(Kind::Symbol, num(1))));
}

#[test]
fn define_with_a_signature_makes_a_procedure() {
    assert_eq!(value("(define (inc x) (+ x 1)) (inc 4)"), Ok(num(5)));
    assert_eq!(value("(define (all . xs) xs) (all 1 2)"), Ok(list(vec![num(1), num(2)])));
    assert_eq!(
        value("(define (tail x . xs) xs) (tail 1 2 3)"),
        Ok(list(vec![num(2), num(3)]))
    );
    assert_eq!(
        value("(define (f x) (define y 2) (+ x y)) (f 1)"),
        Ok(num(3))
    );
}

#[test]
fn define_binds_in_the_current_scope_only() {
    let mut store = Store::new();
    let env = global(&mut store);
    let results = run(
        "(define x 1) (define (f) (define x 2) x) (f) x",
        env,
        &mut store,
    );
    assert_eq!(results[2], Ok(num(2)));
    assert_eq!(results[3], Ok(num(1)));
}

#[test]
fn set_changes_an_existing_binding() {
    assert_eq!(value("(define x 1) (set! x 2) x"), Ok(num(2)));
    assert_eq!(value("(set! y 2)"), Err(SErr::UnboundVariable("y".to_string())));
    assert_eq!(value("(define x 1) (set! x)"), Err(SErr::WrongArgCount(2, 1)));
    assert_eq!(value("(set! 1 2)"), Err(SErr::TypeMismatch(Kind::Symbol, num(1))));
}

#[test]
fn closures_resolve_free_variables_where_they_were_defined() {
    let text = "
        (define x 1)
        (define (get-x) x)
        (define (call-with-other-x f) ((lambda (x) (f)) 99))
        (call-with-other-x get-x)";
    assert_eq!(value(text), Ok(num(1)));
}

#[test]
fn closures_capture_the_scope_of_their_lambda() {
    let text = "
        (define (make-adder n) (lambda (x) (+ x n)))
        (define add2 (make-adder 2))
        (define add5 (make-adder 5))
        (list (add2 10) (add5 10))";
    assert_eq!(value(text), Ok(list(vec![num(12), num(15)])));
}

#[test]
fn closures_observe_later_mutation() {
    let text = "
        (define counter 0)
        (define (read-counter) counter)
        (set! counter 41)
        (read-counter)";
    assert_eq!(value(text), Ok(num(41)));
    let text = "
        (define (make-counter)
          (define n 0)
          (lambda () (set! n (+ n 1)) n))
        (define c (make-counter))
        (c) (c)
        (c)";
    assert_eq!(value(text), Ok(num(3)));
}

#[test]
fn fixed_arity_is_exact() {
    assert_eq!(value("((lambda (a b) a) 1)"), Err(SErr::WrongArgCount(2, 1)));
    assert_eq!(value("((lambda (a b) a) 1 2 3)"), Err(SErr::WrongArgCount(2, 3)));
    assert_eq!(value("((lambda (a b) b) 1 2)"), Ok(num(2)));
    assert_eq!(value("((lambda () 7))"), Ok(num(7)));
}

#[test]
fn arity_is_checked_before_arguments_are_evaluated() {
    assert_eq!(
        value("((lambda (a b) a) (car '()))"),
        Err(SErr::WrongArgCount(2, 1))
    );
}

#[test]
fn rest_arity_is_a_minimum() {
    assert_eq!(value("((lambda (a . rest) rest))"), Err(SErr::WrongArgCount(1, 0)));
    assert_eq!(value("((lambda (a . rest) rest) 1)"), Ok(list(vec![])));
    assert_eq!(value("((lambda (a . rest) a) 1 2)"), Ok(num(1)));
}

#[test]
fn a_single_parameter_takes_all_arguments() {
    assert_eq!(value("((lambda all all))"), Ok(list(vec![])));
    assert_eq!(value("((lambda all all) 1 (+ 1 1))"), Ok(list(vec![num(1), num(2)])));
}

#[test]
fn the_value_of_a_body_is_its_last_expression() {
    assert_eq!(value("((lambda () 1 2 3))"), Ok(num(3)));
    assert_eq!(
        value("(define x 0) ((lambda () (set! x 5) 'done)) x"),
        Ok(num(5))
    );
}

#[test]
fn a_failing_argument_ends_the_call() {
    assert_eq!(
        value("(define x 0) ((lambda (a b) a) (car '()) (set! x 1))"),
        Err(SErr::UnexpectedForm(list(vec![])))
    );
    assert_eq!(
        value("(define x 0) (list (car '()) (set! x 1)) x"),
        Ok(num(0))
    );
}

#[test]
fn lambda_checks_its_parameters() {
    assert_eq!(
        value("(lambda (a 1) a)"),
        Err(SErr::TypeMismatch(Kind::Symbol, num(1)))
    );
    assert_eq!(
        value("(lambda 5 5)"),
        Err(SErr::TypeMismatch(Kind::ParameterList, num(5)))
    );
    assert_eq!(
        value("(lambda (a . 2) a)"),
        Err(SErr::TypeMismatch(Kind::Symbol, num(2)))
    );
    assert_eq!(value("(lambda)"), Err(SErr::WrongArgCount(2, 0)));
}

#[test]
fn a_procedure_without_a_body_cannot_be_made() {
    assert_eq!(value("(lambda (x))"), Err(SErr::UnexpectedForm(list(vec![]))));
    let env = EnvRef::Null;
    assert_eq!(
        ProcedureData::new_compound(sym("args"), vec![], &env),
        Err(SErr::UnexpectedForm(list(vec![])))
    );
}

#[test]
fn new_compound_reads_the_three_parameter_shapes() {
    let env = EnvRef::Scope(0);
    let body = vec![sym("x")];
    assert_eq!(
        ProcedureData::new_compound(sym("args"), body.clone(), &env),
        Ok(Expr::Procedure(ProcedureData::Compound(CompoundData {
            params: Param::Single("args".to_string()),
            body: body.clone(),
            env,
        })))
    );
    assert_eq!(
        ProcedureData::new_compound(list(vec![sym("a"), sym("b")]), body.clone(), &env),
        Ok(Expr::Procedure(ProcedureData::Compound(CompoundData {
            params: Param::Fixed(vec!["a".to_string(), "b".to_string()]),
            body: body.clone(),
            env,
        })))
    );
    assert_eq!(
        ProcedureData::new_compound(
            Expr::DottedList(vec![sym("a")], Box::new(sym("rest"))),
            body.clone(),
            &env
        ),
        Ok(Expr::Procedure(ProcedureData::Compound(CompoundData {
            params: Param::Multi(vec!["a".to_string()], "rest".to_string()),
            body: body.clone(),
            env,
        })))
    );
}

#[test]
fn apply_dispatches_on_the_kind_of_procedure() {
    let mut store = Store::new();
    let env = global(&mut store);
    let primitive = ProcedureData::Primitive(PrimitiveData { fun: Primitive::Car });
    let args = read("'(1 2)").to_args(&env);
    assert_eq!(primitive.apply(args, &mut store, DEPTH), Ok(num(1)));
    let compound = CompoundData {
        params: Param::Fixed(vec!["x".to_string()]),
        body: read("(+ x x)"),
        env,
    };
    let args = Args::new(vec![num(4)], &env);
    assert_eq!(compound.apply(args, &mut store, DEPTH), Ok(num(8)));
    let args = Args::new(vec![num(5)], &env);
    assert_eq!(
        ProcedureData::Compound(compound).apply(args, &mut store, DEPTH),
        Ok(num(10))
    );
}

#[test]
fn a_call_makes_a_fresh_scope_under_the_captured_one() {
    let mut store = Store::new();
    let env = global(&mut store);
    run("(define (f x) x) (f 1) (f 2)", env, &mut store);
    assert_eq!(store.len(), 3);
    assert_eq!(store.scopes[1].parent, env);
    assert_eq!(store.scopes[2].parent, env);
    assert_eq!(store.scopes[2].values.get("x"), Some(num(2)));
}

#[test]
fn call_procedure_looks_the_name_up() {
    let mut store = Store::new();
    let env = global(&mut store);
    let args = Args::new(read("1 2 3"), &env);
    assert_eq!(call_procedure("+", args, &mut store, DEPTH), Ok(num(6)));
    let args = Args::new(vec![], &env);
    assert_eq!(
        call_procedure("missing", args, &mut store, DEPTH),
        Err(SErr::UnboundVariable("missing".to_string()))
    );
}

#[test]
fn eval_body_returns_the_last_value() {
    let mut store = Store::new();
    let env = global(&mut store);
    assert_eq!(eval_body(&read("1 2 (+ 1 2)"), env, &mut store, DEPTH), Ok(num(3)));
    assert_eq!(eval_body(&vec![], env, &mut store, DEPTH), Ok(Expr::Unspecified));
    assert_eq!(
        eval_body(&read("1 (car '()) 3"), env, &mut store, DEPTH),
        Err(SErr::UnexpectedForm(list(vec![])))
    );
}

#[test]
fn args_accessors() {
    let env = EnvRef::Scope(0);
    let args = Args::new(vec![num(1), num(2)], &env);
    assert_eq!(args.len(), 2);
    assert_eq!(args.env(), env);
    assert_eq!(args.extra, Extra::Nothing);
    assert_eq!(args.get(0), Some(&num(1)));
    assert_eq!(args.get(2), None);
    assert_eq!(args.all(), &vec![num(1), num(2)]);
    assert_eq!(args.into_all(), vec![num(1), num(2)]);
    let args = Args::new_with_extra(vec![num(1), num(2)], Extra::QQLevel(2), &env);
    assert_eq!(args.extra, Extra::QQLevel(2));
    assert_eq!(args.into_split(), Some((num(1), vec![num(2)])));
    assert_eq!(Args::new(vec![], &env).into_split(), None);
}

#[test]
fn args_map_keeps_the_order() {
    let env = EnvRef::Null;
    let args = Args::new(vec![num(1), num(2), num(3)], &env);
    let mapped = args.map(|e| Expr::List(vec![e]));
    assert_eq!(
        mapped.into_all(),
        vec![list(vec![num(1)]), list(vec![num(2)]), list(vec![num(3)])]
    );
}

#[test]
fn args_eval_evaluates_in_order_and_stops_at_a_failure() {
    let mut store = Store::new();
    let env = global(&mut store);
    store.insert(env, "x".to_string(), num(0));
    let args = Args::new(read("(set! x 1) x (+ x 1)"), &env);
    assert_eq!(
        args.eval(&mut store, DEPTH),
        Ok(vec![Expr::Unspecified, num(1), num(2)])
    );
    let args = Args::new(read("(set! x 5) (car '()) (set! x 6)"), &env);
    assert_eq!(
        args.eval(&mut store, DEPTH),
        Err(SErr::UnexpectedForm(list(vec![])))
    );
    assert_eq!(store.get(env, "x"), Ok(num(5)));
}

#[test]
fn and_or_stop_early() {
    assert_eq!(value("(and)"), Ok(boolean(true)));
    assert_eq!(value("(and 1 2 3)"), Ok(num(3)));
    assert_eq!(value("(and 1 #f (car '()))"), Ok(boolean(false)));
    assert_eq!(value("(or)"), Ok(boolean(false)));
    assert_eq!(value("(or #f 2 (car '()))"), Ok(num(2)));
    assert_eq!(value("(or #f #f)"), Ok(boolean(false)));
    assert_eq!(value("(and 1 (car '()))"), Err(SErr::UnexpectedForm(list(vec![]))));
}

#[test]
fn quasiquote_leaves_the_template_and_fills_the_holes() {
    assert_eq!(value("`(a b)"), Ok(list(vec![sym("a"), sym("b")])));
    assert_eq!(
        value("(define x 5) `(a ,x ,(+ x 1))"),
        Ok(list(vec![sym("a"), num(5), num(6)]))
    );
    assert_eq!(value("`,(+ 1 2)"), Ok(num(3)));
    assert_eq!(
        value("`(,(+ 1 2) a . b)"),
        Ok(Expr::DottedList(vec![num(3), sym("a")], Box::new(sym("b"))))
    );
    assert_eq!(
        value("`(1 ,@(list 2 3) 4)"),
        Ok(list(vec![num(1), num(2), num(3), num(4)]))
    );
    assert_eq!(
        value("`(1 ,@5)"),
        Err(SErr::TypeMismatch(Kind::List, num(5)))
    );
}

#[test]
fn quasiquote_honours_an_unquote_in_tail_position() {
    assert_eq!(
        value("`(a . ,(+ 1 2))"),
        Ok(Expr::DottedList(vec![sym("a")], Box::new(num(3))))
    );
    assert_eq!(
        value("`(a b . ,(list 1 2))"),
        Ok(list(vec![sym("a"), sym("b"), num(1), num(2)]))
    );
    assert_eq!(
        value("`(,@(list 1 2) . ,(list 3))"),
        Ok(list(vec![num(1), num(2), num(3)]))
    );
    assert_eq!(
        value("`(a `(b . ,(c)))"),
        Ok(list(vec![
            sym("a"),
            list(vec![
                sym("quasiquote"),
                list(vec![sym("b"), sym("unquote"), list(vec![sym("c")])]),
            ]),
        ]))
    );
    assert_eq!(
        value("`(a . ,@(list 1))"),
        Err(SErr::UnexpectedForm(list(vec![
            sym("unquote-splicing"),
            list(vec![sym("list"), num(1)]),
        ])))
    );
}

#[test]
fn nested_quasiquote_needs_matching_unquotes() {
    assert_eq!(
        value("(define x 5) `(a `(b ,x))"),
        Ok(list(vec![
            sym("a"),
            list(vec![
                sym("quasiquote"),
                list(vec![sym("b"), list(vec![sym("unquote"), sym("x")])]),
            ]),
        ]))
    );
    assert_eq!(
        value("(define x 5) `(a `(b ,,x))"),
        Ok(list(vec![
            sym("a"),
            list(vec![
                sym("quasiquote"),
                list(vec![sym("b"), list(vec![sym("unquote"), num(5)])]),
            ]),
        ]))
    );
}

#[test]
fn unquote_outside_quasiquote_is_an_error() {
    assert_eq!(
        value("(define x 5) ,x"),
        Err(SErr::UnexpectedForm(list(vec![sym("unquote"), sym("x")])))
    );
    assert_eq!(
        value("`,@(list 1)"),
        Err(SErr::UnexpectedForm(list(vec![
            sym("unquote-splicing"),
            list(vec![sym("list"), num(1)]),
        ])))
    );
}

#[test]
fn the_extra_datum_carries_the_quasiquote_level() {
    let mut store = Store::new();
    let env = global(&mut store);
    store.insert(env, "x".to_string(), num(5));
    let unquote = PrimitiveData { fun: Primitive::Unquote };
    let at_level_one = Args::new_with_extra(vec![sym("x")], Extra::QQLevel(1), &env);
    assert_eq!(unquote.apply(at_level_one, &mut store, DEPTH), Ok(num(5)));
    let deeper = Args::new_with_extra(read(",x"), Extra::QQLevel(2), &env);
    assert_eq!(
        unquote.apply(deeper, &mut store, DEPTH),
        Ok(list(vec![sym("unquote"), num(5)]))
    );
    let quasiquote = PrimitiveData { fun: Primitive::Quasiquote };
    let nested = Args::new_with_extra(read(",,x"), Extra::QQLevel(1), &env);
    assert_eq!(
        quasiquote.apply(nested, &mut store, DEPTH),
        Ok(list(vec![sym("unquote"), num(5)]))
    );
}

#[test]
fn numeric_ordering_across_kinds() {
    assert_eq!(value("(< 1 2.0)"), Ok(boolean(true)));
    assert_eq!(value("(< 1/2 1)"), Ok(boolean(true)));
    assert_eq!(value("(= 2/4 1/2)"), Ok(boolean(true)));
    assert_eq!(value("(> 1 2.0)"), Ok(boolean(false)));
    assert_eq!(value("(<= 0.5 1/2)"), Ok(boolean(true)));
    assert_eq!(value("(>= 1/3 0.333)"), Ok(boolean(true)));
    assert_eq!(value("(= 1 1.0)"), Ok(boolean(true)));
    assert_eq!(value("(= 100 1e2)"), Ok(boolean(true)));
    assert_eq!(value("(< -1 -0.5)"), Ok(boolean(true)));
}

#[test]
fn comparing_what_cannot_be_compared_is_a_type_mismatch() {
    assert_eq!(
        value("(< 1 \"a\")"),
        Err(SErr::TypeMismatch(
            Kind::Comparable,
            Expr::Atom(Token::Str("a".to_string()))
        ))
    );
    assert_eq!(
        value("(< 1 '(1))"),
        Err(SErr::TypeMismatch(Kind::Atom, list(vec![num(1)])))
    );
    assert_eq!(
        value("(< '() 1)"),
        Err(SErr::TypeMismatch(Kind::Atom, list(vec![])))
    );
    assert_eq!(value("(< 1)"), Err(SErr::WrongArgCount(2, 1)));
    assert_eq!(value("(< \"a\" \"b\")"), Ok(boolean(true)));
    assert_eq!(value("(= #\\a #\\a)"), Ok(boolean(true)));
    assert_eq!(value("(< 'a 'b)"), Ok(boolean(true)));
}

#[test]
fn arithmetic_is_exact() {
    assert_eq!(value("(+ 1 2 3)"), Ok(num(6)));
    assert_eq!(value("(- 10 1 2)"), Ok(num(7)));
    assert_eq!(value("(* 2 3 4)"), Ok(num(24)));
    assert_eq!(value("(/ 12 3 2)"), Ok(num(2)));
    assert_eq!(value("(+)"), Ok(num(0)));
    assert_eq!(value("(*)"), Ok(num(1)));
    assert_eq!(value("(- 5)"), Ok(num(-5)));
    assert_eq!(
        value("(/ 4)"),
        Ok(Expr::Atom(Token::Fraction(Fraction { n: 1, d: 4 })))
    );
    assert_eq!(
        value("(/ 1 3)"),
        Ok(Expr::Atom(Token::Fraction(Fraction { n: 1, d: 3 })))
    );
    assert_eq!(
        value("(+ 1/2 1/3)"),
        Ok(Expr::Atom(Token::Fraction(Fraction { n: 5, d: 6 })))
    );
    assert_eq!(value("(+ 1/2 1/2)"), Ok(num(1)));
    assert_eq!(value("(* 2/3 3/2)"), Ok(num(1)));
    assert_eq!(
        value("(- 1/2 1)"),
        Ok(Expr::Atom(Token::Fraction(Fraction { n: -1, d: 2 })))
    );
    assert_eq!(
        value("(/ 1 -2)"),
        Ok(Expr::Atom(Token::Fraction(Fraction { n: -1, d: 2 })))
    );
}

#[test]
fn arithmetic_errors() {
    assert_eq!(value("(-)"), Err(SErr::WrongArgCount(1, 0)));
    assert_eq!(value("(/)"), Err(SErr::WrongArgCount(1, 0)));
    assert_eq!(value("(/ 1 0)"), Err(SErr::DivideByZero));
    assert_eq!(value("(/ 0)"), Err(SErr::DivideByZero));
    assert_eq!(value("(+ 9223372036854775807 1)"), Err(SErr::Overflow));
    assert_eq!(value("(* 4611686018427387904 2)"), Err(SErr::Overflow));
    assert_eq!(value("(- -9223372036854775808)"), Err(SErr::Overflow));
    assert_eq!(
        value("(+ 1 'a)"),
        Err(SErr::TypeMismatch(Kind::Number, sym("a")))
    );
    assert_eq!(
        value("(+ 1 2.5)"),
        Err(SErr::TypeMismatch(
            Kind::Number,
            Expr::Atom(Token::Float(Decimal { m: 25, e: -1 }))
        ))
    );
}

#[test]
fn the_table_names_every_primitive() {
    let table = primitives::env();
    for (name, fun) in [
        ("define", Primitive::Define),
        ("set!", Primitive::Assign),
        ("lambda", Primitive::Lambda),
        ("quote", Primitive::Quote),
        ("quasiquote", Primitive::Quasiquote),
        ("unquote", Primitive::Unquote),
        ("if", Primitive::If),
        ("and", Primitive::And),
        ("or", Primitive::Or),
        ("+", Primitive::Add),
        ("-", Primitive::Sub),
        ("*", Primitive::Mul),
        ("/", Primitive::Div),
        ("<", Primitive::Lt),
        (">", Primitive::Gt),
        ("<=", Primitive::Le),
        (">=", Primitive::Ge),
        ("=", Primitive::NumEq),
        ("list", Primitive::List),
        ("cons", Primitive::Cons),
        ("car", Primitive::Car),
        ("cdr", Primitive::Cdr),
        ("list-copy", Primitive::ListCopy),
        ("append", Primitive::Append),
        ("not", Primitive::Not),
        ("boolean?", Primitive::BooleanQ),
        ("boolean=?", Primitive::BooleanEq),
        ("eq?", Primitive::Equal),
        ("eqv?", Primitive::Equal),
        ("equal?", Primitive::Equal),
        ("let", Primitive::Let),
        ("let*", Primitive::LetStar),
        ("letrec", Primitive::LetRec),
        ("cond", Primitive::Cond),
        ("case", Primitive::Case),
        ("apply", Primitive::Apply),
    ] {
        assert_eq!(table.get(name), Some(ProcedureData::new_primitive(fun)), "{}", name);
    }
    assert_eq!(table.entries.len(), 36);
}

#[test]
fn a_primitive_can_be_rebound() {
    assert_eq!(value("(define (car x) 'mine) (car '(1 2))"), Ok(sym("mine")));
    assert_eq!(value("(define first car) (first '(1 2))"), Ok(num(1)));
}
