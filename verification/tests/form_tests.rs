use scheme_core::env::{Env, EnvRef, Store};
use scheme_core::evaluator::eval;
use scheme_core::lexer::{tokenize, Token};
use scheme_core::number::Decimal;
use scheme_core::parser::{parse, Expr};
use scheme_core::primitives;
use scheme_core::primitives::equivalence::same;
use scheme_core::primitives::lang::quote_value_of;
use scheme_core::serr::{Kind, SErr, SResult};

const DEPTH: usize = 300;

fn global(store: &mut Store) -> EnvRef {
    Env::with_values(Env::null(), primitives::env()).to_ref(store)
}

fn run(text: &str, env: EnvRef, store: &mut Store) -> Vec<SResult<Expr>> {
    let exprs = parse(tokenize(text).expect("lexes")).expect("parses");
    exprs.iter().map(|e| eval(e, env, store, DEPTH)).collect()
}

fn value(text: &str) -> SResult<Expr> {
    let mut store = Store::new();
    let env = global(&mut store);
    run(text, env, &mut store).pop().expect("one expression at least")
}

fn num(i: i64) -> Expr {
    Expr::Atom(Token::Integer(i))
}

fn sym(s: &str) -> Expr {
    Expr::Atom(Token::Symbol(s.to_string()))
}

fn boolean(b: bool) -> Expr {
    Expr::Atom(Token::Boolean(b))
}

fn nums(items: &[i64]) -> Expr {
    Expr::List(items.iter().map(|i| num(*i)).collect())
}

#[test]
fn let_binds_in_a_fresh_scope() {
    assert_eq!(value("(let ((x 1) (y 2)) (+ x y))"), Ok(num(3)));
    assert_eq!(value("(let () 5)"), Ok(num(5)));
    assert_eq!(value("(let ((x 1)))"), Ok(Expr::Unspecified));
    assert_eq!(value("(define x 1) (let ((x 2)) x) x"), Ok(num(1)));
}

#[test]
fn let_evaluates_its_expressions_outside() {
    assert_eq!(value("(define x 1) (let ((x 2) (y x)) y)"), Ok(num(1)));
    assert_eq!(
        value("(let ((x 2) (y x)) y)"),
        Err(SErr::UnboundVariable("x".to_string()))
    );
}

#[test]
fn let_star_sees_the_names_before() {
    assert_eq!(value("(let* ((x 2) (y (* x 3))) (+ x y))"), Ok(num(8)));
    assert_eq!(value("(define x 1) (let* ((x 2) (y x)) y)"), Ok(num(2)));
}

#[test]
fn letrec_sees_every_name() {
    let text = "
        (letrec ((even? (lambda (n) (if (= n 0) #t (odd? (- n 1)))))
                 (odd? (lambda (n) (if (= n 0) #f (even? (- n 1))))))
          (list (even? 10) (odd? 7) (even? 3)))";
    assert_eq!(
        value(text),
        Ok(Expr::List(vec![boolean(true), boolean(true), boolean(false)]))
    );
}

#[test]
fn letrec_defers_its_expressions() {
    // the expression of an unused name is never evaluated
    assert_eq!(value("(letrec ((boom (car '())) (x 1)) x)"), Ok(num(1)));
    assert_eq!(
        value("(letrec ((boom (car '()))) boom)"),
        Err(SErr::UnexpectedForm(Expr::List(vec![])))
    );
}

#[test]
fn binding_forms_check_their_bindings() {
    assert_eq!(value("(let)"), Err(SErr::WrongArgCount(2, 0)));
    assert_eq!(
        value("(let x 1)"),
        Err(SErr::TypeMismatch(Kind::List, sym("x")))
    );
    assert_eq!(
        value("(let ((x)) 1)"),
        Err(SErr::UnexpectedForm(Expr::List(vec![sym("x")])))
    );
    assert_eq!(
        value("(let* ((1 2)) 1)"),
        Err(SErr::UnexpectedForm(nums(&[1, 2])))
    );
    assert_eq!(value("(letrec (x) 1)"), Err(SErr::UnexpectedForm(sym("x"))));
}

#[test]
fn cond_takes_the_first_true_clause() {
    assert_eq!(value("(cond (#f 1) ((= 1 1) 2) (else 3))"), Ok(num(2)));
    assert_eq!(value("(cond (#f 1) (else 3))"), Ok(num(3)));
    assert_eq!(value("(cond (#f 1))"), Ok(Expr::Unspecified));
    assert_eq!(value("(cond)"), Ok(Expr::Unspecified));
    assert_eq!(value("(cond (5))"), Ok(num(5)));
    assert_eq!(value("(cond (#t 1 2 3))"), Ok(num(3)));
    assert_eq!(value("(cond (#t 1) ((car '()) 2))"), Ok(num(1)));
    assert_eq!(value("(cond 5)"), Err(SErr::UnexpectedForm(num(5))));
    assert_eq!(value("(cond ())"), Err(SErr::UnexpectedForm(Expr::List(vec![]))));
}

#[test]
fn case_takes_the_clause_that_names_the_key() {
    let text = "(define (f x) (case x ((1) 'one) ((2 3) 'few) (else 'many)))
                (list (f 1) (f 2) (f 3) (f 4))";
    assert_eq!(
        value(text),
        Ok(Expr::List(vec![sym("one"), sym("few"), sym("few"), sym("many")]))
    );
    assert_eq!(value("(case 'a ((b) 1))"), Ok(Expr::Unspecified));
    assert_eq!(value("(case 'a ((a)))"), Ok(Expr::Unspecified));
    assert_eq!(value("(case)"), Err(SErr::WrongArgCount(2, 0)));
    assert_eq!(
        value("(case 1 (1 2))"),
        Err(SErr::UnexpectedForm(nums(&[1, 2])))
    );
}

#[test]
fn apply_calls_with_values() {
    assert_eq!(value("(apply + (list 1 2 3))"), Ok(num(6)));
    assert_eq!(value("(apply + 1 2 (list 3 4))"), Ok(num(10)));
    assert_eq!(value("(apply car '((1 2)))"), Ok(num(1)));
    assert_eq!(value("(apply (lambda (x . xs) xs) 1 '(2 3))"), Ok(nums(&[2, 3])));
    // the values are not evaluated a second time
    assert_eq!(value("(apply (lambda (x) x) (list 'a))"), Ok(sym("a")));
    assert_eq!(
        value("(apply list '((+ 1 2) b))"),
        Ok(Expr::List(vec![
            Expr::List(vec![sym("+"), num(1), num(2)]),
            sym("b")
        ]))
    );
}

#[test]
fn apply_errors() {
    assert_eq!(value("(apply +)"), Err(SErr::WrongArgCount(2, 1)));
    assert_eq!(value("(apply)"), Err(SErr::WrongArgCount(2, 0)));
    assert_eq!(value("(apply 1 '(2))"), Err(SErr::NotApplicable(num(1))));
    assert_eq!(
        value("(apply + 1 2)"),
        Err(SErr::TypeMismatch(Kind::List, num(2)))
    );
}

#[test]
fn a_quoted_value_evaluates_to_itself() {
    let mut store = Store::new();
    let env = global(&mut store);
    let code = Expr::List(vec![sym("car"), sym("nowhere")]);
    assert_eq!(
        eval(&quote_value_of(code.clone()), env, &mut store, DEPTH),
        Ok(code.clone())
    );
    // even where the name `quote` means something else
    run("(define (quote x) 'shadowed)", env, &mut store);
    assert_eq!(eval(&quote_value_of(code.clone()), env, &mut store, DEPTH), Ok(code));
}

#[test]
fn equality_is_structural() {
    assert_eq!(value("(equal? '(1 (2 3)) '(1 (2 3)))"), Ok(boolean(true)));
    assert_eq!(value("(equal? '(1 2) '(1 3))"), Ok(boolean(false)));
    assert_eq!(value("(equal? '(1 2) '(1 2 3))"), Ok(boolean(false)));
    assert_eq!(value("(eq? 'a 'a)"), Ok(boolean(true)));
    assert_eq!(value("(eq? 'a 'b)"), Ok(boolean(false)));
    assert_eq!(value("(eqv? 2 2)"), Ok(boolean(true)));
    assert_eq!(value("(eqv? \"a\" \"a\")"), Ok(boolean(true)));
    assert_eq!(value("(eqv? '() '())"), Ok(boolean(true)));
    assert_eq!(value("(equal? '(a . b) '(a . b))"), Ok(boolean(true)));
    assert_eq!(value("(equal? car car)"), Ok(boolean(true)));
    assert_eq!(value("(equal? car cdr)"), Ok(boolean(false)));
    assert_eq!(value("(equal? 1)"), Err(SErr::WrongArgCount(2, 1)));
}

#[test]
fn equality_tells_kinds_of_number_apart() {
    assert_eq!(value("(equal? 1 1.0)"), Ok(boolean(false)));
    assert_eq!(value("(= 1 1.0)"), Ok(boolean(true)));
    assert!(!same(
        &Expr::Atom(Token::Float(Decimal { m: 10, e: -1 })),
        &Expr::Atom(Token::Float(Decimal { m: 1, e: 0 }))
    ));
}

#[test]
fn a_library_written_in_the_language() {
    let prelude = "
        (define (id x) x)
        (define (curry func arg1) (lambda arg (apply func (cons arg1 arg))))
        (define (compose f g) (lambda (arg) (f (apply g arg))))
        (define (null? x) (if (eqv? x '()) #t #f))
        (define (foldr func end lst)
          (if (null? lst)
              end
              (func (car lst) (foldr func end (cdr lst)))))
        (define (foldl func accum lst)
          (if (null? lst)
              accum
              (foldl func (func accum (car lst)) (cdr lst))))
        (define fold foldl)
        (define zero? (curry = 0))
        (define (sum . lst) (fold + 0 lst))
        (define (map func lst) (foldr (lambda (x y) (cons (func x) y)) '() lst))
        (define (filter pred lst) (foldr (lambda (x y) (if (pred x) (cons x y) y)) '() lst))
        (define (length lst) (fold (lambda (x y) (+ x 1)) 0 lst))
        (define (max first . rest) (fold (lambda (old new) (if (> old new) old new)) first rest))
        (define (list-tail lst n) (if (<= n 0) lst (list-tail (cdr lst) (- n 1))))
        (define (list-ref lst n) (car (list-tail lst n)))";
    let mut store = Store::new();
    let env = global(&mut store);
    for r in run(prelude, env, &mut store) {
        assert!(r.is_ok(), "{:?}", r);
    }
    let mut check = |text: &str, expected: Expr| {
        assert_eq!(run(text, env, &mut store).pop(), Some(Ok(expected)), "{}", text);
    };
    check("(map (lambda (x) (* x x)) '(1 2 3))", nums(&[1, 4, 9]));
    check("(filter zero? '(0 1 0 2))", nums(&[0, 0]));
    check("(sum 1 2 3 4)", num(10));
    check("(length '(a b c))", num(3));
    check("(max 3 9 2)", num(9));
    check("(list-ref '(a b c) 2)", sym("c"));
    check("((compose car list) '(1 2 3))", num(1));
    check("((curry + 10) 5)", num(15));
    check("(foldr cons '() '(1 2))", nums(&[1, 2]));
}
