use scheme_core::env::{Env, EnvRef, Store};
use scheme_core::evaluator::Args;
use scheme_core::lexer::{tokenize, Token};
use scheme_core::number::{
    compare_scaled, divide, minus, plus, reduce, times, Exact, Fraction, Scaled,
};
use scheme_core::parser::{parse, Expr};
use scheme_core::primitives;
use scheme_core::primitives::boolean::{boolean_eq_qm, boolean_qm, not};
use scheme_core::primitives::list::{append, car, cdr, cons, list_copy};
use scheme_core::primitives::to_bool;
use scheme_core::serr::{Kind, SErr, SResult};

const DEPTH: usize = 100;

fn num(i: i64) -> Expr {
    Expr::Atom(Token::Integer(i))
}

fn sym(s: &str) -> Expr {
    Expr::Atom(Token::Symbol(s.to_string()))
}

fn boolean(b: bool) -> Expr {
    Expr::Atom(Token::Boolean(b))
}

fn list(items: Vec<Expr>) -> Expr {
    Expr::List(items)
}

fn nums(items: &[i64]) -> Expr {
    Expr::List(items.iter().map(|i| num(*i)).collect())
}

/// Call `f` on the arguments written in `text`, in a fresh global scope.
fn call(f: fn(Args, &mut Store, usize) -> SResult<Expr>, text: &str) -> SResult<Expr> {
    let mut store = Store::new();
    let env: EnvRef = Env::with_values(Env::null(), primitives::env()).to_ref(&mut store);
    let exprs = parse(tokenize(text).expect("lexes")).expect("parses");
    f(Args::new(exprs, &env), &mut store, DEPTH)
}

#[test]
fn cons_puts_an_element_in_front() {
    assert_eq!(call(cons, "1 '(2 3)"), Ok(nums(&[1, 2, 3])));
    assert_eq!(call(cons, "1 '()"), Ok(nums(&[1])));
    assert_eq!(
        call(cons, "1 2"),
        Ok(Expr::DottedList(vec![num(1)], Box::new(num(2))))
    );
    assert_eq!(
        call(cons, "1 '(2 . 3)"),
        Ok(Expr::DottedList(vec![num(1), num(2)], Box::new(num(3))))
    );
    assert_eq!(call(cons, "1"), Err(SErr::WrongArgCount(2, 1)));
    assert_eq!(call(cons, "1 2 3"), Err(SErr::WrongArgCount(2, 3)));
}

#[test]
fn car_is_the_first_element() {
    assert_eq!(call(car, "'(1 2 3)"), Ok(num(1)));
    assert_eq!(call(car, "'(1 . 2)"), Ok(num(1)));
    assert_eq!(call(car, "'()"), Err(SErr::UnexpectedForm(list(vec![]))));
    assert_eq!(call(car, "5"), Err(SErr::UnexpectedForm(num(5))));
    assert_eq!(call(car, ""), Err(SErr::WrongArgCount(1, 0)));
}

#[test]
fn cdr_is_what_follows_the_first_element() {
    assert_eq!(call(cdr, "'(1 2 3)"), Ok(nums(&[2, 3])));
    assert_eq!(call(cdr, "'(1)"), Ok(list(vec![])));
    assert_eq!(call(cdr, "'(1 . 2)"), Ok(num(2)));
    assert_eq!(
        call(cdr, "'(1 2 . 3)"),
        Ok(Expr::DottedList(vec![num(2)], Box::new(num(3))))
    );
    assert_eq!(call(cdr, "'()"), Err(SErr::UnexpectedForm(list(vec![]))));
    assert_eq!(call(cdr, "'a"), Err(SErr::UnexpectedForm(sym("a"))));
    assert_eq!(call(cdr, "'(1) '(2)"), Err(SErr::WrongArgCount(1, 2)));
}

#[test]
fn list_copy_with_and_without_bounds() {
    assert_eq!(call(list_copy, "'(1 2 3 4)"), Ok(nums(&[1, 2, 3, 4])));
    assert_eq!(call(list_copy, "'(1 2 3 4) 1"), Ok(nums(&[2, 3, 4])));
    assert_eq!(call(list_copy, "'(1 2 3 4) 1 3"), Ok(nums(&[2, 3])));
    assert_eq!(call(list_copy, "'(1 2 3 4) 0 0"), Ok(nums(&[])));
    assert_eq!(call(list_copy, "'(1 2 3 4) 4"), Ok(nums(&[])));
}

#[test]
fn list_copy_cuts_indices_down_to_the_length() {
    assert_eq!(call(list_copy, "'(1 2 3) 7"), Ok(nums(&[])));
    assert_eq!(call(list_copy, "'(1 2 3) 1 100"), Ok(nums(&[2, 3])));
    assert_eq!(call(list_copy, "'(1 2 3) 5 9"), Ok(nums(&[])));
}

#[test]
fn list_copy_errors() {
    assert_eq!(call(list_copy, ""), Err(SErr::WrongArgCount(3, 0)));
    assert_eq!(call(list_copy, "'(1) 0 1 2"), Err(SErr::WrongArgCount(3, 4)));
    assert_eq!(
        call(list_copy, "5"),
        Err(SErr::TypeMismatch(Kind::List, num(5)))
    );
    assert_eq!(
        call(list_copy, "'(1 2) 'a"),
        Err(SErr::TypeMismatch(Kind::Integer, sym("a")))
    );
    assert_eq!(
        call(list_copy, "'(1 2) -1"),
        Err(SErr::TypeMismatch(Kind::Integer, num(-1)))
    );
    assert_eq!(
        call(list_copy, "'(1 2 3) 2 1"),
        Err(SErr::UnexpectedForm(num(1)))
    );
}

#[test]
fn append_joins_lists() {
    assert_eq!(call(append, ""), Ok(list(vec![])));
    assert_eq!(call(append, "'(1 2)"), Ok(nums(&[1, 2])));
    assert_eq!(call(append, "5"), Ok(num(5)));
    assert_eq!(call(append, "'(1) '(2 3) '() '(4)"), Ok(nums(&[1, 2, 3, 4])));
    assert_eq!(
        call(append, "'(1) 2"),
        Ok(Expr::DottedList(vec![num(1)], Box::new(num(2))))
    );
    assert_eq!(
        call(append, "'(1) '(2 . 3)"),
        Ok(Expr::DottedList(vec![num(1), num(2)], Box::new(num(3))))
    );
    assert_eq!(call(append, "'() 5"), Ok(num(5)));
    assert_eq!(
        call(append, "'(1) 2 '(3)"),
        Err(SErr::TypeMismatch(Kind::List, num(2)))
    );
}

#[test]
fn not_negates_truth() {
    assert_eq!(call(not, "#f"), Ok(boolean(true)));
    assert_eq!(call(not, "#t"), Ok(boolean(false)));
    assert_eq!(call(not, "0"), Ok(boolean(false)));
    assert_eq!(call(not, "'()"), Ok(boolean(false)));
    assert_eq!(call(not, ""), Err(SErr::WrongArgCount(1, 0)));
}

#[test]
fn boolean_predicate() {
    assert_eq!(call(boolean_qm, "#f"), Ok(boolean(true)));
    assert_eq!(call(boolean_qm, "(not 1)"), Ok(boolean(true)));
    assert_eq!(call(boolean_qm, "0"), Ok(boolean(false)));
    assert_eq!(call(boolean_qm, "#t #t"), Err(SErr::WrongArgCount(1, 2)));
}

#[test]
fn boolean_equality() {
    assert_eq!(call(boolean_eq_qm, "#t #t #t"), Ok(boolean(true)));
    assert_eq!(call(boolean_eq_qm, "#f #f"), Ok(boolean(true)));
    assert_eq!(call(boolean_eq_qm, "#t #f #t"), Ok(boolean(false)));
    assert_eq!(call(boolean_eq_qm, "#t"), Ok(boolean(true)));
    assert_eq!(call(boolean_eq_qm, ""), Err(SErr::WrongArgCount(1, 0)));
    assert_eq!(
        call(boolean_eq_qm, "1 #t"),
        Err(SErr::TypeMismatch(Kind::Boolean, num(1)))
    );
    assert_eq!(
        call(boolean_eq_qm, "#t 1"),
        Err(SErr::TypeMismatch(Kind::Boolean, num(1)))
    );
    // a difference is answered before a later argument is looked at
    assert_eq!(call(boolean_eq_qm, "#t #f 1"), Ok(boolean(false)));
}

#[test]
fn to_bool_is_false_for_false_only() {
    assert!(!to_bool(&boolean(false)));
    assert!(to_bool(&boolean(true)));
    assert!(to_bool(&num(0)));
    assert!(to_bool(&list(vec![])));
    assert!(to_bool(&Expr::Unspecified));
}

#[test]
fn reduce_gives_lowest_terms() {
    assert_eq!(reduce(2, 4), Some(Exact::Ratio(Fraction { n: 1, d: 2 })));
    assert_eq!(reduce(-6, 4), Some(Exact::Ratio(Fraction { n: -3, d: 2 })));
    assert_eq!(reduce(6, 3), Some(Exact::Integer(2)));
    assert_eq!(reduce(0, 7), Some(Exact::Integer(0)));
    assert_eq!(reduce(7, 1), Some(Exact::Integer(7)));
    assert_eq!(reduce(1 << 64, 2), None);
    assert_eq!(reduce(1, 1 << 64), None);
    assert_eq!(reduce(-(1i128 << 63), 1), Some(Exact::Integer(i64::MIN)));
    assert_eq!(reduce(1i128 << 63, 1), None);
    assert_eq!(reduce(1i128 << 64, 1i128 << 62), Some(Exact::Integer(4)));
}

#[test]
fn exact_operations() {
    let half = Exact::Ratio(Fraction { n: 1, d: 2 });
    let third = Exact::Ratio(Fraction { n: 1, d: 3 });
    assert_eq!(plus(half, third), Some(Exact::Ratio(Fraction { n: 5, d: 6 })));
    assert_eq!(minus(half, third), Some(Exact::Ratio(Fraction { n: 1, d: 6 })));
    assert_eq!(times(half, third), Some(Exact::Ratio(Fraction { n: 1, d: 6 })));
    assert_eq!(divide(half, third), Some(Exact::Ratio(Fraction { n: 3, d: 2 })));
    assert_eq!(divide(Exact::Integer(6), Exact::Integer(-3)), Some(Exact::Integer(-2)));
    assert_eq!(plus(Exact::Integer(i64::MAX), Exact::Integer(1)), None);
    assert_eq!(
        plus(Exact::Integer(i64::MAX), Exact::Integer(i64::MIN)),
        Some(Exact::Integer(-1))
    );
    assert_eq!(times(Exact::Integer(i64::MIN), Exact::Integer(i64::MIN)), None);
}

#[test]
fn scaled_numbers_compare_by_value() {
    let n = |n: i64, e: i64, d: i64| Scaled { n, e, d };
    assert_eq!(compare_scaled(n(1, 0, 1), n(2, 0, 1)), -1);
    assert_eq!(compare_scaled(n(1, 0, 2), n(2, 0, 4)), 0);
    assert_eq!(compare_scaled(n(1, 1, 1), n(10, 0, 1)), 0);
    assert_eq!(compare_scaled(n(1, 1, 1), n(99, 0, 10)), 1);
    assert_eq!(compare_scaled(n(1, -1, 1), n(1, 0, 10)), 0);
    assert_eq!(compare_scaled(n(-1, 40, 1), n(1, -40, 1)), -1);
    assert_eq!(compare_scaled(n(0, 40, 1), n(0, -40, 1)), 0);
    assert_eq!(compare_scaled(n(0, 400, 1), n(-1, -400, 1)), 1);
    assert_eq!(compare_scaled(n(i64::MAX, 20, 3), n(i64::MAX, 20, 3)), 0);
    assert_eq!(compare_scaled(n(i64::MIN, 37, 1), n(i64::MIN, 0, i64::MAX)), -1);
    assert_eq!(compare_scaled(n(3, -1, 1), n(1, 0, 3)), -1);
    assert_eq!(compare_scaled(n(34, -2, 1), n(1, 0, 3)), 1);
    assert_eq!(compare_scaled(n(-34, -2, 1), n(-1, 0, 3)), -1);
}
