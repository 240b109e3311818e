use scheme_core::env::EnvRef;
use scheme_core::lexer::{LexError, Token};
use scheme_core::parser::{Expr, ParseError};
use scheme_core::repl::{run, Reply, Session};
use scheme_core::serr::{Kind, SErr};

fn num(i: i64) -> Expr {
    Expr::Atom(Token::Integer(i))
}

fn value(name: &str, v: Expr) -> Reply {
    Reply::Value(name.to_string(), v)
}

#[test]
fn a_fresh_session_has_the_primitives() {
    let session = Session::new(50);
    assert_eq!(session.env, EnvRef::Scope(0));
    assert_eq!(session.count, 0);
    assert_eq!(session.depth, 50);
    assert_eq!(session.store.len(), 1);
    assert!(session.store.get(session.env, "car").is_ok());
}

#[test]
fn each_value_is_bound_under_the_next_name() {
    let mut session = Session::new(100);
    assert_eq!(run(&mut session, "(+ 1 2)"), vec![value("$0", num(3))]);
    assert_eq!(
        run(&mut session, "(* $0 2) (+ $0 $1)"),
        vec![value("$1", num(6)), value("$2", num(9))]
    );
    assert_eq!(session.count, 3);
    assert_eq!(session.store.get(session.env, "$2"), Ok(num(9)));
}

#[test]
fn result_names_count_in_decimal() {
    let mut session = Session::new(100);
    session.count = 9;
    assert_eq!(
        run(&mut session, "1 2"),
        vec![value("$9", num(1)), value("$10", num(2))]
    );
    session.count = 1234567890;
    assert_eq!(run(&mut session, "7"), vec![value("$1234567890", num(7))]);
}

#[test]
fn a_bound_result_is_a_value_not_code() {
    let mut session = Session::new(100);
    let replies = run(&mut session, "'(car 1) $0");
    let quoted = Expr::List(vec![
        Expr::Atom(Token::Symbol("car".to_string())),
        num(1),
    ]);
    assert_eq!(replies, vec![value("$0", quoted.clone()), value("$1", quoted)]);
}

#[test]
fn a_failure_does_not_end_the_session() {
    let mut session = Session::new(100);
    let replies = run(&mut session, "(define x 5) (car '()) (+ x 1)");
    assert_eq!(
        replies,
        vec![
            value("$0", num(5)),
            Reply::Failure(SErr::UnexpectedForm(Expr::List(vec![]))),
            value("$1", num(6)),
        ]
    );
    assert_eq!(run(&mut session, "x"), vec![value("$2", num(5))]);
}

#[test]
fn a_line_that_cannot_be_read_changes_nothing() {
    let mut session = Session::new(100);
    assert_eq!(
        run(&mut session, "(define x 1) \"open"),
        vec![Reply::Failure(SErr::Lex(LexError::UnterminatedString))]
    );
    assert_eq!(
        run(&mut session, "(define x 1) (oops"),
        vec![Reply::Failure(SErr::Parse(ParseError::UnexpectedEnd))]
    );
    assert_eq!(
        run(&mut session, "x"),
        vec![Reply::Failure(SErr::UnboundVariable("x".to_string()))]
    );
    assert_eq!(session.count, 0);
    assert_eq!(run(&mut session, ""), vec![]);
}

#[test]
fn error_messages() {
    assert_eq!(
        SErr::UnboundVariable("x".to_string()).to_text(),
        "unbound variable: x"
    );
    assert_eq!(
        SErr::WrongArgCount(2, 13).to_text(),
        "wrong number of arguments: expected 2, got 13"
    );
    assert_eq!(
        SErr::TypeMismatch(Kind::Boolean, num(1)).to_text(),
        "type mismatch: expected boolean, got 1"
    );
    assert_eq!(
        SErr::UnexpectedForm(Expr::List(vec![])).to_text(),
        "unexpected form: ()"
    );
    assert_eq!(SErr::NotApplicable(num(5)).to_text(), "not applicable: 5");
    assert_eq!(
        SErr::Lex(LexError::UnknownHash('x')).to_text(),
        "expected #t, #f or #\\<char>, got #x"
    );
    assert_eq!(
        SErr::Parse(ParseError::UnexpectedRParen(4)).to_text(),
        "nothing to close at token 4"
    );
    assert_eq!(
        SErr::Parse(ParseError::TooDeep(7)).to_text(),
        "nesting too deep at token 7"
    );
    assert_eq!(
        SErr::Parse(ParseError::UnexpectedDot(1)).to_text(),
        "misplaced dot at token 1"
    );
    assert_eq!(
        SErr::Parse(ParseError::UnexpectedEnd).to_text(),
        "input ends inside a form"
    );
    assert_eq!(
        SErr::Lex(LexError::UnterminatedString).to_text(),
        "string is not closed"
    );
    assert_eq!(SErr::DepthExceeded.to_text(), "evaluation nests too deep");
    assert_eq!(SErr::DivideByZero.to_text(), "division by zero");
    assert_eq!(SErr::Overflow.to_text(), "number is too large");
    assert_eq!(Kind::ParameterList.name(), "parameter list");
}

#[test]
fn error_values_can_be_copied() {
    let e = SErr::TypeMismatch(Kind::List, num(1));
    assert_eq!(e.clone(), e);
}
