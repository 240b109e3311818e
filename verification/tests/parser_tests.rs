use scheme_core::lexer::{tokenize, Token};
use scheme_core::number::{Decimal, Fraction};
use scheme_core::parser::{parse, parse_list, parse_one, Expr, ParseError, MAX_NESTING};
use scheme_core::printer::{join_tokens, render_exprs};

fn sym(s: &str) -> Expr {
    Expr::Atom(Token::Symbol(s.to_string()))
}

fn num(i: i64) -> Expr {
    Expr::Atom(Token::Integer(i))
}

fn read(text: &str) -> Result<Vec<Expr>, ParseError> {
    parse(tokenize(text).expect("lexes"))
}

#[test]
fn parse_gives_one_expression_per_form() {
    assert_eq!(read(""), Ok(vec![]));
    assert_eq!(
        read("a (b c) 3"),
        Ok(vec![sym("a"), Expr::List(vec![sym("b"), sym("c")]), num(3)])
    );
}

#[test]
fn parse_nests_lists() {
    assert_eq!(
        read("(a (b (c)) ())"),
        Ok(vec![Expr::List(vec![
            sym("a"),
            Expr::List(vec![sym("b"), Expr::List(vec![sym("c")])]),
            Expr::List(vec![]),
        ])])
    );
}

#[test]
fn a_dot_makes_an_improper_list() {
    assert_eq!(
        read("(a b . c)"),
        Ok(vec![Expr::DottedList(vec![sym("a"), sym("b")], Box::new(sym("c")))])
    );
}

#[test]
fn a_dotted_tail_that_is_a_list_is_spliced() {
    assert_eq!(
        read("(a . (b c))"),
        Ok(vec![Expr::List(vec![sym("a"), sym("b"), sym("c")])])
    );
    assert_eq!(
        read("(a . (b . c))"),
        Ok(vec![Expr::DottedList(vec![sym("a"), sym("b")], Box::new(sym("c")))])
    );
}

#[test]
fn quote_marks_become_lists() {
    assert_eq!(
        read("'x"),
        Ok(vec![Expr::List(vec![sym("quote"), sym("x")])])
    );
    assert_eq!(
        read("`(a ,b ,@c)"),
        Ok(vec![Expr::List(vec![
            sym("quasiquote"),
            Expr::List(vec![
                sym("a"),
                Expr::List(vec![sym("unquote"), sym("b")]),
                Expr::List(vec![sym("unquote-splicing"), sym("c")]),
            ]),
        ])])
    );
    assert_eq!(
        read("''x"),
        Ok(vec![Expr::List(vec![
            sym("quote"),
            Expr::List(vec![sym("quote"), sym("x")])
        ])])
    );
}

#[test]
fn unbalanced_input_is_an_error() {
    assert_eq!(read("(a b"), Err(ParseError::UnexpectedEnd));
    assert_eq!(read("(a (b)"), Err(ParseError::UnexpectedEnd));
    assert_eq!(read("a )"), Err(ParseError::UnexpectedRParen(1)));
    assert_eq!(read(")"), Err(ParseError::UnexpectedRParen(0)));
    assert_eq!(read("'"), Err(ParseError::UnexpectedEnd));
    assert_eq!(read("(a ')"), Err(ParseError::UnexpectedRParen(3)));
}

#[test]
fn a_misplaced_dot_is_an_error() {
    assert_eq!(read("(. a)"), Err(ParseError::UnexpectedDot(1)));
    assert_eq!(read("(a . b c)"), Err(ParseError::UnexpectedDot(2)));
    assert_eq!(read("(a .)"), Err(ParseError::UnexpectedRParen(3)));
    assert_eq!(read("(a . b"), Err(ParseError::UnexpectedEnd));
    assert_eq!(read("."), Err(ParseError::UnexpectedDot(0)));
}

#[test]
fn dottedlist_normal_form() {
    assert_eq!(Expr::dottedlist(vec![], num(1)), num(1));
    assert_eq!(
        Expr::dottedlist(vec![num(1)], num(2)),
        Expr::DottedList(vec![num(1)], Box::new(num(2)))
    );
    assert_eq!(
        Expr::dottedlist(vec![num(1)], Expr::List(vec![num(2)])),
        Expr::List(vec![num(1), num(2)])
    );
    assert_eq!(
        Expr::dottedlist(vec![num(1)], Expr::DottedList(vec![num(2)], Box::new(num(3)))),
        Expr::DottedList(vec![num(1), num(2)], Box::new(num(3)))
    );
}

#[test]
fn clone_copies_the_whole_tree() {
    let e = read("(a (b . c) \"s\" #\\x 1/2 2.5)").unwrap().remove(0);
    assert_eq!(e.clone(), e);
}

#[test]
fn expressions_print_as_they_are_read() {
    for text in [
        "(define (f x . rest) (if (< x 1/2) 'a \"b c\"))",
        "(a b . c)",
        "()",
        "(#t #f #\\a ... -12 25e-1)",
        "((lambda (x) x) (quote (1 2 3)))",
    ] {
        let exprs = read(text).unwrap();
        for e in exprs.iter() {
            let printed = e.to_text();
            assert_eq!(read(&printed), Ok(vec![e.clone()]), "{}", printed);
        }
    }
}

#[test]
fn to_text_of_each_shape() {
    assert_eq!(read("( a   b )").unwrap()[0].to_text(), "(a b)");
    assert_eq!(read("'x").unwrap()[0].to_text(), "(quote x)");
    assert_eq!(read("(a . b)").unwrap()[0].to_text(), "(a . b)");
    assert_eq!(read("2.50").unwrap()[0].to_text(), "2.50");
    assert_eq!(read("-3/6").unwrap()[0].to_text(), "-1/2");
    assert_eq!(read("\"hi\"").unwrap()[0].to_text(), "\"hi\"");
    assert_eq!(read("#\\a").unwrap()[0].to_text(), "#\\a");
    assert_eq!(num(i64::MIN).to_text(), "-9223372036854775808");
    assert_eq!(num(0).to_text(), "0");
    assert_eq!(Expr::Unspecified.to_text(), "#<unspecified>");
}

#[test]
fn several_expressions_print_with_blanks_between() {
    let exprs = read("(a)   (b c) ; note\n d").unwrap();
    assert_eq!(render_exprs(&exprs), "(a) (b c) d");
    assert_eq!(read(&render_exprs(&exprs)), Ok(exprs));
    assert_eq!(render_exprs(&vec![]), "");
}

#[test]
fn tokens_join_without_blanks_inside_parentheses() {
    let tokens = tokenize("( ( a ) ' b ,@ c #t \"s\" )").unwrap();
    assert_eq!(join_tokens(&tokens), "((a) ' b ,@ c #t \"s\")");
    assert_eq!(tokenize(&join_tokens(&tokens)), Ok(tokens));
}

#[test]
fn to_tokens_writes_the_structure_out() {
    let e = read("(a . b)").unwrap().remove(0);
    assert_eq!(
        e.to_tokens(),
        vec![
            Token::LParen,
            Token::Symbol("a".to_string()),
            Token::Dot,
            Token::Symbol("b".to_string()),
            Token::RParen,
        ]
    );
    assert_eq!(Token::Chr('x').to_text(), "#\\x");
    assert_eq!(Token::Ellipsis.to_text(), "...");
}

#[test]
fn nesting_is_limited() {
    let nested = |n: usize| format!("{}{}", "(".repeat(n), ")".repeat(n));
    let deepest = read(&nested(MAX_NESTING)).unwrap();
    assert_eq!(read(&deepest[0].to_text()), Ok(deepest.clone()));
    assert_eq!(
        read(&nested(MAX_NESTING + 1)),
        Err(ParseError::TooDeep(MAX_NESTING))
    );
    assert_eq!(
        read(&nested(100_000)),
        Err(ParseError::TooDeep(MAX_NESTING))
    );
    let quotes = format!("{}x", "'".repeat(MAX_NESTING));
    assert!(read(&quotes).is_ok());
    let quotes = format!("{}x", "'".repeat(100_000));
    assert_eq!(read(&quotes), Err(ParseError::TooDeep(MAX_NESTING)));
    // the limit is for each top-level form by itself
    let many = nested(MAX_NESTING).repeat(3);
    assert_eq!(read(&many).map(|es| es.len()), Ok(3));
}

#[test]
fn parse_one_reads_the_expression_at_an_index() {
    let tokens = tokenize("a (b c) d").unwrap();
    assert_eq!(parse_one(&tokens, 0, 10), Ok((sym("a"), 1)));
    assert_eq!(
        parse_one(&tokens, 1, 10),
        Ok((Expr::List(vec![sym("b"), sym("c")]), 5))
    );
    assert_eq!(parse_one(&tokens, 1, 0), Err(ParseError::TooDeep(1)));
    assert_eq!(parse_one(&tokens, 6, 10), Err(ParseError::UnexpectedEnd));
    assert_eq!(
        parse_list(&tokens, 2, 10),
        Ok((Expr::List(vec![sym("b"), sym("c")]), 5))
    );
}

#[test]
fn decimals_print_in_the_usual_notation() {
    let text = |m: i64, e: i64| Token::Float(Decimal { m, e }).to_text();
    assert_eq!(text(25, -1), "2.5");
    assert_eq!(text(-25, -1), "-2.5");
    assert_eq!(text(5, -1), "0.5");
    assert_eq!(text(5, -3), "0.005");
    assert_eq!(text(-5, -2), "-0.05");
    assert_eq!(text(0, -3), "0.000");
    assert_eq!(text(5, 0), "5.");
    assert_eq!(text(0, 0), "0.");
    assert_eq!(text(12345, -4), "1.2345");
    assert_eq!(text(1, 3), "1e3");
    assert_eq!(text(-7, 40), "-7e40");
    assert_eq!(text(1, -20), "0.00000000000000000001");
    assert_eq!(text(1, -21), "1e-21");
    assert_eq!(text(i64::MIN, -19), "-0.9223372036854775808");
    assert_eq!(text(i64::MAX, -1), "922337203685477580.7");
}

#[test]
fn every_token_is_read_from_its_own_text() {
    let mut tokens = vec![
        Token::Integer(0),
        Token::Integer(i64::MIN),
        Token::Integer(i64::MAX),
        Token::Fraction(Fraction { n: -7, d: 3 }),
        Token::Boolean(true),
        Token::Boolean(false),
        Token::Chr(' '),
        Token::Chr(')'),
        Token::Str("a b".to_string()),
        Token::Symbol("list-copy".to_string()),
        Token::Ellipsis,
    ];
    for m in [0, 1, -1, 5, -25, 12345, i64::MAX, i64::MIN] {
        for e in [0, -1, -2, -5, -19, -20, -21, 1, 30, i64::MAX, i64::MIN] {
            tokens.push(Token::Float(Decimal { m, e }));
        }
    }
    for t in tokens {
        assert_eq!(tokenize(&t.to_text()), Ok(vec![t.clone()]), "{}", t.to_text());
    }
}
