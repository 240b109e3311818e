use std::cmp::Ordering;

use scheme_core::lexer::{
    check, check_chr, parse_comment, parse_hash, parse_string, parse_symbol, parse_whitespace,
    tokenize, LexError, Scanner, Token,
};
use scheme_core::number::{Decimal, Fraction};

fn symbol(s: &str) -> Token {
    Token::Symbol(s.to_string())
}

#[test]
fn tokenize_simple_call() {
    assert_eq!(
        tokenize("(+ 1 2)"),
        Ok(vec![
            Token::LParen,
            symbol("+"),
            Token::Integer(1),
            Token::Integer(2),
            Token::RParen
        ])
    );
}

#[test]
fn tokenize_empty_text_gives_no_tokens() {
    assert_eq!(tokenize(""), Ok(vec![]));
    assert_eq!(tokenize("  \n \n"), Ok(vec![]));
}

#[test]
fn brackets_are_interchangeable() {
    assert_eq!(tokenize("[a)"), Ok(vec![Token::LParen, symbol("a"), Token::RParen]));
    assert_eq!(tokenize("(a]"), Ok(vec![Token::LParen, symbol("a"), Token::RParen]));
}

#[test]
fn comments_run_to_the_end_of_the_line() {
    assert_eq!(
        tokenize("a ; b c (\nd"),
        Ok(vec![symbol("a"), symbol("d")])
    );
    assert_eq!(tokenize("; only a comment"), Ok(vec![]));
}

#[test]
fn quote_family_tokens() {
    assert_eq!(
        tokenize("'a `b ,c ,@d"),
        Ok(vec![
            Token::Quote,
            symbol("a"),
            Token::QuasiQuote,
            symbol("b"),
            Token::UnQuote,
            symbol("c"),
            Token::UnQuoteSplicing,
            symbol("d"),
        ])
    );
}

#[test]
fn an_at_sign_alone_starts_a_symbol() {
    assert_eq!(tokenize("@x"), Ok(vec![symbol("@x")]));
}

#[test]
fn strings_hold_what_stands_between_the_quotes() {
    assert_eq!(
        tokenize("\"hello (world)\" x"),
        Ok(vec![Token::Str("hello (world)".to_string()), symbol("x")])
    );
    assert_eq!(tokenize("\"\""), Ok(vec![Token::Str(String::new())]));
}

#[test]
fn unterminated_string_is_an_error() {
    assert_eq!(tokenize("(a \"bc"), Err(LexError::UnterminatedString));
    assert_eq!(tokenize("\""), Err(LexError::UnterminatedString));
}

#[test]
fn hash_forms() {
    assert_eq!(
        tokenize("#t #f #\\a #\\("),
        Ok(vec![
            Token::Boolean(true),
            Token::Boolean(false),
            Token::Chr('a'),
            Token::Chr('('),
        ])
    );
}

#[test]
fn unknown_hash_form_is_an_error() {
    assert_eq!(tokenize("#x"), Err(LexError::UnknownHash('x')));
    assert_eq!(tokenize("#(1 2)"), Err(LexError::UnknownHash('(')));
    assert_eq!(tokenize("#"), Err(LexError::IncompleteHash));
    assert_eq!(tokenize("#\\"), Err(LexError::IncompleteHash));
}

#[test]
fn integers_with_and_without_sign() {
    assert_eq!(
        tokenize("0 42 -7 +9 007"),
        Ok(vec![
            Token::Integer(0),
            Token::Integer(42),
            Token::Integer(-7),
            Token::Integer(9),
            Token::Integer(7),
        ])
    );
    assert_eq!(
        tokenize("9223372036854775807 -9223372036854775808"),
        Ok(vec![Token::Integer(i64::MAX), Token::Integer(i64::MIN)])
    );
}

#[test]
fn decimals_keep_significand_and_exponent() {
    assert_eq!(
        tokenize("2.0 2.5 -0.125 1e3 1.5E-2 .5 5. +3.25"),
        Ok(vec![
            Token::Float(Decimal { m: 20, e: -1 }),
            Token::Float(Decimal { m: 25, e: -1 }),
            Token::Float(Decimal { m: -125, e: -3 }),
            Token::Float(Decimal { m: 1, e: 3 }),
            Token::Float(Decimal { m: 15, e: -3 }),
            Token::Float(Decimal { m: 5, e: -1 }),
            Token::Float(Decimal { m: 5, e: 0 }),
            Token::Float(Decimal { m: 325, e: -2 }),
        ])
    );
}

#[test]
fn a_number_too_long_for_the_machine_is_a_symbol() {
    assert_eq!(
        tokenize("9223372036854775808"),
        Ok(vec![symbol("9223372036854775808")])
    );
    assert_eq!(
        tokenize("1.00000000000000000000"),
        Ok(vec![symbol("1.00000000000000000000")])
    );
}

#[test]
fn fractions_are_reduced() {
    assert_eq!(
        tokenize("1/2 2/4 -6/8 3/-6"),
        Ok(vec![
            Token::Fraction(Fraction { n: 1, d: 2 }),
            Token::Fraction(Fraction { n: 1, d: 2 }),
            Token::Fraction(Fraction { n: -3, d: 4 }),
            Token::Fraction(Fraction { n: -1, d: 2 }),
        ])
    );
}

#[test]
fn a_fraction_whose_denominator_divides_is_an_integer() {
    assert_eq!(
        tokenize("4/2 -9/3 0/5 7/1"),
        Ok(vec![
            Token::Integer(2),
            Token::Integer(-3),
            Token::Integer(0),
            Token::Integer(7),
        ])
    );
}

#[test]
fn what_is_no_number_is_a_symbol() {
    assert_eq!(
        tokenize("1/0 1/ /2 a/b 1e e5 - + 1.2.3 --1"),
        Ok(vec![
            symbol("1/0"),
            symbol("1/"),
            symbol("/2"),
            symbol("a/b"),
            symbol("1e"),
            symbol("e5"),
            symbol("-"),
            symbol("+"),
            symbol("1.2.3"),
            symbol("--1"),
        ])
    );
}

#[test]
fn dot_and_ellipsis() {
    assert_eq!(
        tokenize("(a . b) ... .."),
        Ok(vec![
            Token::LParen,
            symbol("a"),
            Token::Dot,
            symbol("b"),
            Token::RParen,
            Token::Ellipsis,
            symbol(".."),
        ])
    );
}

#[test]
fn a_symbol_runs_up_to_the_next_delimiter() {
    assert_eq!(
        tokenize("set! list-copy a(b a'b"),
        Ok(vec![
            symbol("set!"),
            symbol("list-copy"),
            symbol("a(b"),
            symbol("a'b"),
        ])
    );
    assert_eq!(
        tokenize("(ab)cd]ef"),
        Ok(vec![
            Token::LParen,
            symbol("ab"),
            Token::RParen,
            symbol("cd"),
            Token::RParen,
            symbol("ef"),
        ])
    );
}

#[test]
fn symbols_keep_characters_beyond_ascii() {
    assert_eq!(tokenize("λ über"), Ok(vec![symbol("λ"), symbol("über")]));
}

#[test]
fn token_get_maps_single_characters() {
    assert_eq!(Token::get('('), Token::LParen);
    assert_eq!(Token::get('['), Token::LParen);
    assert_eq!(Token::get(')'), Token::RParen);
    assert_eq!(Token::get(']'), Token::RParen);
    assert_eq!(Token::get('\''), Token::Quote);
    assert_eq!(Token::get('`'), Token::QuasiQuote);
    assert_eq!(Token::get(','), Token::UnQuote);
    assert_eq!(Token::get('@'), Token::UnQuoteSplicing);
    assert_eq!(Token::get('.'), Token::Dot);
    assert_eq!(Token::get('x'), Token::Chr('x'));
}

#[test]
fn scanner_helpers_look_without_taking() {
    let scanner = Scanner::new("ab");
    assert!(check_chr(&scanner, 'a'));
    assert!(!check_chr(&scanner, 'b'));
    assert!(check(&scanner, |c| c.is_alphabetic()));
    assert_eq!(scanner.pos, 0);
    let empty = Scanner::new("");
    assert!(!check_chr(&empty, 'a'));
    assert!(!check(&empty, |_| true));
}

#[test]
fn parse_whitespace_takes_one_blank() {
    let mut scanner = Scanner::new("  x");
    assert!(parse_whitespace(&mut scanner));
    assert_eq!(scanner.pos, 1);
    assert!(parse_whitespace(&mut scanner));
    assert!(!parse_whitespace(&mut scanner));
    assert_eq!(scanner.pos, 2);
}

#[test]
fn parse_comment_stops_before_the_line_end() {
    let mut scanner = Scanner::new("; note\nx");
    assert!(parse_comment(&mut scanner));
    assert_eq!(scanner.pos, 6);
    assert!(!parse_comment(&mut scanner));
    assert_eq!(scanner.pos, 6);
}

#[test]
fn parse_string_and_hash_leave_other_text_alone() {
    let mut scanner = Scanner::new("abc");
    assert_eq!(parse_string(&mut scanner), Ok(None));
    assert_eq!(parse_hash(&mut scanner), Ok(None));
    assert_eq!(scanner.pos, 0);
    assert_eq!(parse_symbol(&mut scanner), Some(symbol("abc")));
    assert_eq!(scanner.pos, 3);
    assert_eq!(parse_symbol(&mut scanner), None);
}

#[test]
fn take_until_returns_what_it_took() {
    let mut scanner = Scanner::new("abc def");
    let taken = scanner.take_until(|c| c != ' ');
    assert_eq!(taken, vec!['a', 'b', 'c']);
    assert_eq!(scanner.pos, 3);
    assert_eq!(scanner.next(), Some(' '));
    assert_eq!(scanner.peek(), Some('d'));
}

#[test]
fn numbers_of_all_kinds_compare_by_value() {
    let one = Token::Integer(1);
    let two = Token::Float(Decimal { m: 20, e: -1 });
    let half = Token::Fraction(Fraction { n: 1, d: 2 });
    assert_eq!(one.partial_cmp(&two), Some(Ordering::Less));
    assert_eq!(two.partial_cmp(&one), Some(Ordering::Greater));
    assert_eq!(half.partial_cmp(&one), Some(Ordering::Less));
    assert_eq!(half.partial_cmp(&Token::Float(Decimal { m: 5, e: -1 })), Some(Ordering::Equal));
    assert_eq!(
        Token::Integer(100).partial_cmp(&Token::Float(Decimal { m: 1, e: 2 })),
        Some(Ordering::Equal)
    );
    assert_eq!(
        Token::Fraction(Fraction { n: 1, d: 3 })
            .partial_cmp(&Token::Float(Decimal { m: 333333, e: -6 })),
        Some(Ordering::Greater)
    );
}

#[test]
fn huge_exponents_compare_without_overflow() {
    let big = Token::Float(Decimal { m: 1, e: i64::MAX });
    let small = Token::Float(Decimal { m: 1, e: i64::MIN });
    let negative = Token::Float(Decimal { m: -1, e: i64::MAX });
    assert_eq!(big.partial_cmp(&small), Some(Ordering::Greater));
    assert_eq!(small.partial_cmp(&big), Some(Ordering::Less));
    assert_eq!(negative.partial_cmp(&small), Some(Ordering::Less));
    assert_eq!(small.partial_cmp(&Token::Integer(0)), Some(Ordering::Greater));
    assert_eq!(
        Token::Integer(i64::MIN).partial_cmp(&Token::Float(Decimal { m: i64::MIN, e: 0 })),
        Some(Ordering::Equal)
    );
    assert_eq!(
        Token::Float(Decimal { m: 1, e: 37 }).partial_cmp(&Token::Integer(i64::MAX)),
        Some(Ordering::Greater)
    );
    assert_eq!(
        Token::Float(Decimal { m: 5, e: -37 })
            .partial_cmp(&Token::Fraction(Fraction { n: 1, d: i64::MAX })),
        Some(Ordering::Less)
    );
}

#[test]
fn other_atoms_compare_within_their_kind_only() {
    assert_eq!(
        Token::Str("abc".to_string()).partial_cmp(&Token::Str("abd".to_string())),
        Some(Ordering::Less)
    );
    assert_eq!(
        Token::Str("ab".to_string()).partial_cmp(&Token::Str("a".to_string())),
        Some(Ordering::Greater)
    );
    assert_eq!(symbol("x").partial_cmp(&symbol("x")), Some(Ordering::Equal));
    assert_eq!(Token::Chr('a').partial_cmp(&Token::Chr('b')), Some(Ordering::Less));
    assert_eq!(
        Token::Boolean(false).partial_cmp(&Token::Boolean(true)),
        Some(Ordering::Less)
    );
    assert_eq!(Token::Str("a".to_string()).partial_cmp(&symbol("a")), None);
    assert_eq!(Token::Integer(1).partial_cmp(&Token::Chr('1')), None);
    assert_eq!(Token::LParen.partial_cmp(&Token::LParen), None);
    assert_eq!(
        Token::Fraction(Fraction { n: 1, d: 0 }).partial_cmp(&Token::Integer(1)),
        None
    );
}
