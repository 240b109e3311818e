//! Expressions as text.
//!
//! An expression is written as the tokens that the parser reads it from,
//! and tokens are written with one blank between neighbours, but none
//! behind an opening and none before a closing parenthesis.

use vstd::prelude::*;
use crate::lexer::{SpecToken, Token, token_views};
use crate::parser::{Expr, SpecExpr, views};
use crate::text::{decimal_text, int_text, push_decimal, push_int, push_text, text_of};

verus! {

/// A token as text.
pub open spec fn token_text(t: SpecToken) -> Seq<char> {
    match t {
        SpecToken::LParen => seq!['('],
        SpecToken::RParen => seq![')'],
        SpecToken::Symbol(s) => s,
        SpecToken::Integer(i) => int_text(i as int),
        SpecToken::Fraction(f) => int_text(f.n as int) + seq!['/'] + int_text(f.d as int),
        SpecToken::Float(x) => decimal_text(x.m as int, x.e as int),
        SpecToken::Boolean(b) => if b {
            seq!['#', 't']
        } else {
            seq!['#', 'f']
        },
        SpecToken::Chr(c) => seq!['#', '\\', c],
        SpecToken::Str(s) => seq!['"'] + s + seq!['"'],
        SpecToken::Dot => seq!['.'],
        SpecToken::Ellipsis => seq!['.', '.', '.'],
        SpecToken::Quote => seq!['\''],
        SpecToken::QuasiQuote => seq!['`'],
        SpecToken::UnQuote => seq![','],
        SpecToken::UnQuoteSplicing => seq![',', '@'],
    }
}

/// The tokens that write an expression: an atom is its token, a list is
/// its elements between parentheses, an improper list has a dot before its
/// tail. What has no written form stands as a symbol that says so.
pub open spec fn unparse(e: SpecExpr) -> Seq<SpecToken>
    decreases e, 0nat,
{
    match e {
        SpecExpr::Atom(t) => seq![t],
        SpecExpr::List(items) => seq![SpecToken::LParen] + unparse_items(items, 0) + seq![
            SpecToken::RParen,
        ],
        SpecExpr::DottedList(items, tail) => seq![SpecToken::LParen] + unparse_items(items, 0)
            + seq![SpecToken::Dot] + unparse(*tail) + seq![SpecToken::RParen],
        SpecExpr::Procedure(_) => seq![SpecToken::Symbol("#<procedure>"@)],
        SpecExpr::Lazy(_, _) => seq![SpecToken::Symbol("#<lazy>"@)],
        SpecExpr::Unspecified => seq![SpecToken::Symbol("#<unspecified>"@)],
    }
}

/// The tokens of the expressions from index `i` on.
pub open spec fn unparse_items(items: Seq<SpecExpr>, i: int) -> Seq<SpecToken>
    decreases items, items.len() - i,
{
    if 0 <= i < items.len() {
        unparse(items[i]) + unparse_items(items, i + 1)
    } else {
        Seq::empty()
    }
}

/// Whether a blank stands between two neighbours.
pub open spec fn needs_blank(prev: SpecToken, next: SpecToken) -> bool {
    !(prev is LParen) && !(next is RParen)
}

/// What stands before the token at index `i`: a blank or nothing.
pub open spec fn gap(ts: Seq<SpecToken>, i: int) -> Seq<char> {
    if i > 0 && needs_blank(ts[i - 1], ts[i]) {
        seq![' ']
    } else {
        Seq::empty()
    }
}

/// The tokens from index `i` on as text, each with what stands before it.
pub open spec fn join_from(ts: Seq<SpecToken>, i: int) -> Seq<char>
    decreases ts.len() - i,
{
    if 0 <= i < ts.len() {
        gap(ts, i) + token_text(ts[i]) + join_from(ts, i + 1)
    } else {
        Seq::empty()
    }
}

/// Tokens as text.
pub open spec fn join(ts: Seq<SpecToken>) -> Seq<char> {
    join_from(ts, 0)
}

/// An expression as text.
pub open spec fn render(e: SpecExpr) -> Seq<char> {
    join(unparse(e))
}

/// Expressions as text, one after the other.
pub open spec fn render_all(es: Seq<SpecExpr>) -> Seq<char> {
    join(unparse_items(es, 0))
}

/// Append a token, as text, to `out`.
pub fn write_token(t: &Token, out: &mut Vec<char>)
    ensures
        final(out)@ == old(out)@ + token_text(t@),
{
    match t {
        Token::LParen => {
            out.push('(');
            assert(out@ =~= old(out)@ + seq!['(']);
        },
        Token::RParen => {
            out.push(')');
            assert(out@ =~= old(out)@ + seq![')']);
        },
        Token::Symbol(s) => {
            push_text(out, s.as_str());
        },
        Token::Integer(i) => {
            push_int(out, *i);
        },
        Token::Fraction(f) => {
            push_int(out, f.n);
            out.push('/');
            push_int(out, f.d);
            assert(out@ =~= old(out)@ + (int_text(f.n as int) + seq!['/'] + int_text(f.d as int)));
        },
        Token::Float(x) => {
            push_decimal(out, *x);
        },
        Token::Boolean(b) => {
            out.push('#');
            if *b {
                out.push('t');
                assert(out@ =~= old(out)@ + seq!['#', 't']);
            } else {
                out.push('f');
                assert(out@ =~= old(out)@ + seq!['#', 'f']);
            }
        },
        Token::Chr(c) => {
            out.push('#');
            out.push('\\');
            out.push(*c);
            assert(out@ =~= old(out)@ + seq!['#', '\\', *c]);
        },
        Token::Str(s) => {
            out.push('"');
            push_text(out, s.as_str());
            out.push('"');
            assert(out@ =~= old(out)@ + (seq!['"'] + s@ + seq!['"']));
        },
        Token::Dot => {
            out.push('.');
            assert(out@ =~= old(out)@ + seq!['.']);
        },
        Token::Ellipsis => {
            out.push('.');
            out.push('.');
            out.push('.');
            assert(out@ =~= old(out)@ + seq!['.', '.', '.']);
        },
        Token::Quote => {
            out.push('\'');
            assert(out@ =~= old(out)@ + seq!['\'']);
        },
        Token::QuasiQuote => {
            out.push('`');
            assert(out@ =~= old(out)@ + seq!['`']);
        },
        Token::UnQuote => {
            out.push(',');
            assert(out@ =~= old(out)@ + seq![',']);
        },
        Token::UnQuoteSplicing => {
            out.push(',');
            out.push('@');
            assert(out@ =~= old(out)@ + seq![',', '@']);
        },
    }
}

/// Append the tokens of the expressions to `out`.
pub fn unparse_all_into(items: &Vec<Expr>, out: &mut Vec<Token>)
    ensures
        token_views(final(out)@) == token_views(old(out)@) + unparse_items(views(items@), 0),
    decreases items, 1nat,
{
    let mut i: usize = 0;
    assert(token_views(out@) + Seq::<SpecToken>::empty() =~= token_views(out@));
    while i < items.len()
        invariant
            i <= items.len(),
            token_views(out@) + unparse_items(views(items@), i as int) == token_views(old(out)@)
                + unparse_items(views(items@), 0),
        decreases items.len() - i,
    {
        let ghost before = token_views(out@);
        assert(views(items@)[i as int] == items[i as int]@);
        unparse_into(&items[i], out);
        assert(token_views(out@) + unparse_items(views(items@), i + 1) =~= before + unparse_items(
            views(items@),
            i as int,
        ));
        i += 1;
    }
    assert(token_views(out@) + unparse_items(views(items@), i as int) =~= token_views(out@));
}

fn push_token(out: &mut Vec<Token>, t: Token)
    ensures
        token_views(final(out)@) == token_views(old(out)@) + seq![t@],
{
    out.push(t);
    assert(token_views(out@) =~= token_views(old(out)@) + seq![t@]);
}

/// Append the tokens of the expression to `out`.
pub fn unparse_into(e: &Expr, out: &mut Vec<Token>)
    ensures
        token_views(final(out)@) == token_views(old(out)@) + unparse(e@),
    decreases e, 0nat,
{
    let ghost start = token_views(out@);
    match e {
        Expr::Atom(t) => {
            push_token(out, t.clone());
        },
        Expr::List(items) => {
            push_token(out, Token::LParen);
            unparse_all_into(items, out);
            push_token(out, Token::RParen);
            assert(token_views(out@) =~= start + (seq![SpecToken::LParen] + unparse_items(
                views(items@),
                0,
            ) + seq![SpecToken::RParen]));
        },
        Expr::DottedList(items, tail) => {
            push_token(out, Token::LParen);
            unparse_all_into(items, out);
            push_token(out, Token::Dot);
            unparse_into(&**tail, out);
            push_token(out, Token::RParen);
            assert(token_views(out@) =~= start + (seq![SpecToken::LParen] + unparse_items(
                views(items@),
                0,
            ) + seq![SpecToken::Dot] + unparse(tail@) + seq![SpecToken::RParen]));
        },
        Expr::Procedure(_) => {
            push_token(out, Token::Symbol("#<procedure>".to_owned()));
        },
        Expr::Lazy(_, _) => {
            push_token(out, Token::Symbol("#<lazy>".to_owned()));
        },
        Expr::Unspecified => {
            push_token(out, Token::Symbol("#<unspecified>".to_owned()));
        },
    }
}

/// Tokens as text: one blank between neighbours, but none behind an
/// opening and none before a closing parenthesis.
pub fn join_tokens(tokens: &Vec<Token>) -> (s: String)
    ensures
        s@ == join(token_views(tokens@)),
{
    let ghost ts = token_views(tokens@);
    let mut out: Vec<char> = Vec::new();
    let mut i: usize = 0;
    assert(out@ + join_from(ts, 0) =~= join(ts));
    while i < tokens.len()
        invariant
            i <= tokens.len(),
            ts == token_views(tokens@),
            out@ + join_from(ts, i as int) == join(ts),
        decreases tokens.len() - i,
    {
        let ghost before = out@;
        assert(ts[i as int] == tokens[i as int]@);
        if i > 0 {
            assert(ts[i - 1] == tokens[i - 1]@);
            let blank = match (&tokens[i - 1], &tokens[i]) {
                (Token::LParen, _) => false,
                (_, Token::RParen) => false,
                _ => true,
            };
            if blank {
                out.push(' ');
            }
        }
        assert(out@ =~= before + gap(ts, i as int));
        write_token(&tokens[i], &mut out);
        assert(out@ + join_from(ts, i + 1) =~= before + join_from(ts, i as int));
        i += 1;
    }
    assert(out@ + join_from(ts, i as int) =~= out@);
    text_of(&out, 0, out.len())
}

impl Token {
    /// The token as text.
    pub fn to_text(&self) -> (s: String)
        ensures
            s@ == token_text(self@),
    {
        let mut out: Vec<char> = Vec::new();
        write_token(self, &mut out);
        assert(out@ =~= token_text(self@));
        text_of(&out, 0, out.len())
    }
}

impl Expr {
    /// The tokens that write the expression.
    pub fn to_tokens(&self) -> (r: Vec<Token>)
        ensures
            token_views(r@) == unparse(self@),
    {
        let mut out: Vec<Token> = Vec::new();
        unparse_into(self, &mut out);
        assert(token_views(out@) =~= unparse(self@));
        out
    }

    /// The expression as text.
    pub fn to_text(&self) -> (s: String)
        ensures
            s@ == render(self@),
    {
        join_tokens(&self.to_tokens())
    }
}

/// Expressions as text, one after the other.
pub fn render_exprs(exprs: &Vec<Expr>) -> (s: String)
    ensures
        s@ == render_all(views(exprs@)),
{
    let mut out: Vec<Token> = Vec::new();
    unparse_all_into(exprs, &mut out);
    assert(token_views(out@) =~= unparse_items(views(exprs@), 0));
    join_tokens(&out)
}

} // verus!
