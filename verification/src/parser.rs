//! Expressions, and the parser that reads them from tokens.

use vstd::prelude::*;
use crate::env::EnvRef;
use crate::lexer::{SpecToken, Token, token_views};
use crate::procedure::{CompoundData, PrimitiveData, ProcedureData, SpecProc};
use crate::semantics::{dotted, pair_list, symbol};

verus! {

/// A value of the language, which is also its syntax tree.
#[derive(Debug, PartialEq)]
pub enum Expr {
    /// A literal or a symbol.
    Atom(Token),
    /// A proper list.
    List(Vec<Expr>),
    /// An improper list: head elements, then a tail that is no list.
    DottedList(Vec<Expr>, Box<Expr>),
    Procedure(ProcedureData),
    /// An expression bound but not yet evaluated, with the scope to
    /// evaluate it in. It is evaluated each time it is read; the value is
    /// not kept.
    Lazy(Box<Expr>, EnvRef),
    /// The value of a form that has no meaningful value.
    Unspecified,
}

/// The mathematical value of an [`Expr`].
pub ghost enum SpecExpr {
    Atom(SpecToken),
    List(Seq<SpecExpr>),
    DottedList(Seq<SpecExpr>, Box<SpecExpr>),
    Procedure(SpecProc),
    Lazy(Box<SpecExpr>, EnvRef),
    Unspecified,
}

/// The views of a sequence of expressions, in order.
pub open spec fn views(xs: Seq<Expr>) -> Seq<SpecExpr>
    decreases xs,
{
    Seq::new(
        xs.len(),
        |i: int|
            if 0 <= i < xs.len() {
                xs[i].view()
            } else {
                SpecExpr::Unspecified
            },
    )
}

impl Expr {
    pub open spec fn view(&self) -> SpecExpr
        decreases self,
    {
        match self {
            Expr::Atom(t) => SpecExpr::Atom(t@),
            Expr::List(xs) => SpecExpr::List(views(xs@)),
            Expr::DottedList(xs, t) => SpecExpr::DottedList(views(xs@), Box::new(t.view())),
            Expr::Procedure(p) => SpecExpr::Procedure(
                match p {
                    ProcedureData::Primitive(d) => SpecProc::Primitive(d.fun),
                    ProcedureData::Compound(d) => SpecProc::Compound(
                        d.params@,
                        views(d.body@),
                        d.env,
                    ),
                },
            ),
            Expr::Lazy(e, env) => SpecExpr::Lazy(Box::new(e.view()), *env),
            Expr::Unspecified => SpecExpr::Unspecified,
        }
    }
}

/// A copy of each expression, in order.
pub fn clone_exprs(v: &Vec<Expr>) -> (r: Vec<Expr>)
    ensures
        views(r@) == views(v@),
    decreases v,
{
    let mut r: Vec<Expr> = Vec::new();
    let mut i: usize = 0;
    while i < v.len()
        invariant
            i <= v.len(),
            r.len() == i,
            forall|j: int| 0 <= j < i ==> r[j]@ == v[j]@,
        decreases v.len() - i,
    {
        r.push(v[i].clone());
        i += 1;
    }
    assert(views(r@) =~= views(v@));
    r
}

impl Clone for Expr {
    fn clone(&self) -> (r: Expr)
        ensures
            r@ == self@,
        decreases self,
    {
        match self {
            Expr::Atom(t) => Expr::Atom(t.clone()),
            Expr::List(xs) => Expr::List(clone_exprs(xs)),
            Expr::DottedList(xs, t) => Expr::DottedList(clone_exprs(xs), Box::new((**t).clone())),
            Expr::Procedure(p) => match p {
                ProcedureData::Primitive(d) => Expr::Procedure(
                    ProcedureData::Primitive(PrimitiveData { fun: d.fun }),
                ),
                ProcedureData::Compound(d) => Expr::Procedure(
                    ProcedureData::Compound(
                        CompoundData {
                            params: d.params.clone(),
                            body: clone_exprs(&d.body),
                            env: d.env,
                        },
                    ),
                ),
            },
            Expr::Lazy(e, env) => Expr::Lazy(Box::new((**e).clone()), *env),
            Expr::Unspecified => Expr::Unspecified,
        }
    }
}

impl Expr {
    /// The symbol of this name.
    pub fn symbol(name: &str) -> (r: Expr)
        ensures
            r@ == crate::semantics::symbol(name@),
    {
        Expr::Atom(Token::Symbol(name.to_owned()))
    }

    pub fn boolean(b: bool) -> (r: Expr)
        ensures
            r@ == crate::semantics::boolean(b),
    {
        Expr::Atom(Token::Boolean(b))
    }

    /// The improper list of `heads` followed by `tail`, in its normal form:
    /// a tail that is itself a list is spliced in, and with no heads the
    /// tail stands alone.
    pub fn dottedlist(heads: Vec<Expr>, tail: Expr) -> (r: Expr)
        ensures
            r@ == crate::semantics::dotted(views(heads@), tail@),
    {
        let mut heads = heads;
        match tail {
            Expr::List(xs) => {
                let mut xs = xs;
                assert(views(heads@ + xs@) =~= views(heads@) + views(xs@));
                heads.append(&mut xs);
                Expr::List(heads)
            },
            Expr::DottedList(xs, t) => {
                let mut xs = xs;
                assert(views(heads@ + xs@) =~= views(heads@) + views(xs@));
                heads.append(&mut xs);
                Expr::DottedList(heads, t)
            },
            t => {
                if heads.len() == 0 {
                    t
                } else {
                    Expr::DottedList(heads, Box::new(t))
                }
            },
        }
    }

    /// Whether this is the two-element list that begins with the symbol `name`.
    pub fn is_tagged(&self, name: &str) -> (b: bool)
        ensures
            b == crate::semantics::is_tagged(self@, name@),
    {
        match self {
            Expr::List(items) => {
                if items.len() == 2 {
                    assert(views(items@)[0] == items[0]@);
                    match &items[0] {
                        Expr::Atom(Token::Symbol(s)) => *s == name.to_owned(),
                        _ => false,
                    }
                } else {
                    false
                }
            },
            _ => false,
        }
    }

    /// The two-element list of `head` and `v`.
    pub fn pair(head: Expr, v: Expr) -> (r: Expr)
        ensures
            r@ == crate::semantics::pair_list(head@, v@),
    {
        let mut items: Vec<Expr> = Vec::new();
        items.push(head);
        items.push(v);
        assert(views(items@) =~= seq![head@, v@]);
        Expr::List(items)
    }
}

/// Why a sequence of tokens could not be read as expressions.
#[derive(Clone, Copy, Debug, PartialEq, Eq, Structural)]
pub enum ParseError {
    /// The tokens ended inside a list, or after a quote mark.
    UnexpectedEnd,
    /// A closing parenthesis, at this index, that closes nothing.
    UnexpectedRParen(usize),
    /// A dot, at this index, where no dotted tail can stand.
    UnexpectedDot(usize),
    /// A parenthesis or a quote mark, at this index, that nests deeper than
    /// the parser goes.
    TooDeep(usize),
}

/// How deep lists and quote marks may nest in what the parser reads. The
/// parser calls itself once for each level, and the limit keeps that within
/// the stack of any thread.
pub const MAX_NESTING: usize = 256;

// ---------------------------------------------------------------------
// What the parser computes
// ---------------------------------------------------------------------

/// The name of the form that a quote mark abbreviates.
pub open spec fn quote_name(t: SpecToken) -> Option<Seq<char>> {
    match t {
        SpecToken::Quote => Some("quote"@),
        SpecToken::QuasiQuote => Some("quasiquote"@),
        SpecToken::UnQuote => Some("unquote"@),
        SpecToken::UnQuoteSplicing => Some("unquote-splicing"@),
        _ => None,
    }
}

/// The expression that starts at index `i`, and the index behind it, where
/// lists and quote marks may nest `k` deep.
///
/// An opening parenthesis starts a list; a quote mark followed by an
/// expression `x` is the list of the mark's name and `x`; any token but a
/// closing parenthesis and a dot is an atom.
pub open spec fn parse_expr(ts: Seq<SpecToken>, i: int, k: nat) -> Result<
    (SpecExpr, int),
    ParseError,
>
    decreases ts.len() - i, 0nat,
{
    if 0 <= i < ts.len() {
        match ts[i] {
            SpecToken::LParen => if k == 0 {
                Err(ParseError::TooDeep(i as usize))
            } else {
                parse_items(ts, i + 1, Seq::empty(), (k - 1) as nat)
            },
            SpecToken::RParen => Err(ParseError::UnexpectedRParen(i as usize)),
            SpecToken::Dot => Err(ParseError::UnexpectedDot(i as usize)),
            t => match quote_name(t) {
                Some(name) => if k == 0 {
                    Err(ParseError::TooDeep(i as usize))
                } else {
                    match parse_expr(ts, i + 1, (k - 1) as nat) {
                        Ok((e, j)) => Ok((pair_list(symbol(name), e), j)),
                        Err(e) => Err(e),
                    }
                },
                None => Ok((SpecExpr::Atom(t), i + 1)),
            },
        }
    } else {
        Err(ParseError::UnexpectedEnd)
    }
}

/// The list whose elements from index `i` on follow the elements `acc`,
/// and the index behind its closing parenthesis, where the elements may
/// nest `k` deep. A dot, which must follow at least one element, makes the
/// one expression behind it the tail.
pub open spec fn parse_items(ts: Seq<SpecToken>, i: int, acc: Seq<SpecExpr>, k: nat) -> Result<
    (SpecExpr, int),
    ParseError,
>
    decreases ts.len() - i, 1nat,
{
    if 0 <= i < ts.len() {
        match ts[i] {
            SpecToken::RParen => Ok((SpecExpr::List(acc), i + 1)),
            SpecToken::Dot => if acc.len() == 0 {
                Err(ParseError::UnexpectedDot(i as usize))
            } else {
                match parse_expr(ts, i + 1, k) {
                    Ok((tail, j)) => if 0 <= j < ts.len() {
                        if ts[j] is RParen {
                            Ok((dotted(acc, tail), j + 1))
                        } else {
                            Err(ParseError::UnexpectedDot(i as usize))
                        }
                    } else {
                        Err(ParseError::UnexpectedEnd)
                    },
                    Err(e) => Err(e),
                }
            },
            _ => match parse_expr(ts, i, k) {
                Ok((e, j)) => if i < j <= ts.len() {
                    parse_items(ts, j, acc.push(e), k)
                } else {
                    Err(ParseError::UnexpectedEnd)
                },
                Err(e) => Err(e),
            },
        }
    } else {
        Err(ParseError::UnexpectedEnd)
    }
}

/// The expressions from index `i` on, after the expressions `acc`, where
/// each may nest `k` deep.
pub open spec fn parse_all(ts: Seq<SpecToken>, i: int, acc: Seq<SpecExpr>, k: nat) -> Result<
    Seq<SpecExpr>,
    ParseError,
>
    decreases ts.len() - i,
{
    if 0 <= i < ts.len() {
        match parse_expr(ts, i, k) {
            Ok((e, j)) => if i < j <= ts.len() {
                parse_all(ts, j, acc.push(e), k)
            } else {
                Err(ParseError::UnexpectedEnd)
            },
            Err(e) => Err(e),
        }
    } else {
        Ok(acc)
    }
}

/// The expressions that a sequence of tokens writes, one for each
/// top-level form.
pub open spec fn parse_spec(ts: Seq<SpecToken>) -> Result<Seq<SpecExpr>, ParseError> {
    parse_all(ts, 0, Seq::empty(), MAX_NESTING as nat)
}

// ---------------------------------------------------------------------
// The parser
// ---------------------------------------------------------------------

/// The expression that starts at index `i`, and the index behind it.
pub fn parse_one(tokens: &Vec<Token>, i: usize, depth: usize) -> (r: Result<
    (Expr, usize),
    ParseError,
>)
    ensures
        match parse_expr(token_views(tokens@), i as int, depth as nat) {
            Ok((e, j)) => r is Ok && r->Ok_0.0@ == e && r->Ok_0.1 == j && i < j <= tokens.len(),
            Err(e) => r == Err::<(Expr, usize), ParseError>(e),
        },
    decreases tokens.len() - i, 0nat,
{
    if i >= tokens.len() {
        return Err(ParseError::UnexpectedEnd);
    }
    assert(token_views(tokens@)[i as int] == tokens[i as int]@);
    let name = match &tokens[i] {
        Token::LParen => {
            if depth == 0 {
                return Err(ParseError::TooDeep(i));
            }
            return parse_list(tokens, i + 1, depth - 1);
        },
        Token::RParen => {
            return Err(ParseError::UnexpectedRParen(i));
        },
        Token::Dot => {
            return Err(ParseError::UnexpectedDot(i));
        },
        Token::Quote => "quote",
        Token::QuasiQuote => "quasiquote",
        Token::UnQuote => "unquote",
        Token::UnQuoteSplicing => "unquote-splicing",
        t => {
            return Ok((Expr::Atom(t.clone()), i + 1));
        },
    };
    if depth == 0 {
        return Err(ParseError::TooDeep(i));
    }
    match parse_one(tokens, i + 1, depth - 1) {
        Ok((e, j)) => Ok((Expr::pair(Expr::symbol(name), e), j)),
        Err(e) => Err(e),
    }
}

/// The list whose elements start at index `start`, behind its opening
/// parenthesis, and the index behind its closing parenthesis.
pub fn parse_list(tokens: &Vec<Token>, start: usize, depth: usize) -> (r: Result<
    (Expr, usize),
    ParseError,
>)
    ensures
        match parse_items(token_views(tokens@), start as int, Seq::empty(), depth as nat) {
            Ok((e, j)) => r is Ok && r->Ok_0.0@ == e && r->Ok_0.1 == j && start < j
                <= tokens.len(),
            Err(e) => r == Err::<(Expr, usize), ParseError>(e),
        },
    decreases tokens.len() - start, 1nat,
{
    let ghost ts = token_views(tokens@);
    let mut items: Vec<Expr> = Vec::new();
    let mut i: usize = start;
    assert(views(items@) =~= Seq::<SpecExpr>::empty());
    loop
        invariant
            start <= i,
            ts == token_views(tokens@),
            parse_items(ts, i as int, views(items@), depth as nat) == parse_items(
                ts,
                start as int,
                Seq::empty(),
                depth as nat,
            ),
        decreases tokens.len() - i,
    {
        if i >= tokens.len() {
            return Err(ParseError::UnexpectedEnd);
        }
        assert(ts[i as int] == tokens[i as int]@);
        match &tokens[i] {
            Token::RParen => {
                return Ok((Expr::List(items), i + 1));
            },
            Token::Dot => {
                assert(views(items@).len() == items.len());
                if items.len() == 0 {
                    return Err(ParseError::UnexpectedDot(i));
                }
                match parse_one(tokens, i + 1, depth) {
                    Ok((tail, j)) => {
                        if j >= tokens.len() {
                            return Err(ParseError::UnexpectedEnd);
                        }
                        assert(ts[j as int] == tokens[j as int]@);
                        match &tokens[j] {
                            Token::RParen => {
                                return Ok((Expr::dottedlist(items, tail), j + 1));
                            },
                            _ => {
                                return Err(ParseError::UnexpectedDot(i));
                            },
                        }
                    },
                    Err(e) => {
                        return Err(e);
                    },
                }
            },
            _ => {
                match parse_one(tokens, i, depth) {
                    Ok((e, j)) => {
                        assert(views(items@.push(e)) =~= views(items@).push(e@));
                        items.push(e);
                        i = j;
                    },
                    Err(e) => {
                        return Err(e);
                    },
                }
            },
        }
    }
}

/// Read a sequence of tokens as expressions, one for each top-level form.
///
/// Fails where the parentheses do not balance: on a closing parenthesis
/// that closes nothing, and on tokens that end inside a list. Fails also
/// on a dot that does not stand before the last expression of a list, and
/// on lists and quote marks that nest deeper than [`MAX_NESTING`].
pub fn parse(tokens: Vec<Token>) -> (r: Result<Vec<Expr>, ParseError>)
    ensures
        match parse_spec(token_views(tokens@)) {
            Ok(es) => r is Ok && views(r->Ok_0@) == es,
            Err(e) => r == Err::<Vec<Expr>, ParseError>(e),
        },
{
    let ghost ts = token_views(tokens@);
    let mut exprs: Vec<Expr> = Vec::new();
    let mut i: usize = 0;
    assert(views(exprs@) =~= Seq::<SpecExpr>::empty());
    while i < tokens.len()
        invariant
            ts == token_views(tokens@),
            parse_all(ts, i as int, views(exprs@), MAX_NESTING as nat) == parse_spec(ts),
        decreases tokens.len() - i,
    {
        match parse_one(&tokens, i, MAX_NESTING) {
            Ok((e, j)) => {
                assert(views(exprs@.push(e)) =~= views(exprs@).push(e@));
                exprs.push(e);
                i = j;
            },
            Err(e) => {
                return Err(e);
            },
        }
    }
    Ok(exprs)
}

} // verus!
