//! Errors of evaluation. Every failure of the interpreter is one of these
//! values; nothing in the library aborts.

use vstd::prelude::*;
use crate::lexer::LexError;
use crate::parser::{Expr, ParseError, SpecExpr};
use crate::printer::render;
use crate::text::{digits_of, push_digits, push_text, text_of};

verus! {

/// What kind of value an operation asked for.
#[derive(Clone, Copy, Debug, PartialEq, Eq, Structural)]
pub enum Kind {
    Boolean,
    Integer,
    Number,
    Symbol,
    Atom,
    List,
    ParameterList,
    Comparable,
}

#[derive(Debug, PartialEq)]
pub enum SErr {
    /// No scope on the chain binds this name.
    UnboundVariable(String),
    /// A procedure wanted the first number of arguments and got the second.
    WrongArgCount(usize, usize),
    /// A value of the named kind was wanted; this one was given.
    TypeMismatch(Kind, Expr),
    /// The expression has a shape that cannot be used where it stands.
    UnexpectedForm(Expr),
    /// The value in operator position is no procedure.
    NotApplicable(Expr),
    Lex(LexError),
    Parse(ParseError),
    /// Evaluation nested deeper than the depth it was given.
    DepthExceeded,
    /// An exact result does not fit the integer type.
    Overflow,
    DivideByZero,
}

pub type SResult<T> = Result<T, SErr>;

/// The mathematical value of an [`SErr`].
pub ghost enum SpecErr {
    UnboundVariable(Seq<char>),
    WrongArgCount(usize, usize),
    TypeMismatch(Kind, SpecExpr),
    UnexpectedForm(SpecExpr),
    NotApplicable(SpecExpr),
    Lex(LexError),
    Parse(ParseError),
    DepthExceeded,
    Overflow,
    DivideByZero,
}

impl View for SErr {
    type V = SpecErr;

    open spec fn view(&self) -> SpecErr {
        match self {
            SErr::UnboundVariable(s) => SpecErr::UnboundVariable(s@),
            SErr::WrongArgCount(a, b) => SpecErr::WrongArgCount(*a, *b),
            SErr::TypeMismatch(k, e) => SpecErr::TypeMismatch(*k, e@),
            SErr::UnexpectedForm(e) => SpecErr::UnexpectedForm(e@),
            SErr::NotApplicable(e) => SpecErr::NotApplicable(e@),
            SErr::Lex(e) => SpecErr::Lex(*e),
            SErr::Parse(e) => SpecErr::Parse(*e),
            SErr::DepthExceeded => SpecErr::DepthExceeded,
            SErr::Overflow => SpecErr::Overflow,
            SErr::DivideByZero => SpecErr::DivideByZero,
        }
    }
}

impl Clone for SErr {
    fn clone(&self) -> (r: SErr)
        ensures
            r@ == self@,
    {
        match self {
            SErr::UnboundVariable(s) => SErr::UnboundVariable(s.clone()),
            SErr::WrongArgCount(a, b) => SErr::WrongArgCount(*a, *b),
            SErr::TypeMismatch(k, e) => SErr::TypeMismatch(*k, e.clone()),
            SErr::UnexpectedForm(e) => SErr::UnexpectedForm(e.clone()),
            SErr::NotApplicable(e) => SErr::NotApplicable(e.clone()),
            SErr::Lex(e) => SErr::Lex(*e),
            SErr::Parse(e) => SErr::Parse(*e),
            SErr::DepthExceeded => SErr::DepthExceeded,
            SErr::Overflow => SErr::Overflow,
            SErr::DivideByZero => SErr::DivideByZero,
        }
    }
}

/// The view of a result: the view of whichever side it holds.
pub open spec fn result_view(r: SResult<Expr>) -> Result<SpecExpr, SpecErr> {
    match r {
        Ok(e) => Ok(e@),
        Err(e) => Err(e@),
    }
}

/// The name of a kind, as it stands in messages.
pub open spec fn kind_text(k: Kind) -> Seq<char> {
    match k {
        Kind::Boolean => "boolean"@,
        Kind::Integer => "integer"@,
        Kind::Number => "exact number"@,
        Kind::Symbol => "symbol"@,
        Kind::Atom => "atom"@,
        Kind::List => "list"@,
        Kind::ParameterList => "parameter list"@,
        Kind::Comparable => "value that compares with the first"@,
    }
}

pub open spec fn lex_error_text(e: LexError) -> Seq<char> {
    match e {
        LexError::UnterminatedString => "string is not closed"@,
        LexError::IncompleteHash => "expected #t, #f or #\\<char>, got nothing"@,
        LexError::UnknownHash(c) => "expected #t, #f or #\\<char>, got #"@.push(c),
    }
}

pub open spec fn parse_error_text(e: ParseError) -> Seq<char> {
    match e {
        ParseError::UnexpectedEnd => "input ends inside a form"@,
        ParseError::UnexpectedRParen(i) => "nothing to close at token "@ + digits_of(i as nat),
        ParseError::UnexpectedDot(i) => "misplaced dot at token "@ + digits_of(i as nat),
        ParseError::TooDeep(i) => "nesting too deep at token "@ + digits_of(i as nat),
    }
}

/// An error as a message for a person.
pub open spec fn error_text(e: SpecErr) -> Seq<char> {
    match e {
        SpecErr::UnboundVariable(name) => "unbound variable: "@ + name,
        SpecErr::WrongArgCount(expected, got) => "wrong number of arguments: expected "@
            + digits_of(expected as nat) + ", got "@ + digits_of(got as nat),
        SpecErr::TypeMismatch(k, v) => "type mismatch: expected "@ + kind_text(k) + ", got "@
            + render(v),
        SpecErr::UnexpectedForm(v) => "unexpected form: "@ + render(v),
        SpecErr::NotApplicable(v) => "not applicable: "@ + render(v),
        SpecErr::Lex(e) => lex_error_text(e),
        SpecErr::Parse(e) => parse_error_text(e),
        SpecErr::DepthExceeded => "evaluation nests too deep"@,
        SpecErr::Overflow => "number is too large"@,
        SpecErr::DivideByZero => "division by zero"@,
    }
}

impl Kind {
    /// The name of the kind, as it stands in messages.
    pub fn name(&self) -> (s: &'static str)
        ensures
            s@ == kind_text(*self),
    {
        match self {
            Kind::Boolean => "boolean",
            Kind::Integer => "integer",
            Kind::Number => "exact number",
            Kind::Symbol => "symbol",
            Kind::Atom => "atom",
            Kind::List => "list",
            Kind::ParameterList => "parameter list",
            Kind::Comparable => "value that compares with the first",
        }
    }
}

impl SErr {
    /// The error as a message for a person.
    pub fn to_text(&self) -> (s: String)
        ensures
            s@ == error_text(self@),
    {
        let mut out: Vec<char> = Vec::new();
        match self {
            SErr::UnboundVariable(name) => {
                push_text(&mut out, "unbound variable: ");
                push_text(&mut out, name.as_str());
            },
            SErr::WrongArgCount(expected, got) => {
                push_text(&mut out, "wrong number of arguments: expected ");
                push_digits(&mut out, *expected as u64);
                push_text(&mut out, ", got ");
                push_digits(&mut out, *got as u64);
            },
            SErr::TypeMismatch(k, v) => {
                push_text(&mut out, "type mismatch: expected ");
                push_text(&mut out, k.name());
                push_text(&mut out, ", got ");
                push_text(&mut out, v.to_text().as_str());
            },
            SErr::UnexpectedForm(v) => {
                push_text(&mut out, "unexpected form: ");
                push_text(&mut out, v.to_text().as_str());
            },
            SErr::NotApplicable(v) => {
                push_text(&mut out, "not applicable: ");
                push_text(&mut out, v.to_text().as_str());
            },
            SErr::Lex(e) => {
                match e {
                    LexError::UnterminatedString => {
                        push_text(&mut out, "string is not closed");
                    },
                    LexError::IncompleteHash => {
                        push_text(&mut out, "expected #t, #f or #\\<char>, got nothing");
                    },
                    LexError::UnknownHash(c) => {
                        push_text(&mut out, "expected #t, #f or #\\<char>, got #");
                        out.push(*c);
                    },
                }
            },
            SErr::Parse(e) => {
                match e {
                    ParseError::UnexpectedEnd => {
                        push_text(&mut out, "input ends inside a form");
                    },
                    ParseError::UnexpectedRParen(i) => {
                        push_text(&mut out, "nothing to close at token ");
                        push_digits(&mut out, *i as u64);
                    },
                    ParseError::UnexpectedDot(i) => {
                        push_text(&mut out, "misplaced dot at token ");
                        push_digits(&mut out, *i as u64);
                    },
                    ParseError::TooDeep(i) => {
                        push_text(&mut out, "nesting too deep at token ");
                        push_digits(&mut out, *i as u64);
                    },
                }
            },
            SErr::DepthExceeded => {
                push_text(&mut out, "evaluation nests too deep");
            },
            SErr::Overflow => {
                push_text(&mut out, "number is too large");
            },
            SErr::DivideByZero => {
                push_text(&mut out, "division by zero");
            },
        }
        assert(out@ =~= error_text(self@));
        text_of(&out, 0, out.len())
    }
}

} // verus!
