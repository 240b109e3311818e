//! Tokens, and the lexer that cuts source text into them.

use vstd::prelude::*;
use std::cmp::Ordering;
use crate::number::{Decimal, Exact, Fraction, Scaled, compare_scaled, scaled_order};
use crate::text::{
    chars_of, lemma_span_end, lemma_span_end_is, parse_decimal, parse_decimal_of, parse_fraction,
    parse_fraction_of, parse_int, parse_int_in, span_end, text_of,
};

verus! {

/// One lexical unit.
#[derive(Debug, PartialEq)]
pub enum Token {
    LParen,
    RParen,
    Symbol(String),
    Integer(i64),
    Fraction(Fraction),
    Float(Decimal),
    Boolean(bool),
    Chr(char),
    Str(String),
    Dot,
    Ellipsis,
    Quote,
    QuasiQuote,
    UnQuote,
    UnQuoteSplicing,
}

/// The mathematical value of a [`Token`]: the same variants, with text as a
/// sequence of characters.
pub ghost enum SpecToken {
    LParen,
    RParen,
    Symbol(Seq<char>),
    Integer(i64),
    Fraction(Fraction),
    Float(Decimal),
    Boolean(bool),
    Chr(char),
    Str(Seq<char>),
    Dot,
    Ellipsis,
    Quote,
    QuasiQuote,
    UnQuote,
    UnQuoteSplicing,
}

impl View for Token {
    type V = SpecToken;

    open spec fn view(&self) -> SpecToken {
        match self {
            Token::LParen => SpecToken::LParen,
            Token::RParen => SpecToken::RParen,
            Token::Symbol(s) => SpecToken::Symbol(s@),
            Token::Integer(i) => SpecToken::Integer(*i),
            Token::Fraction(f) => SpecToken::Fraction(*f),
            Token::Float(d) => SpecToken::Float(*d),
            Token::Boolean(b) => SpecToken::Boolean(*b),
            Token::Chr(c) => SpecToken::Chr(*c),
            Token::Str(s) => SpecToken::Str(s@),
            Token::Dot => SpecToken::Dot,
            Token::Ellipsis => SpecToken::Ellipsis,
            Token::Quote => SpecToken::Quote,
            Token::QuasiQuote => SpecToken::QuasiQuote,
            Token::UnQuote => SpecToken::UnQuote,
            Token::UnQuoteSplicing => SpecToken::UnQuoteSplicing,
        }
    }
}

impl Clone for Token {
    fn clone(&self) -> (r: Token)
        ensures
            r@ == self@,
    {
        match self {
            Token::LParen => Token::LParen,
            Token::RParen => Token::RParen,
            Token::Symbol(s) => Token::Symbol(s.clone()),
            Token::Integer(i) => Token::Integer(*i),
            Token::Fraction(f) => Token::Fraction(*f),
            Token::Float(d) => Token::Float(*d),
            Token::Boolean(b) => Token::Boolean(*b),
            Token::Chr(c) => Token::Chr(*c),
            Token::Str(s) => Token::Str(s.clone()),
            Token::Dot => Token::Dot,
            Token::Ellipsis => Token::Ellipsis,
            Token::Quote => Token::Quote,
            Token::QuasiQuote => Token::QuasiQuote,
            Token::UnQuote => Token::UnQuote,
            Token::UnQuoteSplicing => Token::UnQuoteSplicing,
        }
    }
}

/// The views of a sequence of tokens, in order.
pub open spec fn token_views(ts: Seq<Token>) -> Seq<SpecToken> {
    Seq::new(ts.len(), |i: int| ts[i]@)
}

/// Why a text could not be cut into tokens.
#[derive(Clone, Copy, Debug, PartialEq, Eq, Structural)]
pub enum LexError {
    /// A string literal was opened and the text ended before its closing quote.
    UnterminatedString,
    /// The text ended right after `#` or `#\`.
    IncompleteHash,
    /// `#` was followed by a character that begins no known form.
    UnknownHash(char),
}

// ---------------------------------------------------------------------
// The order of tokens
// ---------------------------------------------------------------------

/// The number that a token stands for, if it is a number. A fraction whose
/// denominator is not positive is none.
pub open spec fn scaled_of(t: SpecToken) -> Option<Scaled> {
    match t {
        SpecToken::Integer(i) => Some(Scaled { n: i, e: 0, d: 1 }),
        SpecToken::Fraction(f) => if f.d > 0 {
            Some(Scaled { n: f.n, e: 0, d: f.d })
        } else {
            None
        },
        SpecToken::Float(x) => Some(Scaled { n: x.m, e: x.e, d: 1 }),
        _ => None,
    }
}

/// The order of two texts, character by character: -1, 0 or 1.
pub open spec fn text_order(a: Seq<char>, b: Seq<char>) -> int
    decreases a.len(),
{
    if a.len() == 0 {
        if b.len() == 0 {
            0
        } else {
            -1
        }
    } else if b.len() == 0 {
        1
    } else if a[0] < b[0] {
        -1
    } else if a[0] > b[0] {
        1
    } else {
        text_order(a.drop_first(), b.drop_first())
    }
}

/// The order of two tokens: -1, 0 or 1, or none where they cannot be
/// compared. Numbers of all kinds are ordered by value; texts, characters,
/// booleans and symbols only against their own kind.
pub open spec fn token_order(a: SpecToken, b: SpecToken) -> Option<int> {
    match (scaled_of(a), scaled_of(b)) {
        (Some(x), Some(y)) => Some(scaled_order(x, y)),
        _ => match (a, b) {
            (SpecToken::Str(x), SpecToken::Str(y)) => Some(text_order(x, y)),
            (SpecToken::Symbol(x), SpecToken::Symbol(y)) => Some(text_order(x, y)),
            (SpecToken::Chr(x), SpecToken::Chr(y)) => Some(
                if x < y {
                    -1int
                } else if x == y {
                    0int
                } else {
                    1int
                },
            ),
            (SpecToken::Boolean(x), SpecToken::Boolean(y)) => Some(
                if x == y {
                    0int
                } else if y {
                    -1int
                } else {
                    1int
                },
            ),
            _ => None,
        },
    }
}

fn scaled_from(t: &Token) -> (r: Option<Scaled>)
    ensures
        r == scaled_of(t@),
{
    match t {
        Token::Integer(i) => Some(Scaled { n: *i, e: 0, d: 1 }),
        Token::Fraction(f) => {
            if f.d > 0 {
                Some(Scaled { n: f.n, e: 0, d: f.d })
            } else {
                None
            }
        },
        Token::Float(x) => Some(Scaled { n: x.m, e: x.e, d: 1 }),
        _ => None,
    }
}

/// The order of two texts, character by character.
pub fn compare_text(a: &str, b: &str) -> (r: i8)
    ensures
        r == text_order(a@, b@),
{
    let x = chars_of(a);
    let y = chars_of(b);
    let mut i: usize = 0;
    assert(x@.subrange(0, x.len() as int) =~= x@);
    assert(y@.subrange(0, y.len() as int) =~= y@);
    while i < x.len() && i < y.len()
        invariant
            i <= x.len(),
            i <= y.len(),
            x@ == a@,
            y@ == b@,
            text_order(x@, y@) == text_order(
                x@.subrange(i as int, x.len() as int),
                y@.subrange(i as int, y.len() as int),
            ),
        decreases x.len() - i,
    {
        let ghost xs = x@.subrange(i as int, x.len() as int);
        let ghost ys = y@.subrange(i as int, y.len() as int);
        assert(xs[0] == x[i as int] && ys[0] == y[i as int]);
        if x[i] < y[i] {
            return -1;
        }
        if x[i] > y[i] {
            return 1;
        }
        assert(xs.drop_first() =~= x@.subrange(i + 1, x.len() as int));
        assert(ys.drop_first() =~= y@.subrange(i + 1, y.len() as int));
        i += 1;
    }
    if i < y.len() {
        -1
    } else if i < x.len() {
        1
    } else {
        0
    }
}

/// The order of two tokens: -1, 0 or 1, or none where they cannot be
/// compared.
pub fn compare_tokens(a: &Token, b: &Token) -> (r: Option<i8>)
    ensures
        match token_order(a@, b@) {
            Some(s) => r is Some && r->0 == s,
            None => r is None,
        },
{
    match (scaled_from(a), scaled_from(b)) {
        (Some(x), Some(y)) => Some(compare_scaled(x, y)),
        _ => match (a, b) {
            (Token::Str(x), Token::Str(y)) => Some(compare_text(x.as_str(), y.as_str())),
            (Token::Symbol(x), Token::Symbol(y)) => Some(compare_text(x.as_str(), y.as_str())),
            (Token::Chr(x), Token::Chr(y)) => Some(
                if *x < *y {
                    -1
                } else if *x == *y {
                    0
                } else {
                    1
                },
            ),
            (Token::Boolean(x), Token::Boolean(y)) => Some(
                if *x == *y {
                    0
                } else if *y {
                    -1
                } else {
                    1
                },
            ),
            _ => None,
        },
    }
}

impl Token {
    /// The order of two tokens, where they can be compared.
    pub fn partial_cmp(&self, other: &Token) -> (r: Option<Ordering>)
        ensures
            match token_order(self@, other@) {
                Some(s) => r == Some(
                    if s < 0 {
                        Ordering::Less
                    } else if s == 0 {
                        Ordering::Equal
                    } else {
                        Ordering::Greater
                    },
                ),
                None => r is None,
            },
    {
        match compare_tokens(self, other) {
            Some(s) => Some(
                if s < 0 {
                    Ordering::Less
                } else if s == 0 {
                    Ordering::Equal
                } else {
                    Ordering::Greater
                },
            ),
            None => None,
        }
    }
}

// ---------------------------------------------------------------------
// What the lexer computes
// ---------------------------------------------------------------------

/// The characters that end a run of symbol characters.
pub open spec fn is_delimiter(c: char) -> bool {
    c == ' ' || c == ')' || c == ']' || c == '\n'
}

/// The predicate "is no delimiter".
pub open spec fn in_run() -> spec_fn(char) -> bool {
    |c: char| !is_delimiter(c)
}

/// The predicate "does not end the line".
pub open spec fn in_line() -> spec_fn(char) -> bool {
    |c: char| c != '\n'
}

/// The predicate "does not close a string".
pub open spec fn in_string() -> spec_fn(char) -> bool {
    |c: char| c != '"'
}

/// The token of a character that is a token by itself; of any other
/// character, that character as a token.
pub open spec fn single_token(c: char) -> SpecToken {
    if c == '(' || c == '[' {
        SpecToken::LParen
    } else if c == ')' || c == ']' {
        SpecToken::RParen
    } else if c == '\'' {
        SpecToken::Quote
    } else if c == '`' {
        SpecToken::QuasiQuote
    } else if c == ',' {
        SpecToken::UnQuote
    } else if c == '@' {
        SpecToken::UnQuoteSplicing
    } else if c == '.' {
        SpecToken::Dot
    } else {
        SpecToken::Chr(c)
    }
}

/// The token of an exact number.
pub open spec fn exact_token(x: Exact) -> SpecToken {
    match x {
        Exact::Integer(i) => SpecToken::Integer(i),
        Exact::Ratio(f) => SpecToken::Fraction(f),
    }
}

/// The token that a run of symbol characters is: in this order, an
/// integer, a decimal, a fraction (an integer, if its denominator divides
/// its numerator), `...`, `.`, or else a symbol.
pub open spec fn classify(run: Seq<char>) -> SpecToken {
    if parse_int(run) is Some {
        SpecToken::Integer(parse_int(run)->0)
    } else if parse_decimal(run) is Some {
        SpecToken::Float(parse_decimal(run)->0)
    } else if parse_fraction(run) is Some {
        exact_token(parse_fraction(run)->0)
    } else if run == seq!['.', '.', '.'] {
        SpecToken::Ellipsis
    } else if run == seq!['.'] {
        SpecToken::Dot
    } else {
        SpecToken::Symbol(run)
    }
}

/// One step of the lexer.
pub ghost enum Step {
    /// Nothing to emit; go on at this index.
    Skip(int),
    /// This token; go on at this index.
    Emit(SpecToken, int),
    Fail(LexError),
}

/// The step at a `#`, which stands at index `i`.
pub open spec fn hash_step(s: Seq<char>, i: int) -> Step {
    if i + 1 >= s.len() {
        Step::Fail(LexError::IncompleteHash)
    } else if s[i + 1] == 't' {
        Step::Emit(SpecToken::Boolean(true), i + 2)
    } else if s[i + 1] == 'f' {
        Step::Emit(SpecToken::Boolean(false), i + 2)
    } else if s[i + 1] == '\\' {
        if i + 2 >= s.len() {
            Step::Fail(LexError::IncompleteHash)
        } else {
            Step::Emit(SpecToken::Chr(s[i + 2]), i + 3)
        }
    } else {
        Step::Fail(LexError::UnknownHash(s[i + 1]))
    }
}

/// The step at index `i` of the text, which is within it.
pub open spec fn step(s: Seq<char>, i: int) -> Step {
    let c = s[i];
    if c == ' ' || c == '\n' {
        Step::Skip(i + 1)
    } else if c == ';' {
        Step::Skip(span_end(s, i, in_line()))
    } else if c == '(' || c == '[' || c == ')' || c == ']' || c == '\'' || c == '`' {
        Step::Emit(single_token(c), i + 1)
    } else if c == ',' {
        if i + 1 < s.len() && s[i + 1] == '@' {
            Step::Emit(SpecToken::UnQuoteSplicing, i + 2)
        } else {
            Step::Emit(SpecToken::UnQuote, i + 1)
        }
    } else if c == '"' {
        let j = span_end(s, i + 1, in_string());
        if j >= s.len() {
            Step::Fail(LexError::UnterminatedString)
        } else {
            Step::Emit(SpecToken::Str(s.subrange(i + 1, j)), j + 1)
        }
    } else if c == '#' {
        hash_step(s, i)
    } else {
        let j = span_end(s, i, in_run());
        Step::Emit(classify(s.subrange(i, j)), j)
    }
}

/// The tokens of the text from index `i` on, after the tokens `acc`.
pub open spec fn lex_from(s: Seq<char>, i: int, acc: Seq<SpecToken>) -> Result<
    Seq<SpecToken>,
    LexError,
>
    decreases s.len() - i,
{
    if 0 <= i < s.len() {
        match step(s, i) {
            Step::Skip(j) => if i < j <= s.len() {
                lex_from(s, j, acc)
            } else {
                Ok(acc)
            },
            Step::Emit(t, j) => if i < j <= s.len() {
                lex_from(s, j, acc.push(t))
            } else {
                Ok(acc)
            },
            Step::Fail(e) => Err(e),
        }
    } else {
        Ok(acc)
    }
}

/// The tokens of a text.
pub open spec fn lex(s: Seq<char>) -> Result<Seq<SpecToken>, LexError> {
    lex_from(s, 0, Seq::empty())
}

/// The step at an index within the text goes forward.
pub proof fn lemma_step_advances(s: Seq<char>, i: int)
    requires
        0 <= i < s.len(),
    ensures
        match step(s, i) {
            Step::Skip(j) => i < j <= s.len(),
            Step::Emit(_, j) => i < j <= s.len(),
            Step::Fail(_) => true,
        },
{
    let c = s[i];
    if c == ';' {
        lemma_span_end(s, i, in_line());
        assert((in_line())(s[i]));
        assert(span_end(s, i, in_line()) == span_end(s, i + 1, in_line()));
        lemma_span_end(s, i + 1, in_line());
    } else if c == '"' {
        lemma_span_end(s, i + 1, in_string());
    } else {
        lemma_span_end(s, i, in_run());
        if !is_delimiter(c) {
            assert((in_run())(s[i]));
            assert(span_end(s, i, in_run()) == span_end(s, i + 1, in_run()));
            lemma_span_end(s, i + 1, in_run());
        }
    }
}

// ---------------------------------------------------------------------
// The lexer
// ---------------------------------------------------------------------

/// A text with the position that the lexer has reached in it.
#[derive(Debug)]
pub struct Scanner {
    pub chars: Vec<char>,
    pub pos: usize,
}

impl Scanner {
    /// The position is within the text or at its end.
    pub open spec fn wf(&self) -> bool {
        self.pos <= self.chars.len()
    }

    pub fn new(input: &str) -> (r: Scanner)
        ensures
            r.wf(),
            r.chars@ == input@,
            r.pos == 0,
    {
        Scanner { chars: chars_of(input), pos: 0 }
    }

    /// The character at the position, if the text has not ended.
    pub fn peek(&self) -> (r: Option<char>)
        requires
            self.wf(),
        ensures
            r == (if self.pos < self.chars.len() {
                Some(self.chars[self.pos as int])
            } else {
                None
            }),
    {
        if self.pos < self.chars.len() {
            Some(self.chars[self.pos])
        } else {
            None
        }
    }

    /// The character at the position, which then moves behind it.
    pub fn next(&mut self) -> (r: Option<char>)
        requires
            old(self).wf(),
        ensures
            final(self).wf(),
            final(self).chars == old(self).chars,
            r == (if old(self).pos < old(self).chars.len() {
                Some(old(self).chars[old(self).pos as int])
            } else {
                None
            }),
            final(self).pos == (if old(self).pos < old(self).chars.len() {
                old(self).pos + 1
            } else {
                old(self).pos as int
            }),
    {
        if self.pos < self.chars.len() {
            let c = self.chars[self.pos];
            self.pos += 1;
            Some(c)
        } else {
            None
        }
    }

    /// Take characters for as long as `keep` holds of them, and return
    /// them. The position is left at the first character not taken.
    pub fn take_until<F>(&mut self, keep: F) -> (r: Vec<char>) where F: Fn(char) -> bool
        requires
            old(self).wf(),
            forall|c: char| keep.requires((c,)),
        ensures
            final(self).wf(),
            final(self).chars == old(self).chars,
            old(self).pos <= final(self).pos,
            forall|k: int|
                old(self).pos <= k < final(self).pos ==> keep.ensures(
                    (#[trigger] old(self).chars@[k],),
                    true,
                ),
            final(self).pos < old(self).chars.len() ==> keep.ensures(
                (old(self).chars@[final(self).pos as int],),
                false,
            ),
            r@ == old(self).chars@.subrange(old(self).pos as int, final(self).pos as int),
    {
        let mut taken: Vec<char> = Vec::new();
        let start = self.pos;
        while self.pos < self.chars.len()
            invariant
                start <= self.pos <= self.chars.len(),
                self.chars == old(self).chars,
                start == old(self).pos,
                forall|c: char| keep.requires((c,)),
                forall|k: int|
                    start <= k < self.pos ==> keep.ensures((#[trigger] self.chars@[k],), true),
                taken@ == self.chars@.subrange(start as int, self.pos as int),
            ensures
                start <= self.pos <= self.chars.len(),
                self.chars == old(self).chars,
                forall|k: int|
                    start <= k < self.pos ==> keep.ensures((#[trigger] self.chars@[k],), true),
                self.pos < self.chars.len() ==> keep.ensures((self.chars@[self.pos as int],), false),
                taken@ == self.chars@.subrange(start as int, self.pos as int),
            decreases self.chars.len() - self.pos,
        {
            let c = self.chars[self.pos];
            if !keep(c) {
                break ;
            }
            taken.push(c);
            self.pos += 1;
            assert(self.chars@.subrange(start as int, self.pos - 1).push(c)
                =~= self.chars@.subrange(start as int, self.pos as int));
        }
        taken
    }
}

//
// Helper functions
//
/// Whether `fun` holds of the character at the position. At the end of the
/// text nothing holds.
pub fn check<F>(iter: &Scanner, fun: F) -> (r: bool) where F: Fn(char) -> bool
    requires
        iter.wf(),
        forall|c: char| fun.requires((c,)),
    ensures
        iter.pos < iter.chars.len() ==> fun.ensures((iter.chars[iter.pos as int],), r),
        iter.pos >= iter.chars.len() ==> !r,
{
    if let Some(x) = iter.peek() {
        fun(x)
    } else {
        false
    }
}

/// Whether the character at the position is `chr`.
pub fn check_chr(iter: &Scanner, chr: char) -> (r: bool)
    requires
        iter.wf(),
    ensures
        r == (iter.pos < iter.chars.len() && iter.chars[iter.pos as int] == chr),
{
    let same = |x: char| -> (b: bool)
        ensures
            b == (x == chr),
        { x == chr };
    check(iter, same)
}

impl Token {
    /// The token of a character that is a token by itself; of any other
    /// character, that character as a token.
    pub fn get(chr: char) -> (r: Token)
        ensures
            r@ == single_token(chr),
    {
        match chr {
            '(' | '[' => Token::LParen,
            ')' | ']' => Token::RParen,
            '\'' => Token::Quote,
            '`' => Token::QuasiQuote,
            ',' => Token::UnQuote,
            '@' => Token::UnQuoteSplicing,
            '.' => Token::Dot,
            x => Token::Chr(x),
        }
    }
}

//
// Parsers
//
/// Skip one blank or line end, if one is there.
pub fn parse_whitespace(iter: &mut Scanner) -> (r: bool)
    requires
        old(iter).wf(),
    ensures
        final(iter).wf(),
        final(iter).chars == old(iter).chars,
        r == (old(iter).pos < old(iter).chars.len() && (old(iter).chars[old(iter).pos as int] == ' '
            || old(iter).chars[old(iter).pos as int] == '\n')),
        final(iter).pos == (if r {
            old(iter).pos + 1
        } else {
            old(iter).pos as int
        }),
{
    if check_chr(iter, ' ') || check_chr(iter, '\n') {
        iter.next();
        true
    } else {
        false
    }
}

/// Skip a comment, from `;` up to the end of the line, if one starts here.
pub fn parse_comment(iter: &mut Scanner) -> (r: bool)
    requires
        old(iter).wf(),
    ensures
        final(iter).wf(),
        final(iter).chars == old(iter).chars,
        r == (old(iter).pos < old(iter).chars.len() && old(iter).chars[old(iter).pos as int]
            == ';'),
        final(iter).pos == (if r {
            span_end(old(iter).chars@, old(iter).pos as int, in_line())
        } else {
            old(iter).pos as int
        }),
{
    if check_chr(iter, ';') {
        let keep = |c: char| -> (b: bool)
            ensures
                b == (c != '\n'),
            { c != '\n' };
        iter.take_until(keep);
        proof {
            assert forall|k: int| old(iter).pos <= k < iter.pos implies (in_line())(
                #[trigger] iter.chars@[k],
            ) by {
                assert(keep.ensures((iter.chars@[k],), true));
            }
            lemma_span_end_is(iter.chars@, old(iter).pos as int, iter.pos as int, in_line());
        }
        true
    } else {
        false
    }
}

/// Parse a single char and return the corresponding token.
pub fn parse_single(iter: &mut Scanner, chr: char) -> (r: Option<Token>)
    requires
        old(iter).wf(),
    ensures
        final(iter).wf(),
        final(iter).chars == old(iter).chars,
        match r {
            Some(t) => old(iter).pos < old(iter).chars.len() && old(iter).chars[old(
                iter,
            ).pos as int] == chr && t@ == single_token(chr) && final(iter).pos == old(iter).pos + 1,
            None => !(old(iter).pos < old(iter).chars.len() && old(iter).chars[old(
                iter,
            ).pos as int] == chr) && final(iter).pos == old(iter).pos,
        },
{
    if !check_chr(iter, chr) {
        return None;
    }
    iter.next();
    Some(Token::get(chr))
}

pub fn parse_quote(iter: &mut Scanner) -> (r: Option<Token>)
    requires
        old(iter).wf(),
    ensures
        final(iter).wf(),
        final(iter).chars == old(iter).chars,
        match r {
            Some(t) => old(iter).pos < old(iter).chars.len() && old(iter).chars[old(
                iter,
            ).pos as int] == '\'' && t@ == SpecToken::Quote && final(iter).pos == old(iter).pos
                + 1,
            None => !(old(iter).pos < old(iter).chars.len() && old(iter).chars[old(
                iter,
            ).pos as int] == '\'') && final(iter).pos == old(iter).pos,
        },
{
    parse_single(iter, '\'')
}

/// `,` is an unquote; `,@` is an unquote that splices.
pub fn parse_unquote(iter: &mut Scanner) -> (r: Option<Token>)
    requires
        old(iter).wf(),
    ensures
        final(iter).wf(),
        final(iter).chars == old(iter).chars,
        match r {
            Some(t) => old(iter).pos < old(iter).chars.len() && old(iter).chars[old(
                iter,
            ).pos as int] == ',' && step(old(iter).chars@, old(iter).pos as int) == Step::Emit(
                t@,
                final(iter).pos as int,
            ),
            None => !(old(iter).pos < old(iter).chars.len() && old(iter).chars[old(
                iter,
            ).pos as int] == ',') && final(iter).pos == old(iter).pos,
        },
{
    match parse_single(iter, ',') {
        Some(unquote) => {
            match parse_single(iter, '@') {
                Some(splicing) => Some(splicing),
                None => Some(unquote),
            }
        },
        None => None,
    }
}

pub fn parse_quasiquote(iter: &mut Scanner) -> (r: Option<Token>)
    requires
        old(iter).wf(),
    ensures
        final(iter).wf(),
        final(iter).chars == old(iter).chars,
        match r {
            Some(t) => old(iter).pos < old(iter).chars.len() && old(iter).chars[old(
                iter,
            ).pos as int] == '`' && t@ == SpecToken::QuasiQuote && final(iter).pos == old(
                iter,
            ).pos + 1,
            None => !(old(iter).pos < old(iter).chars.len() && old(iter).chars[old(
                iter,
            ).pos as int] == '`') && final(iter).pos == old(iter).pos,
        },
{
    parse_single(iter, '`')
}

/// `(` and `[` both open a list.
pub fn parse_lparen(iter: &mut Scanner) -> (r: Option<Token>)
    requires
        old(iter).wf(),
    ensures
        final(iter).wf(),
        final(iter).chars == old(iter).chars,
        match r {
            Some(t) => old(iter).pos < old(iter).chars.len() && (old(iter).chars[old(
                iter,
            ).pos as int] == '(' || old(iter).chars[old(iter).pos as int] == '[') && t@
                == SpecToken::LParen && final(iter).pos == old(iter).pos + 1,
            None => !(old(iter).pos < old(iter).chars.len() && (old(iter).chars[old(
                iter,
            ).pos as int] == '(' || old(iter).chars[old(iter).pos as int] == '['))
                && final(iter).pos == old(iter).pos,
        },
{
    match parse_single(iter, '(') {
        Some(t) => Some(t),
        None => parse_single(iter, '['),
    }
}

/// `)` and `]` both close a list.
pub fn parse_rparen(iter: &mut Scanner) -> (r: Option<Token>)
    requires
        old(iter).wf(),
    ensures
        final(iter).wf(),
        final(iter).chars == old(iter).chars,
        match r {
            Some(t) => old(iter).pos < old(iter).chars.len() && (old(iter).chars[old(
                iter,
            ).pos as int] == ')' || old(iter).chars[old(iter).pos as int] == ']') && t@
                == SpecToken::RParen && final(iter).pos == old(iter).pos + 1,
            None => !(old(iter).pos < old(iter).chars.len() && (old(iter).chars[old(
                iter,
            ).pos as int] == ')' || old(iter).chars[old(iter).pos as int] == ']'))
                && final(iter).pos == old(iter).pos,
        },
{
    match parse_single(iter, ')') {
        Some(t) => Some(t),
        None => parse_single(iter, ']'),
    }
}

/// A string: what stands between two double quotes. A string that the text
/// does not close is an error.
pub fn parse_string(iter: &mut Scanner) -> (r: Result<Option<Token>, LexError>)
    requires
        old(iter).wf(),
    ensures
        final(iter).wf(),
        final(iter).chars == old(iter).chars,
        match r {
            Ok(Some(t)) => old(iter).pos < old(iter).chars.len() && old(iter).chars[old(
                iter,
            ).pos as int] == '"' && step(old(iter).chars@, old(iter).pos as int) == Step::Emit(
                t@,
                final(iter).pos as int,
            ),
            Ok(None) => !(old(iter).pos < old(iter).chars.len() && old(iter).chars[old(
                iter,
            ).pos as int] == '"') && final(iter).pos == old(iter).pos,
            Err(e) => old(iter).pos < old(iter).chars.len() && old(iter).chars[old(
                iter,
            ).pos as int] == '"' && step(old(iter).chars@, old(iter).pos as int) == Step::Fail(e),
        },
{
    if !check_chr(iter, '"') {
        return Ok(None);
    }
    iter.next();  // Consume the opening "
    let keep = |c: char| -> (b: bool)
        ensures
            b == (c != '"'),
        { c != '"' };
    let from = iter.pos;
    iter.take_until(keep);
    let to = iter.pos;
    proof {
        assert forall|k: int| from <= k < to implies (in_string())(#[trigger] iter.chars@[k]) by {
            assert(keep.ensures((iter.chars@[k],), true));
        }
        lemma_span_end_is(iter.chars@, from as int, to as int, in_string());
    }
    if iter.next().is_none() {
        // Nothing is left to close the string.
        return Err(LexError::UnterminatedString);
    }
    Ok(Some(Token::Str(text_of(&iter.chars, from, to))))
}

/// `#t`, `#f` and `#\c`. Any other form that begins with `#` is an error.
pub fn parse_hash(iter: &mut Scanner) -> (r: Result<Option<Token>, LexError>)
    requires
        old(iter).wf(),
    ensures
        final(iter).wf(),
        final(iter).chars == old(iter).chars,
        match r {
            Ok(Some(t)) => old(iter).pos < old(iter).chars.len() && old(iter).chars[old(
                iter,
            ).pos as int] == '#' && hash_step(old(iter).chars@, old(iter).pos as int)
                == Step::Emit(t@, final(iter).pos as int),
            Ok(None) => !(old(iter).pos < old(iter).chars.len() && old(iter).chars[old(
                iter,
            ).pos as int] == '#') && final(iter).pos == old(iter).pos,
            Err(e) => old(iter).pos < old(iter).chars.len() && old(iter).chars[old(
                iter,
            ).pos as int] == '#' && hash_step(old(iter).chars@, old(iter).pos as int)
                == Step::Fail(e),
        },
{
    if !check_chr(iter, '#') {
        return Ok(None);
    }
    iter.next();  // Consume #
    match iter.next() {
        Some('t') => Ok(Some(Token::Boolean(true))),  // #t means true
        Some('f') => Ok(Some(Token::Boolean(false))),  // #f means false
        Some('\\') => {
            // #\a represents char 'a'
            match iter.next() {
                Some(value) => Ok(Some(Token::Chr(value))),
                None => Err(LexError::IncompleteHash),
            }
        },
        Some(c) => Err(LexError::UnknownHash(c)),
        None => Err(LexError::IncompleteHash),
    }
}

/// The token that a run of symbol characters is.
pub fn classify_run(run: &Vec<char>) -> (t: Token)
    ensures
        t@ == classify(run@),
{
    assert(run@.subrange(0, run.len() as int) =~= run@);
    if let Some(i) = parse_int_in(run, 0, run.len()) {
        return Token::Integer(i);
    }
    if let Some(d) = parse_decimal_of(run) {
        return Token::Float(d);
    }
    match parse_fraction_of(run) {
        Some(Exact::Integer(i)) => {
            return Token::Integer(i);
        },
        Some(Exact::Ratio(f)) => {
            return Token::Fraction(f);
        },
        None => {},
    }
    if run.len() == 3 && run[0] == '.' && run[1] == '.' && run[2] == '.' {
        assert(run@ =~= seq!['.', '.', '.']);
        Token::Ellipsis
    } else if run.len() == 1 && run[0] == '.' {
        assert(run@ =~= seq!['.']);
        Token::Dot
    } else {
        assert(run@ != seq!['.', '.', '.']) by {
            if run@ == seq!['.', '.', '.'] {
                assert(run@.len() == 3 && run@[0] == '.' && run@[1] == '.' && run@[2] == '.');
            }
        }
        assert(run@ != seq!['.']) by {
            if run@ == seq!['.'] {
                assert(run@.len() == 1 && run@[0] == '.');
            }
        }
        Token::Symbol(text_of(run, 0, run.len()))
    }
}

/// A run of characters up to the next delimiter, as the token that it is.
/// Only at the end of the text there is none.
pub fn parse_symbol(iter: &mut Scanner) -> (r: Option<Token>)
    requires
        old(iter).wf(),
    ensures
        final(iter).wf(),
        final(iter).chars == old(iter).chars,
        match r {
            Some(t) => old(iter).pos < old(iter).chars.len() && final(iter).pos == span_end(
                old(iter).chars@,
                old(iter).pos as int,
                in_run(),
            ) && t@ == classify(
                old(iter).chars@.subrange(old(iter).pos as int, final(iter).pos as int),
            ),
            None => old(iter).pos >= old(iter).chars.len() && final(iter).pos == old(iter).pos,
        },
{
    // Check if iter is empty or not
    let any = |c: char| -> (b: bool)
        ensures
            b,
        { true };
    if !check(iter, any) {
        return None;
    }
    let keep = |c: char| -> (b: bool)
        ensures
            b == (c != ' ' && c != ')' && c != ']' && c != '\n'),
        { c != ' ' && c != ')' && c != ']' && c != '\n' };
    let value = iter.take_until(keep);
    proof {
        assert forall|k: int| old(iter).pos <= k < iter.pos implies (in_run())(
            #[trigger] iter.chars@[k],
        ) by {
            assert(keep.ensures((iter.chars@[k],), true));
        }
        lemma_span_end_is(iter.chars@, old(iter).pos as int, iter.pos as int, in_run());
    }
    Some(classify_run(&value))
}

/// Cut a text into tokens.
///
/// Blanks, line ends and comments separate tokens and are dropped.
/// Fails only on a string that is not closed and on an unknown form behind
/// `#`; anything else that is no other token is a symbol.
pub fn tokenize(input: &str) -> (r: Result<Vec<Token>, LexError>)
    ensures
        match lex(input@) {
            Ok(ts) => r is Ok && token_views(r->Ok_0@) == ts,
            Err(e) => r == Err::<Vec<Token>, LexError>(e),
        },
{
    let mut tokens: Vec<Token> = Vec::new();
    let mut iter = Scanner::new(input);
    assert(token_views(tokens@) =~= Seq::<SpecToken>::empty());
    loop
        invariant
            iter.wf(),
            iter.chars@ == input@,
            lex_from(input@, iter.pos as int, token_views(tokens@)) == lex(input@),
        ensures
            lex(input@) == Ok::<Seq<SpecToken>, LexError>(token_views(tokens@)),
        decreases iter.chars.len() - iter.pos,
    {
        let ghost before = iter.pos as int;
        proof {
            if iter.pos < iter.chars.len() {
                lemma_step_advances(input@, before);
            }
        }
        if parse_whitespace(&mut iter) {
            continue ;
        }
        if parse_comment(&mut iter) {
            continue ;
        }
        let token = match parse_lparen(&mut iter) {
            Some(t) => Some(t),
            None => match parse_quote(&mut iter) {
                Some(t) => Some(t),
                None => match parse_unquote(&mut iter) {
                    Some(t) => Some(t),
                    None => match parse_quasiquote(&mut iter) {
                        Some(t) => Some(t),
                        None => match parse_rparen(&mut iter) {
                            Some(t) => Some(t),
                            None => match parse_string(&mut iter) {
                                Err(e) => {
                                    return Err(e);
                                },
                                Ok(Some(t)) => Some(t),
                                Ok(None) => match parse_hash(&mut iter) {
                                    Err(e) => {
                                        return Err(e);
                                    },
                                    Ok(Some(t)) => Some(t),
                                    Ok(None) => parse_symbol(&mut iter),
                                },
                            },
                        },
                    },
                },
            },
        };
        if let Some(x) = token {
            assert(step(input@, before) == Step::Emit(x@, iter.pos as int));
            assert(token_views(tokens@.push(x)) =~= token_views(tokens@).push(x@));
            tokens.push(x)
        } else {
            break ;
        }
    }
    Ok(tokens)
}

} // verus!
