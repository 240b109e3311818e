//! Reading inverts writing: an expression that was read is read again from
//! its own text.

use vstd::prelude::*;
use crate::lexer::{
    LexError, SpecToken, Step, classify, in_line, in_run, in_string, is_delimiter,
    lemma_step_advances, lex, lex_from, step,
};
use crate::number::{Decimal, Exact, Fraction, gcd, lemma_reduced, magnitude, sign};
use crate::parser::{
    MAX_NESTING, ParseError, SpecExpr, parse_all, parse_expr, parse_items, parse_spec, quote_name,
};
use crate::printer::{
    gap, join, join_from, needs_blank, render_all, token_text, unparse, unparse_items,
};
use crate::semantics::{dotted, pair_list, symbol};
use crate::text::{
    all_digits, decimal_text, digit_pred, digits_of, digits_value, exponent_part, frac_end,
    frac_start, int_end, int_text, is_digit, is_negative, is_signed, lemma_digits_of,
    lemma_parse_int_text, lemma_span_end, lemma_span_end_is, mantissa_digits, not_slash,
    parse_decimal, parse_fraction, parse_int, pointed, sign_len, sign_text, span_end, unsigned_part,
    zeros,
};

verus! {

/// A token that is read as an atom: any but the parentheses, the dot and
/// the quote marks.
pub open spec fn is_atomic(t: SpecToken) -> bool {
    !(t is LParen) && !(t is RParen) && !(t is Dot) && quote_name(t) is None
}

/// The form of the expressions that the parser gives: atoms of atomic
/// tokens; lists of such expressions; and improper lists of them that have
/// at least one head and a tail that is no list.
pub open spec fn parsed_form(e: SpecExpr) -> bool
    decreases e,
{
    match e {
        SpecExpr::Atom(t) => is_atomic(t),
        SpecExpr::List(items) => forall|i: int|
            0 <= i < items.len() ==> parsed_form(#[trigger] items[i]),
        SpecExpr::DottedList(items, tail) => {
            &&& items.len() > 0
            &&& forall|i: int| 0 <= i < items.len() ==> parsed_form(#[trigger] items[i])
            &&& parsed_form(*tail)
            &&& !(*tail is List)
            &&& !(*tail is DottedList)
        },
        _ => false,
    }
}

pub open spec fn all_parsed_form(es: Seq<SpecExpr>) -> bool {
    forall|i: int| 0 <= i < es.len() ==> parsed_form(#[trigger] es[i])
}

/// The part of `ts` that starts at `i` is `part`.
pub open spec fn has_at(ts: Seq<SpecToken>, i: int, part: Seq<SpecToken>) -> bool {
    0 <= i && i + part.len() <= ts.len() && ts.subrange(i, i + part.len()) == part
}

/// Where `a + b` stands, `a` stands, and `b` behind it.
pub proof fn lemma_has_at_concat(
    ts: Seq<SpecToken>,
    i: int,
    a: Seq<SpecToken>,
    b: Seq<SpecToken>,
)
    requires
        has_at(ts, i, a + b),
    ensures
        has_at(ts, i, a),
        has_at(ts, i + a.len(), b),
{
    let whole = ts.subrange(i, i + (a + b).len());
    assert(ts.subrange(i, i + a.len()) =~= a) by {
        assert forall|k: int| 0 <= k < a.len() implies ts.subrange(i, i + a.len())[k] == a[k] by {
            assert(whole[k] == (a + b)[k]);
        }
    }
    assert(ts.subrange(i + a.len(), i + a.len() + b.len()) =~= b) by {
        assert forall|k: int| 0 <= k < b.len() implies ts.subrange(
            i + a.len(),
            i + a.len() + b.len(),
        )[k] == b[k] by {
            assert(whole[a.len() + k] == (a + b)[a.len() + k]);
        }
    }
}

/// Where the one token `t` stands, the token at that index is `t`.
pub proof fn lemma_has_at_one(ts: Seq<SpecToken>, i: int, t: SpecToken)
    requires
        has_at(ts, i, seq![t]),
    ensures
        0 <= i < ts.len(),
        ts[i] == t,
{
    assert(ts.subrange(i, i + 1)[0] == seq![t][0]);
}

/// What is written of an expression in parsed form begins with an opening
/// parenthesis or with an atomic token.
pub proof fn lemma_unparse_first(e: SpecExpr)
    requires
        parsed_form(e),
    ensures
        unparse(e).len() > 0,
        unparse(e)[0] is LParen || is_atomic(unparse(e)[0]),
{
}

/// Whether lists nest no deeper than `k` in the expression.
pub open spec fn within(e: SpecExpr, k: nat) -> bool
    decreases e,
{
    match e {
        SpecExpr::List(items) => k > 0 && forall|i: int|
            0 <= i < items.len() ==> within(#[trigger] items[i], (k - 1) as nat),
        SpecExpr::DottedList(items, tail) => {
            &&& k > 0
            &&& forall|i: int| 0 <= i < items.len() ==> within(#[trigger] items[i], (k - 1) as nat)
            &&& within(*tail, (k - 1) as nat)
        },
        _ => true,
    }
}

pub open spec fn all_within(es: Seq<SpecExpr>, k: nat) -> bool {
    forall|i: int| 0 <= i < es.len() ==> within(#[trigger] es[i], k)
}

/// What nests no deeper than `k` nests no deeper than any greater depth.
pub proof fn lemma_within_more(e: SpecExpr, k: nat, m: nat)
    requires
        within(e, k),
        k <= m,
    ensures
        within(e, m),
    decreases e,
{
    match e {
        SpecExpr::List(items) => {
            assert forall|i: int| 0 <= i < items.len() implies within(
                #[trigger] items[i],
                (m - 1) as nat,
            ) by {
                lemma_within_more(items[i], (k - 1) as nat, (m - 1) as nat);
            }
        },
        SpecExpr::DottedList(items, tail) => {
            assert forall|i: int| 0 <= i < items.len() implies within(
                #[trigger] items[i],
                (m - 1) as nat,
            ) by {
                lemma_within_more(items[i], (k - 1) as nat, (m - 1) as nat);
            }
            lemma_within_more(*tail, (k - 1) as nat, (m - 1) as nat);
        },
        _ => {},
    }
}

/// The parser reads an expression from where its tokens stand, if the
/// expression nests no deeper than the parser goes.
pub proof fn lemma_parse_unparse(ts: Seq<SpecToken>, i: int, e: SpecExpr, k: nat)
    requires
        parsed_form(e),
        within(e, k),
        has_at(ts, i, unparse(e)),
    ensures
        parse_expr(ts, i, k) == Ok::<(SpecExpr, int), ParseError>((e, i + unparse(e).len())),
    decreases e, 0nat,
{
    match e {
        SpecExpr::Atom(t) => {
            lemma_has_at_one(ts, i, t);
        },
        SpecExpr::List(items) => {
            let inner = unparse_items(items, 0);
            let open = seq![SpecToken::LParen];
            let close = seq![SpecToken::RParen];
            assert(unparse(e) == (open + inner) + close);
            lemma_has_at_concat(ts, i, open + inner, close);
            lemma_has_at_concat(ts, i, open, inner);
            lemma_has_at_one(ts, i, SpecToken::LParen);
            lemma_has_at_one(ts, i + 1 + inner.len(), SpecToken::RParen);
            lemma_parse_items_unparse(ts, i + 1, items, 0, Seq::empty(), (k - 1) as nat);
            assert(Seq::<SpecExpr>::empty() + items.subrange(0, items.len() as int) =~= items);
        },
        SpecExpr::DottedList(items, tail) => {
            let inner = unparse_items(items, 0);
            let open = seq![SpecToken::LParen];
            let dot = seq![SpecToken::Dot];
            let last = unparse(*tail);
            let close = seq![SpecToken::RParen];
            assert(unparse(e) == (((open + inner) + dot) + last) + close);
            lemma_has_at_concat(ts, i, ((open + inner) + dot) + last, close);
            lemma_has_at_concat(ts, i, (open + inner) + dot, last);
            lemma_has_at_concat(ts, i, open + inner, dot);
            lemma_has_at_concat(ts, i, open, inner);
            lemma_has_at_one(ts, i, SpecToken::LParen);
            let at_dot = i + 1 + inner.len();
            lemma_has_at_one(ts, at_dot, SpecToken::Dot);
            lemma_has_at_one(ts, at_dot + 1 + last.len(), SpecToken::RParen);
            lemma_parse_items_unparse(ts, i + 1, items, 0, Seq::empty(), (k - 1) as nat);
            assert(Seq::<SpecExpr>::empty() + items.subrange(0, items.len() as int) =~= items);
            lemma_parse_unparse(ts, at_dot + 1, *tail, (k - 1) as nat);
            assert(dotted(items, *tail) == e);
        },
        _ => {},
    }
}

/// The parser reads the elements of a list from where their tokens stand.
pub proof fn lemma_parse_items_unparse(
    ts: Seq<SpecToken>,
    j: int,
    items: Seq<SpecExpr>,
    n: int,
    acc: Seq<SpecExpr>,
    k: nat,
)
    requires
        0 <= n <= items.len(),
        forall|m: int| 0 <= m < items.len() ==> parsed_form(#[trigger] items[m]),
        all_within(items, k),
        has_at(ts, j, unparse_items(items, n)),
        j + unparse_items(items, n).len() < ts.len(),
    ensures
        parse_items(ts, j, acc, k) == parse_items(
            ts,
            j + unparse_items(items, n).len(),
            acc + items.subrange(n, items.len() as int),
            k,
        ),
    decreases items, items.len() - n,
{
    if n < items.len() {
        let first = unparse(items[n]);
        let rest = unparse_items(items, n + 1);
        lemma_unparse_first(items[n]);
        lemma_has_at_concat(ts, j, first, rest);
        assert(ts[j] == first[0]) by {
            assert(ts.subrange(j, j + first.len())[0] == first[0]);
        }
        lemma_parse_unparse(ts, j, items[n], k);
        lemma_parse_items_unparse(ts, j + first.len(), items, n + 1, acc.push(items[n]), k);
        assert(acc.push(items[n]) + items.subrange(n + 1, items.len() as int) =~= acc
            + items.subrange(n, items.len() as int));
    } else {
        assert(acc + items.subrange(n, items.len() as int) =~= acc);
    }
}

/// The parser reads expressions, one after the other, from where their
/// tokens stand up to the end.
pub proof fn lemma_parse_all_unparse(
    ts: Seq<SpecToken>,
    j: int,
    es: Seq<SpecExpr>,
    n: int,
    acc: Seq<SpecExpr>,
    k: nat,
)
    requires
        0 <= n <= es.len(),
        all_parsed_form(es),
        all_within(es, k),
        has_at(ts, j, unparse_items(es, n)),
        j + unparse_items(es, n).len() == ts.len(),
    ensures
        parse_all(ts, j, acc, k) == Ok::<Seq<SpecExpr>, ParseError>(
            acc + es.subrange(n, es.len() as int),
        ),
    decreases es.len() - n,
{
    if n < es.len() {
        let first = unparse(es[n]);
        let rest = unparse_items(es, n + 1);
        lemma_unparse_first(es[n]);
        lemma_has_at_concat(ts, j, first, rest);
        lemma_parse_unparse(ts, j, es[n], k);
        lemma_parse_all_unparse(ts, j + first.len(), es, n + 1, acc.push(es[n]), k);
        assert(acc.push(es[n]) + es.subrange(n + 1, es.len() as int) =~= acc + es.subrange(
            n,
            es.len() as int,
        ));
    } else {
        assert(acc + es.subrange(n, es.len() as int) =~= acc);
    }
}

/// Reading inverts writing, for tokens: expressions in the form that the
/// parser gives, which nest no deeper than the parser goes, are read again
/// from their own tokens.
pub proof fn law_parse_inverts_unparse(es: Seq<SpecExpr>)
    requires
        all_parsed_form(es),
        all_within(es, MAX_NESTING as nat),
    ensures
        parse_spec(unparse_items(es, 0)) == Ok::<Seq<SpecExpr>, ParseError>(es),
{
    let ts = unparse_items(es, 0);
    assert(ts.subrange(0, ts.len() as int) =~= ts);
    lemma_parse_all_unparse(ts, 0, es, 0, Seq::empty(), MAX_NESTING as nat);
    assert(Seq::<SpecExpr>::empty() + es.subrange(0, es.len() as int) =~= es);
}

// ---------------------------------------------------------------------
// The lexer looks only ahead
// ---------------------------------------------------------------------

/// The text from index `p` on.
pub open spec fn suffix(s: Seq<char>, p: int) -> Seq<char> {
    s.subrange(p, s.len() as int)
}

/// A span ends where it ends in the text that starts at `p`.
pub proof fn lemma_span_end_suffix(s: Seq<char>, p: int, i: int, keep: spec_fn(char) -> bool)
    requires
        0 <= p <= i <= s.len(),
    ensures
        span_end(s, i, keep) == p + span_end(suffix(s, p), i - p, keep),
    decreases s.len() - i,
{
    let t = suffix(s, p);
    if i < s.len() {
        assert(t[i - p] == s[i]);
        if keep(s[i]) {
            lemma_span_end_suffix(s, p, i + 1, keep);
        }
    }
}

/// The step with all its indices moved by `p`.
pub open spec fn moved(st: Step, p: int) -> Step {
    match st {
        Step::Skip(j) => Step::Skip(j + p),
        Step::Emit(t, j) => Step::Emit(t, j + p),
        Step::Fail(e) => Step::Fail(e),
    }
}

/// The step at index `p` is the first step of the text that starts there.
pub proof fn lemma_step_suffix(s: Seq<char>, p: int)
    requires
        0 <= p < s.len(),
    ensures
        step(s, p) == moved(step(suffix(s, p), 0), p),
{
    let t = suffix(s, p);
    assert(t[0] == s[p]);
    if p + 1 < s.len() {
        assert(t[1] == s[p + 1]);
    }
    if p + 2 < s.len() {
        assert(t[2] == s[p + 2]);
    }
    let c = s[p];
    if c == ';' {
        lemma_span_end_suffix(s, p, p, in_line());
    } else if c == '"' {
        lemma_span_end_suffix(s, p, p + 1, in_string());
        lemma_span_end(t, 1, in_string());
        let j = span_end(t, 1, in_string());
        assert(t.subrange(1, j) =~= s.subrange(p + 1, p + j));
    } else {
        lemma_span_end_suffix(s, p, p, in_run());
        lemma_span_end(t, 0, in_run());
        let j = span_end(t, 0, in_run());
        assert(t.subrange(0, j) =~= s.subrange(p, p + j));
    }
}

/// Lexing from index `p` on is lexing the text that starts there.
pub proof fn lemma_lex_suffix(s: Seq<char>, p: int, acc: Seq<SpecToken>)
    requires
        0 <= p <= s.len(),
    ensures
        lex_from(s, p, acc) == lex_from(suffix(s, p), 0, acc),
    decreases s.len() - p,
{
    let t = suffix(s, p);
    if p < s.len() {
        lemma_step_suffix(s, p);
        lemma_step_advances(s, p);
        lemma_step_advances(t, 0);
        match step(t, 0) {
            Step::Skip(j) => {
                lemma_lex_suffix(s, p + j, acc);
                lemma_lex_suffix(t, j, acc);
                assert(suffix(t, j) =~= suffix(s, p + j));
            },
            Step::Emit(tok, j) => {
                lemma_lex_suffix(s, p + j, acc.push(tok));
                lemma_lex_suffix(t, j, acc.push(tok));
                assert(suffix(t, j) =~= suffix(s, p + j));
            },
            Step::Fail(_) => {},
        }
    }
}

// ---------------------------------------------------------------------
// Numbers are read as they are written
// ---------------------------------------------------------------------

/// The characters that begin something other than a run of symbol
/// characters.
pub open spec fn starts_other(c: char) -> bool {
    c == ' ' || c == '\n' || c == ';' || c == '(' || c == '[' || c == ')' || c == ']' || c == '\''
        || c == '`' || c == ',' || c == '"' || c == '#'
}

/// A text that the lexer takes as one run: not empty, begun by a character
/// that begins nothing else, and without a delimiter in it.
pub open spec fn is_run_text(w: Seq<char>) -> bool {
    &&& w.len() > 0
    &&& !starts_other(w[0])
    &&& forall|k: int| 0 <= k < w.len() ==> !is_delimiter(#[trigger] w[k])
}

/// A character of a written integer: a digit or the minus sign.
pub open spec fn is_int_char(c: char) -> bool {
    is_digit(c) || c == '-'
}

/// What a written integer is made of.
pub proof fn lemma_int_text_shape(i: int)
    ensures
        int_text(i).len() >= 1,
        forall|k: int| 0 <= k < int_text(i).len() ==> is_int_char(#[trigger] int_text(i)[k]),
        i < 0 ==> int_text(i)[0] == '-' && int_text(i).subrange(1, int_text(i).len() as int)
            == digits_of((-i) as nat),
        i >= 0 ==> is_digit(int_text(i)[0]) && int_text(i) == digits_of(i as nat),
{
    if i < 0 {
        let d = digits_of((-i) as nat);
        lemma_digits_of((-i) as nat);
        let t = int_text(i);
        assert(t.subrange(1, t.len() as int) =~= d);
        assert forall|k: int| 0 <= k < t.len() implies is_int_char(#[trigger] t[k]) by {
            if k > 0 {
                assert(t[k] == d[k - 1]);
                assert(is_digit(d[k - 1]));
            }
        }
    } else {
        let d = digits_of(i as nat);
        lemma_digits_of(i as nat);
        assert(is_digit(d[0]));
        assert forall|k: int| 0 <= k < d.len() implies is_int_char(#[trigger] d[k]) by {
            assert(is_digit(d[k]));
        }
    }
}

/// A text with a character in it that is no digit, behind the place of the
/// sign, writes no integer.
pub proof fn lemma_not_an_integer(s: Seq<char>, k: int)
    requires
        1 <= k < s.len(),
        !is_digit(s[k]),
    ensures
        parse_int(s) is None,
{
    let body = unsigned_part(s);
    if is_signed(s) {
        assert(body[k - 1] == s[k]);
    } else {
        assert(body[k] == s[k]);
    }
}

/// The digits of a written integer end where the integer ends.
pub proof fn lemma_int_text_span(s: Seq<char>, i: int)
    requires
        int_text(i).len() <= s.len(),
        s.subrange(0, int_text(i).len() as int) == int_text(i),
        int_text(i).len() < s.len() ==> !is_digit(s[int_text(i).len() as int]),
    ensures
        sign_len(s) == (if i < 0 {
            1int
        } else {
            0int
        }),
        is_negative(s) == (i < 0),
        int_end(s) == int_text(i).len(),
        s.subrange(sign_len(s), int_end(s)) == digits_of(magnitude(i)),
{
    let a = int_text(i);
    let n = a.len() as int;
    lemma_int_text_shape(i);
    assert(s[0] == a[0]) by {
        assert(s.subrange(0, n)[0] == a[0]);
    }
    let start = sign_len(s);
    assert forall|k: int| start <= k < n implies (digit_pred())(#[trigger] s[k]) by {
        assert(s.subrange(0, n)[k] == a[k]);
        if i < 0 {
            assert(a.subrange(1, n)[k - 1] == a[k]);
            lemma_digits_of((-i) as nat);
            assert(is_digit(digits_of((-i) as nat)[k - 1]));
        } else {
            lemma_digits_of(i as nat);
            assert(is_digit(digits_of(i as nat)[k]));
        }
    }
    lemma_span_end_is(s, start, n, digit_pred());
    if i < 0 {
        assert(s.subrange(1, n) =~= a.subrange(1, n));
    } else {
        assert(s.subrange(0, n) =~= a);
    }
}

/// The digits of a number, `e`, and an exponent are read as the decimal of
/// that number and exponent; and that text is no integer.
pub proof fn lemma_parse_exponent_text(x: Decimal)
    ensures
        parse_int(int_text(x.m as int) + seq!['e'] + int_text(x.e as int)) is None,
        parse_decimal(int_text(x.m as int) + seq!['e'] + int_text(x.e as int)) == Some(x),
        is_run_text(int_text(x.m as int) + seq!['e'] + int_text(x.e as int)),
{
    let a = int_text(x.m as int);
    let b = int_text(x.e as int);
    let s = a + seq!['e'] + b;
    let n = a.len() as int;
    lemma_int_text_shape(x.m as int);
    lemma_int_text_shape(x.e as int);
    assert(s[n] == 'e');
    lemma_not_an_integer(s, n);
    assert(s.subrange(0, n) =~= a);
    lemma_int_text_span(s, x.m as int);
    assert(frac_start(s) == n);
    assert(frac_end(s) == n);
    assert(s.subrange(n, n) =~= Seq::<char>::empty());
    assert(mantissa_digits(s) =~= digits_of(magnitude(x.m as int)));
    lemma_digits_of(magnitude(x.m as int));
    assert(s.subrange(n + 1, s.len() as int) =~= b);
    lemma_parse_int_text(x.e as int);
    assert(exponent_part(s) == Some(x.e));
    lemma_two_ints_run(a, 'e', b);
}

/// Digits before other digits that write zero add nothing to the number.
pub proof fn lemma_leading_zeros(p: Seq<char>, ds: Seq<char>)
    requires
        digits_value(p) == 0,
    ensures
        digits_value(p + ds) == digits_value(ds),
    decreases ds.len(),
{
    if ds.len() == 0 {
        assert(p + ds =~= p);
    } else {
        lemma_leading_zeros(p, ds.drop_last());
        assert((p + ds).drop_last() =~= p + ds.drop_last());
        assert((p + ds).last() == ds.last());
    }
}

/// A zero and more zeros are digits, and write zero.
pub proof fn lemma_zeros(z: nat)
    ensures
        all_digits(seq!['0'] + zeros(z)),
        all_digits(zeros(z)),
        digits_value(seq!['0'] + zeros(z)) == 0,
    decreases z,
{
    let p = seq!['0'] + zeros(z);
    if z == 0 {
        assert(p.drop_last() =~= Seq::<char>::empty());
        assert(digits_value(p.drop_last()) == 0);
    } else {
        lemma_zeros((z - 1) as nat);
        assert(p.drop_last() =~= seq!['0'] + zeros((z - 1) as nat));
        assert(p.last() == '0');
    }
    assert forall|k: int| 0 <= k < p.len() implies is_digit(#[trigger] p[k]) by {}
}

/// A sign, digits, a point and more digits are read as a decimal: the
/// digits, taken together, are the significand, and the exponent is the
/// count of digits behind the point, negated. That text is no integer.
pub proof fn lemma_parse_pointed_text(s: Seq<char>, m: i64, lead: Seq<char>, frac: Seq<char>)
    requires
        s == sign_text(m as int) + lead + seq!['.'] + frac,
        lead.len() >= 1,
        all_digits(lead),
        all_digits(frac),
        digits_value(lead + frac) == magnitude(m as int),
        frac.len() <= 20,
    ensures
        parse_int(s) is None,
        parse_decimal(s) == Some(Decimal { m, e: (-(frac.len() as int)) as i64 }),
        is_run_text(s),
{
    let sg = sign_text(m as int);
    let sl = sg.len() as int;
    let a = sl + lead.len();
    let b0 = a + 1;
    let end = s.len() as int;
    assert(end == b0 + frac.len());
    assert(is_digit(lead[0]));
    assert(s[0] == (if m < 0 {
        '-'
    } else {
        lead[0]
    }));
    assert(sign_len(s) == sl);
    assert(is_negative(s) == (m < 0));
    assert forall|k: int| sl <= k < a implies (digit_pred())(#[trigger] s[k]) by {
        assert(s[k] == lead[k - sl]);
        assert(is_digit(lead[k - sl]));
    }
    assert(s[a] == '.');
    lemma_span_end_is(s, sl, a, digit_pred());
    assert(int_end(s) == a);
    assert(frac_start(s) == b0);
    assert forall|k: int| b0 <= k < end implies (digit_pred())(#[trigger] s[k]) by {
        assert(s[k] == frac[k - b0]);
        assert(is_digit(frac[k - b0]));
    }
    lemma_span_end_is(s, b0, end, digit_pred());
    assert(frac_end(s) == end);
    assert(s.subrange(sl, a) =~= lead);
    assert(s.subrange(b0, end) =~= frac);
    assert(mantissa_digits(s) == lead + frac);
    assert(exponent_part(s) == Some(0i64));
    lemma_not_an_integer(s, a);
    assert forall|k: int| 0 <= k < s.len() implies !is_delimiter(#[trigger] s[k]) by {
        if k < sl {
            assert(s[k] == '-');
        } else if k < a {
            assert(s[k] == lead[k - sl]);
            assert(is_digit(lead[k - sl]));
        } else if k == a {
        } else {
            assert(s[k] == frac[k - b0]);
            assert(is_digit(frac[k - b0]));
        }
    }
}

/// What the text of a decimal is read as.
pub open spec fn reads_as(s: Seq<char>, x: Decimal) -> bool {
    parse_int(s) is None && parse_decimal(s) == Some(x) && is_run_text(s)
}

proof fn lemma_decimal_point_inside(x: Decimal)
    requires
        -20 <= x.e <= 0,
        -x.e < digits_of(magnitude(x.m as int)).len(),
    ensures
        reads_as(
            sign_text(x.m as int) + pointed(digits_of(magnitude(x.m as int)), (-x.e) as nat),
            x,
        ),
{
    let ds = digits_of(magnitude(x.m as int));
    let n = ds.len() as int;
    lemma_digits_of(magnitude(x.m as int));
    let lead = ds.subrange(0, n + x.e);
    let frac = ds.subrange(n + x.e, n);
    let s = sign_text(x.m as int) + pointed(ds, (-x.e) as nat);
    assert(s =~= sign_text(x.m as int) + lead + seq!['.'] + frac);
    assert(lead + frac =~= ds);
    assert forall|k: int| 0 <= k < lead.len() implies is_digit(#[trigger] lead[k]) by {
        assert(lead[k] == ds[k]);
        assert(is_digit(ds[k]));
    }
    assert forall|k: int| 0 <= k < frac.len() implies is_digit(#[trigger] frac[k]) by {
        assert(frac[k] == ds[n + x.e + k]);
        assert(is_digit(ds[n + x.e + k]));
    }
    lemma_parse_pointed_text(s, x.m, lead, frac);
}

proof fn lemma_decimal_point_first(x: Decimal)
    requires
        -20 <= x.e < 0,
        -x.e >= digits_of(magnitude(x.m as int)).len(),
    ensures
        reads_as(
            sign_text(x.m as int) + pointed(digits_of(magnitude(x.m as int)), (-x.e) as nat),
            x,
        ),
{
    let ds = digits_of(magnitude(x.m as int));
    let n = ds.len() as int;
    lemma_digits_of(magnitude(x.m as int));
    let z = (-x.e - n) as nat;
    let lead = seq!['0'];
    let frac = zeros(z) + ds;
    let s = sign_text(x.m as int) + pointed(ds, (-x.e) as nat);
    lemma_zeros(z);
    lemma_zeros(0);
    assert(seq!['0'] + zeros(0) =~= lead);
    assert(lead + frac =~= (seq!['0'] + zeros(z)) + ds);
    lemma_leading_zeros(seq!['0'] + zeros(z), ds);
    assert forall|k: int| 0 <= k < frac.len() implies is_digit(#[trigger] frac[k]) by {
        if k < z {
            assert(frac[k] == zeros(z)[k]);
        } else {
            assert(frac[k] == ds[k - z]);
            assert(is_digit(ds[k - z]));
        }
    }
    assert(s =~= sign_text(x.m as int) + lead + seq!['.'] + frac);
    lemma_parse_pointed_text(s, x.m, lead, frac);
}

/// A decimal, written and read again, is itself; and its text is a run
/// that is no integer.
pub proof fn lemma_parse_decimal_text(x: Decimal)
    ensures
        reads_as(decimal_text(x.m as int, x.e as int), x),
{
    let n = digits_of(magnitude(x.m as int)).len() as int;
    if -20 <= x.e <= 0 {
        if -x.e < n {
            lemma_decimal_point_inside(x);
        } else {
            lemma_decimal_point_first(x);
        }
    } else {
        lemma_parse_exponent_text(x);
    }
}

/// The text of a fraction.
pub open spec fn fraction_text(f: Fraction) -> Seq<char> {
    int_text(f.n as int) + seq!['/'] + int_text(f.d as int)
}

/// A fraction in lowest terms, written and read again, is itself; and its
/// text is no integer and no decimal.
pub proof fn lemma_parse_fraction_text(f: Fraction)
    requires
        f.d > 1,
        gcd(magnitude(f.n as int), f.d as nat) == 1,
    ensures
        parse_int(fraction_text(f)) is None,
        parse_decimal(fraction_text(f)) is None,
        parse_fraction(fraction_text(f)) == Some(Exact::Ratio(f)),
{
    let a = int_text(f.n as int);
    let b = int_text(f.d as int);
    let s = fraction_text(f);
    let n = a.len() as int;
    lemma_int_text_shape(f.n as int);
    lemma_int_text_shape(f.d as int);
    assert(s[n] == '/');
    lemma_not_an_integer(s, n);
    assert(s.subrange(0, n) =~= a);
    lemma_int_text_span(s, f.n as int);
    assert(frac_start(s) == n);
    assert(frac_end(s) == n);
    assert(exponent_part(s) is None);
    assert forall|k: int| 0 <= k < n implies (not_slash())(#[trigger] s[k]) by {
        assert(s[k] == a[k]);
        assert(is_int_char(a[k]));
    }
    lemma_span_end_is(s, 0, n, not_slash());
    assert(s.subrange(n + 1, s.len() as int) =~= b);
    lemma_parse_int_text(f.n as int);
    lemma_parse_int_text(f.d as int);
    let m = magnitude(f.n as int);
    assert(m / 1 == m);
    assert((f.d as int) / 1 == f.d);
    assert(sign(f.n as int) * (m as int) == f.n) by (nonlinear_arith)
        requires
            m == magnitude(f.n as int),
    {
    }
}

/// A text made of the characters of written integers, with one other
/// character that is no delimiter between them, is a run.
proof fn lemma_two_ints_run(a: Seq<char>, c: char, b: Seq<char>)
    requires
        a.len() >= 1,
        forall|k: int| 0 <= k < a.len() ==> is_int_char(#[trigger] a[k]),
        forall|k: int| 0 <= k < b.len() ==> is_int_char(#[trigger] b[k]),
        !is_delimiter(c),
    ensures
        is_run_text(a + seq![c] + b),
{
    let t = a + seq![c] + b;
    assert(t[0] == a[0]);
    assert(is_int_char(a[0]));
    assert forall|k: int| 0 <= k < t.len() implies !is_delimiter(#[trigger] t[k]) by {
        if k < a.len() {
            assert(t[k] == a[k]);
            assert(is_int_char(a[k]));
        } else if k == a.len() {
            assert(t[k] == c);
        } else {
            assert(t[k] == b[k - a.len() - 1]);
            assert(is_int_char(b[k - a.len() - 1]));
        }
    }
}

/// A written integer is a run, and the lexer takes it for the integer.
pub proof fn lemma_integer_token(i: i64)
    ensures
        is_run_text(int_text(i as int)),
        classify(int_text(i as int)) == SpecToken::Integer(i),
{
    lemma_int_text_shape(i as int);
    lemma_parse_int_text(i as int);
    let t = int_text(i as int);
    assert(is_int_char(t[0]));
    assert forall|k: int| 0 <= k < t.len() implies !is_delimiter(#[trigger] t[k]) by {
        assert(is_int_char(t[k]));
    }
}

/// A written decimal is a run, and the lexer takes it for the decimal.
pub proof fn lemma_decimal_token(x: Decimal)
    ensures
        is_run_text(decimal_text(x.m as int, x.e as int)),
        classify(decimal_text(x.m as int, x.e as int)) == SpecToken::Float(x),
{
    lemma_parse_decimal_text(x);
}

/// A written fraction in lowest terms is a run, and the lexer takes it for
/// the fraction.
pub proof fn lemma_fraction_token(f: Fraction)
    requires
        f.d > 1,
        gcd(magnitude(f.n as int), f.d as nat) == 1,
    ensures
        is_run_text(fraction_text(f)),
        classify(fraction_text(f)) == SpecToken::Fraction(f),
{
    lemma_parse_fraction_text(f);
    lemma_int_text_shape(f.n as int);
    lemma_int_text_shape(f.d as int);
    lemma_two_ints_run(int_text(f.n as int), '/', int_text(f.d as int));
}

// ---------------------------------------------------------------------
// The lexer inverts the writing of tokens
// ---------------------------------------------------------------------

/// A token that the lexer gives back from its text: a symbol that is read
/// as that symbol; a fraction in lowest terms; a string without a double
/// quote in it; and every token of another kind.
pub open spec fn printable(t: SpecToken) -> bool {
    match t {
        SpecToken::Symbol(s) => is_run_text(s) && classify(s) == t,
        SpecToken::Fraction(f) => f.d > 1 && gcd(magnitude(f.n as int), f.d as nat) == 1,
        SpecToken::Str(s) => forall|k: int| 0 <= k < s.len() ==> #[trigger] s[k] != '"',
        _ => true,
    }
}

pub open spec fn all_printable(ts: Seq<SpecToken>) -> bool {
    forall|i: int| 0 <= i < ts.len() ==> printable(#[trigger] ts[i])
}

/// Whether the token is written as a run of symbol characters.
pub open spec fn is_run_token(t: SpecToken) -> bool {
    t is Symbol || t is Integer || t is Fraction || t is Float || t is Dot || t is Ellipsis
}

/// A text that does not go on with a character of a run, nor with `@`: it
/// is empty, or begins with a blank or a closing parenthesis.
pub open spec fn ends_token(rest: Seq<char>) -> bool {
    rest.len() == 0 || rest[0] == ' ' || rest[0] == ')'
}

/// The text of a printable token that is written as a run is a run, and is
/// read as that token.
pub proof fn lemma_run_token(t: SpecToken)
    requires
        printable(t),
        is_run_token(t),
    ensures
        is_run_text(token_text(t)),
        classify(token_text(t)) == t,
{
    match t {
        SpecToken::Integer(i) => {
            lemma_integer_token(i);
        },
        SpecToken::Float(x) => {
            lemma_decimal_token(x);
        },
        SpecToken::Fraction(f) => {
            lemma_fraction_token(f);
        },
        SpecToken::Dot => {
            let s = seq!['.'];
            assert(unsigned_part(s) =~= s);
            assert(!is_digit(s[0]));
            assert(parse_int(s) is None);
            assert(int_end(s) == 0);
            assert(frac_start(s) == 1);
            assert(frac_end(s) == 1);
            assert(mantissa_digits(s) =~= Seq::<char>::empty());
            assert(parse_decimal(s) is None);
            lemma_span_end_is(s, 0, 1, not_slash());
            assert(parse_fraction(s) is None);
            assert(s != seq!['.', '.', '.']) by {
                assert(s.len() != seq!['.', '.', '.'].len());
            }
        },
        SpecToken::Ellipsis => {
            let s = seq!['.', '.', '.'];
            assert(unsigned_part(s) =~= s);
            assert(!is_digit(s[0]));
            assert(parse_int(s) is None);
            assert(int_end(s) == 0);
            assert(frac_start(s) == 1);
            assert(frac_end(s) == 1);
            assert(mantissa_digits(s) =~= Seq::<char>::empty());
            assert(parse_decimal(s) is None);
            lemma_span_end_is(s, 0, 3, not_slash());
            assert(parse_fraction(s) is None);
        },
        _ => {},
    }
}

/// The first step of a text that begins with the text of a printable token
/// gives that token and stops behind its text, if the text then ends the
/// token; behind an opening parenthesis anything may follow.
pub proof fn lemma_step_token(t: SpecToken, rest: Seq<char>)
    requires
        printable(t),
        t is LParen || ends_token(rest),
    ensures
        step(token_text(t) + rest, 0) == Step::Emit(t, token_text(t).len() as int),
{
    let w = token_text(t);
    let s = w + rest;
    let n = w.len() as int;
    if is_run_token(t) {
        lemma_run_token(t);
        assert(s[0] == w[0]);
        assert forall|k: int| 0 <= k < n implies (in_run())(#[trigger] s[k]) by {
            assert(s[k] == w[k]);
            assert(!is_delimiter(w[k]));
        }
        if n < s.len() {
            assert(s[n] == rest[0]);
        }
        lemma_span_end_is(s, 0, n, in_run());
        assert(s.subrange(0, n) =~= w);
    } else {
        match t {
            SpecToken::Str(x) => {
                let end = 1 + x.len() as int;
                assert(s[0] == '"');
                assert forall|k: int| 1 <= k < end implies (in_string())(#[trigger] s[k]) by {
                    assert(s[k] == x[k - 1]);
                }
                assert(s[end] == '"');
                lemma_span_end_is(s, 1, end, in_string());
                assert(s.subrange(1, end) =~= x);
            },
            SpecToken::Chr(c) => {
                assert(s[0] == '#' && s[1] == '\\' && s[2] == c);
            },
            SpecToken::Boolean(b) => {
                assert(s[0] == '#');
                assert(s[1] == (if b {
                    't'
                } else {
                    'f'
                }));
            },
            SpecToken::UnQuote => {
                assert(s[0] == ',');
                if 1 < s.len() {
                    assert(s[1] == rest[0]);
                }
            },
            SpecToken::UnQuoteSplicing => {
                assert(s[0] == ',' && s[1] == '@');
            },
            _ => {
                assert(s[0] == w[0]);
            },
        }
    }
}

/// What follows a token that is no opening parenthesis ends that token.
pub proof fn lemma_join_ends_token(ts: Seq<SpecToken>, k: int)
    requires
        0 <= k < ts.len(),
        !(ts[k] is LParen),
    ensures
        ends_token(join_from(ts, k + 1)),
{
    if k + 1 < ts.len() {
        let next = ts[k + 1];
        let g = gap(ts, k + 1);
        let w = token_text(next);
        let rest = join_from(ts, k + 2);
        assert(join_from(ts, k + 1) == g + w + rest);
        if needs_blank(ts[k], next) {
            assert((g + w + rest)[0] == ' ');
        } else {
            assert(next is RParen);
            assert(g =~= Seq::<char>::empty());
            assert((g + w + rest)[0] == ')');
        }
    }
}

/// The lexer reads printable tokens from their text.
pub proof fn lemma_lex_join_from(ts: Seq<SpecToken>, k: int, acc: Seq<SpecToken>)
    requires
        0 <= k <= ts.len(),
        all_printable(ts),
    ensures
        lex_from(join_from(ts, k), 0, acc) == Ok::<Seq<SpecToken>, LexError>(
            acc + ts.subrange(k, ts.len() as int),
        ),
    decreases ts.len() - k,
{
    if k < ts.len() {
        let t = ts[k];
        let g = gap(ts, k);
        let w = token_text(t);
        let rest = join_from(ts, k + 1);
        let s = join_from(ts, k);
        assert(s == g + w + rest);
        assert(printable(t));
        if !(t is LParen) {
            lemma_join_ends_token(ts, k);
        }
        lemma_step_token(t, rest);
        let body = w + rest;
        assert(t matches SpecToken::Symbol(name) ==> name.len() > 0) by {
            match t {
                SpecToken::Symbol(name) => {
                    assert(is_run_text(name));
                },
                _ => {},
            }
        }
        lemma_token_text_nonempty(t);
        lemma_step_advances(body, 0);
        // behind the token
        lemma_lex_suffix(body, w.len() as int, acc.push(t));
        assert(suffix(body, w.len() as int) =~= rest);
        lemma_lex_join_from(ts, k + 1, acc.push(t));
        assert(acc.push(t) + ts.subrange(k + 1, ts.len() as int) =~= acc + ts.subrange(
            k,
            ts.len() as int,
        ));
        assert(lex_from(body, 0, acc) == Ok::<Seq<SpecToken>, LexError>(
            acc + ts.subrange(k, ts.len() as int),
        ));
        if g.len() == 0 {
            assert(s =~= body);
        } else {
            assert(s[0] == ' ');
            assert(step(s, 0) == Step::Skip(1));
            lemma_lex_suffix(s, 1, acc);
            assert(suffix(s, 1) =~= body);
        }
    } else {
        assert(acc + ts.subrange(k, ts.len() as int) =~= acc);
    }
}

/// The text of a decimal is not empty.
proof fn lemma_decimal_text_nonempty(m: int, e: int)
    ensures
        decimal_text(m, e).len() > 0,
{
    let ds = digits_of(magnitude(m));
    if -20 <= e <= 0 {
        let k = (-e) as nat;
        let n = ds.len() as int;
        if k < n {
            assert(pointed(ds, k).len() == (n - k) + 1 + k);
        } else {
            assert(pointed(ds, k).len() == 2 + (k - n) + n);
        }
    } else {
        assert((int_text(m) + seq!['e'] + int_text(e)).len() == int_text(m).len() + 1 + int_text(
            e,
        ).len());
    }
}

/// The text of a token is not empty, unless the token is a symbol without
/// a name.
pub proof fn lemma_token_text_nonempty(t: SpecToken)
    requires
        t matches SpecToken::Symbol(s) ==> s.len() > 0,
    ensures
        token_text(t).len() > 0,
{
    match t {
        SpecToken::Integer(i) => {
            lemma_int_text_shape(i as int);
        },
        SpecToken::Fraction(f) => {
            lemma_int_text_shape(f.n as int);
        },
        SpecToken::Float(x) => {
            lemma_decimal_text_nonempty(x.m as int, x.e as int);
        },
        SpecToken::Str(s) => {
            assert((seq!['"'] + s + seq!['"']).len() == s.len() + 2);
        },
        SpecToken::Boolean(b) => {
            assert(seq!['#', 't'].len() == 2);
            assert(seq!['#', 'f'].len() == 2);
        },
        SpecToken::Chr(c) => {
            assert(seq!['#', '\\', c].len() == 3);
        },
        _ => {},
    }
}

/// Reading inverts writing, for text: printable tokens are read again from
/// their own text.
pub proof fn law_lex_inverts_join(ts: Seq<SpecToken>)
    requires
        all_printable(ts),
    ensures
        lex(join(ts)) == Ok::<Seq<SpecToken>, LexError>(ts),
{
    lemma_lex_join_from(ts, 0, Seq::empty());
    assert(Seq::<SpecToken>::empty() + ts.subrange(0, ts.len() as int) =~= ts);
}

// ---------------------------------------------------------------------
// What is read can be written
// ---------------------------------------------------------------------

/// The token that a run is taken for is printable.
pub proof fn lemma_classify_printable(w: Seq<char>)
    requires
        is_run_text(w),
    ensures
        printable(classify(w)),
{
    if parse_int(w) is None && parse_decimal(w) is None && parse_fraction(w) is Some {
        let k = span_end(w, 0, not_slash());
        let n = parse_int(w.subrange(0, k))->0;
        let d = parse_int(w.subrange(k + 1, w.len() as int))->0;
        if d > 0 {
            lemma_reduced(n as int, d as int);
        } else {
            lemma_reduced(-(n as int), -(d as int));
        }
    }
}

/// Every token that the lexer gives is printable.
pub proof fn lemma_lex_printable(s: Seq<char>, i: int, acc: Seq<SpecToken>)
    requires
        all_printable(acc),
        lex_from(s, i, acc) is Ok,
    ensures
        all_printable(lex_from(s, i, acc)->Ok_0),
    decreases s.len() - i,
{
    if 0 <= i < s.len() {
        lemma_step_advances(s, i);
        match step(s, i) {
            Step::Skip(j) => {
                lemma_lex_printable(s, j, acc);
            },
            Step::Emit(t, j) => {
                let c = s[i];
                if c == '"' {
                    lemma_span_end(s, i + 1, in_string());
                    let x = s.subrange(i + 1, j - 1);
                    assert forall|k: int| 0 <= k < x.len() implies #[trigger] x[k] != '"' by {
                        assert((in_string())(s[i + 1 + k]));
                    }
                } else if !starts_other(c) {
                    lemma_span_end(s, i, in_run());
                    let w = s.subrange(i, j);
                    assert(w[0] == c);
                    assert forall|k: int| 0 <= k < w.len() implies !is_delimiter(
                        #[trigger] w[k],
                    ) by {
                        assert((in_run())(s[i + k]));
                    }
                    lemma_classify_printable(w);
                }
                assert(printable(t));
                assert forall|k: int| 0 <= k < acc.push(t).len() implies printable(
                    #[trigger] acc.push(t)[k],
                ) by {
                    if k < acc.len() {
                        assert(acc.push(t)[k] == acc[k]);
                    }
                }
                lemma_lex_printable(s, j, acc.push(t));
            },
            Step::Fail(_) => {},
        }
    }
}

/// An expression that can be written and read again: in the form that the
/// parser gives, and made of printable tokens.
pub open spec fn writable(e: SpecExpr) -> bool
    decreases e,
{
    match e {
        SpecExpr::Atom(t) => is_atomic(t) && printable(t),
        SpecExpr::List(items) => forall|i: int|
            0 <= i < items.len() ==> writable(#[trigger] items[i]),
        SpecExpr::DottedList(items, tail) => {
            &&& items.len() > 0
            &&& forall|i: int| 0 <= i < items.len() ==> writable(#[trigger] items[i])
            &&& writable(*tail)
            &&& !(*tail is List)
            &&& !(*tail is DottedList)
        },
        _ => false,
    }
}

pub open spec fn all_writable(es: Seq<SpecExpr>) -> bool {
    forall|i: int| 0 <= i < es.len() ==> writable(#[trigger] es[i])
}

/// Two sequences of printable tokens, one after the other, are printable.
pub proof fn lemma_printable_concat(a: Seq<SpecToken>, b: Seq<SpecToken>)
    requires
        all_printable(a),
        all_printable(b),
    ensures
        all_printable(a + b),
{
    assert forall|k: int| 0 <= k < (a + b).len() implies printable(#[trigger] (a + b)[k]) by {
        if k < a.len() {
            assert((a + b)[k] == a[k]);
        } else {
            assert((a + b)[k] == b[k - a.len()]);
        }
    }
}

/// A writable expression is in parsed form, and its tokens are printable.
pub proof fn lemma_writable(e: SpecExpr)
    requires
        writable(e),
    ensures
        parsed_form(e),
        all_printable(unparse(e)),
    decreases e, 0nat,
{
    let open = seq![SpecToken::LParen];
    let close = seq![SpecToken::RParen];
    let dot = seq![SpecToken::Dot];
    match e {
        SpecExpr::Atom(t) => {},
        SpecExpr::List(items) => {
            lemma_writable_items(items, 0);
            lemma_printable_concat(open, unparse_items(items, 0));
            lemma_printable_concat(open + unparse_items(items, 0), close);
        },
        SpecExpr::DottedList(items, tail) => {
            lemma_writable_items(items, 0);
            lemma_writable(*tail);
            lemma_printable_concat(open, unparse_items(items, 0));
            lemma_printable_concat(open + unparse_items(items, 0), dot);
            lemma_printable_concat(open + unparse_items(items, 0) + dot, unparse(*tail));
            lemma_printable_concat(
                open + unparse_items(items, 0) + dot + unparse(*tail),
                close,
            );
        },
        _ => {},
    }
}

/// Writable expressions are in parsed form, and their tokens are
/// printable.
pub proof fn lemma_writable_items(items: Seq<SpecExpr>, k: int)
    requires
        0 <= k <= items.len(),
        all_writable(items),
    ensures
        forall|m: int| k <= m < items.len() ==> parsed_form(#[trigger] items[m]),
        all_printable(unparse_items(items, k)),
    decreases items, items.len() - k,
{
    if k < items.len() {
        lemma_writable(items[k]);
        lemma_writable_items(items, k + 1);
        lemma_printable_concat(unparse(items[k]), unparse_items(items, k + 1));
    }
}

/// The names of the quote forms are symbols that can be written.
pub proof fn lemma_quote_names(t: SpecToken)
    requires
        quote_name(t) is Some,
    ensures
        writable(symbol(quote_name(t)->0)),
{
    reveal_strlit("quote");
    reveal_strlit("quasiquote");
    reveal_strlit("unquote");
    reveal_strlit("unquote-splicing");
    let w = quote_name(t)->0;
    assert(w.len() >= 5);
    assert(w[0] == 'q' || w[0] == 'u');
    assert(!is_digit(w[0]));
    assert(unsigned_part(w) =~= w);
    assert(parse_int(w) is None);
    assert(int_end(w) == 0);
    assert(frac_start(w) == 0);
    assert(frac_end(w) == 0);
    assert(mantissa_digits(w) =~= Seq::<char>::empty());
    assert(parse_decimal(w) is None);
    assert forall|k: int| 0 <= k < w.len() implies (not_slash())(#[trigger] w[k]) && !is_delimiter(
        w[k],
    ) by {}
    lemma_span_end_is(w, 0, w.len() as int, not_slash());
    assert(parse_fraction(w) is None);
    assert(w != seq!['.', '.', '.']) by {
        assert(w.len() != seq!['.', '.', '.'].len());
    }
    assert(w != seq!['.']) by {
        assert(w.len() != seq!['.'].len());
    }
}

/// What the parser reads from printable tokens is writable, and nests no
/// deeper than the parser went.
pub proof fn lemma_parse_expr_writable(ts: Seq<SpecToken>, i: int, k: nat)
    requires
        all_printable(ts),
        parse_expr(ts, i, k) is Ok,
    ensures
        writable(parse_expr(ts, i, k)->Ok_0.0),
        within(parse_expr(ts, i, k)->Ok_0.0, k),
    decreases ts.len() - i, 0nat,
{
    if 0 <= i < ts.len() {
        let t = ts[i];
        assert(printable(t));
        match t {
            SpecToken::LParen => {
                lemma_parse_items_writable(ts, i + 1, Seq::empty(), (k - 1) as nat);
            },
            SpecToken::RParen => {},
            SpecToken::Dot => {},
            _ => {
                if quote_name(t) is Some {
                    lemma_parse_expr_writable(ts, i + 1, (k - 1) as nat);
                    lemma_quote_names(t);
                    let inner = parse_expr(ts, i + 1, (k - 1) as nat)->Ok_0.0;
                    let whole = pair_list(symbol(quote_name(t)->0), inner);
                    assert(whole->List_0 =~= seq![symbol(quote_name(t)->0), inner]);
                    assert(writable(whole));
                    assert forall|m: int| 0 <= m < whole->List_0.len() implies within(
                        #[trigger] whole->List_0[m],
                        (k - 1) as nat,
                    ) by {}
                    assert(within(whole, k));
                }
            },
        }
    }
}

/// What the parser reads as a list from printable tokens is writable, and
/// nests no deeper than one level more than its elements may.
pub proof fn lemma_parse_items_writable(
    ts: Seq<SpecToken>,
    i: int,
    acc: Seq<SpecExpr>,
    k: nat,
)
    requires
        all_printable(ts),
        all_writable(acc),
        all_within(acc, k),
        parse_items(ts, i, acc, k) is Ok,
    ensures
        writable(parse_items(ts, i, acc, k)->Ok_0.0),
        within(parse_items(ts, i, acc, k)->Ok_0.0, k + 1),
    decreases ts.len() - i, 1nat,
{
    if 0 <= i < ts.len() {
        match ts[i] {
            SpecToken::RParen => {},
            SpecToken::Dot => {
                lemma_parse_expr_writable(ts, i + 1, k);
                let tail = parse_expr(ts, i + 1, k)->Ok_0.0;
                lemma_dotted_writable(acc, tail, k);
            },
            _ => {
                lemma_parse_expr_writable(ts, i, k);
                let (e, j) = parse_expr(ts, i, k)->Ok_0;
                assert forall|m: int| 0 <= m < acc.push(e).len() implies writable(
                    #[trigger] acc.push(e)[m],
                ) && within(acc.push(e)[m], k) by {
                    if m < acc.len() {
                        assert(acc.push(e)[m] == acc[m]);
                    }
                }
                lemma_parse_items_writable(ts, j, acc.push(e), k);
            },
        }
    }
}

/// Writable heads before a writable tail make a writable improper list,
/// one level deeper than its heads and, at most, than its tail.
pub proof fn lemma_dotted_writable(heads: Seq<SpecExpr>, tail: SpecExpr, k: nat)
    requires
        heads.len() > 0,
        all_writable(heads),
        all_within(heads, k),
        writable(tail),
        within(tail, k),
    ensures
        writable(dotted(heads, tail)),
        within(dotted(heads, tail), k + 1),
{
    match tail {
        SpecExpr::List(xs) => {
            assert forall|m: int| 0 <= m < (heads + xs).len() implies writable(
                #[trigger] (heads + xs)[m],
            ) && within((heads + xs)[m], k) by {
                if m < heads.len() {
                    assert((heads + xs)[m] == heads[m]);
                } else {
                    assert((heads + xs)[m] == xs[m - heads.len()]);
                    lemma_within_more(xs[m - heads.len()], (k - 1) as nat, k);
                }
            }
        },
        SpecExpr::DottedList(xs, t) => {
            assert forall|m: int| 0 <= m < (heads + xs).len() implies writable(
                #[trigger] (heads + xs)[m],
            ) && within((heads + xs)[m], k) by {
                if m < heads.len() {
                    assert((heads + xs)[m] == heads[m]);
                } else {
                    assert((heads + xs)[m] == xs[m - heads.len()]);
                    lemma_within_more(xs[m - heads.len()], (k - 1) as nat, k);
                }
            }
            lemma_within_more(*t, (k - 1) as nat, k);
        },
        _ => {},
    }
}

/// What the parser reads from printable tokens, one expression after the
/// other, is writable.
pub proof fn lemma_parse_all_writable(ts: Seq<SpecToken>, i: int, acc: Seq<SpecExpr>, k: nat)
    requires
        all_printable(ts),
        all_writable(acc),
        all_within(acc, k),
        parse_all(ts, i, acc, k) is Ok,
    ensures
        all_writable(parse_all(ts, i, acc, k)->Ok_0),
        all_within(parse_all(ts, i, acc, k)->Ok_0, k),
    decreases ts.len() - i,
{
    if 0 <= i < ts.len() {
        lemma_parse_expr_writable(ts, i, k);
        let (e, j) = parse_expr(ts, i, k)->Ok_0;
        assert forall|m: int| 0 <= m < acc.push(e).len() implies writable(
            #[trigger] acc.push(e)[m],
        ) && within(acc.push(e)[m], k) by {
            if m < acc.len() {
                assert(acc.push(e)[m] == acc[m]);
            }
        }
        lemma_parse_all_writable(ts, j, acc.push(e), k);
    }
}

// ---------------------------------------------------------------------
// Round trip
// ---------------------------------------------------------------------

/// Reading inverts writing: writable expressions that nest no deeper than
/// the parser goes, written as text, are lexed into their own tokens and
/// parsed into themselves.
pub proof fn law_read_inverts_write(es: Seq<SpecExpr>)
    requires
        all_writable(es),
        all_within(es, MAX_NESTING as nat),
    ensures
        lex(render_all(es)) == Ok::<Seq<SpecToken>, LexError>(unparse_items(es, 0)),
        parse_spec(unparse_items(es, 0)) == Ok::<Seq<SpecExpr>, ParseError>(es),
{
    lemma_writable_items(es, 0);
    law_lex_inverts_join(unparse_items(es, 0));
    law_parse_inverts_unparse(es);
}

/// Round trip: what is read from a text is writable, so that writing it and
/// reading the written text gives it again, whatever blanks and comments
/// the first text held.
pub proof fn law_round_trip(text: Seq<char>)
    requires
        lex(text) is Ok,
        parse_spec(lex(text)->Ok_0) is Ok,
    ensures
        ({
            let es = parse_spec(lex(text)->Ok_0)->Ok_0;
            &&& all_writable(es)
            &&& lex(render_all(es)) is Ok
            &&& parse_spec(lex(render_all(es))->Ok_0) == Ok::<Seq<SpecExpr>, ParseError>(es)
        }),
{
    let ts = lex(text)->Ok_0;
    lemma_lex_printable(text, 0, Seq::empty());
    lemma_parse_all_writable(ts, 0, Seq::empty(), MAX_NESTING as nat);
    let es = parse_spec(ts)->Ok_0;
    law_read_inverts_write(es);
}

} // verus!
