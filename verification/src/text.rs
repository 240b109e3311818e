//! Text as sequences of characters, and the numerals written in it.

use vstd::prelude::*;
use vstd::std_specs::iter::IteratorSpec;
use crate::number::{Decimal, Exact, fits_i64, magnitude, reduce, reduced};

verus! {

/// What `String::push` of the standard library does: it appends the
/// character to the end of the string.
pub assume_specification[ String::push ](s: &mut String, c: char)
    ensures
        final(s)@ == old(s)@.push(c),
;

/// The characters of a text, in order.
pub fn chars_of(s: &str) -> (v: Vec<char>)
    ensures
        v@ == s@,
{
    let mut it = s.chars();
    let mut v: Vec<char> = Vec::new();
    loop
        invariant
            v@ + it.remaining() == s@,
            it.obeys_prophetic_iter_laws(),
        ensures
            v@ == s@,
        decreases s@.len() - v@.len(),
    {
        match it.next() {
            Some(c) => {
                v.push(c);
            },
            None => {
                assert(v@ + it.remaining() =~= v@);
                break ;
            },
        }
    }
    v
}

/// The text made of the characters from index `from` up to index `to`.
pub fn text_of(v: &Vec<char>, from: usize, to: usize) -> (s: String)
    requires
        from <= to <= v.len(),
    ensures
        s@ == v@.subrange(from as int, to as int),
{
    let mut s = String::new();
    let mut i: usize = from;
    while i < to
        invariant
            from <= i <= to <= v.len(),
            s@ == v@.subrange(from as int, i as int),
        decreases to - i,
    {
        s.push(v[i]);
        assert(v@.subrange(from as int, i as int).push(v@[i as int]) =~= v@.subrange(
            from as int,
            i + 1,
        ));
        i += 1;
    }
    s
}

/// The first index from `i` on at which `keep` does not hold, or the length.
pub open spec fn span_end(s: Seq<char>, i: int, keep: spec_fn(char) -> bool) -> int
    decreases s.len() - i,
{
    if 0 <= i < s.len() && keep(s[i]) {
        span_end(s, i + 1, keep)
    } else {
        i
    }
}

/// `span_end` stops within the text, at a character that is not kept, and
/// keeps all that it passed.
pub proof fn lemma_span_end(s: Seq<char>, i: int, keep: spec_fn(char) -> bool)
    requires
        0 <= i <= s.len(),
    ensures
        i <= span_end(s, i, keep) <= s.len(),
        span_end(s, i, keep) < s.len() ==> !keep(s[span_end(s, i, keep)]),
        forall|j: int| i <= j < span_end(s, i, keep) ==> keep(#[trigger] s[j]),
    decreases s.len() - i,
{
    if i < s.len() && keep(s[i]) {
        lemma_span_end(s, i + 1, keep);
    }
}

/// An index that keeps all before it, from `i` on, and stops there, is `span_end`.
pub proof fn lemma_span_end_is(s: Seq<char>, i: int, j: int, keep: spec_fn(char) -> bool)
    requires
        0 <= i <= j <= s.len(),
        forall|k: int| i <= k < j ==> keep(#[trigger] s[k]),
        j < s.len() ==> !keep(s[j]),
    ensures
        span_end(s, i, keep) == j,
    decreases j - i,
{
    if i < j {
        lemma_span_end_is(s, i + 1, j, keep);
    }
}

pub open spec fn is_digit(c: char) -> bool {
    '0' <= c && c <= '9'
}

pub open spec fn digit_value(c: char) -> int {
    (c as u32) as int - 48
}

pub open spec fn all_digits(s: Seq<char>) -> bool {
    forall|i: int| 0 <= i < s.len() ==> is_digit(#[trigger] s[i])
}

/// The number that a sequence of decimal digits writes.
pub open spec fn digits_value(s: Seq<char>) -> int
    decreases s.len(),
{
    if s.len() == 0 {
        0
    } else {
        digits_value(s.drop_last()) * 10 + digit_value(s.last())
    }
}

/// A sequence of digits writes no less than any part of it that starts at
/// its beginning.
pub proof fn lemma_digits_value_prefix(s: Seq<char>, k: int)
    requires
        all_digits(s),
        0 <= k <= s.len(),
    ensures
        0 <= digits_value(s.subrange(0, k)) <= digits_value(s),
    decreases s.len(),
{
    if s.len() == 0 {
        assert(s.subrange(0, k) =~= s);
    } else if k == s.len() {
        assert(s.subrange(0, k) =~= s);
        lemma_digits_value_prefix(s.drop_last(), 0);
        assert(is_digit(s.last()));
    } else {
        lemma_digits_value_prefix(s.drop_last(), k);
        assert(s.drop_last().subrange(0, k) =~= s.subrange(0, k));
        assert(is_digit(s.last()));
    }
}

/// Whether the text begins with a sign.
pub open spec fn is_signed(s: Seq<char>) -> bool {
    s.len() > 0 && (s[0] == '-' || s[0] == '+')
}

/// The text without its sign, if it has one.
pub open spec fn unsigned_part(s: Seq<char>) -> Seq<char> {
    if is_signed(s) {
        s.subrange(1, s.len() as int)
    } else {
        s
    }
}

pub open spec fn is_negative(s: Seq<char>) -> bool {
    s.len() > 0 && s[0] == '-'
}

/// The integer that a text writes: an optional sign and one or more decimal
/// digits, if the number fits.
pub open spec fn parse_int(s: Seq<char>) -> Option<i64> {
    let body = unsigned_part(s);
    let v = if is_negative(s) {
        -digits_value(body)
    } else {
        digits_value(body)
    };
    if body.len() == 0 || !all_digits(body) || !fits_i64(v) {
        None
    } else {
        Some(v as i64)
    }
}

pub fn digit_of(c: char) -> (r: Option<u8>)
    ensures
        match r {
            Some(d) => is_digit(c) && d == digit_value(c),
            None => !is_digit(c),
        },
{
    if '0' <= c && c <= '9' {
        Some(((c as u32) - 48) as u8)
    } else {
        None
    }
}

/// The number that the digits from `from` up to `to` write, if all are
/// digits and the number is at most `limit`.
fn digits_in(chars: &Vec<char>, from: usize, to: usize, limit: u64) -> (r: Option<u64>)
    requires
        from <= to <= chars.len(),
    ensures
        match r {
            Some(v) => all_digits(chars@.subrange(from as int, to as int)) && v == digits_value(
                chars@.subrange(from as int, to as int),
            ) && v <= limit,
            None => !all_digits(chars@.subrange(from as int, to as int)) || digits_value(
                chars@.subrange(from as int, to as int),
            ) > limit,
        },
{
    let ghost s = chars@.subrange(from as int, to as int);
    let mut acc: u64 = 0;
    let mut i: usize = from;
    let mut over = false;
    while i < to
        invariant
            from <= i <= to <= chars.len(),
            s == chars@.subrange(from as int, to as int),
            all_digits(s.subrange(0, i - from)),
            !over ==> acc == digits_value(s.subrange(0, i - from)) && acc <= limit,
            over ==> digits_value(s.subrange(0, i - from)) > limit,
        decreases to - i,
    {
        let ghost before = s.subrange(0, i - from);
        let ghost after = s.subrange(0, i - from + 1);
        assert(after.drop_last() =~= before);
        assert(after.last() == chars[i as int]);
        match digit_of(chars[i]) {
            None => {
                assert(!is_digit(s[i - from]));
                return None;
            },
            Some(d) => {
                assert(all_digits(after)) by {
                    assert forall|j: int| 0 <= j < after.len() implies is_digit(
                        #[trigger] after[j],
                    ) by {
                        if j < before.len() {
                            assert(after[j] == before[j]);
                        }
                    }
                }
                if !over {
                    if limit < d as u64 || acc > (limit - d as u64) / 10 {
                        over = true;
                        assert(digits_value(after) > limit) by (nonlinear_arith)
                            requires
                                digits_value(after) == acc * 10 + d,
                                acc > (limit - d) / 10 || limit < d,
                                0 <= d <= 9,
                                0 <= acc,
                        ;
                    } else {
                        assert(acc * 10 + d <= limit) by (nonlinear_arith)
                            requires
                                acc <= (limit - d) / 10,
                                limit >= d,
                                0 <= d <= 9,
                                0 <= acc,
                        ;
                        acc = acc * 10 + d as u64;
                    }
                } else {
                    assert(digits_value(after) > limit) by (nonlinear_arith)
                        requires
                            digits_value(after) == digits_value(before) * 10 + d,
                            digits_value(before) > limit,
                            0 <= d <= 9,
                            limit >= 0,
                    ;
                }
            },
        }
        i += 1;
    }
    assert(s.subrange(0, to - from) =~= s);
    if over {
        None
    } else {
        Some(acc)
    }
}

/// The integer that the characters from `from` up to `to` write.
pub fn parse_int_in(chars: &Vec<char>, from: usize, to: usize) -> (r: Option<i64>)
    requires
        from <= to <= chars.len(),
    ensures
        r == parse_int(chars@.subrange(from as int, to as int)),
{
    let ghost s = chars@.subrange(from as int, to as int);
    if from == to {
        return None;
    }
    let first = chars[from];
    assert(s[0] == first);
    let negative = first == '-';
    let start = if first == '-' || first == '+' {
        from + 1
    } else {
        from
    };
    assert(unsigned_part(s) =~= chars@.subrange(start as int, to as int));
    if start == to {
        return None;
    }
    if negative {
        match digits_in(chars, start, to, 0x8000_0000_0000_0000) {
            Some(v) => Some((-(v as i128)) as i64),
            None => None,
        }
    } else {
        match digits_in(chars, start, to, 0x7fff_ffff_ffff_ffff) {
            Some(v) => Some(v as i64),
            None => None,
        }
    }
}

/// The predicate "is a decimal digit".
pub open spec fn digit_pred() -> spec_fn(char) -> bool {
    |c: char| is_digit(c)
}

/// The predicate "is not a slash".
pub open spec fn not_slash() -> spec_fn(char) -> bool {
    |c: char| c != '/'
}

/// The index behind the sign, if there is one.
pub open spec fn sign_len(s: Seq<char>) -> int {
    if is_signed(s) {
        1
    } else {
        0
    }
}

/// The end of the digits before the point.
pub open spec fn int_end(s: Seq<char>) -> int {
    span_end(s, sign_len(s), digit_pred())
}

/// The start of the digits behind the point, if there is a point; else
/// the end of the digits.
pub open spec fn frac_start(s: Seq<char>) -> int {
    if int_end(s) < s.len() && s[int_end(s)] == '.' {
        int_end(s) + 1
    } else {
        int_end(s)
    }
}

/// The end of the digits behind the point.
pub open spec fn frac_end(s: Seq<char>) -> int {
    span_end(s, frac_start(s), digit_pred())
}

/// The digits before and behind the point, as one sequence.
pub open spec fn mantissa_digits(s: Seq<char>) -> Seq<char> {
    s.subrange(sign_len(s), int_end(s)) + s.subrange(frac_start(s), frac_end(s))
}

/// The exponent that follows the digits: the integer behind `e` or `E`;
/// zero where the text ends with the digits; none where anything else
/// follows.
pub open spec fn exponent_part(s: Seq<char>) -> Option<i64> {
    let b = frac_end(s);
    if b < s.len() && (s[b] == 'e' || s[b] == 'E') {
        parse_int(s.subrange(b + 1, s.len() as int))
    } else if b == s.len() {
        Some(0i64)
    } else {
        None
    }
}

/// The decimal that a text writes: an optional sign; digits, which may
/// hold one point; and, optionally, `e` or `E` and an integer. There is at
/// least one digit. The digits, read as one number without the point, are
/// the significand; the exponent is the integer behind `e`, less the count
/// of digits behind the point. Both must fit.
pub open spec fn parse_decimal(s: Seq<char>) -> Option<Decimal> {
    let digits = mantissa_digits(s);
    let m = if is_negative(s) {
        -digits_value(digits)
    } else {
        digits_value(digits)
    };
    let e = exponent_part(s)->0 - (frac_end(s) - frac_start(s));
    if digits.len() == 0 || exponent_part(s) is None || !fits_i64(m) || !fits_i64(e) {
        None
    } else {
        Some(Decimal { m: m as i64, e: e as i64 })
    }
}

/// The exact number that a text writes as `n/d`: two integers with a slash
/// between them, the second not zero; in lowest terms, and with a positive
/// denominator. Both parts must fit.
pub open spec fn parse_fraction(s: Seq<char>) -> Option<Exact> {
    let k = span_end(s, 0, not_slash());
    if k >= s.len() {
        None
    } else {
        match (parse_int(s.subrange(0, k)), parse_int(s.subrange(k + 1, s.len() as int))) {
            (Some(n), Some(d)) => if d > 0 {
                reduced(n as int, d as int)
            } else if d < 0 {
                reduced(-(n as int), -(d as int))
            } else {
                None
            },
            _ => None,
        }
    }
}

/// The end of the digits that start at `from`.
fn digit_span(chars: &Vec<char>, from: usize) -> (j: usize)
    requires
        from <= chars.len(),
    ensures
        j == span_end(chars@, from as int, digit_pred()),
        from <= j <= chars.len(),
        all_digits(chars@.subrange(from as int, j as int)),
{
    let mut j: usize = from;
    while j < chars.len() && digit_of(chars[j]).is_some()
        invariant
            from <= j <= chars.len(),
            forall|k: int| from <= k < j ==> is_digit(#[trigger] chars@[k]),
        decreases chars.len() - j,
    {
        j += 1;
    }
    proof {
        assert forall|k: int| from <= k < j implies (digit_pred())(#[trigger] chars@[k]) by {
            assert(is_digit(chars@[k]));
        }
        lemma_span_end_is(chars@, from as int, j as int, digit_pred());
    }
    j
}

/// The number written by `prefix` followed by the digits from `from` up to
/// `to`, given the number `acc` that `prefix` writes; none if it exceeds
/// `limit`.
fn absorb(
    chars: &Vec<char>,
    from: usize,
    to: usize,
    acc: u64,
    limit: u64,
    Ghost(prefix): Ghost<Seq<char>>,
) -> (r: Option<u64>)
    requires
        from <= to <= chars.len(),
        all_digits(chars@.subrange(from as int, to as int)),
        all_digits(prefix),
        acc == digits_value(prefix),
        acc <= limit,
    ensures
        match r {
            Some(v) => v == digits_value(prefix + chars@.subrange(from as int, to as int)) && v
                <= limit,
            None => digits_value(prefix + chars@.subrange(from as int, to as int)) > limit,
        },
{
    let ghost whole = prefix + chars@.subrange(from as int, to as int);
    assert(all_digits(whole)) by {
        assert forall|j: int| 0 <= j < whole.len() implies is_digit(#[trigger] whole[j]) by {
            if j < prefix.len() {
                assert(whole[j] == prefix[j]);
            } else {
                assert(whole[j] == chars@.subrange(from as int, to as int)[j - prefix.len()]);
            }
        }
    }
    let mut acc = acc;
    let mut i: usize = from;
    assert(whole.subrange(0, prefix.len() as int) =~= prefix);
    while i < to
        invariant
            from <= i <= to <= chars.len(),
            whole == prefix + chars@.subrange(from as int, to as int),
            all_digits(whole),
            acc == digits_value(whole.subrange(0, prefix.len() + i - from)),
            acc <= limit,
        decreases to - i,
    {
        let ghost before = whole.subrange(0, prefix.len() + i - from);
        let ghost after = whole.subrange(0, prefix.len() + i - from + 1);
        assert(after.drop_last() =~= before);
        assert(after.last() == chars[i as int]);
        assert(is_digit(whole[prefix.len() + i - from]));
        match digit_of(chars[i]) {
            None => {
                return None;
            },
            Some(d) => {
                if limit < d as u64 || acc > (limit - d as u64) / 10 {
                    assert(digits_value(after) > limit) by (nonlinear_arith)
                        requires
                            digits_value(after) == acc * 10 + d,
                            acc > (limit - d) / 10 || limit < d,
                            0 <= d <= 9,
                            0 <= acc,
                    ;
                    proof {
                        lemma_digits_value_prefix(whole, prefix.len() + i - from + 1);
                    }
                    return None;
                } else {
                    assert(acc * 10 + d <= limit) by (nonlinear_arith)
                        requires
                            acc <= (limit - d) / 10,
                            limit >= d,
                            0 <= d <= 9,
                            0 <= acc,
                    ;
                    acc = acc * 10 + d as u64;
                }
            },
        }
        i += 1;
    }
    assert(whole.subrange(0, prefix.len() + to - from) =~= whole);
    Some(acc)
}

/// The parts of a decimal literal: where the digits start, where the
/// digits before the point end, and where the digits behind it start and
/// end.
fn decimal_shape(chars: &Vec<char>) -> (r: (usize, usize, usize, usize))
    ensures
        r.0 == sign_len(chars@),
        r.1 == int_end(chars@),
        r.2 == frac_start(chars@),
        r.3 == frac_end(chars@),
        r.0 <= r.1 <= r.2 <= r.3 <= chars.len(),
        r.2 <= r.1 + 1,
        all_digits(chars@.subrange(r.0 as int, r.1 as int)),
        all_digits(chars@.subrange(r.2 as int, r.3 as int)),
{
    let len = chars.len();
    let start: usize = if len > 0 && (chars[0] == '-' || chars[0] == '+') {
        1
    } else {
        0
    };
    let a = digit_span(chars, start);
    let b0 = if a < len && chars[a] == '.' {
        a + 1
    } else {
        a
    };
    let b = digit_span(chars, b0);
    (start, a, b0, b)
}

/// The exponent that follows the digits, which end at `b`.
fn exponent_of(chars: &Vec<char>, b: usize) -> (r: Option<i64>)
    requires
        b == frac_end(chars@),
        b <= chars.len(),
    ensures
        r == exponent_part(chars@),
{
    let len = chars.len();
    if b < len && (chars[b] == 'e' || chars[b] == 'E') {
        parse_int_in(chars, b + 1, len)
    } else if b == len {
        Some(0)
    } else {
        None
    }
}

/// The number that the digits of the literal write, unless it exceeds
/// `limit`.
fn mantissa_of(chars: &Vec<char>, shape: (usize, usize, usize, usize), limit: u64) -> (r: Option<
    u64,
>)
    requires
        shape.0 == sign_len(chars@),
        shape.1 == int_end(chars@),
        shape.2 == frac_start(chars@),
        shape.3 == frac_end(chars@),
        shape.0 <= shape.1 <= shape.2 <= shape.3 <= chars.len(),
        all_digits(chars@.subrange(shape.0 as int, shape.1 as int)),
        all_digits(chars@.subrange(shape.2 as int, shape.3 as int)),
    ensures
        match r {
            Some(v) => v == digits_value(mantissa_digits(chars@)) && v <= limit,
            None => digits_value(mantissa_digits(chars@)) > limit,
        },
{
    let ghost int_digits = chars@.subrange(shape.0 as int, shape.1 as int);
    let ghost frac_digits = chars@.subrange(shape.2 as int, shape.3 as int);
    let ghost digits = mantissa_digits(chars@);
    assert(digits == int_digits + frac_digits);
    assert(Seq::<char>::empty() + int_digits =~= int_digits);
    assert(digits_value(Seq::<char>::empty()) == 0);
    match absorb(chars, shape.0, shape.1, 0, limit, Ghost(Seq::empty())) {
        Some(v) => absorb(chars, shape.2, shape.3, v, limit, Ghost(int_digits)),
        None => {
            proof {
                assert(all_digits(digits)) by {
                    assert forall|j: int| 0 <= j < digits.len() implies is_digit(
                        #[trigger] digits[j],
                    ) by {
                        if j < int_digits.len() {
                            assert(digits[j] == int_digits[j]);
                        } else {
                            assert(digits[j] == frac_digits[j - int_digits.len()]);
                        }
                    }
                }
                assert(digits.subrange(0, int_digits.len() as int) =~= int_digits);
                lemma_digits_value_prefix(digits, int_digits.len() as int);
            }
            None
        },
    }
}

/// The decimal that the characters write.
pub fn parse_decimal_of(chars: &Vec<char>) -> (r: Option<Decimal>)
    ensures
        r == parse_decimal(chars@),
{
    let len = chars.len();
    let negative = len > 0 && chars[0] == '-';
    let limit: u64 = if negative {
        0x8000_0000_0000_0000
    } else {
        0x7fff_ffff_ffff_ffff
    };
    let shape = decimal_shape(chars);
    let (start, a, b0, b) = shape;
    assert(mantissa_digits(chars@).len() == (a - start) + (b - b0));
    if a - start + (b - b0) == 0 {
        return None;
    }
    let exp: i64 = match exponent_of(chars, b) {
        Some(x) => x,
        None => {
            return None;
        },
    };
    let m2 = match mantissa_of(chars, shape, limit) {
        Some(v) => v,
        None => {
            return None;
        },
    };
    let m: i64 = if negative {
        (-(m2 as i128)) as i64
    } else {
        m2 as i64
    };
    let e: i128 = exp as i128 - (b - b0) as i128;
    if e < -0x8000_0000_0000_0000 || e > 0x7fff_ffff_ffff_ffff {
        return None;
    }
    Some(Decimal { m: m, e: e as i64 })
}

/// The exact number that the characters write as a fraction.
pub fn parse_fraction_of(chars: &Vec<char>) -> (r: Option<Exact>)
    ensures
        r == parse_fraction(chars@),
{
    let len = chars.len();
    let mut k: usize = 0;
    while k < len && chars[k] != '/'
        invariant
            k <= len == chars.len(),
            forall|j: int| 0 <= j < k ==> chars@[j] != '/',
        decreases len - k,
    {
        k += 1;
    }
    proof {
        assert forall|j: int| 0 <= j < k implies (not_slash())(#[trigger] chars@[j]) by {
            assert(chars@[j] != '/');
        }
        lemma_span_end_is(chars@, 0, k as int, not_slash());
    }
    if k >= len {
        return None;
    }
    assert(chars@.subrange(0, k as int) =~= chars@.subrange(0, k as int));
    let n = match parse_int_in(chars, 0, k) {
        Some(n) => n,
        None => {
            return None;
        },
    };
    let d = match parse_int_in(chars, k + 1, len) {
        Some(d) => d,
        None => {
            return None;
        },
    };
    if d > 0 {
        reduce(n as i128, d as i128)
    } else if d < 0 {
        reduce(-(n as i128), -(d as i128))
    } else {
        None
    }
}

// ---------------------------------------------------------------------
// Writing numbers
// ---------------------------------------------------------------------

/// The character of a decimal digit.
pub open spec fn digit_char(d: int) -> char {
    if d == 0 {
        '0'
    } else if d == 1 {
        '1'
    } else if d == 2 {
        '2'
    } else if d == 3 {
        '3'
    } else if d == 4 {
        '4'
    } else if d == 5 {
        '5'
    } else if d == 6 {
        '6'
    } else if d == 7 {
        '7'
    } else if d == 8 {
        '8'
    } else {
        '9'
    }
}

/// The decimal digits of a natural number, without leading zeros.
pub open spec fn digits_of(n: nat) -> Seq<char>
    decreases n,
{
    if n < 10 {
        seq![digit_char(n as int)]
    } else {
        digits_of(n / 10).push(digit_char((n % 10) as int))
    }
}

/// An integer in decimal, with `-` before a negative one.
pub open spec fn int_text(i: int) -> Seq<char> {
    if i < 0 {
        seq!['-'] + digits_of((-i) as nat)
    } else {
        digits_of(i as nat)
    }
}

/// `n` zeros.
pub open spec fn zeros(n: nat) -> Seq<char> {
    Seq::new(n, |i: int| '0')
}

/// The sign of a written number: `-` before a negative one, else nothing.
pub open spec fn sign_text(i: int) -> Seq<char> {
    if i < 0 {
        seq!['-']
    } else {
        Seq::empty()
    }
}

/// Digits with a point before the last `k` of them; where the digits are
/// no more than `k`, behind `0.` and as many zeros as are missing.
pub open spec fn pointed(ds: Seq<char>, k: nat) -> Seq<char> {
    let n = ds.len() as int;
    if k < n {
        ds.subrange(0, n - k) + seq!['.'] + ds.subrange(n - k, n)
    } else {
        seq!['0', '.'] + zeros((k - n) as nat) + ds
    }
}

/// The decimal `m * 10^e` as text.
///
/// With an exponent from -20 to 0, the digits of `m` with the point where
/// it belongs: `2.5`, `0.005`, `5.`; else the digits of `m`, `e`, and the
/// exponent: `5e3`.
pub open spec fn decimal_text(m: int, e: int) -> Seq<char> {
    if -20 <= e <= 0 {
        sign_text(m) + pointed(digits_of(magnitude(m)), (-e) as nat)
    } else {
        int_text(m) + seq!['e'] + int_text(e)
    }
}

/// The digits of a number are digits, and write that number.
pub proof fn lemma_digits_of(n: nat)
    ensures
        digits_of(n).len() >= 1,
        all_digits(digits_of(n)),
        digits_value(digits_of(n)) == n,
    decreases n,
{
    if n < 10 {
        let s = digits_of(n);
        assert(s.drop_last() =~= Seq::<char>::empty());
        assert(digits_value(s.drop_last()) == 0);
        assert(digit_value(digit_char(n as int)) == n);
    } else {
        lemma_digits_of(n / 10);
        let s = digits_of(n);
        let p = digits_of(n / 10);
        assert(s.drop_last() =~= p);
        assert(digit_value(digit_char((n % 10) as int)) == n % 10);
        assert forall|j: int| 0 <= j < s.len() implies is_digit(#[trigger] s[j]) by {
            if j < p.len() {
                assert(s[j] == p[j]);
            }
        }
    }
}

/// An integer that fits, written and read again, is itself.
pub proof fn lemma_parse_int_text(i: int)
    requires
        fits_i64(i),
    ensures
        parse_int(int_text(i)) == Some(i as i64),
{
    let s = int_text(i);
    if i < 0 {
        lemma_digits_of((-i) as nat);
        assert(s[0] == '-');
        assert(unsigned_part(s) =~= digits_of((-i) as nat));
    } else {
        lemma_digits_of(i as nat);
        let d = digits_of(i as nat);
        assert(is_digit(d[0]));
        assert(unsigned_part(s) =~= d);
    }
}

fn digit_char_of(d: u8) -> (c: char)
    requires
        d < 10,
    ensures
        c == digit_char(d as int),
{
    match d {
        0 => '0',
        1 => '1',
        2 => '2',
        3 => '3',
        4 => '4',
        5 => '5',
        6 => '6',
        7 => '7',
        8 => '8',
        _ => '9',
    }
}

/// Append the characters of `text` to `out`.
pub fn push_text(out: &mut Vec<char>, text: &str)
    ensures
        final(out)@ == old(out)@ + text@,
{
    let mut chars = chars_of(text);
    out.append(&mut chars);
}

/// Append a natural number, in decimal, to `out`.
pub fn push_digits(out: &mut Vec<char>, n: u64)
    ensures
        final(out)@ == old(out)@ + digits_of(n as nat),
{
    let mut cur: u64 = n;
    let ghost start = out@;
    let ghost n0 = cur as nat;
    // The digits, the last one first.
    let mut buf: Vec<char> = Vec::new();
    assert(digits_of(n0) =~= digits_of(cur as nat) + buf@.reverse());
    while cur >= 10
        invariant
            digits_of(n0) == digits_of(cur as nat) + buf@.reverse(),
        decreases cur,
    {
        let c = digit_char_of((cur % 10) as u8);
        proof {
            let ghost next = buf@.push(c);
            assert(next.reverse() =~= seq![c] + buf@.reverse());
            assert(digits_of(cur as nat) == digits_of((cur / 10) as nat).push(c));
            assert(digits_of((cur / 10) as nat).push(c) + buf@.reverse() =~= digits_of(
                (cur / 10) as nat,
            ) + next.reverse());
        }
        buf.push(c);
        cur = cur / 10;
    }
    let c = digit_char_of(cur as u8);
    proof {
        let ghost next = buf@.push(c);
        assert(next.reverse() =~= seq![c] + buf@.reverse());
        assert(digits_of(cur as nat) =~= seq![c]);
    }
    buf.push(c);
    assert(digits_of(n0) == buf@.reverse());
    let mut k: usize = buf.len();
    while k > 0
        invariant
            k <= buf.len(),
            out@ == start + buf@.reverse().subrange(0, buf.len() - k),
        decreases k,
    {
        k -= 1;
        proof {
            let r = buf@.reverse();
            assert(r[buf.len() - 1 - k] == buf@[k as int]);
            assert(r.subrange(0, buf.len() - 1 - k).push(buf@[k as int]) =~= r.subrange(
                0,
                buf.len() - k,
            ));
        }
        out.push(buf[k]);
    }
    assert(buf@.reverse().subrange(0, buf.len() as int) =~= buf@.reverse());
}

/// Append an integer, in decimal, to `out`.
pub fn push_int(out: &mut Vec<char>, i: i64)
    ensures
        final(out)@ == old(out)@ + int_text(i as int),
{
    if i < 0 {
        out.push('-');
        push_digits(out, (-(i as i128)) as u64);
        assert(out@ =~= old(out)@ + int_text(i as int));
    } else {
        push_digits(out, i as u64);
    }
}

/// Append the characters from index `from` up to index `to`.
fn push_range(out: &mut Vec<char>, chars: &Vec<char>, from: usize, to: usize)
    requires
        from <= to <= chars.len(),
    ensures
        final(out)@ == old(out)@ + chars@.subrange(from as int, to as int),
{
    let mut i: usize = from;
    assert(out@ =~= old(out)@ + chars@.subrange(from as int, from as int));
    while i < to
        invariant
            from <= i <= to <= chars.len(),
            out@ == old(out)@ + chars@.subrange(from as int, i as int),
        decreases to - i,
    {
        out.push(chars[i]);
        assert(chars@.subrange(from as int, i as int).push(chars@[i as int]) =~= chars@.subrange(
            from as int,
            i + 1,
        ));
        i += 1;
    }
}

/// Append `n` zeros.
fn push_zeros(out: &mut Vec<char>, n: usize)
    ensures
        final(out)@ == old(out)@ + zeros(n as nat),
{
    let mut i: usize = 0;
    assert(out@ =~= old(out)@ + zeros(0));
    while i < n
        invariant
            i <= n,
            out@ == old(out)@ + zeros(i as nat),
        decreases n - i,
    {
        out.push('0');
        assert(zeros(i as nat).push('0') =~= zeros((i + 1) as nat));
        i += 1;
    }
}

/// Append digits with a point before the last `k` of them.
fn push_pointed(out: &mut Vec<char>, ds: &Vec<char>, k: usize)
    ensures
        final(out)@ == old(out)@ + pointed(ds@, k as nat),
{
    let n = ds.len();
    if k < n {
        push_range(out, ds, 0, n - k);
        out.push('.');
        push_range(out, ds, n - k, n);
        assert(out@ =~= old(out)@ + (ds@.subrange(0, n - k) + seq!['.'] + ds@.subrange(
            n - k,
            n as int,
        )));
    } else {
        out.push('0');
        out.push('.');
        push_zeros(out, k - n);
        push_range(out, ds, 0, n);
        assert(ds@.subrange(0, n as int) =~= ds@);
        assert(out@ =~= old(out)@ + (seq!['0', '.'] + zeros((k - n) as nat) + ds@));
    }
}

/// The digits of the magnitude of an integer.
fn magnitude_digits(m: i64) -> (ds: Vec<char>)
    ensures
        ds@ == digits_of(magnitude(m as int)),
{
    let mut ds: Vec<char> = Vec::new();
    let wide: u64 = if m < 0 {
        (-(m as i128)) as u64
    } else {
        m as u64
    };
    push_digits(&mut ds, wide);
    assert(ds@ =~= digits_of(magnitude(m as int)));
    ds
}

/// Append the sign of an integer.
fn push_sign(out: &mut Vec<char>, m: i64)
    ensures
        final(out)@ == old(out)@ + sign_text(m as int),
{
    if m < 0 {
        out.push('-');
        assert(out@ =~= old(out)@ + seq!['-']);
    } else {
        assert(out@ =~= old(out)@ + Seq::<char>::empty());
    }
}

/// Append a decimal, as text, to `out`.
pub fn push_decimal(out: &mut Vec<char>, d: Decimal)
    ensures
        final(out)@ == old(out)@ + decimal_text(d.m as int, d.e as int),
{
    if d.e > 0 || d.e < -20 {
        push_int(out, d.m);
        out.push('e');
        push_int(out, d.e);
        assert(out@ =~= old(out)@ + (int_text(d.m as int) + seq!['e'] + int_text(d.e as int)));
    } else {
        let ds = magnitude_digits(d.m);
        let k: usize = (-d.e) as usize;
        push_sign(out, d.m);
        push_pointed(out, &ds, k);
        assert(out@ =~= old(out)@ + (sign_text(d.m as int) + pointed(ds@, k as nat)));
    }
}

} // verus!
