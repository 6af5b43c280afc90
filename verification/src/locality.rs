//! Tokens and expressions depend only on the bytes that they cover.
//!
//! What the grammar reads at a position of a text, it reads the same way in
//! every window of the text that holds all of it. From this follows that the
//! bytes under the span of an expression parse, on their own, to that
//! expression.

use crate::ast::ExprView;
use crate::grammar::{
    arguments_at, decimal, digit_run, digits_len, exponent_len, exponent_sign_len, expression_at,
    fraction_len, integer_part_len, integer_value, is_digit, is_float, is_space, is_symbol_byte,
    left, number_at, number_len, parse_bytes, sign_len, spaces, symbol_len, without_underscores,
    FaultView, LOWER_E, POINT, UNDERSCORE, UPPER_E,
};
use vstd::prelude::*;

verus! {

/// White space ends within the text, and every byte it counts is white space.
pub proof fn lemma_spaces_bound(s: Seq<u8>, p: int)
    requires
        0 <= p <= s.len(),
    ensures
        p + spaces(s, p) <= s.len(),
        forall|k: int| p <= k < p + spaces(s, p) ==> is_space(#[trigger] s[k]),
        p + spaces(s, p) < s.len() ==> !is_space(s[p + spaces(s, p)]),
    decreases s.len() - p,
{
    if p < s.len() && is_space(s[p]) {
        lemma_spaces_bound(s, p + 1);
    }
}

/// A symbol ends within the text.
pub proof fn lemma_symbol_bound(s: Seq<u8>, p: int)
    requires
        0 <= p <= s.len(),
    ensures
        p + symbol_len(s, p) <= s.len(),
    decreases s.len() - p,
{
    if p < s.len() && is_symbol_byte(s[p]) {
        lemma_symbol_bound(s, p + 1);
    }
}

/// A run of digits ends within the text.
pub proof fn lemma_digit_run_bound(s: Seq<u8>, p: int)
    requires
        0 <= p <= s.len(),
    ensures
        p + digit_run(s, p) <= s.len(),
    decreases s.len() - p,
{
    if p < s.len() {
        lemma_digit_run_bound(s, p + 1);
    }
}

/// A number ends within the text.
pub proof fn lemma_number_bound(s: Seq<u8>, p: int)
    requires
        0 <= p <= s.len(),
    ensures
        p + integer_part_len(s, p) <= p + number_len(s, p) <= s.len(),
{
    let sign = sign_len(s, p);
    lemma_digit_run_bound(s, p + sign);
    let whole = integer_part_len(s, p);
    if whole > 0 {
        let fraction = fraction_len(s, p + whole);
        if fraction > 0 {
            lemma_digit_run_bound(s, p + whole + 1);
        }
        let e = p + whole + fraction;
        if exponent_len(s, e) > 0 {
            lemma_digit_run_bound(s, e + 1 + exponent_sign_len(s, e + 1));
        }
    }
}

/// White space reads the same in every window that holds it.
pub proof fn lemma_spaces_window(s: Seq<u8>, a: int, b: int, p: int)
    requires
        0 <= a <= p,
        b <= s.len(),
        p + spaces(s, p) <= b,
    ensures
        spaces(s.subrange(a, b), p - a) == spaces(s, p),
    decreases s.len() - p,
{
    let t = s.subrange(a, b);
    if p < b {
        assert(t[p - a] == s[p]);
        if is_space(s[p]) {
            lemma_spaces_window(s, a, b, p + 1);
        }
    }
}

/// A symbol reads the same in every window that holds it.
pub proof fn lemma_symbol_window(s: Seq<u8>, a: int, b: int, p: int)
    requires
        0 <= a <= p,
        b <= s.len(),
        p + symbol_len(s, p) <= b,
    ensures
        symbol_len(s.subrange(a, b), p - a) == symbol_len(s, p),
    decreases s.len() - p,
{
    let t = s.subrange(a, b);
    if p < b {
        assert(t[p - a] == s[p]);
        if is_symbol_byte(s[p]) {
            lemma_symbol_window(s, a, b, p + 1);
        }
    }
}

/// A run of digits reads the same in every window that holds it.
pub proof fn lemma_digit_run_window(s: Seq<u8>, a: int, b: int, p: int)
    requires
        0 <= a <= p,
        b <= s.len(),
        p + digit_run(s, p) <= b,
    ensures
        digit_run(s.subrange(a, b), p - a) == digit_run(s, p),
    decreases s.len() - p,
{
    let t = s.subrange(a, b);
    if p < b {
        assert(t[p - a] == s[p]);
        if is_digit(s[p]) || s[p] == UNDERSCORE {
            lemma_digit_run_window(s, a, b, p + 1);
        }
    }
}

/// A group of digits reads the same in every window that holds it.
pub proof fn lemma_digits_window(s: Seq<u8>, a: int, b: int, p: int)
    requires
        0 <= a <= p,
        b <= s.len(),
        p + digits_len(s, p) <= b,
    ensures
        digits_len(s.subrange(a, b), p - a) == digits_len(s, p),
{
    let t = s.subrange(a, b);
    if p < b {
        assert(t[p - a] == s[p]);
        if is_digit(s[p]) {
            lemma_digit_run_window(s, a, b, p);
        }
    }
}

/// A number reads the same in every window that holds it; where no number
/// starts, none starts in the window.
pub proof fn lemma_number_window(s: Seq<u8>, a: int, b: int, p: int)
    requires
        0 <= a <= p,
        b <= s.len(),
        p + number_len(s, p) <= b,
    ensures
        number_len(s.subrange(a, b), p - a) == number_len(s, p),
        integer_part_len(s.subrange(a, b), p - a) == integer_part_len(s, p),
        is_float(s.subrange(a, b), p - a) == is_float(s, p),
{
    let t = s.subrange(a, b);
    lemma_number_bound(s, if p <= s.len() { p } else { 0 });
    if p < b {
        assert(t[p - a] == s[p]);
        let sign = sign_len(s, p);
        assert(sign_len(t, p - a) == sign);
        let whole = integer_part_len(s, p);
        if whole > 0 {
            lemma_digits_window(s, a, b, p + sign);
            let f = p + whole;
            let fraction = fraction_len(s, f);
            if f < b {
                assert(t[f - a] == s[f]);
                if s[f] == POINT {
                    lemma_digits_window(s, a, b, f + 1);
                }
            }
            assert(fraction_len(t, f - a) == fraction);
            let e = f + fraction;
            if e < b {
                assert(t[e - a] == s[e]);
                if s[e] == LOWER_E || s[e] == UPPER_E {
                    let exponent_sign = exponent_sign_len(s, e + 1);
                    if e + 1 < b {
                        assert(t[e + 1 - a] == s[e + 1]);
                        assert(exponent_sign_len(t, e + 1 - a) == exponent_sign);
                        lemma_digits_window(s, a, b, e + 1 + exponent_sign);
                    }
                }
            }
            assert(exponent_len(t, e - a) == exponent_len(s, e));
        } else {
            if p + sign <= b {
                lemma_digits_window(s, a, b, p + sign);
            }
        }
    }
}

/// The digits of a range spell the same number in every window that holds
/// the range.
pub proof fn lemma_decimal_window(s: Seq<u8>, a: int, b: int, from: int, to: int)
    requires
        0 <= a <= from,
        to <= b <= s.len(),
    ensures
        decimal(s.subrange(a, b), from - a, to - a) == decimal(s, from, to),
    decreases to - from,
{
    if from < to {
        lemma_decimal_window(s, a, b, from, to - 1);
        assert(s.subrange(a, b)[to - 1 - a] == s[to - 1]);
    }
}

/// A range without its underscores is the same in every window that holds
/// the range.
pub proof fn lemma_without_underscores_window(s: Seq<u8>, a: int, b: int, from: int, to: int)
    requires
        0 <= a <= from,
        to <= b <= s.len(),
    ensures
        without_underscores(s.subrange(a, b), from - a, to - a) == without_underscores(s, from, to),
    decreases to - from,
{
    if from < to {
        lemma_without_underscores_window(s, a, b, from, to - 1);
        assert(s.subrange(a, b)[to - 1 - a] == s[to - 1]);
    }
}

/// A number that has a value has the same value in every window that holds it.
pub proof fn lemma_number_at_window(s: Seq<u8>, a: int, b: int, p: int)
    requires
        0 <= a <= p,
        b <= s.len(),
        number_len(s, p) > 0,
        p + number_len(s, p) <= b,
        number_at(s, p) is Ok,
    ensures
        number_at(s.subrange(a, b), p - a) == number_at(s, p),
{
    let t = s.subrange(a, b);
    let len = number_len(s, p);
    lemma_number_window(s, a, b, p);
    assert(t[p - a] == s[p]);
    lemma_without_underscores_window(s, a, b, p, p + len);
    lemma_decimal_window(s, a, b, p, p + len);
    lemma_decimal_window(s, a, b, p + 1, p + len);
    assert(integer_value(t, p - a, p - a + len) == integer_value(s, p, p + len));
}

/// An expression ends within the text, covers at least one byte, and does
/// not start with white space.
pub proof fn lemma_expression_bound(s: Seq<u8>, p: int)
    requires
        0 <= p,
        expression_at(s, p) is Ok,
    ensures
        expression_at(s, p) matches Ok((_, n)) && n > 0 && p + n <= s.len() && !is_space(s[p]),
    decreases left(s, p), 0nat,
{
    if p <= s.len() {
        lemma_number_bound(s, p);
        lemma_symbol_bound(s, p);
    }
    if number_len(s, p) > 0 {
    } else if symbol_len(s, p) > 0 {
    } else {
        lemma_expression_bound(s, p + 1);
        match expression_at(s, p + 1) {
            Ok((_, n)) => {
                lemma_arguments_bound(s, p + 1 + n, Seq::empty());
            },
            Err(_) => {},
        }
    }
}

/// The arguments of a combination end within the text.
pub proof fn lemma_arguments_bound(s: Seq<u8>, p: int, done: Seq<ExprView>)
    requires
        0 <= p <= s.len(),
        arguments_at(s, p, done) is Ok,
    ensures
        arguments_at(s, p, done) matches Ok((_, m)) && m > 0 && p + m <= s.len(),
    decreases left(s, p), 1nat,
{
    let gap = spaces(s, p);
    lemma_spaces_bound(s, p);
    if gap > 0 {
        lemma_expression_bound(s, p + gap);
        match expression_at(s, p + gap) {
            Ok((value, n)) => {
                lemma_arguments_bound(s, p + gap + n, done.push(value));
            },
            Err(_) => {},
        }
    }
}

/// An expression reads the same in every window that holds it.
pub proof fn lemma_expression_window(s: Seq<u8>, a: int, b: int, p: int)
    requires
        0 <= a <= p,
        b <= s.len(),
        expression_at(s, p) matches Ok((_, n)) && p + n <= b,
    ensures
        expression_at(s.subrange(a, b), p - a) == expression_at(s, p),
    decreases left(s, p), 0nat,
{
    let t = s.subrange(a, b);
    lemma_expression_bound(s, p);
    assert(t[p - a] == s[p]);
    if number_len(s, p) > 0 {
        lemma_number_at_window(s, a, b, p);
        lemma_number_window(s, a, b, p);
    } else {
        lemma_number_window(s, a, b, p);
        if symbol_len(s, p) > 0 {
            lemma_symbol_window(s, a, b, p);
            let n = symbol_len(s, p) as int;
            assert(t.subrange(p - a, p - a + n) =~= s.subrange(p, p + n));
        } else {
            lemma_symbol_window(s, a, b, p);
            match expression_at(s, p + 1) {
                Ok((operator, n)) => {
                    lemma_expression_bound(s, p + 1);
                    match arguments_at(s, p + 1 + n, Seq::empty()) {
                        Ok((_, m)) => {
                            lemma_expression_window(s, a, b, p + 1);
                            lemma_arguments_window(s, a, b, p + 1 + n, Seq::empty());
                        },
                        Err(_) => {},
                    }
                },
                Err(_) => {},
            }
        }
    }
}

/// The arguments of a combination read the same in every window that holds
/// them and the closing parenthesis.
pub proof fn lemma_arguments_window(s: Seq<u8>, a: int, b: int, p: int, done: Seq<ExprView>)
    requires
        0 <= a <= p <= s.len(),
        b <= s.len(),
        arguments_at(s, p, done) matches Ok((_, m)) && p + m <= b,
    ensures
        arguments_at(s.subrange(a, b), p - a, done) == arguments_at(s, p, done),
    decreases left(s, p), 1nat,
{
    let t = s.subrange(a, b);
    let gap = spaces(s, p);
    lemma_spaces_bound(s, p);
    if gap > 0 {
        match expression_at(s, p + gap) {
            Ok((value, n)) => {
                lemma_expression_bound(s, p + gap);
                match arguments_at(s, p + gap + n, done.push(value)) {
                    Ok((_, m)) => {
                        lemma_spaces_window(s, a, b, p);
                        lemma_expression_window(s, a, b, p + gap);
                        lemma_arguments_window(s, a, b, p + gap + n, done.push(value));
                    },
                    Err(_) => {},
                }
            },
            Err(_) => {},
        }
    } else {
        lemma_spaces_window(s, a, b, p);
        assert(t[p - a] == s[p]);
    }
}

/// The bytes that an expression covers parse, on their own, to that
/// expression: as an expression at their start, and as a whole text.
pub proof fn lemma_span_coverage(s: Seq<u8>, from: int)
    requires
        0 <= from,
        expression_at(s, from) is Ok,
    ensures
        expression_at(s, from) matches Ok((value, n)) && from + n <= s.len() && expression_at(
            s.subrange(from, from + n),
            0,
        ) == Ok::<(ExprView, nat), FaultView>((value, n)) && parse_bytes(s.subrange(from, from + n))
            == Ok::<(ExprView, int, int), FaultView>((value, 0, n as int)),
{
    lemma_expression_bound(s, from);
    match expression_at(s, from) {
        Ok((value, n)) => {
            let t = s.subrange(from, from + n);
            lemma_expression_window(s, from, from + n, from);
            assert(t[0] == s[from]);
            assert(spaces(t, 0) == 0);
            assert(spaces(t, n as int) == 0);
        },
        Err(_) => {},
    }
}

/// What a whole text parses to lies between white space: the expression
/// starts after the leading white space and ends before the trailing white
/// space, and the bytes between parse, on their own, to the expression.
pub proof fn lemma_parse_covers(s: Seq<u8>)
    requires
        parse_bytes(s) is Ok,
    ensures
        parse_bytes(s) matches Ok((value, start, end)) && 0 <= start < end <= s.len() && parse_bytes(
            s.subrange(start, end),
        ) == Ok::<(ExprView, int, int), FaultView>((value, 0, end - start)) && (forall|k: int|
            0 <= k < start ==> is_space(#[trigger] s[k])) && (forall|k: int|
            end <= k < s.len() ==> is_space(#[trigger] s[k])) && !is_space(s[start]),
{
    lemma_spaces_bound(s, 0);
    let start = spaces(s, 0) as int;
    lemma_span_coverage(s, start);
    lemma_expression_bound(s, start);
    match expression_at(s, start) {
        Ok((_, n)) => {
            lemma_spaces_bound(s, start + n);
        },
        Err(_) => {},
    }
}

} // verus!
