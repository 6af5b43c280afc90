//! The surface grammar, as functions on bytes.
//!
//! ```text
//! expr        := number | symbol | combination
//! number      := ['-'] digits ['.' digits] [('e' | 'E') ['-' | '+'] digits]
//! digits      := digit ('_'* digit)*
//! symbol      := (alpha | '_' | '+' | '-' | '*' | '=' | '>' | '<' | '!' | '?' | '/' | '$')+
//! combination := '(' expr (space+ expr)+ ')'
//! ```
//!
//! At each position a number is tried first, then a symbol, then a
//! combination. Every token is the longest that matches.

use crate::ast::{ExprView, FloatView};
use crate::text::ascii_text;
use vstd::prelude::*;

verus! {

/// The code of a blank.
pub const BLANK: u8 = 0x20;

/// The code of a tab.
pub const TAB: u8 = 0x09;

/// The code of a carriage return.
pub const RETURN: u8 = 0x0d;

/// The code of a line feed.
pub const NEWLINE: u8 = 0x0a;

/// The code of `0`.
pub const DIGIT_0: u8 = 0x30;

/// The code of `9`.
pub const DIGIT_9: u8 = 0x39;

/// The code of `a`.
pub const LOWER_A: u8 = 0x61;

/// The code of `z`.
pub const LOWER_Z: u8 = 0x7a;

/// The code of `A`.
pub const UPPER_A: u8 = 0x41;

/// The code of `Z`.
pub const UPPER_Z: u8 = 0x5a;

/// The code of `_`.
pub const UNDERSCORE: u8 = 0x5f;

/// The code of `+`.
pub const PLUS: u8 = 0x2b;

/// The code of `-`.
pub const MINUS: u8 = 0x2d;

/// The code of `*`.
pub const STAR: u8 = 0x2a;

/// The code of `=`.
pub const EQUALS: u8 = 0x3d;

/// The code of `>`.
pub const GREATER: u8 = 0x3e;

/// The code of `<`.
pub const LESS: u8 = 0x3c;

/// The code of `!`.
pub const BANG: u8 = 0x21;

/// The code of `?`.
pub const QUESTION: u8 = 0x3f;

/// The code of `/`.
pub const SLASH: u8 = 0x2f;

/// The code of `$`.
pub const DOLLAR: u8 = 0x24;

/// The code of `.`.
pub const POINT: u8 = 0x2e;

/// The code of `e`.
pub const LOWER_E: u8 = 0x65;

/// The code of `E`.
pub const UPPER_E: u8 = 0x45;

/// The code of `(`.
pub const OPEN: u8 = 0x28;

/// The code of `)`.
pub const CLOSE: u8 = 0x29;

/// How a syntax failure is classified.
#[derive(Debug, Clone, Copy, PartialEq, Eq, Hash)]
pub enum ErrorKind {
    /// No number, symbol or combination starts here.
    Alt,
    /// White space and an argument must follow the operator of a combination.
    MultiSpace,
    /// A combination must close with `)` here.
    Tag,
    /// Input is left over after the expression.
    Eof,
    /// The source could not be read.
    Fail,
}

/// Why a text is not an expression, by offsets into the text.
pub enum FaultView {
    /// The grammar does not match at `at`.
    Syntax { kind: ErrorKind, at: int },
    /// The integer literal at `start..end` does not fit into 64 bits.
    Overflow { start: int, end: int, negative: bool },
}

/// White space: blank, tab, carriage return, line feed.
pub open spec fn is_space(b: u8) -> bool {
    b == BLANK || b == TAB || b == RETURN || b == NEWLINE
}

/// An ASCII digit.
pub open spec fn is_digit(b: u8) -> bool {
    DIGIT_0 <= b <= DIGIT_9
}

/// A byte that may stand in a symbol: an ASCII letter or one of
/// `_ + - * = > < ! ? / $`.
pub open spec fn is_symbol_byte(b: u8) -> bool {
    (LOWER_A <= b <= LOWER_Z) || (UPPER_A <= b <= UPPER_Z) || b == UNDERSCORE || b == PLUS || b == MINUS || b == STAR
        || b == EQUALS || b == GREATER || b == LESS || b == BANG || b == QUESTION || b == SLASH || b == DOLLAR
}

/// The number of white-space bytes that `s` has from `from` on, up to the
/// first byte that is none.
pub open spec fn spaces(s: Seq<u8>, from: int) -> nat
    decreases s.len() - from,
{
    if 0 <= from < s.len() && is_space(s[from]) {
        1 + spaces(s, from + 1)
    } else {
        0
    }
}

/// The length of the symbol at `from`: the number of symbol bytes up to the
/// first byte that is none.
pub open spec fn symbol_len(s: Seq<u8>, from: int) -> nat
    decreases s.len() - from,
{
    if 0 <= from < s.len() && is_symbol_byte(s[from]) {
        1 + symbol_len(s, from + 1)
    } else {
        0
    }
}

/// The length of the longest run of digits and underscores at `from` that
/// ends with a digit; zero when there is none.
pub open spec fn digit_run(s: Seq<u8>, from: int) -> nat
    decreases s.len() - from,
{
    if 0 <= from < s.len() && is_digit(s[from]) {
        1 + digit_run(s, from + 1)
    } else if 0 <= from < s.len() && s[from] == UNDERSCORE {
        if digit_run(s, from + 1) > 0 {
            1 + digit_run(s, from + 1)
        } else {
            0
        }
    } else {
        0
    }
}

/// The length of the group of digits at `from`: it begins with a digit, ends
/// with a digit, and has only digits and underscores between.
pub open spec fn digits_len(s: Seq<u8>, from: int) -> nat {
    if 0 <= from < s.len() && is_digit(s[from]) {
        digit_run(s, from)
    } else {
        0
    }
}

/// One for a minus sign at `from`, else zero.
pub open spec fn sign_len(s: Seq<u8>, from: int) -> nat {
    if 0 <= from < s.len() && s[from] == MINUS {
        1
    } else {
        0
    }
}

/// One for a plus or minus sign at `from`, else zero.
pub open spec fn exponent_sign_len(s: Seq<u8>, from: int) -> nat {
    if 0 <= from < s.len() && (s[from] == PLUS || s[from] == MINUS) {
        1
    } else {
        0
    }
}

/// The length of the fraction at `from`: a point and a group of digits.
pub open spec fn fraction_len(s: Seq<u8>, from: int) -> nat {
    if 0 <= from < s.len() && s[from] == POINT && digits_len(s, from + 1) > 0 {
        1 + digits_len(s, from + 1)
    } else {
        0
    }
}

/// The length of the exponent at `from`: `e` or `E`, a sign or none, and a
/// group of digits.
pub open spec fn exponent_len(s: Seq<u8>, from: int) -> nat {
    if 0 <= from < s.len() && (s[from] == LOWER_E || s[from] == UPPER_E) {
        let sign = exponent_sign_len(s, from + 1);
        let digits = digits_len(s, from + 1 + sign);
        if digits > 0 {
            1 + sign + digits
        } else {
            0
        }
    } else {
        0
    }
}

/// The length of the sign and the integer digits of the number at `from`;
/// zero when no number starts there.
pub open spec fn integer_part_len(s: Seq<u8>, from: int) -> nat {
    let digits = digits_len(s, from + sign_len(s, from));
    if digits > 0 {
        sign_len(s, from) + digits
    } else {
        0
    }
}

/// The length of the number at `from`; zero when no number starts there.
pub open spec fn number_len(s: Seq<u8>, from: int) -> nat {
    let whole = integer_part_len(s, from);
    if whole > 0 {
        let fraction = fraction_len(s, from + whole);
        whole + fraction + exponent_len(s, from + whole + fraction)
    } else {
        0
    }
}

/// Whether the number at `from` has a fraction or an exponent.
pub open spec fn is_float(s: Seq<u8>, from: int) -> bool {
    number_len(s, from) > integer_part_len(s, from)
}

/// The number that the digits among `s[from..to]` spell in base ten.
pub open spec fn decimal(s: Seq<u8>, from: int, to: int) -> nat
    decreases to - from,
{
    if to <= from {
        0
    } else if is_digit(s[to - 1]) {
        10 * decimal(s, from, to - 1) + (s[to - 1] - DIGIT_0) as nat
    } else {
        decimal(s, from, to - 1)
    }
}

/// The integer that the literal `s[from..to]` denotes.
pub open spec fn integer_value(s: Seq<u8>, from: int, to: int) -> int {
    if sign_len(s, from) == 1 {
        -(decimal(s, from + 1, to) as int)
    } else {
        decimal(s, from, to) as int
    }
}

/// The bytes `s[from..to]` without the underscores among them.
pub open spec fn without_underscores(s: Seq<u8>, from: int, to: int) -> Seq<u8>
    decreases to - from,
{
    if to <= from {
        Seq::empty()
    } else if s[to - 1] == UNDERSCORE {
        without_underscores(s, from, to - 1)
    } else {
        without_underscores(s, from, to - 1).push(s[to - 1])
    }
}

/// The value of the number at `from`, with its length. A number with a
/// fraction or an exponent is a float; any other is an integer, which must
/// fit into 64 bits.
pub open spec fn number_at(s: Seq<u8>, from: int) -> Result<(ExprView, nat), FaultView> {
    let len = number_len(s, from);
    if is_float(s, from) {
        Ok(
            (
                ExprView::Float(
                    FloatView::Literal(ascii_text(without_underscores(s, from, from + len))),
                ),
                len,
            ),
        )
    } else {
        let value = integer_value(s, from, from + len);
        if i64::MIN <= value <= i64::MAX {
            Ok((ExprView::Integer(value as i64), len))
        } else {
            Err(FaultView::Overflow { start: from, end: from + len, negative: value < 0 })
        }
    }
}

/// The number of bytes that `s` has from `from` on.
pub open spec fn left(s: Seq<u8>, from: int) -> nat {
    if 0 <= from <= s.len() {
        (s.len() - from) as nat
    } else {
        0
    }
}

/// The expression that starts at `from`, with its length.
pub open spec fn expression_at(s: Seq<u8>, from: int) -> Result<(ExprView, nat), FaultView>
    decreases left(s, from), 0nat,
{
    if number_len(s, from) > 0 {
        number_at(s, from)
    } else if symbol_len(s, from) > 0 {
        Ok(
            (
                ExprView::Symbol(ascii_text(s.subrange(from, from + symbol_len(s, from)))),
                symbol_len(s, from),
            ),
        )
    } else if 0 <= from < s.len() && s[from] == OPEN {
        match expression_at(s, from + 1) {
            Err(fault) => Err(fault),
            Ok((operator, n)) => match arguments_at(s, from + 1 + n, Seq::empty()) {
                Err(fault) => Err(fault),
                Ok((arguments, m)) => Ok(
                    (ExprView::Combination(Box::new(operator), arguments), 1 + n + m),
                ),
            },
        }
    } else {
        Err(FaultView::Syntax { kind: ErrorKind::Alt, at: from })
    }
}

/// The arguments of a combination that follow at `from`, after the
/// arguments `done`, and the length up to and with the closing parenthesis.
/// White space comes before each argument, and none before the parenthesis.
pub open spec fn arguments_at(s: Seq<u8>, from: int, done: Seq<ExprView>) -> Result<
    (Seq<ExprView>, nat),
    FaultView,
>
    decreases left(s, from), 1nat,
{
    let gap = spaces(s, from);
    if gap > 0 {
        match expression_at(s, from + gap) {
            Err(fault) => Err(fault),
            Ok((value, n)) => match arguments_at(s, from + gap + n, done.push(value)) {
                Err(fault) => Err(fault),
                Ok((arguments, m)) => Ok((arguments, gap + n + m)),
            },
        }
    } else if done.len() == 0 {
        Err(FaultView::Syntax { kind: ErrorKind::MultiSpace, at: from })
    } else if 0 <= from < s.len() && s[from] == CLOSE {
        Ok((done, 1))
    } else {
        Err(FaultView::Syntax { kind: ErrorKind::Tag, at: from })
    }
}

/// What a whole text parses to: one expression, with white space before and
/// after it and nothing else, and the offsets at which the expression
/// starts and ends.
pub open spec fn parse_bytes(s: Seq<u8>) -> Result<(ExprView, int, int), FaultView> {
    let start = spaces(s, 0) as int;
    match expression_at(s, start) {
        Err(fault) => Err(fault),
        Ok((value, n)) => {
            let end = start + n;
            let rest = end + spaces(s, end);
            if rest == s.len() {
                Ok((value, start, end))
            } else {
                Err(FaultView::Syntax { kind: ErrorKind::Eof, at: rest })
            }
        },
    }
}

} // verus!
