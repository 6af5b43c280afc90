//! The parser: from the bytes of a buffer to a span-annotated expression,
//! or to a diagnostic.

use crate::ast::{exprs_view, lemma_combination_view, Expr, ExprView, Float, Symbol};
use crate::code::{
    spec_intern, well_formed, Code, CodeAtlas, CodeSpan, CodeSpanView, CodeView, ParserSpan,
    Spanned,
};
use crate::grammar::{
    arguments_at, decimal, digit_run, digits_len, expression_at, integer_part_len, integer_value,
    is_digit, is_space, is_symbol_byte, left, number_at, number_len, parse_bytes, spaces,
    symbol_len, without_underscores, ErrorKind, FaultView, BANG, BLANK, CLOSE, DIGIT_0, DIGIT_9,
    DOLLAR, EQUALS, GREATER, LESS, LOWER_A, LOWER_E, LOWER_Z, MINUS, NEWLINE, OPEN, PLUS, POINT,
    QUESTION, RETURN, SLASH, STAR, TAB, UNDERSCORE, UPPER_A, UPPER_E, UPPER_Z,
};
use crate::locality::{lemma_parse_covers, lemma_span_coverage};
use crate::text::{ascii_string, ascii_text};
use std::sync::Arc;
use vstd::prelude::*;

verus! {

/// Why a text is not an expression, by offsets into the text.
#[derive(Debug, Clone, Copy, PartialEq, Eq)]
pub enum Fault {
    /// The grammar does not match at `at`.
    Syntax { kind: ErrorKind, at: usize },
    /// The integer literal at `start..end` does not fit into 64 bits.
    Overflow { start: usize, end: usize, negative: bool },
}

impl View for Fault {
    type V = FaultView;

    open spec fn view(&self) -> FaultView {
        match self {
            Fault::Syntax { kind, at } => FaultView::Syntax { kind: *kind, at: *at as int },
            Fault::Overflow { start, end, negative } => FaultView::Overflow {
                start: *start as int,
                end: *end as int,
                negative: *negative,
            },
        }
    }
}

/// Whether the offsets of a fault lie within a text of `len` bytes.
pub open spec fn within(fault: FaultView, len: int) -> bool {
    match fault {
        FaultView::Syntax { at, .. } => 0 <= at <= len,
        FaultView::Overflow { start, end, .. } => 0 <= start <= end <= len,
    }
}

/// Whether `b` is white space.
fn space(b: u8) -> (r: bool)
    ensures
        r == is_space(b),
{
    b == BLANK || b == TAB || b == RETURN || b == NEWLINE
}

/// Whether `b` is an ASCII digit.
fn digit(b: u8) -> (r: bool)
    ensures
        r == is_digit(b),
{
    DIGIT_0 <= b && b <= DIGIT_9
}

/// Whether `b` may stand in a symbol.
fn symbol_byte(b: u8) -> (r: bool)
    ensures
        r == is_symbol_byte(b),
{
    (LOWER_A <= b && b <= LOWER_Z) || (UPPER_A <= b && b <= UPPER_Z) || b == UNDERSCORE || b == PLUS || b == MINUS
        || b == STAR || b == EQUALS || b == GREATER || b == LESS || b == BANG || b == QUESTION || b == SLASH
        || b == DOLLAR
}

/// The offset of the first byte at or after `from` that is no white space.
fn skip_spaces(bytes: &[u8], from: usize) -> (end: usize)
    ensures
        end == from + spaces(bytes@, from as int),
        end <= bytes@.len() || end == from,
{
    let mut i: usize = from;
    while i < bytes.len() && space(bytes[i])
        invariant
            from <= i,
            i <= bytes@.len() || i == from,
            spaces(bytes@, from as int) == (i - from) + spaces(bytes@, i as int),
        decreases bytes@.len() - i,
    {
        i += 1;
    }
    i
}

/// The offset at which the symbol at `from` ends.
fn scan_symbol(bytes: &[u8], from: usize) -> (end: usize)
    ensures
        end == from + symbol_len(bytes@, from as int),
        end <= bytes@.len() || end == from,
{
    let mut i: usize = from;
    while i < bytes.len() && symbol_byte(bytes[i])
        invariant
            from <= i,
            i <= bytes@.len() || i == from,
            symbol_len(bytes@, from as int) == (i - from) + symbol_len(bytes@, i as int),
        decreases bytes@.len() - i,
    {
        i += 1;
    }
    i
}

/// The offset at which the group of digits at `from` ends.
fn scan_digits(bytes: &[u8], from: usize) -> (end: usize)
    ensures
        end == from + digits_len(bytes@, from as int),
        end <= bytes@.len() || end == from,
{
    if !(from < bytes.len() && digit(bytes[from])) {
        return from;
    }
    let mut i: usize = from;
    let mut last: usize = from;
    while i < bytes.len() && (digit(bytes[i]) || bytes[i] == UNDERSCORE)
        invariant
            from <= last <= i <= bytes@.len(),
            digit_run(bytes@, from as int) == (if digit_run(bytes@, i as int) > 0 {
                (i - from) + digit_run(bytes@, i as int)
            } else {
                last - from
            }),
        decreases bytes@.len() - i,
    {
        if digit(bytes[i]) {
            last = i + 1;
        }
        i += 1;
    }
    last
}

/// The offsets at which the integer part of the number at `from` ends, and
/// at which the number ends.
fn scan_number(bytes: &[u8], from: usize) -> (ends: (usize, usize))
    ensures
        ends.0 == from + integer_part_len(bytes@, from as int),
        ends.1 == from + number_len(bytes@, from as int),
        ends.1 <= bytes@.len() || ends.1 == from,
{
    let sign: usize = if from < bytes.len() && bytes[from] == MINUS {
        1
    } else {
        0
    };
    let whole = scan_digits(bytes, from + sign);
    if whole == from + sign {
        return (from, from);
    }
    let mut end: usize = whole;
    if end < bytes.len() && bytes[end] == POINT {
        let fraction = scan_digits(bytes, end + 1);
        if fraction > end + 1 {
            end = fraction;
        }
    }
    if end < bytes.len() && (bytes[end] == LOWER_E || bytes[end] == UPPER_E) {
        let mut digits: usize = end + 1;
        if digits < bytes.len() && (bytes[digits] == PLUS || bytes[digits] == MINUS) {
            digits += 1;
        }
        let exponent = scan_digits(bytes, digits);
        if exponent > digits {
            end = exponent;
        }
    }
    (whole, end)
}

/// The digits among `s[from..to]` spell no smaller a number than those among
/// `s[from..mid]`.
proof fn lemma_decimal_grows(s: Seq<u8>, from: int, mid: int, to: int)
    requires
        from <= mid <= to,
    ensures
        decimal(s, from, mid) <= decimal(s, from, to),
    decreases to - mid,
{
    if mid < to {
        lemma_decimal_grows(s, from, mid, to - 1);
    }
}

/// The number that the digits among `bytes[from..to]` spell, if it is at
/// most 2^63.
fn magnitude(bytes: &[u8], from: usize, to: usize) -> (r: Option<u64>)
    requires
        from <= to <= bytes@.len(),
    ensures
        r matches Some(m) ==> m == decimal(bytes@, from as int, to as int) && m
            <= 0x8000_0000_0000_0000,
        r is None ==> decimal(bytes@, from as int, to as int) > 0x8000_0000_0000_0000,
{
    let mut total: u64 = 0;
    let mut i: usize = from;
    while i < to
        invariant
            from <= i <= to <= bytes@.len(),
            total == decimal(bytes@, from as int, i as int),
            total <= 0x8000_0000_0000_0000,
        decreases to - i,
    {
        let b = bytes[i];
        if digit(b) {
            let d: u64 = (b - DIGIT_0) as u64;
            if total > 922337203685477580 || (total == 922337203685477580 && d > 8) {
                proof {
                    lemma_decimal_grows(bytes@, from as int, i + 1, to as int);
                }
                return None;
            }
            total = total * 10 + d;
        }
        i += 1;
    }
    Some(total)
}

/// The integer that the literal `bytes[from..to]` denotes, or whether it is
/// negative when it does not fit into 64 bits.
fn integer_at(bytes: &[u8], from: usize, to: usize) -> (r: Result<i64, bool>)
    requires
        from < to <= bytes@.len(),
    ensures
        r matches Ok(v) ==> v == integer_value(bytes@, from as int, to as int),
        r matches Err(negative) ==> negative == (integer_value(bytes@, from as int, to as int) < 0)
            && !(i64::MIN <= integer_value(bytes@, from as int, to as int) <= i64::MAX),
{
    if bytes[from] == MINUS {
        match magnitude(bytes, from + 1, to) {
            Some(m) => {
                if m == 0x8000_0000_0000_0000 {
                    Ok(i64::MIN)
                } else {
                    Ok(-(m as i64))
                }
            },
            None => Err(true),
        }
    } else {
        match magnitude(bytes, from, to) {
            Some(m) => {
                if m <= 0x7fff_ffff_ffff_ffff {
                    Ok(m as i64)
                } else {
                    Err(false)
                }
            },
            None => Err(false),
        }
    }
}

/// The text of `bytes[from..to]` without its underscores.
fn literal_text(bytes: &[u8], from: usize, to: usize) -> (text: String)
    requires
        from <= to <= bytes@.len(),
    ensures
        text@ == ascii_text(without_underscores(bytes@, from as int, to as int)),
{
    let mut text = String::new();
    let mut i: usize = from;
    while i < to
        invariant
            from <= i <= to <= bytes@.len(),
            text@ == ascii_text(without_underscores(bytes@, from as int, i as int)),
        decreases to - i,
    {
        let b = bytes[i];
        if b != UNDERSCORE {
            text.push(b as char);
        }
        i += 1;
        assert(text@ =~= ascii_text(without_underscores(bytes@, from as int, i as int)));
    }
    text
}

/// The value of what `parse_at` returns, with lengths counted from `from`.
pub open spec fn parsed_view(r: Result<(Expr, usize), Fault>, from: usize) -> Result<
    (ExprView, nat),
    FaultView,
> {
    match r {
        Ok((value, end)) => Ok((value@, (end - from) as nat)),
        Err(fault) => Err(fault@),
    }
}

/// The result of `arguments_at`, with `by` more bytes counted.
spec fn shifted(r: Result<(Seq<ExprView>, nat), FaultView>, by: nat) -> Result<
    (Seq<ExprView>, nat),
    FaultView,
> {
    match r {
        Ok((arguments, m)) => Ok((arguments, by + m)),
        Err(fault) => Err(fault),
    }
}

/// Parses the number at `from`, which ends at `end` and whose integer part
/// ends at `whole`.
fn parse_number(bytes: &[u8], from: usize, whole: usize, end: usize) -> (r: Result<(Expr, usize), Fault>)
    requires
        whole == from + integer_part_len(bytes@, from as int),
        end == from + number_len(bytes@, from as int),
        from < end <= bytes@.len(),
    ensures
        parsed_view(r, from) == number_at(bytes@, from as int),
        r matches Ok((_, e)) ==> e == end,
        r matches Err(fault) ==> within(fault@, bytes@.len() as int),
{
    if end > whole {
        let text = literal_text(bytes, from, end);
        Ok((Expr::Float(Float::Literal(text)), end))
    } else {
        match integer_at(bytes, from, end) {
            Ok(value) => Ok((Expr::Integer(value), end)),
            Err(negative) => Err(Fault::Overflow { start: from, end, negative }),
        }
    }
}

/// Parses the expression that starts at `from`: on success the expression
/// and the offset at which it ends.
#[verifier::loop_isolation(false)]
pub fn parse_at(bytes: &[u8], from: usize) -> (r: Result<(Expr, usize), Fault>)
    ensures
        parsed_view(r, from) == expression_at(bytes@, from as int),
        r matches Ok((_, end)) ==> from < end <= bytes@.len(),
        r matches Err(fault) ==> within(fault@, bytes@.len() as int) || from > bytes@.len(),
    decreases left(bytes@, from as int),
{
    let (whole, number_end) = scan_number(bytes, from);
    if number_end > from {
        return parse_number(bytes, from, whole, number_end);
    }
    let symbol_end = scan_symbol(bytes, from);
    if symbol_end > from {
        let name = ascii_string(bytes, from, symbol_end);
        return Ok((Expr::Symbol(Symbol(name)), symbol_end));
    }
    if from < bytes.len() && bytes[from] == OPEN {
        let (operator, operator_end) = match parse_at(bytes, from + 1) {
            Ok(parsed) => parsed,
            Err(fault) => {
                return Err(fault);
            },
        };
        let mut arguments: Vec<Expr> = Vec::new();
        let mut at: usize = operator_end;
        assert(exprs_view(arguments@) =~= Seq::<ExprView>::empty());
        loop
            invariant
                from < operator_end <= at <= bytes@.len(),
                arguments_at(bytes@, operator_end as int, Seq::empty()) == shifted(
                    arguments_at(bytes@, at as int, exprs_view(arguments@)),
                    (at - operator_end) as nat,
                ),
            decreases bytes@.len() - at,
        {
            let next = skip_spaces(bytes, at);
            if next > at {
                match parse_at(bytes, next) {
                    Ok((value, end)) => {
                        let ghost before = exprs_view(arguments@);
                        arguments.push(value);
                        assert(exprs_view(arguments@) =~= before.push(value@));
                        at = end;
                    },
                    Err(fault) => {
                        return Err(fault);
                    },
                }
            } else if arguments.len() == 0 {
                return Err(Fault::Syntax { kind: ErrorKind::MultiSpace, at });
            } else if at < bytes.len() && bytes[at] == CLOSE {
                proof {
                    lemma_combination_view(Box::new(operator), arguments);
                }
                return Ok((Expr::Combination(Box::new(operator), arguments), at + 1));
            } else {
                return Err(Fault::Syntax { kind: ErrorKind::Tag, at });
            }
        }
    }
    Err(Fault::Syntax { kind: ErrorKind::Alt, at: from })
}

/// A diagnostic: why a buffer does not hold an expression, and where.
#[derive(Debug, PartialEq)]
pub enum ParseError {
    /// The grammar does not match. The span starts at the point of failure
    /// and runs to the end of the buffer.
    Nom { kind: ErrorKind, span: CodeSpan },
    /// A literal could not be converted to its numeric type: the text of
    /// the literal, the cause, and the span of the literal.
    BadInt { value: String, msg: String, span: CodeSpan },
}

/// The mathematical value of a [`ParseError`].
pub enum ParseErrorView {
    Nom { kind: ErrorKind, span: CodeSpanView },
    BadInt { value: Seq<char>, msg: Seq<char>, span: CodeSpanView },
}

impl View for ParseError {
    type V = ParseErrorView;

    open spec fn view(&self) -> ParseErrorView {
        match self {
            ParseError::Nom { kind, span } => ParseErrorView::Nom { kind: *kind, span: span@ },
            ParseError::BadInt { value, msg, span } => ParseErrorView::BadInt {
                value: value@,
                msg: msg@,
                span: span@,
            },
        }
    }
}

impl Clone for ParseError {
    fn clone(&self) -> (r: Self)
        ensures
            r@ == self@,
    {
        match self {
            ParseError::Nom { kind, span } => ParseError::Nom { kind: *kind, span: span.clone() },
            ParseError::BadInt { value, msg, span } => ParseError::BadInt {
                value: value.clone(),
                msg: msg.clone(),
                span: span.clone(),
            },
        }
    }
}

/// The cause given for an integer literal that is too large.
pub open spec fn too_large() -> Seq<char> {
    "number too large to fit in target type"@
}

/// The cause given for an integer literal that is too small.
pub open spec fn too_small() -> Seq<char> {
    "number too small to fit in target type"@
}

/// The diagnostic for a fault in the buffer `code`.
pub open spec fn diagnostic(code: CodeView, fault: FaultView) -> ParseErrorView {
    match fault {
        FaultView::Syntax { kind, at } => ParseErrorView::Nom {
            kind,
            span: CodeSpanView { code, start: at, end: code.bytes().len() as int },
        },
        FaultView::Overflow { start, end, negative } => ParseErrorView::BadInt {
            value: ascii_text(code.bytes().subrange(start, end)),
            msg: if negative {
                too_small()
            } else {
                too_large()
            },
            span: CodeSpanView { code, start, end },
        },
    }
}

/// Makes the diagnostic for a fault in the buffer `code`.
fn diagnose(code: &Arc<Code>, fault: Fault) -> (error: ParseError)
    requires
        within(fault@, code@.bytes().len() as int),
    ensures
        error@ == diagnostic(code@, fault@),
{
    let bytes = code.as_bytes();
    match fault {
        Fault::Syntax { kind, at } => ParseError::Nom {
            kind,
            span: CodeSpan::new(Arc::clone(code), at, bytes.len()),
        },
        Fault::Overflow { start, end, negative } => ParseError::BadInt {
            value: ascii_string(bytes, start, end),
            msg: if negative {
                "number too small to fit in target type".to_owned()
            } else {
                "number too large to fit in target type".to_owned()
            },
            span: CodeSpan::new(Arc::clone(code), start, end),
        },
    }
}

/// The value of what a parse returns.
pub open spec fn parse_view(r: Result<Spanned<Expr>, ParseError>) -> Result<
    (ExprView, CodeSpanView),
    ParseErrorView,
> {
    match r {
        Ok(spanned) => Ok((spanned.value@, spanned.span@)),
        Err(error) => Err(error@),
    }
}

/// What the buffer `code` parses to: its one expression with the span that
/// the expression covers, or the diagnostic.
pub open spec fn spec_parse(code: CodeView) -> Result<(ExprView, CodeSpanView), ParseErrorView> {
    match parse_bytes(code.bytes()) {
        Ok((value, start, end)) => Ok((value, CodeSpanView { code, start, end })),
        Err(fault) => Err(diagnostic(code, fault)),
    }
}

/// What one expression at the place `offset` of `code` parses to: the
/// expression with its span and the offset at which it ends, or the
/// diagnostic.
pub open spec fn spec_parse_expr(code: CodeView, offset: int) -> Result<
    (ExprView, CodeSpanView, int),
    ParseErrorView,
> {
    match expression_at(code.bytes(), offset) {
        Ok((value, n)) => Ok(
            (value, CodeSpanView { code, start: offset, end: offset + n }, offset + n),
        ),
        Err(fault) => Err(diagnostic(code, fault)),
    }
}

/// The value of what `parse_expr` returns.
pub open spec fn parse_expr_view(r: Result<(ParserSpan, Spanned<Expr>), ParseError>) -> Result<
    (ExprView, CodeSpanView, int),
    ParseErrorView,
> {
    match r {
        Ok((rest, spanned)) => Ok((spanned.value@, spanned.span@, rest.offset as int)),
        Err(error) => Err(error@),
    }
}

/// Parses one expression at the place `input`. On success, returns the place
/// behind the expression, and the expression with the span it covers.
pub fn parse_expr(input: ParserSpan) -> (r: Result<(ParserSpan, Spanned<Expr>), ParseError>)
    requires
        input.wf(),
    ensures
        parse_expr_view(r) == spec_parse_expr(input.extra@, input.offset as int),
        r matches Ok((rest, spanned)) ==> rest.extra == input.extra && rest.wf()
            && spanned.span@.wf() && input.offset < rest.offset,
{
    let code = input.extra;
    let start = input.offset;
    match parse_at(code.as_bytes(), start) {
        Ok((value, end)) => {
            let span = CodeSpan::new(Arc::clone(&code), start, end);
            Ok((ParserSpan { extra: code, offset: end }, Spanned { value, span }))
        },
        Err(fault) => Err(diagnose(&code, fault)),
    }
}

/// Parses the whole of a buffer: one expression, with white space before and
/// after it and nothing else.
pub fn complete_expr(code: &Arc<Code>) -> (r: Result<Spanned<Expr>, ParseError>)
    ensures
        parse_view(r) == spec_parse(code@),
        r matches Ok(spanned) ==> spanned.span@.wf(),
{
    let bytes = code.as_bytes();
    let start = skip_spaces(bytes, 0);
    match parse_at(bytes, start) {
        Ok((value, end)) => {
            let rest = skip_spaces(bytes, end);
            if rest == bytes.len() {
                Ok(Spanned { value, span: CodeSpan::new(Arc::clone(code), start, end) })
            } else {
                Err(diagnose(code, Fault::Syntax { kind: ErrorKind::Eof, at: rest }))
            }
        },
        Err(fault) => Err(diagnose(code, fault)),
    }
}

/// Interns `src` as a snippet and parses it.
pub fn parse_snippet(atlas: &mut CodeAtlas, src: &str) -> (r: Result<Spanned<Expr>, ParseError>)
    ensures
        final(atlas)@ == spec_intern(old(atlas)@, src@, None, None).0,
        parse_view(r) == spec_parse(spec_intern(old(atlas)@, src@, None, None).1),
        r matches Ok(spanned) ==> spanned.span@.wf(),
        well_formed(old(atlas)@) ==> well_formed(final(atlas)@),
{
    let code = Code::from_snippet(atlas, src);
    complete_expr(&code)
}

/// The diagnostic for a file that could not be read: a failure at the start
/// of the empty buffer `code`.
pub open spec fn unreadable(code: CodeView) -> ParseErrorView {
    ParseErrorView::Nom { kind: ErrorKind::Fail, span: CodeSpanView { code, start: 0, end: 0 } }
}

/// Parses what was read from the file at `path`. `text` is `None` when the
/// file could not be read; the diagnostic then points into the empty snippet.
pub fn parse_file_text(atlas: &mut CodeAtlas, path: &str, text: Option<String>) -> (r: Result<
    Spanned<Expr>,
    ParseError,
>)
    ensures
        text is None ==> final(atlas)@ == spec_intern(old(atlas)@, Seq::empty(), None, None).0
            && parse_view(r) == Err::<(ExprView, CodeSpanView), ParseErrorView>(
            unreadable(spec_intern(old(atlas)@, Seq::empty(), None, None).1),
        ),
        text matches Some(t) ==> exists|name: Option<Seq<char>>|
            final(atlas)@ == (#[trigger] spec_intern(old(atlas)@, t@, Some(path@), name)).0
                && parse_view(r) == spec_parse(
                spec_intern(old(atlas)@, t@, Some(path@), name).1,
            ),
        well_formed(old(atlas)@) ==> well_formed(final(atlas)@),
{
    match text {
        None => {
            let code = Code::from_snippet(atlas, "");
            proof {
                reveal_strlit("");
                assert(""@ =~= Seq::<char>::empty());
            }
            Err(ParseError::Nom { kind: ErrorKind::Fail, span: CodeSpan::new(code, 0, 0) })
        },
        Some(text) => {
            let code = Code::intern(atlas, text, Some(path.to_owned()));
            complete_expr(&code)
        },
    }
}

/// Where a buffer parses, the span of its expression lies within the
/// buffer, and the bytes under the span parse, on their own, to the same
/// expression, which covers all of them.
pub proof fn lemma_parsed_span(code: CodeView)
    requires
        spec_parse(code) is Ok,
    ensures
        spec_parse(code) matches Ok((value, span)) && span.wf() && span.code == code
            && span.start < span.end && parse_bytes(span.slice()) == Ok::<
            (ExprView, int, int),
            FaultView,
        >((value, 0, span.end - span.start)),
{
    lemma_parse_covers(code.bytes());
}

/// Where an expression parses at a place of a buffer, its span starts at
/// the place and lies within the buffer, and the bytes under the span parse,
/// on their own, to the same expression.
pub proof fn lemma_parsed_expr_span(code: CodeView, offset: int)
    requires
        0 <= offset,
        spec_parse_expr(code, offset) is Ok,
    ensures
        spec_parse_expr(code, offset) matches Ok((value, span, rest)) && span.wf() && span.start
            == offset && span.end == rest && parse_bytes(span.slice()) == Ok::<
            (ExprView, int, int),
            FaultView,
        >((value, 0, span.end - span.start)),
{
    lemma_span_coverage(code.bytes(), offset);
}

/// What `src` parses to when it is interned in a store of its own.
pub open spec fn spec_parse_text(src: Seq<char>) -> Result<(ExprView, CodeSpanView), ParseErrorView> {
    spec_parse(spec_intern(Seq::empty(), src, None, None).1)
}

impl std::str::FromStr for Expr {
    type Err = ParseError;

    /// Parses `s` as a snippet and keeps the expression.
    fn from_str(s: &str) -> (r: Result<Self, Self::Err>)
        ensures
            match r {
                Ok(value) => spec_parse_text(s@) matches Ok((v, _)) && v == value@,
                Err(error) => spec_parse_text(s@) == Err::<(ExprView, CodeSpanView), ParseErrorView>(
                    error@,
                ),
            },
    {
        let mut atlas = CodeAtlas::new();
        match parse_snippet(&mut atlas, s) {
            Ok(spanned) => Ok(spanned.value),
            Err(error) => Err(error),
        }
    }
}

impl std::str::FromStr for Spanned<Expr> {
    type Err = ParseError;

    /// Parses `s` as a snippet in a store of its own.
    fn from_str(s: &str) -> (r: Result<Self, Self::Err>)
        ensures
            parse_view(r) == spec_parse_text(s@),
    {
        let mut atlas = CodeAtlas::new();
        parse_snippet(&mut atlas, s)
    }
}

} // verus!
