use sexpr_core::ast::{Expr, Float, Symbol};
use sexpr_core::code::{Code, CodeAtlas};
use sexpr_core::grammar::ErrorKind;
use sexpr_core::parser::{complete_expr, parse_expr, parse_file_text, parse_snippet, ParseError};

fn float_value(f: &Float) -> f64 {
    match f {
        Float::Literal(text) => text.parse::<f64>().expect("float literal"),
        Float::FromInteger(i) => *i as f64,
        Float::Sum(a, b) => float_value(a) + float_value(b),
    }
}

fn symbol(name: &str) -> Expr {
    Expr::Symbol(Symbol(name.to_string()))
}

fn parse(src: &str) -> Result<Expr, ParseError> {
    let mut atlas = CodeAtlas::new();
    parse_snippet(&mut atlas, src).map(|sp| sp.value)
}

fn syntax_failure(src: &str) -> (ErrorKind, usize, usize) {
    let mut atlas = CodeAtlas::new();
    match parse_snippet(&mut atlas, src) {
        Err(ParseError::Nom { kind, span }) => (kind, span.start, span.end),
        other => panic!("expected a syntax failure, got {:?}", other),
    }
}

#[test]
fn parses_integer() {
    let mut atlas = CodeAtlas::new();
    let sp = parse_snippet(&mut atlas, "  42 ").expect("parse");
    assert_eq!(sp.value, Expr::Integer(42));
    assert_eq!(&sp.span.code.text[sp.span.start..sp.span.end], "42");
}

#[test]
fn parses_float() {
    let mut atlas = CodeAtlas::new();
    let sp = parse_snippet(&mut atlas, "  3.14 ").expect("parse");
    assert_eq!(sp.value, Expr::Float(Float::Literal("3.14".to_string())));
    match &sp.value {
        Expr::Float(f) => assert_eq!(float_value(f), 3.14),
        other => panic!("expected a float, got {:?}", other),
    }
    assert_eq!(&sp.span.code.text[sp.span.start..sp.span.end], "3.14");
}

#[test]
fn parses_operator() {
    let mut atlas = CodeAtlas::new();
    let sp = parse_snippet(&mut atlas, "  + ").expect("parse");
    assert_eq!(sp.value, Expr::Symbol(Symbol("+".to_string())));
    assert_eq!(&sp.span.code.text[sp.span.start..sp.span.end], "+");
}

#[test]
fn parses_combination() {
    let mut atlas = CodeAtlas::new();
    let sp = parse_snippet(&mut atlas, "(define x 1)").expect("parse");
    assert_eq!(
        sp.value,
        Expr::Combination(
            Box::new(Expr::Symbol(Symbol("define".to_string()))),
            vec![Expr::Symbol(Symbol("x".to_string())), Expr::Integer(1)]
        )
    );
}

#[test]
fn span_covers_whole_combination() {
    let mut atlas = CodeAtlas::new();
    let sp = parse_snippet(&mut atlas, " \t(define x 1)\n").expect("parse");
    assert_eq!((sp.span.start, sp.span.end), (2, 14));
    assert_eq!(&sp.span.code.text[sp.span.start..sp.span.end], "(define x 1)");
}

#[test]
fn span_slice_parses_to_the_same_expression() {
    let mut atlas = CodeAtlas::new();
    let src = "\n  (f (g 1_0 -2.5e3) h)  ";
    let sp = parse_snippet(&mut atlas, src).expect("parse");
    let slice = sp.span.code.text[sp.span.start..sp.span.end].to_string();
    assert_eq!(slice, "(f (g 1_0 -2.5e3) h)");
    let again = parse_snippet(&mut atlas, &slice).expect("parse");
    assert_eq!(again.value, sp.value);
    assert_eq!((again.span.start, again.span.end), (0, slice.len()));
}

#[test]
fn parses_nested_combinations() {
    assert_eq!(
        parse("(a (b c) (d (e f)))").expect("parse"),
        Expr::Combination(
            Box::new(symbol("a")),
            vec![
                Expr::Combination(Box::new(symbol("b")), vec![symbol("c")]),
                Expr::Combination(
                    Box::new(symbol("d")),
                    vec![Expr::Combination(Box::new(symbol("e")), vec![symbol("f")])]
                ),
            ]
        )
    );
}

#[test]
fn combination_may_have_a_combination_as_operator() {
    assert_eq!(
        parse("((f x) 1)").expect("parse"),
        Expr::Combination(
            Box::new(Expr::Combination(Box::new(symbol("f")), vec![symbol("x")])),
            vec![Expr::Integer(1)]
        )
    );
}

#[test]
fn arguments_may_be_separated_by_any_white_space() {
    assert_eq!(
        parse("(f\t1\r\n  2)").expect("parse"),
        Expr::Combination(Box::new(symbol("f")), vec![Expr::Integer(1), Expr::Integer(2)])
    );
}

#[test]
fn parses_negative_integer() {
    assert_eq!(parse("-17").expect("parse"), Expr::Integer(-17));
}

#[test]
fn parses_zero_and_negative_zero() {
    assert_eq!(parse("0").expect("parse"), Expr::Integer(0));
    assert_eq!(parse("-0").expect("parse"), Expr::Integer(0));
    assert_eq!(parse("007").expect("parse"), Expr::Integer(7));
}

#[test]
fn underscores_separate_digits() {
    assert_eq!(parse("1_000_000").expect("parse"), Expr::Integer(1_000_000));
    assert_eq!(parse("1__2").expect("parse"), Expr::Integer(12));
}

#[test]
fn underscores_are_stripped_from_float_literals() {
    assert_eq!(
        parse("1_0.2_5e1_0").expect("parse"),
        Expr::Float(Float::Literal("10.25e10".to_string()))
    );
}

#[test]
fn trailing_underscore_is_not_part_of_a_number() {
    assert_eq!(syntax_failure("1_"), (ErrorKind::Eof, 1, 2));
}

#[test]
fn parses_integer_limits() {
    assert_eq!(parse("9223372036854775807").expect("parse"), Expr::Integer(i64::MAX));
    assert_eq!(parse("-9223372036854775808").expect("parse"), Expr::Integer(i64::MIN));
}

#[test]
fn integer_too_large_is_a_bad_int() {
    let mut atlas = CodeAtlas::new();
    match parse_snippet(&mut atlas, " 9223372036854775808 ") {
        Err(ParseError::BadInt { value, msg, span }) => {
            assert_eq!(value, "9223372036854775808");
            assert_eq!(msg, "number too large to fit in target type");
            assert_eq!((span.start, span.end), (1, 20));
            assert_eq!(&span.code.text[span.start..span.end], "9223372036854775808");
        }
        other => panic!("expected BadInt, got {:?}", other),
    }
}

#[test]
fn integer_too_small_is_a_bad_int() {
    let mut atlas = CodeAtlas::new();
    match parse_snippet(&mut atlas, "-9_223_372_036_854_775_809") {
        Err(ParseError::BadInt { value, msg, span }) => {
            assert_eq!(value, "-9_223_372_036_854_775_809");
            assert_eq!(msg, "number too small to fit in target type");
            assert_eq!((span.start, span.end), (0, 26));
        }
        other => panic!("expected BadInt, got {:?}", other),
    }
}

#[test]
fn very_long_integer_is_a_bad_int() {
    let src = "1".repeat(200);
    assert!(matches!(parse(&src), Err(ParseError::BadInt { .. })));
}

#[test]
fn bad_int_matches_what_std_says() {
    let large = "99999999999999999999".parse::<i64>().unwrap_err().to_string();
    let small = "-99999999999999999999".parse::<i64>().unwrap_err().to_string();
    match parse("99999999999999999999") {
        Err(ParseError::BadInt { msg, .. }) => assert_eq!(msg, large),
        other => panic!("expected BadInt, got {:?}", other),
    }
    match parse("-99999999999999999999") {
        Err(ParseError::BadInt { msg, .. }) => assert_eq!(msg, small),
        other => panic!("expected BadInt, got {:?}", other),
    }
}

#[test]
fn bad_int_inside_a_combination_is_reported() {
    let mut atlas = CodeAtlas::new();
    match parse_snippet(&mut atlas, "(f 1 99999999999999999999)") {
        Err(ParseError::BadInt { value, span, .. }) => {
            assert_eq!(value, "99999999999999999999");
            assert_eq!((span.start, span.end), (5, 25));
        }
        other => panic!("expected BadInt, got {:?}", other),
    }
}

#[test]
fn float_forms() {
    for (src, text, value) in [
        ("2.5", "2.5", 2.5),
        ("-2.5", "-2.5", -2.5),
        ("1e3", "1e3", 1000.0),
        ("1E3", "1E3", 1000.0),
        ("1e+3", "1e+3", 1000.0),
        ("25e-1", "25e-1", 2.5),
        ("1.5e2", "1.5e2", 150.0),
        ("0.0", "0.0", 0.0),
    ] {
        match parse(src).expect("parse") {
            Expr::Float(f) => {
                assert_eq!(f, Float::Literal(text.to_string()));
                assert_eq!(float_value(&f), value);
            }
            other => panic!("expected a float for {}, got {:?}", src, other),
        }
    }
}

#[test]
fn point_needs_digits_on_both_sides() {
    assert_eq!(syntax_failure("1."), (ErrorKind::Eof, 1, 2));
    assert_eq!(syntax_failure(".5"), (ErrorKind::Alt, 0, 2));
}

#[test]
fn exponent_needs_digits() {
    assert_eq!(syntax_failure("1e"), (ErrorKind::Eof, 1, 2));
    assert_eq!(syntax_failure("1e+"), (ErrorKind::Eof, 1, 3));
}

#[test]
fn plus_is_no_sign_of_a_number() {
    assert_eq!(syntax_failure("+5"), (ErrorKind::Eof, 1, 2));
}

#[test]
fn minus_alone_is_a_symbol() {
    assert_eq!(parse("-").expect("parse"), symbol("-"));
    assert_eq!(parse("-x").expect("parse"), symbol("-x"));
    assert_eq!(parse("->").expect("parse"), symbol("->"));
}

#[test]
fn symbols_take_the_longest_match() {
    assert_eq!(parse("set!").expect("parse"), symbol("set!"));
    assert_eq!(parse("a_b-c*d=e>f<g!h?i/j$k+").expect("parse"), symbol("a_b-c*d=e>f<g!h?i/j$k+"));
    assert_eq!(parse("Hello").expect("parse"), symbol("Hello"));
}

#[test]
fn symbol_does_not_hold_digits() {
    assert_eq!(syntax_failure("x1"), (ErrorKind::Eof, 1, 2));
}

#[test]
fn number_is_tried_before_symbol() {
    assert_eq!(
        parse("(- -1 -x)").expect("parse"),
        Expr::Combination(Box::new(symbol("-")), vec![Expr::Integer(-1), symbol("-x")])
    );
}

#[test]
fn empty_input_is_a_syntax_failure() {
    assert_eq!(syntax_failure(""), (ErrorKind::Alt, 0, 0));
    assert_eq!(syntax_failure("   "), (ErrorKind::Alt, 3, 3));
}

#[test]
fn unknown_byte_is_a_syntax_failure() {
    assert_eq!(syntax_failure(" #t"), (ErrorKind::Alt, 1, 3));
    assert_eq!(syntax_failure("\"text\""), (ErrorKind::Alt, 0, 6));
    assert_eq!(syntax_failure("é"), (ErrorKind::Alt, 0, 2));
}

#[test]
fn trailing_input_is_a_syntax_failure() {
    assert_eq!(syntax_failure("1 2"), (ErrorKind::Eof, 2, 3));
    assert_eq!(syntax_failure("(a b) c"), (ErrorKind::Eof, 6, 7));
    assert_eq!(syntax_failure("a)"), (ErrorKind::Eof, 1, 2));
}

#[test]
fn combination_needs_an_argument() {
    assert_eq!(syntax_failure("(a)"), (ErrorKind::MultiSpace, 2, 3));
    assert_eq!(syntax_failure("(a"), (ErrorKind::MultiSpace, 2, 2));
    assert_eq!(syntax_failure("()"), (ErrorKind::Alt, 1, 2));
}

#[test]
fn arguments_need_white_space_between_them() {
    assert_eq!(syntax_failure("(a(b c))"), (ErrorKind::MultiSpace, 2, 8));
    assert_eq!(syntax_failure("(a 1(b c))"), (ErrorKind::Tag, 4, 10));
}

#[test]
fn combination_needs_a_closing_parenthesis() {
    assert_eq!(syntax_failure("(a b"), (ErrorKind::Tag, 4, 4));
    assert_eq!(syntax_failure("(a b (c d)"), (ErrorKind::Tag, 10, 10));
}

#[test]
fn no_white_space_inside_the_parentheses() {
    assert_eq!(syntax_failure("( a b)"), (ErrorKind::Alt, 1, 6));
    assert_eq!(syntax_failure("(a b )"), (ErrorKind::Alt, 5, 6));
}

#[test]
fn parse_expr_returns_the_rest() {
    let mut atlas = CodeAtlas::new();
    let code = Code::from_snippet(&mut atlas, "(f 1) tail");
    let (rest, spanned) = parse_expr(Code::span(&code)).expect("parse");
    assert_eq!(rest.location_offset(), 5);
    assert_eq!((spanned.span.start, spanned.span.end), (0, 5));
    assert_eq!(
        spanned.value,
        Expr::Combination(Box::new(symbol("f")), vec![Expr::Integer(1)])
    );
    match parse_expr(rest) {
        Err(ParseError::Nom { kind, span }) => {
            assert_eq!(kind, ErrorKind::Alt);
            assert_eq!((span.start, span.end), (5, 10));
        }
        other => panic!("expected a syntax failure, got {:?}", other),
    }
}

#[test]
fn parse_expr_does_not_skip_white_space() {
    let mut atlas = CodeAtlas::new();
    let code = Code::from_snippet(&mut atlas, " 1");
    assert!(matches!(
        parse_expr(Code::span(&code)),
        Err(ParseError::Nom { kind: ErrorKind::Alt, .. })
    ));
    assert_eq!(complete_expr(&code).expect("parse").value, Expr::Integer(1));
}

#[test]
fn parse_snippet_interns_its_source() {
    let mut atlas = CodeAtlas::new();
    let first = parse_snippet(&mut atlas, "(f 1)").expect("parse");
    let second = parse_snippet(&mut atlas, "(f 1)").expect("parse");
    assert_eq!(atlas.len(), 1);
    assert!(std::sync::Arc::ptr_eq(&first.span.code, &second.span.code));
    assert_eq!(first.span, second.span);
}

#[test]
fn unreadable_file_is_a_diagnostic() {
    let mut atlas = CodeAtlas::new();
    match parse_file_text(&mut atlas, "missing.lisp", None) {
        Err(ParseError::Nom { kind, span }) => {
            assert_eq!(kind, ErrorKind::Fail);
            assert_eq!((span.start, span.end), (0, 0));
            assert_eq!(span.code.text.as_str(), "");
            assert_eq!(span.code.file_path, None);
        }
        other => panic!("expected a failure, got {:?}", other),
    }
}

#[test]
fn file_text_is_parsed_with_its_origin() {
    let mut atlas = CodeAtlas::new();
    let sp = parse_file_text(&mut atlas, "lib/prelude.lisp", Some(" (id 7)\n".to_string()))
        .expect("parse");
    assert_eq!(sp.value, Expr::Combination(Box::new(symbol("id")), vec![Expr::Integer(7)]));
    assert_eq!(sp.span.code.file_path.as_deref(), Some("lib/prelude.lisp"));
    assert_eq!(sp.span.code.name.as_deref(), Some("prelude.lisp"));
    assert_eq!((sp.span.start, sp.span.end), (1, 7));
}

#[test]
fn parse_error_can_be_cloned() {
    let error = parse("(a").unwrap_err();
    assert_eq!(error.clone(), error);
    let error = parse("99999999999999999999").unwrap_err();
    assert_eq!(error.clone(), error);
}

#[test]
fn span_of_a_combination_encloses_the_spans_of_its_parts() {
    let mut atlas = CodeAtlas::new();
    let code = Code::from_snippet(&mut atlas, "(f (g 1) 22)");
    let (_, whole) = parse_expr(Code::span(&code)).expect("parse");
    assert_eq!((whole.span.start, whole.span.end), (0, 12));
    let mut place = Code::span(&code);
    place.offset = 3;
    let (rest, inner) = parse_expr(place).expect("parse");
    assert_eq!((inner.span.start, inner.span.end), (3, 8));
    assert_eq!(inner.value, Expr::Combination(Box::new(symbol("g")), vec![Expr::Integer(1)]));
    assert!(whole.span.start <= inner.span.start && inner.span.end <= whole.span.end);
    assert_eq!(&code.text[inner.span.start..inner.span.end], "(g 1)");
    assert_eq!(rest.location_offset(), 8);
    let mut place = Code::span(&code);
    place.offset = 9;
    let (_, last) = parse_expr(place).expect("parse");
    assert_eq!((last.span.start, last.span.end), (9, 11));
    assert_eq!(last.value, Expr::Integer(22));
}

#[test]
fn expression_from_str() {
    let e: Expr = "(+ 1 2)".parse().expect("parse");
    assert_eq!(
        e,
        Expr::Combination(Box::new(symbol("+")), vec![Expr::Integer(1), Expr::Integer(2)])
    );
    assert!(matches!("(+ 1".parse::<Expr>(), Err(ParseError::Nom { kind: ErrorKind::Tag, .. })));
}

#[test]
fn spanned_expression_from_str() {
    let sp: sexpr_core::code::Spanned<Expr> = " x ".parse().expect("parse");
    assert_eq!(sp.value, symbol("x"));
    assert_eq!((sp.span.start, sp.span.end), (1, 2));
    let copy = sp.clone();
    assert_eq!(copy.value, sp.value);
    assert_eq!(copy.span, sp.span);
}

#[test]
fn symbol_derefs_to_its_text() {
    let s = Symbol("define".to_string());
    assert_eq!(&*s, "define");
    assert_eq!(s.len(), 6);
    assert_eq!(s.clone(), s);
}
