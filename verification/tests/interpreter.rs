use sexpr_core::ast::{Duration, Expr, Float, Symbol, Timestamp};
use sexpr_core::code::CodeAtlas;
use sexpr_core::interpreter::{
    add_number, builtin_add, builtin_car, builtin_cdr, builtin_cons, builtin_get, builtin_if,
    builtin_set, primitive_by_name, primitive_for, EvalError, Interpreter, Number, Primitive,
    REEVALUATION_DEPTH,
};
use sexpr_core::parser::parse_snippet;
use sexpr_core::interpreter::{Env, ScopeArena};

fn float_value(f: &Float) -> f64 {
    match f {
        Float::Literal(text) => text.parse::<f64>().expect("float literal"),
        Float::FromInteger(i) => *i as f64,
        Float::Sum(a, b) => float_value(a) + float_value(b),
    }
}

fn symbol(name: &str) -> Expr {
    Expr::Symbol(Symbol(name.to_string()))
}

fn call(operator: &str, arguments: Vec<Expr>) -> Expr {
    Expr::Combination(Box::new(symbol(operator)), arguments)
}

fn literal(text: &str) -> Expr {
    Expr::Float(Float::Literal(text.to_string()))
}

fn read(src: &str) -> Expr {
    let mut atlas = CodeAtlas::new();
    parse_snippet(&mut atlas, src).expect("parse").value
}

fn run(src: &str) -> Result<Expr, EvalError> {
    Interpreter::new().eval(&read(src))
}

#[test]
fn self_evaluating_expressions_evaluate_to_themselves() {
    let mut interpreter = Interpreter::new();
    for e in [
        Expr::Nil,
        Expr::Comment("note".to_string()),
        symbol("x"),
        Expr::Boolean(true),
        literal("2.5"),
        Expr::String("text".to_string()),
        Expr::Duration(Duration(chrono::TimeDelta::seconds(90))),
        Expr::Timestamp(Timestamp { seconds: 1_700_000_000, nanoseconds: 5 }),
        Expr::Integer(-4),
    ] {
        assert_eq!(interpreter.eval(&e), Ok(e.clone()));
    }
}

#[test]
fn adds_integers() {
    assert_eq!(run("(+ 1 2)"), Ok(Expr::Integer(3)));
    assert_eq!(builtin_add(&vec![Expr::Integer(1), Expr::Integer(2)]), Ok(Expr::Integer(3)));
}

#[test]
fn adding_a_float_promotes_the_sum() {
    let sum = run("(+ 1 2.5)").expect("eval");
    assert_eq!(
        sum,
        Expr::Float(Float::Sum(
            Box::new(Float::FromInteger(1)),
            Box::new(Float::Literal("2.5".to_string()))
        ))
    );
    match &sum {
        Expr::Float(f) => assert_eq!(float_value(f), 3.5),
        other => panic!("expected a float, got {:?}", other),
    }
}

#[test]
fn adding_an_integer_to_a_float_stays_float() {
    match run("(+ 2.5 1)").expect("eval") {
        Expr::Float(f) => {
            assert_eq!(
                f,
                Float::Sum(
                    Box::new(Float::Literal("2.5".to_string())),
                    Box::new(Float::FromInteger(1))
                )
            );
            assert_eq!(float_value(&f), 3.5);
        }
        other => panic!("expected a float, got {:?}", other),
    }
}

#[test]
fn adding_floats_stays_float() {
    match run("(+ 0.1 0.2 0.3)").expect("eval") {
        Expr::Float(f) => {
            assert_eq!(
                f,
                Float::Sum(
                    Box::new(Float::Sum(
                        Box::new(Float::Literal("0.1".to_string())),
                        Box::new(Float::Literal("0.2".to_string()))
                    )),
                    Box::new(Float::Literal("0.3".to_string()))
                )
            );
            assert_eq!(float_value(&f), (0.1 + 0.2) + 0.3);
        }
        other => panic!("expected a float, got {:?}", other),
    }
}

#[test]
fn a_single_float_is_its_own_sum() {
    assert_eq!(run("(+ 2.5)"), Ok(literal("2.5")));
    assert_eq!(run("(+ 7)"), Ok(Expr::Integer(7)));
}

#[test]
fn adding_nothing_is_integer_zero() {
    assert_eq!(builtin_add(&vec![]), Ok(Expr::Integer(0)));
}

#[test]
fn adding_a_string_is_not_numeric() {
    let text = Expr::String("one".to_string());
    assert_eq!(
        builtin_add(&vec![Expr::Integer(1), text.clone()]),
        Err(EvalError::NotNumeric(text.clone()))
    );
    assert_eq!(builtin_add(&vec![text.clone()]), Err(EvalError::NotNumeric(text.clone())));
    assert_eq!(
        builtin_add(&vec![literal("1.5"), text.clone(), Expr::Nil]),
        Err(EvalError::NotNumeric(text))
    );
    assert_eq!(run("(+ 1 x)"), Err(EvalError::NotNumeric(symbol("x"))));
}

#[test]
fn integer_sums_wrap() {
    assert_eq!(
        builtin_add(&vec![Expr::Integer(i64::MAX), Expr::Integer(1)]),
        Ok(Expr::Integer(i64::MIN))
    );
    assert_eq!(
        builtin_add(&vec![Expr::Integer(i64::MIN), Expr::Integer(-1)]),
        Ok(Expr::Integer(i64::MAX))
    );
}

#[test]
fn add_number_steps() {
    assert!(matches!(add_number(Number::Zero, &Expr::Integer(4)), Ok(Number::Signed(4))));
    assert!(matches!(add_number(Number::Signed(4), &Expr::Integer(5)), Ok(Number::Signed(9))));
    assert!(matches!(add_number(Number::Signed(4), &literal("1.0")), Ok(Number::Float(_))));
    assert!(matches!(
        add_number(Number::Float(Float::FromInteger(1)), &Expr::Integer(5)),
        Ok(Number::Float(_))
    ));
    assert!(matches!(
        add_number(Number::Zero, &Expr::Boolean(true)),
        Err(EvalError::NotNumeric(Expr::Boolean(true)))
    ));
}

#[test]
fn set_binds_and_get_finds() {
    let mut interpreter = Interpreter::new();
    assert_eq!(interpreter.eval(&read("(set x 5)")), Ok(Expr::Nil));
    assert_eq!(interpreter.eval(&read("(get x)")), Ok(Expr::Integer(5)));
    assert_eq!(
        interpreter.env.get(&interpreter.arena, "x"),
        Some(Expr::Integer(5))
    );
}

#[test]
fn set_replaces_an_earlier_binding() {
    let mut interpreter = Interpreter::new();
    assert_eq!(interpreter.eval(&read("(set x 5)")), Ok(Expr::Nil));
    assert_eq!(interpreter.eval(&read("(set x (+ 5 1))")), Ok(Expr::Nil));
    assert_eq!(interpreter.eval(&read("(get x)")), Ok(Expr::Integer(6)));
}

#[test]
fn get_of_an_unbound_name_is_nil() {
    assert_eq!(run("(get y)"), Ok(Expr::Nil));
}

#[test]
fn set_ignores_arguments_after_the_second() {
    let mut interpreter = Interpreter::new();
    assert_eq!(interpreter.eval(&read("(set x 1 2 3)")), Ok(Expr::Nil));
    assert_eq!(interpreter.eval(&read("(get x y)")), Ok(Expr::Integer(1)));
}

#[test]
fn set_signals_its_errors() {
    assert_eq!(run("(set x)"), Err(EvalError::Arity(Primitive::SetVar)));
    assert_eq!(run("(set 1 2)"), Err(EvalError::Type(Primitive::SetVar)));
    assert_eq!(run("(set 1)"), Err(EvalError::Type(Primitive::SetVar)));
    let mut arena = ScopeArena::new();
    let mut env = Env::new(&mut arena);
    assert_eq!(
        builtin_set(&mut env, &mut arena, &vec![]),
        Err(EvalError::Arity(Primitive::SetVar))
    );
}

#[test]
fn get_signals_its_errors() {
    assert_eq!(run("(get 1)"), Err(EvalError::Type(Primitive::GetVar)));
    let mut arena = ScopeArena::new();
    let env = Env::new(&mut arena);
    assert_eq!(builtin_get(&env, &arena, &vec![]), Err(EvalError::Arity(Primitive::GetVar)));
}

#[test]
fn child_scope_sees_the_bindings_of_its_parent() {
    let mut arena = ScopeArena::new();
    let mut parent = Env::new(&mut arena);
    parent.set(&mut arena, "x".to_string(), Expr::Integer(5));
    assert_eq!(parent.get(&arena, "x"), Some(Expr::Integer(5)));
    let child = parent.clone_child(&mut arena);
    assert_eq!(child.get(&arena, "x"), Some(Expr::Integer(5)));
    let grandchild = child.clone_child(&mut arena);
    assert_eq!(grandchild.get(&arena, "x"), Some(Expr::Integer(5)));
    assert_eq!(grandchild.get(&arena, "y"), None);
}

#[test]
fn child_scope_sees_what_its_parent_binds_later() {
    let mut arena = ScopeArena::new();
    let mut parent = Env::new(&mut arena);
    let child = parent.clone_child(&mut arena);
    assert_eq!(child.get(&arena, "x"), None);
    parent.set(&mut arena, "x".to_string(), Expr::Integer(5));
    assert_eq!(child.get(&arena, "x"), Some(Expr::Integer(5)));
}

#[test]
fn child_scope_shadows_and_does_not_write_to_its_parent() {
    let mut arena = ScopeArena::new();
    let mut parent = Env::new(&mut arena);
    parent.set(&mut arena, "x".to_string(), Expr::Integer(5));
    let mut child = parent.clone_child(&mut arena);
    child.set(&mut arena, "x".to_string(), Expr::Integer(6));
    child.set(&mut arena, "y".to_string(), Expr::Integer(7));
    assert_eq!(child.get(&arena, "x"), Some(Expr::Integer(6)));
    assert_eq!(parent.get(&arena, "x"), Some(Expr::Integer(5)));
    assert_eq!(parent.get(&arena, "y"), None);
}

#[test]
fn cloned_environment_shares_its_frames() {
    let mut arena = ScopeArena::new();
    let mut first = Env::new(&mut arena);
    let second = first.clone();
    first.set(&mut arena, "x".to_string(), Expr::Integer(1));
    assert_eq!(second.get(&arena, "x"), Some(Expr::Integer(1)));
    assert_eq!(second.scope_stack, first.scope_stack);
    assert_eq!(arena.len(), 1);
}

#[test]
fn environment_without_frames_binds_nothing() {
    let mut arena = ScopeArena::new();
    let mut env = Env { scope_stack: vec![] };
    env.set(&mut arena, "x".to_string(), Expr::Integer(1));
    assert_eq!(env.get(&arena, "x"), None);
    let mut stray = Env { scope_stack: vec![7] };
    stray.set(&mut arena, "x".to_string(), Expr::Integer(1));
    assert_eq!(stray.get(&arena, "x"), None);
    assert_eq!(arena.len(), 0);
}

#[test]
fn interpreter_in_a_child_scope() {
    let mut interpreter = Interpreter::new();
    assert_eq!(interpreter.eval(&read("(set x 5)")), Ok(Expr::Nil));
    let child = interpreter.env.clone_child(&mut interpreter.arena);
    let mut inner = Interpreter { env: child, arena: interpreter.arena };
    assert_eq!(inner.eval(&read("(get x)")), Ok(Expr::Integer(5)));
    assert_eq!(inner.eval(&read("(set x 6)")), Ok(Expr::Nil));
    assert_eq!(inner.eval(&read("(get x)")), Ok(Expr::Integer(6)));
    let outer = Env { scope_stack: vec![0] };
    assert_eq!(outer.get(&inner.arena, "x"), Some(Expr::Integer(5)));
}

#[test]
fn car_and_cdr_take_a_combination_apart() {
    let pair = call("op", vec![symbol("a"), symbol("b")]);
    assert_eq!(builtin_car(&vec![pair.clone()]), Ok(symbol("op")));
    assert_eq!(builtin_cdr(&vec![pair.clone()]), Ok(call("a", vec![symbol("b")])));
    assert_eq!(run("(car (op a b))"), Ok(symbol("op")));
    assert_eq!(run("(cdr (op a b))"), Ok(call("a", vec![symbol("b")])));
    assert_eq!(run("(cdr (op a b c))"), Ok(call("a", vec![symbol("b"), symbol("c")])));
    assert_eq!(run("(car (cdr (op a b)))"), Ok(symbol("a")));
}

#[test]
fn car_signals_its_errors() {
    assert_eq!(run("(car 1)"), Err(EvalError::Type(Primitive::Car)));
    assert_eq!(builtin_car(&vec![]), Err(EvalError::Arity(Primitive::Car)));
}

#[test]
fn cdr_signals_its_errors() {
    assert_eq!(run("(cdr 1)"), Err(EvalError::Type(Primitive::Cdr)));
    assert_eq!(run("(cdr (op a))"), Err(EvalError::Type(Primitive::Cdr)));
    assert_eq!(builtin_cdr(&vec![]), Err(EvalError::Arity(Primitive::Cdr)));
}

#[test]
fn cons_returns_its_combination() {
    assert_eq!(run("(cons (op a b))"), Ok(call("op", vec![symbol("a"), symbol("b")])));
    assert_eq!(run("(cons 1)"), Err(EvalError::Type(Primitive::Cons)));
    assert_eq!(builtin_cons(&vec![]), Err(EvalError::Arity(Primitive::Cons)));
    let empty = Expr::Combination(Box::new(symbol("op")), vec![]);
    assert_eq!(builtin_cons(&vec![empty]), Err(EvalError::Type(Primitive::Cons)));
}

#[test]
fn if_selects_by_its_condition() {
    let mut interpreter = Interpreter::new();
    let yes = call("if", vec![Expr::Boolean(true), Expr::Integer(1), Expr::Integer(2)]);
    let no = call("if", vec![Expr::Boolean(false), Expr::Integer(1), Expr::Integer(2)]);
    assert_eq!(interpreter.eval(&yes), Ok(Expr::Integer(1)));
    assert_eq!(interpreter.eval(&no), Ok(Expr::Integer(2)));
}

#[test]
fn if_signals_its_errors() {
    assert_eq!(run("(if 1 2 3)"), Err(EvalError::Type(Primitive::If)));
    assert_eq!(run("(if 1 2)"), Err(EvalError::Arity(Primitive::If)));
    assert_eq!(run("(if 1 2 3 4)"), Err(EvalError::Arity(Primitive::If)));
    let values = vec![Expr::Boolean(true), Expr::Integer(1), Expr::Integer(2)];
    assert_eq!(
        builtin_if(&values, Err(EvalError::Arity(Primitive::Car))),
        Err(EvalError::Arity(Primitive::Car))
    );
    assert_eq!(builtin_if(&values, Ok(Expr::Nil)), Err(EvalError::Type(Primitive::If)));
    assert_eq!(builtin_if(&values, Ok(Expr::Boolean(false))), Ok(Expr::Integer(2)));
}

#[test]
fn if_evaluates_both_branches() {
    let mut interpreter = Interpreter::new();
    let e = call(
        "if",
        vec![
            Expr::Boolean(true),
            call("set", vec![symbol("a"), Expr::Integer(1)]),
            call("set", vec![symbol("b"), Expr::Integer(2)]),
        ],
    );
    assert_eq!(interpreter.eval(&e), Ok(Expr::Nil));
    assert_eq!(interpreter.eval(&read("(get a)")), Ok(Expr::Integer(1)));
    assert_eq!(interpreter.eval(&read("(get b)")), Ok(Expr::Integer(2)));
}

#[test]
fn if_evaluates_the_value_of_its_condition_again() {
    let mut interpreter = Interpreter::new();
    interpreter.env.set(&mut interpreter.arena, "flag".to_string(), Expr::Boolean(true));
    // The condition evaluates to the combination `(get flag)`, which `if`
    // evaluates once more.
    let e = read("(if (cdr (quote get flag)) 1 2)");
    assert_eq!(interpreter.eval(&e), Ok(Expr::Integer(1)));
    assert_eq!(interpreter.eval_within(&e, 0), Err(EvalError::Type(Primitive::If)));
    assert_eq!(interpreter.eval_within(&e, 1), Ok(Expr::Integer(1)));
}

#[test]
fn evaluation_of_conditions_nests_no_deeper_than_allowed() {
    let mut interpreter = Interpreter::new();
    // x is bound to `(if (get x) 1 2)`: its condition evaluates to x again.
    let bind = read("(set x (cdr (q if (cdr (q get x)) 1 2)))");
    assert_eq!(interpreter.eval(&bind), Ok(Expr::Nil));
    let e = read("(if (get x) 1 2)");
    assert_eq!(interpreter.eval_within(&e, 0), Err(EvalError::Type(Primitive::If)));
    assert_eq!(interpreter.eval_within(&e, 40), Err(EvalError::Type(Primitive::If)));
    assert_eq!(REEVALUATION_DEPTH, u64::MAX);
}

#[test]
fn unknown_operator_yields_the_combination() {
    assert_eq!(
        run("(foo 1 2)"),
        Ok(call("foo", vec![Expr::Integer(1), Expr::Integer(2)]))
    );
}

#[test]
fn unknown_operator_evaluates_its_arguments() {
    assert_eq!(
        run("(foo (+ 1 2) (bar 3))"),
        Ok(call("foo", vec![Expr::Integer(3), call("bar", vec![Expr::Integer(3)])]))
    );
}

#[test]
fn operator_that_is_no_symbol_yields_the_combination() {
    assert_eq!(
        run("(1 2 3)"),
        Ok(Expr::Combination(
            Box::new(Expr::Integer(1)),
            vec![Expr::Integer(2), Expr::Integer(3)]
        ))
    );
}

#[test]
fn operator_is_evaluated_before_dispatch() {
    // The operator evaluates to the symbol `car`, which is then applied.
    assert_eq!(run("((car (cdr (q car z))) (op a b))"), Ok(symbol("op")));
    assert_eq!(
        run("((car (plus 1 2)) 1 2)"),
        Ok(call("plus", vec![Expr::Integer(1), Expr::Integer(2)]))
    );
}

#[test]
fn arguments_are_evaluated_from_left_to_right() {
    let mut interpreter = Interpreter::new();
    assert_eq!(
        interpreter.eval(&read("(list (set x 1) (get x) (set x 2) (get x))")),
        Ok(call("list", vec![Expr::Nil, Expr::Integer(1), Expr::Nil, Expr::Integer(2)]))
    );
}

#[test]
fn an_error_ends_the_evaluation_where_it_occurs() {
    let mut interpreter = Interpreter::new();
    assert_eq!(
        interpreter.eval(&read("(list (set x 1) (car 5) (set x 2))")),
        Err(EvalError::Type(Primitive::Car))
    );
    assert_eq!(interpreter.eval(&read("(get x)")), Ok(Expr::Integer(1)));
}

#[test]
fn primitives_are_known_by_name() {
    assert_eq!(primitive_by_name("set"), Some(Primitive::SetVar));
    assert_eq!(primitive_by_name("get"), Some(Primitive::GetVar));
    assert_eq!(primitive_by_name("car"), Some(Primitive::Car));
    assert_eq!(primitive_by_name("cdr"), Some(Primitive::Cdr));
    assert_eq!(primitive_by_name("cons"), Some(Primitive::Cons));
    assert_eq!(primitive_by_name("if"), Some(Primitive::If));
    assert_eq!(primitive_by_name("+"), Some(Primitive::Plus));
    assert_eq!(primitive_by_name("foo"), None);
    assert_eq!(primitive_by_name("Set"), None);
    assert_eq!(primitive_by_name(""), None);
    assert_eq!(primitive_for(&symbol("car")), Some(Primitive::Car));
    assert_eq!(primitive_for(&Expr::String("car".to_string())), None);
}

#[test]
fn new_interpreter_has_one_empty_frame() {
    let interpreter = Interpreter::new();
    assert_eq!(interpreter.env.scope_stack, vec![0]);
    assert_eq!(interpreter.arena.len(), 1);
    assert_eq!(interpreter.arena.get(0, "x"), None);
}
