//! A tree-walking evaluator over a chain of scopes.
//!
//! A combination is evaluated eagerly: first its operator, then each argument
//! from left to right. If the operator's value names a primitive, the
//! primitive is applied to the argument values; otherwise the result is the
//! combination of the values.

use crate::ast::{
    exprs_view, float_view, lemma_combination_view, Expr, ExprView, Float, FloatView,
};
pub use crate::scope::{Env, Scope, ScopeArena};
use crate::scope::{bind, lemma_bound_value_is_visible, lemma_lookup_unbound, lookup, Frames};
use crate::text::str_eq;
use vstd::prelude::*;

verus! {

/// The operators that the evaluator knows by name.
#[derive(Debug, Clone, Copy, PartialEq, Eq)]
pub enum Primitive {
    /// `set`: binds a name in the innermost scope.
    SetVar,
    /// `get`: looks a name up through the scope chain.
    GetVar,
    /// `car`: the operator of a combination.
    Car,
    /// `cdr`: a combination without its operator.
    Cdr,
    /// `cons`: a combination that has arguments, unchanged.
    Cons,
    /// `if`: one of two values, chosen by a boolean.
    If,
    /// `+`: the sum of numbers.
    Plus,
}

/// Why an evaluation failed.
#[derive(Debug, PartialEq)]
pub enum EvalError {
    /// A primitive was applied to the wrong number of arguments.
    Arity(Primitive),
    /// An argument of a primitive was of the wrong kind.
    Type(Primitive),
    /// `+` met this value, which is no number.
    NotNumeric(Expr),
}

/// The mathematical value of an [`EvalError`].
pub enum EvalErrorView {
    Arity(Primitive),
    Type(Primitive),
    NotNumeric(ExprView),
}

impl Clone for EvalError {
    fn clone(&self) -> (r: Self)
        ensures
            r@ == self@,
    {
        match self {
            EvalError::Arity(p) => EvalError::Arity(*p),
            EvalError::Type(p) => EvalError::Type(*p),
            EvalError::NotNumeric(e) => EvalError::NotNumeric(e.clone()),
        }
    }
}

impl View for EvalError {
    type V = EvalErrorView;

    open spec fn view(&self) -> EvalErrorView {
        match self {
            EvalError::Arity(p) => EvalErrorView::Arity(*p),
            EvalError::Type(p) => EvalErrorView::Type(*p),
            EvalError::NotNumeric(e) => EvalErrorView::NotNumeric(e@),
        }
    }
}

/// The value of what an evaluation returns.
pub open spec fn result_view(r: Result<Expr, EvalError>) -> Result<ExprView, EvalErrorView> {
    match r {
        Ok(e) => Ok(e@),
        Err(e) => Err(e@),
    }
}

/// What an evaluation yields: its result, and the frames as it leaves them.
pub struct Outcome {
    pub result: Result<ExprView, EvalErrorView>,
    pub frames: Frames,
}

/// What the evaluation of a list of arguments yields.
pub struct ArgsOutcome {
    pub result: Result<Seq<ExprView>, EvalErrorView>,
    pub frames: Frames,
}

/// The primitive that a symbol names, if any.
pub open spec fn primitive_named(name: Seq<char>) -> Option<Primitive> {
    if name == "set"@ {
        Some(Primitive::SetVar)
    } else if name == "get"@ {
        Some(Primitive::GetVar)
    } else if name == "car"@ {
        Some(Primitive::Car)
    } else if name == "cdr"@ {
        Some(Primitive::Cdr)
    } else if name == "cons"@ {
        Some(Primitive::Cons)
    } else if name == "if"@ {
        Some(Primitive::If)
    } else if name == "+"@ {
        Some(Primitive::Plus)
    } else {
        None
    }
}

/// The primitive that a value names when it stands as an operator.
pub open spec fn primitive_of(target: ExprView) -> Option<Primitive> {
    match target {
        ExprView::Symbol(name) => primitive_named(name),
        _ => None,
    }
}

/// `set`: binds the name given first to the value given second, in the
/// innermost scope, and yields nil.
pub open spec fn spec_set(values: Seq<ExprView>, frames: Frames, chain: Seq<usize>) -> Outcome {
    if values.len() == 0 {
        Outcome { result: Err(EvalErrorView::Arity(Primitive::SetVar)), frames }
    } else {
        match values[0] {
            ExprView::Symbol(name) => if values.len() < 2 {
                Outcome { result: Err(EvalErrorView::Arity(Primitive::SetVar)), frames }
            } else {
                Outcome { result: Ok(ExprView::Nil), frames: bind(frames, chain, name, values[1]) }
            },
            _ => Outcome { result: Err(EvalErrorView::Type(Primitive::SetVar)), frames },
        }
    }
}

/// `get`: the value that the name is bound to, or nil when it is unbound.
pub open spec fn spec_get(values: Seq<ExprView>, frames: Frames, chain: Seq<usize>) -> Result<
    ExprView,
    EvalErrorView,
> {
    if values.len() == 0 {
        Err(EvalErrorView::Arity(Primitive::GetVar))
    } else {
        match values[0] {
            ExprView::Symbol(name) => match lookup(frames, chain, name) {
                Some(value) => Ok(value),
                None => Ok(ExprView::Nil),
            },
            _ => Err(EvalErrorView::Type(Primitive::GetVar)),
        }
    }
}

/// `car`: the operator of the combination given.
pub open spec fn spec_car(values: Seq<ExprView>) -> Result<ExprView, EvalErrorView> {
    if values.len() == 0 {
        Err(EvalErrorView::Arity(Primitive::Car))
    } else {
        match values[0] {
            ExprView::Combination(operator, _) => Ok(*operator),
            _ => Err(EvalErrorView::Type(Primitive::Car)),
        }
    }
}

/// `cdr`: the combination given, without its operator: its first argument
/// becomes the operator and the others stay as arguments.
pub open spec fn spec_cdr(values: Seq<ExprView>) -> Result<ExprView, EvalErrorView> {
    if values.len() == 0 {
        Err(EvalErrorView::Arity(Primitive::Cdr))
    } else {
        match values[0] {
            ExprView::Combination(_, items) => if items.len() > 1 {
                Ok(ExprView::Combination(Box::new(items[0]), items.subrange(1, items.len() as int)))
            } else {
                Err(EvalErrorView::Type(Primitive::Cdr))
            },
            _ => Err(EvalErrorView::Type(Primitive::Cdr)),
        }
    }
}

/// `cons`: the combination given, which must have arguments.
pub open spec fn spec_cons(values: Seq<ExprView>) -> Result<ExprView, EvalErrorView> {
    if values.len() == 0 {
        Err(EvalErrorView::Arity(Primitive::Cons))
    } else {
        match values[0] {
            ExprView::Combination(operator, items) => if items.len() > 0 {
                Ok(ExprView::Combination(operator, items))
            } else {
                Err(EvalErrorView::Type(Primitive::Cons))
            },
            _ => Err(EvalErrorView::Type(Primitive::Cons)),
        }
    }
}

/// The running total of a sum.
pub enum Number {
    /// Nothing was added yet.
    Zero,
    /// Only integers were added.
    Signed(i64),
    /// A float was among what was added.
    Float(Float),
}

/// The mathematical value of a [`Number`].
pub enum NumberView {
    Zero,
    Signed(i64),
    Float(FloatView),
}

impl View for Number {
    type V = NumberView;

    open spec fn view(&self) -> NumberView {
        match self {
            Number::Zero => NumberView::Zero,
            Number::Signed(n) => NumberView::Signed(*n),
            Number::Float(f) => NumberView::Float(f@),
        }
    }
}

/// The sum of two integers, wrapped into the range of `i64`.
pub open spec fn wrapping_sum(x: i64, y: i64) -> i64 {
    if x + y > i64::MAX {
        (x + y - 0x1_0000_0000_0000_0000) as i64
    } else if x + y < i64::MIN {
        (x + y + 0x1_0000_0000_0000_0000) as i64
    } else {
        (x + y) as i64
    }
}

/// One step of a sum: the total after `arg` is added to `total`. Integers
/// stay integers; as soon as a float takes part, the total is a float.
pub open spec fn add_step(total: NumberView, arg: ExprView) -> Result<NumberView, EvalErrorView> {
    match (total, arg) {
        (NumberView::Zero, ExprView::Integer(i)) => Ok(NumberView::Signed(i)),
        (NumberView::Zero, ExprView::Float(f)) => Ok(NumberView::Float(f)),
        (NumberView::Signed(n), ExprView::Integer(i)) => Ok(NumberView::Signed(wrapping_sum(n, i))),
        (NumberView::Signed(n), ExprView::Float(f)) => Ok(
            NumberView::Float(FloatView::Sum(Box::new(FloatView::FromInteger(n)), Box::new(f))),
        ),
        (NumberView::Float(a), ExprView::Float(f)) => Ok(
            NumberView::Float(FloatView::Sum(Box::new(a), Box::new(f))),
        ),
        (NumberView::Float(a), ExprView::Integer(i)) => Ok(
            NumberView::Float(FloatView::Sum(Box::new(a), Box::new(FloatView::FromInteger(i)))),
        ),
        (_, other) => Err(EvalErrorView::NotNumeric(other)),
    }
}

/// The total after `values[from..]` are added to `total`, from left to right,
/// or the error of the first value that is no number.
pub open spec fn accumulate(total: NumberView, values: Seq<ExprView>, from: int) -> Result<
    NumberView,
    EvalErrorView,
>
    decreases values.len() - from,
{
    if from < 0 || from >= values.len() {
        Ok(total)
    } else {
        match add_step(total, values[from]) {
            Err(error) => Err(error),
            Ok(next) => accumulate(next, values, from + 1),
        }
    }
}

/// `+`: the sum of the values; the integer zero when there are none.
pub open spec fn spec_add(values: Seq<ExprView>) -> Result<ExprView, EvalErrorView> {
    match accumulate(NumberView::Zero, values, 0) {
        Err(error) => Err(error),
        Ok(NumberView::Zero) => Ok(ExprView::Integer(0)),
        Ok(NumberView::Signed(n)) => Ok(ExprView::Integer(n)),
        Ok(NumberView::Float(f)) => Ok(ExprView::Float(f)),
    }
}

/// The branch of an `if` that a condition selects: the second value when the
/// condition came out true, the third when it came out false. A condition
/// that failed hands its error on; any other value is no condition.
pub open spec fn spec_branch(
    values: Seq<ExprView>,
    condition: Result<ExprView, EvalErrorView>,
) -> Result<ExprView, EvalErrorView> {
    match condition {
        Err(error) => Err(error),
        Ok(ExprView::Boolean(true)) => Ok(values[1]),
        Ok(ExprView::Boolean(false)) => Ok(values[2]),
        Ok(_) => Err(EvalErrorView::Type(Primitive::If)),
    }
}

/// `if`, once its condition has been evaluated again with outcome `condition`.
pub open spec fn spec_if(values: Seq<ExprView>, condition: Outcome) -> Outcome {
    Outcome { result: spec_branch(values, condition.result), frames: condition.frames }
}

/// Whether applying `target` to `values` evaluates a value once more: it does
/// for an `if` with three values.
pub open spec fn reevaluates(target: ExprView, values: Seq<ExprView>) -> bool {
    primitive_of(target) == Some(Primitive::If) && values.len() == 3
}

/// The application of the operator value `target` to the argument values,
/// where a condition of `if` is taken as it stands.
pub open spec fn spec_apply(
    target: ExprView,
    values: Seq<ExprView>,
    frames: Frames,
    chain: Seq<usize>,
) -> Outcome {
    match primitive_of(target) {
        Some(Primitive::SetVar) => spec_set(values, frames, chain),
        Some(Primitive::GetVar) => Outcome { result: spec_get(values, frames, chain), frames },
        Some(Primitive::Car) => Outcome { result: spec_car(values), frames },
        Some(Primitive::Cdr) => Outcome { result: spec_cdr(values), frames },
        Some(Primitive::Cons) => Outcome { result: spec_cons(values), frames },
        Some(Primitive::If) => if values.len() == 3 {
            spec_if(values, Outcome { result: Ok(values[0]), frames })
        } else {
            Outcome { result: Err(EvalErrorView::Arity(Primitive::If)), frames }
        },
        Some(Primitive::Plus) => Outcome { result: spec_add(values), frames },
        None => Outcome { result: Ok(ExprView::Combination(Box::new(target), values)), frames },
    }
}

/// The evaluation of `e` in the environment `chain` over `frames`.
///
/// `depth` bounds how deeply evaluations of conditions may nest: `if`
/// evaluates the value of its condition once more, and that evaluation may
/// itself apply `if`. At depth zero a condition is taken as it stands.
pub open spec fn spec_eval(e: ExprView, frames: Frames, chain: Seq<usize>, depth: nat) -> Outcome
    decreases depth, e, 0nat,
{
    match e {
        ExprView::Combination(operator, arguments) => {
            let target = spec_eval(*operator, frames, chain, depth);
            match target.result {
                Err(_) => target,
                Ok(target_value) => {
                    let args = spec_eval_args(
                        arguments,
                        0,
                        Seq::empty(),
                        target.frames,
                        chain,
                        depth,
                    );
                    match args.result {
                        Err(error) => Outcome { result: Err(error), frames: args.frames },
                        Ok(values) => if depth > 0 && reevaluates(target_value, values) {
                            spec_if(
                                values,
                                spec_eval(values[0], args.frames, chain, (depth - 1) as nat),
                            )
                        } else {
                            spec_apply(target_value, values, args.frames, chain)
                        },
                    }
                },
            }
        },
        _ => Outcome { result: Ok(e), frames },
    }
}

/// The evaluation of `arguments[from..]`, from left to right, after
/// `arguments[..from]` came out as `done`. The first error ends it.
pub open spec fn spec_eval_args(
    arguments: Seq<ExprView>,
    from: int,
    done: Seq<ExprView>,
    frames: Frames,
    chain: Seq<usize>,
    depth: nat,
) -> ArgsOutcome
    decreases depth, arguments, arguments.len() - from,
{
    if from < 0 || from >= arguments.len() {
        ArgsOutcome { result: Ok(done), frames }
    } else {
        let first = spec_eval(arguments[from], frames, chain, depth);
        match first.result {
            Err(error) => ArgsOutcome { result: Err(error), frames: first.frames },
            Ok(value) => spec_eval_args(
                arguments,
                from + 1,
                done.push(value),
                first.frames,
                chain,
                depth,
            ),
        }
    }
}

/// What an evaluation returned, together with the frames it left.
pub open spec fn outcome(r: Result<Expr, EvalError>, frames: Frames) -> Outcome {
    Outcome { result: result_view(r), frames }
}

/// How deeply evaluations of conditions may nest in [`Interpreter::eval`].
pub const REEVALUATION_DEPTH: u64 = 0xffff_ffff_ffff_ffff;

/// The primitive that `name` spells, if any.
pub fn primitive_by_name(name: &str) -> (r: Option<Primitive>)
    ensures
        r == primitive_named(name@),
{
    if str_eq(name, "set") {
        Some(Primitive::SetVar)
    } else if str_eq(name, "get") {
        Some(Primitive::GetVar)
    } else if str_eq(name, "car") {
        Some(Primitive::Car)
    } else if str_eq(name, "cdr") {
        Some(Primitive::Cdr)
    } else if str_eq(name, "cons") {
        Some(Primitive::Cons)
    } else if str_eq(name, "if") {
        Some(Primitive::If)
    } else if str_eq(name, "+") {
        Some(Primitive::Plus)
    } else {
        None
    }
}

/// The primitive that an operator value names, if any.
pub fn primitive_for(target: &Expr) -> (r: Option<Primitive>)
    ensures
        r == primitive_of(target@),
{
    match target {
        Expr::Symbol(symbol) => primitive_by_name(symbol.0.as_str()),
        _ => None,
    }
}

/// Applies `set` to argument values.
pub fn builtin_set(env: &mut Env, arena: &mut ScopeArena, values: &Vec<Expr>) -> (r: Result<
    Expr,
    EvalError,
>)
    ensures
        final(env)@ == old(env)@,
        outcome(r, final(arena)@) == spec_set(exprs_view(values@), old(arena)@, old(env)@),
{
    if values.len() == 0 {
        return Err(EvalError::Arity(Primitive::SetVar));
    }
    match &values[0] {
        Expr::Symbol(symbol) => {
            if values.len() < 2 {
                Err(EvalError::Arity(Primitive::SetVar))
            } else {
                env.set(arena, symbol.0.clone(), values[1].clone());
                Ok(Expr::Nil)
            }
        },
        _ => Err(EvalError::Type(Primitive::SetVar)),
    }
}

/// Applies `get` to argument values.
pub fn builtin_get(env: &Env, arena: &ScopeArena, values: &Vec<Expr>) -> (r: Result<
    Expr,
    EvalError,
>)
    ensures
        result_view(r) == spec_get(exprs_view(values@), arena@, env@),
{
    if values.len() == 0 {
        return Err(EvalError::Arity(Primitive::GetVar));
    }
    match &values[0] {
        Expr::Symbol(symbol) => match env.get(arena, symbol.0.as_str()) {
            Some(value) => Ok(value),
            None => Ok(Expr::Nil),
        },
        _ => Err(EvalError::Type(Primitive::GetVar)),
    }
}

/// Applies `car` to argument values.
pub fn builtin_car(values: &Vec<Expr>) -> (r: Result<Expr, EvalError>)
    ensures
        result_view(r) == spec_car(exprs_view(values@)),
{
    if values.len() == 0 {
        return Err(EvalError::Arity(Primitive::Car));
    }
    match &values[0] {
        Expr::Combination(operator, items) => {
            proof {
                lemma_combination_view(*operator, *items);
            }
            Ok((**operator).clone())
        },
        _ => Err(EvalError::Type(Primitive::Car)),
    }
}

/// Applies `cdr` to argument values.
pub fn builtin_cdr(values: &Vec<Expr>) -> (r: Result<Expr, EvalError>)
    ensures
        result_view(r) == spec_cdr(exprs_view(values@)),
{
    if values.len() == 0 {
        return Err(EvalError::Arity(Primitive::Cdr));
    }
    match &values[0] {
        Expr::Combination(operator, items) => {
            proof {
                lemma_combination_view(*operator, *items);
            }
            if items.len() > 1 {
                let head = items[0].clone();
                let mut rest: Vec<Expr> = Vec::new();
                let mut i: usize = 1;
                while i < items.len()
                    invariant
                        1 <= i <= items.len(),
                        rest.len() == i - 1,
                        forall|j: int| 0 <= j < rest.len() ==> rest[j]@ == items[j + 1]@,
                    decreases items.len() - i,
                {
                    rest.push(items[i].clone());
                    i += 1;
                }
                proof {
                    assert(exprs_view(rest@) =~= exprs_view(items@).subrange(
                        1,
                        items@.len() as int,
                    ));
                    lemma_combination_view(Box::new(head), rest);
                }
                Ok(Expr::Combination(Box::new(head), rest))
            } else {
                Err(EvalError::Type(Primitive::Cdr))
            }
        },
        _ => Err(EvalError::Type(Primitive::Cdr)),
    }
}

/// Applies `cons` to argument values.
pub fn builtin_cons(values: &Vec<Expr>) -> (r: Result<Expr, EvalError>)
    ensures
        result_view(r) == spec_cons(exprs_view(values@)),
{
    if values.len() == 0 {
        return Err(EvalError::Arity(Primitive::Cons));
    }
    match &values[0] {
        Expr::Combination(operator, items) => {
            proof {
                lemma_combination_view(*operator, *items);
            }
            if items.len() > 0 {
                Ok(values[0].clone())
            } else {
                Err(EvalError::Type(Primitive::Cons))
            }
        },
        _ => Err(EvalError::Type(Primitive::Cons)),
    }
}

/// The value of one step of a sum.
pub open spec fn step_view(r: Result<Number, EvalError>) -> Result<NumberView, EvalErrorView> {
    match r {
        Ok(n) => Ok(n@),
        Err(e) => Err(e@),
    }
}

/// Adds one argument value to a running total.
pub fn add_number(total: Number, arg: &Expr) -> (r: Result<Number, EvalError>)
    ensures
        step_view(r) == add_step(total@, arg@),
{
    proof {
        reveal_with_fuel(float_view, 2);
    }
    match total {
        Number::Zero => match arg {
            Expr::Integer(i) => Ok(Number::Signed(*i)),
            Expr::Float(f) => Ok(Number::Float(f.clone())),
            other => Err(EvalError::NotNumeric(other.clone())),
        },
        Number::Signed(n) => match arg {
            Expr::Integer(i) => Ok(Number::Signed(n.wrapping_add(*i))),
            Expr::Float(f) => Ok(
                Number::Float(Float::Sum(Box::new(Float::FromInteger(n)), Box::new(f.clone()))),
            ),
            other => Err(EvalError::NotNumeric(other.clone())),
        },
        Number::Float(a) => match arg {
            Expr::Float(f) => Ok(Number::Float(Float::Sum(Box::new(a), Box::new(f.clone())))),
            Expr::Integer(i) => Ok(
                Number::Float(Float::Sum(Box::new(a), Box::new(Float::FromInteger(*i)))),
            ),
            other => Err(EvalError::NotNumeric(other.clone())),
        },
    }
}

/// Applies `+` to argument values.
pub fn builtin_add(values: &Vec<Expr>) -> (r: Result<Expr, EvalError>)
    ensures
        result_view(r) == spec_add(exprs_view(values@)),
{
    let mut total = Number::Zero;
    let mut i: usize = 0;
    while i < values.len()
        invariant
            i <= values.len(),
            accumulate(total@, exprs_view(values@), i as int) == accumulate(
                NumberView::Zero,
                exprs_view(values@),
                0,
            ),
        decreases values.len() - i,
    {
        match add_number(total, &values[i]) {
            Err(error) => {
                return Err(error);
            },
            Ok(next) => {
                total = next;
            },
        }
        i += 1;
    }
    match total {
        Number::Zero => Ok(Expr::Integer(0)),
        Number::Signed(n) => Ok(Expr::Integer(n)),
        Number::Float(f) => Ok(Expr::Float(f)),
    }
}

/// Finishes `if` on its argument values, given what the evaluation of its
/// condition returned.
pub fn builtin_if(values: &Vec<Expr>, condition: Result<Expr, EvalError>) -> (r: Result<
    Expr,
    EvalError,
>)
    ensures
        result_view(r) == (if values.len() == 3 {
            spec_branch(exprs_view(values@), result_view(condition))
        } else {
            Err(EvalErrorView::Arity(Primitive::If))
        }),
{
    if values.len() != 3 {
        return Err(EvalError::Arity(Primitive::If));
    }
    match condition {
        Err(error) => Err(error),
        Ok(Expr::Boolean(true)) => Ok(values[1].clone()),
        Ok(Expr::Boolean(false)) => Ok(values[2].clone()),
        Ok(_) => Err(EvalError::Type(Primitive::If)),
    }
}

/// An evaluator with its environment and the arena that holds the frames.
pub struct Interpreter {
    pub env: Env,
    pub arena: ScopeArena,
}

impl Interpreter {
    /// An interpreter whose environment has one empty frame.
    pub fn new() -> (interpreter: Interpreter)
        ensures
            interpreter.env@ == seq![0usize],
            interpreter.arena@ == seq![Map::<Seq<char>, ExprView>::empty()],
    {
        let mut arena = ScopeArena::new();
        let env = Env::new(&mut arena);
        assert(arena@ =~= seq![Map::<Seq<char>, ExprView>::empty()]);
        Interpreter { env, arena }
    }

    /// Evaluates `expr` in this interpreter's environment.
    pub fn eval(&mut self, expr: &Expr) -> (r: Result<Expr, EvalError>)
        ensures
            final(self).env@ == old(self).env@,
            outcome(r, final(self).arena@) == spec_eval(
                expr@,
                old(self).arena@,
                old(self).env@,
                REEVALUATION_DEPTH as nat,
            ),
    {
        self.eval_within(expr, REEVALUATION_DEPTH)
    }

    /// Evaluates `expr`, with evaluations of conditions nested at most
    /// `depth` deep.
    #[verifier::loop_isolation(false)]
    pub fn eval_within(&mut self, expr: &Expr, depth: u64) -> (r: Result<Expr, EvalError>)
        ensures
            final(self).env@ == old(self).env@,
            outcome(r, final(self).arena@) == spec_eval(
                expr@,
                old(self).arena@,
                old(self).env@,
                depth as nat,
            ),
        decreases depth, expr,
    {
        match expr {
            Expr::Combination(operator, arguments) => {
                proof {
                    lemma_combination_view(*operator, *arguments);
                }
                let ghost chain = self.env@;
                let target = match self.eval_within(operator, depth) {
                    Ok(target) => target,
                    Err(error) => {
                        return Err(error);
                    },
                };
                let ghost after_operator = self.arena@;
                let mut values: Vec<Expr> = Vec::new();
                let mut i: usize = 0;
                assert(exprs_view(values@) =~= Seq::<ExprView>::empty());
                while i < arguments.len()
                    invariant
                        i <= arguments.len(),
                        self.env@ == chain,
                        spec_eval_args(
                            exprs_view(arguments@),
                            i as int,
                            exprs_view(values@),
                            self.arena@,
                            chain,
                            depth as nat,
                        ) == spec_eval_args(
                            exprs_view(arguments@),
                            0,
                            Seq::empty(),
                            after_operator,
                            chain,
                            depth as nat,
                        ),
                    decreases arguments.len() - i,
                {
                    let ghost before = exprs_view(values@);
                    match self.eval_within(&arguments[i], depth) {
                        Ok(value) => {
                            values.push(value);
                            assert(exprs_view(values@) =~= before.push(value@));
                        },
                        Err(error) => {
                            return Err(error);
                        },
                    }
                    i += 1;
                }
                match primitive_for(&target) {
                    Some(Primitive::SetVar) => builtin_set(&mut self.env, &mut self.arena, &values),
                    Some(Primitive::GetVar) => builtin_get(&self.env, &self.arena, &values),
                    Some(Primitive::Car) => builtin_car(&values),
                    Some(Primitive::Cdr) => builtin_cdr(&values),
                    Some(Primitive::Cons) => builtin_cons(&values),
                    Some(Primitive::If) => {
                        if values.len() == 3 {
                            if depth > 0 {
                                let condition = self.eval_within(&values[0], depth - 1);
                                builtin_if(&values, condition)
                            } else {
                                builtin_if(&values, Ok(values[0].clone()))
                            }
                        } else {
                            Err(EvalError::Arity(Primitive::If))
                        }
                    },
                    Some(Primitive::Plus) => builtin_add(&values),
                    None => {
                        proof {
                            lemma_combination_view(Box::new(target), values);
                        }
                        Ok(Expr::Combination(Box::new(target), values))
                    },
                }
            },
            _ => Ok(expr.clone()),
        }
    }
}

/// `get` of a name that no frame of the environment binds yields nil, not
/// an error.
pub proof fn lemma_get_unbound(frames: Frames, chain: Seq<usize>, name: Seq<char>)
    requires
        forall|i: int|
            0 <= i < chain.len() && chain[i] < frames.len() ==> !frames[chain[i] as int].contains_key(
                name,
            ),
    ensures
        spec_get(seq![ExprView::Symbol(name)], frames, chain) == Ok::<ExprView, EvalErrorView>(
            ExprView::Nil,
        ),
{
    lemma_lookup_unbound(frames, chain, name);
}

/// After `set` has bound a name to a value, `get` of the name yields that
/// value: in the same environment, and in every environment that extends it
/// with `inner` frames of which none binds the name itself.
pub proof fn lemma_set_then_get(
    frames: Frames,
    chain: Seq<usize>,
    inner: Seq<usize>,
    name: Seq<char>,
    value: ExprView,
)
    requires
        chain.len() > 0,
        chain.last() < frames.len(),
        forall|i: int|
            0 <= i < inner.len() && inner[i] < frames.len() && inner[i] != chain.last()
                ==> !frames[inner[i] as int].contains_key(name),
    ensures
        ({
            let after = spec_set(seq![ExprView::Symbol(name), value], frames, chain);
            &&& after.result == Ok::<ExprView, EvalErrorView>(ExprView::Nil)
            &&& spec_get(seq![ExprView::Symbol(name)], after.frames, chain + inner) == Ok::<
                ExprView,
                EvalErrorView,
            >(value)
        }),
{
    lemma_bound_value_is_visible(frames, chain, inner, name, value);
}

/// For a combination with arguments, `car` yields its operator and `cons`
/// yields the combination itself. For one with at least two arguments, `cdr`
/// yields the combination of its first argument and the arguments after it,
/// so that `car` of that is the first argument.
pub proof fn lemma_car_cdr_cons(operator: ExprView, items: Seq<ExprView>)
    requires
        items.len() > 0,
    ensures
        spec_car(seq![ExprView::Combination(Box::new(operator), items)]) == Ok::<
            ExprView,
            EvalErrorView,
        >(operator),
        spec_cons(seq![ExprView::Combination(Box::new(operator), items)]) == Ok::<
            ExprView,
            EvalErrorView,
        >(ExprView::Combination(Box::new(operator), items)),
        items.len() > 1 ==> spec_cdr(seq![ExprView::Combination(Box::new(operator), items)]) == Ok::<
            ExprView,
            EvalErrorView,
        >(ExprView::Combination(Box::new(items[0]), items.subrange(1, items.len() as int))),
        items.len() > 1 ==> spec_car(
            seq![
                ExprView::Combination(Box::new(items[0]), items.subrange(1, items.len() as int)),
            ],
        ) == Ok::<ExprView, EvalErrorView>(items[0]),
{
}

/// For a combination with operator `op` and the two arguments `a` and `b`,
/// `car` yields `op`, and `cdr` yields the combination with operator `a` and
/// the one argument `b`.
pub proof fn lemma_car_cdr_of_pair(op: ExprView, a: ExprView, b: ExprView)
    ensures
        spec_car(seq![ExprView::Combination(Box::new(op), seq![a, b])]) == Ok::<
            ExprView,
            EvalErrorView,
        >(op),
        spec_cdr(seq![ExprView::Combination(Box::new(op), seq![a, b])]) == Ok::<
            ExprView,
            EvalErrorView,
        >(ExprView::Combination(Box::new(a), seq![b])),
{
    assert(seq![a, b].subrange(1, 2) =~= seq![b]);
}

/// Whether a value evaluates to itself: every value but a combination does.
pub open spec fn self_evaluating(e: ExprView) -> bool {
    !(e is Combination)
}

/// Every value but a combination evaluates to itself and leaves the frames
/// alone.
pub proof fn lemma_self_evaluating(e: ExprView, frames: Frames, chain: Seq<usize>, depth: nat)
    requires
        self_evaluating(e),
    ensures
        spec_eval(e, frames, chain, depth) == (Outcome { result: Ok(e), frames }),
{
}

/// Arguments that evaluate to themselves come out as they are and leave the
/// frames alone.
pub proof fn lemma_self_evaluating_arguments(
    arguments: Seq<ExprView>,
    from: int,
    done: Seq<ExprView>,
    frames: Frames,
    chain: Seq<usize>,
    depth: nat,
)
    requires
        0 <= from <= arguments.len(),
        forall|i: int| from <= i < arguments.len() ==> self_evaluating(#[trigger] arguments[i]),
    ensures
        spec_eval_args(arguments, from, done, frames, chain, depth) == (ArgsOutcome {
            result: Ok(done + arguments.subrange(from, arguments.len() as int)),
            frames,
        }),
    decreases arguments.len() - from,
{
    if from < arguments.len() {
        assert(self_evaluating(arguments[from]));
        assert(spec_eval(arguments[from], frames, chain, depth) == (Outcome {
            result: Ok(arguments[from]),
            frames,
        }));
        lemma_self_evaluating_arguments(
            arguments,
            from + 1,
            done.push(arguments[from]),
            frames,
            chain,
            depth,
        );
        assert(done.push(arguments[from]) + arguments.subrange(from + 1, arguments.len() as int)
            =~= done + arguments.subrange(from, arguments.len() as int));
    } else {
        assert(done + arguments.subrange(from, arguments.len() as int) =~= done);
    }
}

/// Where the value of the operator names no primitive, a combination
/// evaluates to the combination of the value of its operator and the values
/// of its arguments, in order: no error comes from the operator being
/// unknown.
pub proof fn lemma_unknown_operator(
    operator: ExprView,
    arguments: Seq<ExprView>,
    frames: Frames,
    chain: Seq<usize>,
    depth: nat,
    target: ExprView,
    after_operator: Frames,
    values: Seq<ExprView>,
    after_arguments: Frames,
)
    requires
        spec_eval(operator, frames, chain, depth) == (Outcome {
            result: Ok(target),
            frames: after_operator,
        }),
        primitive_of(target) is None,
        spec_eval_args(arguments, 0, Seq::empty(), after_operator, chain, depth) == (ArgsOutcome {
            result: Ok(values),
            frames: after_arguments,
        }),
    ensures
        spec_eval(ExprView::Combination(Box::new(operator), arguments), frames, chain, depth) == (
        Outcome {
            result: Ok(ExprView::Combination(Box::new(target), values)),
            frames: after_arguments,
        }),
{
}

/// A combination of a symbol that names no primitive and of arguments that
/// evaluate to themselves evaluates to itself, and leaves the frames alone.
pub proof fn lemma_unknown_symbol_applied(
    name: Seq<char>,
    arguments: Seq<ExprView>,
    frames: Frames,
    chain: Seq<usize>,
    depth: nat,
)
    requires
        primitive_named(name) is None,
        forall|i: int| 0 <= i < arguments.len() ==> self_evaluating(#[trigger] arguments[i]),
    ensures
        spec_eval(
            ExprView::Combination(Box::new(ExprView::Symbol(name)), arguments),
            frames,
            chain,
            depth,
        ) == (Outcome {
            result: Ok(ExprView::Combination(Box::new(ExprView::Symbol(name)), arguments)),
            frames,
        }),
{
    lemma_self_evaluating_arguments(arguments, 0, Seq::empty(), frames, chain, depth);
    assert(Seq::<ExprView>::empty() + arguments.subrange(0, arguments.len() as int) =~= arguments);
    let operator = ExprView::Symbol(name);
    assert(spec_eval(operator, frames, chain, depth) == (Outcome { result: Ok(operator), frames }));
    lemma_unknown_operator(
        operator,
        arguments,
        frames,
        chain,
        depth,
        operator,
        frames,
        arguments,
        frames,
    );
}

/// Whether a value is a number: an integer or a float.
pub open spec fn is_numeric(e: ExprView) -> bool {
    e is Integer || e is Float
}

/// Whether a float is among `values[from..]`.
pub open spec fn has_float(values: Seq<ExprView>, from: int) -> bool {
    exists|i: int| from <= i < values.len() && (#[trigger] values[i]) is Float
}

/// A sum over numbers does not fail. Its total is a float exactly if the
/// total so far is one or a float is among the values; it stays untyped only
/// where nothing is added.
pub proof fn lemma_accumulate_numbers(total: NumberView, values: Seq<ExprView>, from: int)
    requires
        0 <= from <= values.len(),
        forall|i: int| from <= i < values.len() ==> is_numeric(#[trigger] values[i]),
    ensures
        accumulate(total, values, from) matches Ok(sum) && (sum is Float <==> (total is Float
            || has_float(values, from))) && (sum is Zero <==> (total is Zero && from
            == values.len())),
    decreases values.len() - from,
{
    if from < values.len() {
        assert(is_numeric(values[from]));
        let next = add_step(total, values[from]);
        assert(next is Ok);
        match next {
            Ok(next) => {
                lemma_accumulate_numbers(next, values, from + 1);
                if has_float(values, from + 1) {
                    let i = choose|i: int| from + 1 <= i < values.len() && (#[trigger] values[i]) is Float;
                    assert(from <= i < values.len() && values[i] is Float);
                }
                if has_float(values, from) {
                    let i = choose|i: int| from <= i < values.len() && (#[trigger] values[i]) is Float;
                    if i != from {
                        assert(from + 1 <= i < values.len() && values[i] is Float);
                    }
                }
            },
            Err(_) => {},
        }
    }
}

/// A sum of no values is the integer zero. A sum of integers is an integer.
/// A sum of numbers of which one is a float is a float.
pub proof fn lemma_numeric_promotion(values: Seq<ExprView>)
    requires
        forall|i: int| 0 <= i < values.len() ==> is_numeric(#[trigger] values[i]),
    ensures
        values.len() == 0 ==> spec_add(values) == Ok::<ExprView, EvalErrorView>(
            ExprView::Integer(0),
        ),
        !has_float(values, 0) ==> (spec_add(values) matches Ok(sum) && sum is Integer),
        has_float(values, 0) ==> (spec_add(values) matches Ok(sum) && sum is Float),
{
    lemma_accumulate_numbers(NumberView::Zero, values, 0);
}

/// The sum of two integers is the integer that is their sum, wrapped into
/// 64 bits; the sum of an integer and a float, in either order, is the float
/// that adds the two, the integer converted first.
pub proof fn lemma_sum_of_two(n: i64, m: i64, f: FloatView)
    ensures
        spec_add(seq![ExprView::Integer(n), ExprView::Integer(m)]) == Ok::<ExprView, EvalErrorView>(
            ExprView::Integer(wrapping_sum(n, m)),
        ),
        spec_add(seq![ExprView::Integer(n), ExprView::Float(f)]) == Ok::<ExprView, EvalErrorView>(
            ExprView::Float(FloatView::Sum(Box::new(FloatView::FromInteger(n)), Box::new(f))),
        ),
        spec_add(seq![ExprView::Float(f), ExprView::Integer(n)]) == Ok::<ExprView, EvalErrorView>(
            ExprView::Float(FloatView::Sum(Box::new(f), Box::new(FloatView::FromInteger(n)))),
        ),
{
    reveal_with_fuel(accumulate, 3);
}

/// A sum fails at the first value that is no number, and names that value.
pub proof fn lemma_sum_not_numeric(total: NumberView, values: Seq<ExprView>, from: int, at: int)
    requires
        0 <= from <= at < values.len(),
        forall|i: int| from <= i < at ==> is_numeric(#[trigger] values[i]),
        !is_numeric(values[at]),
    ensures
        accumulate(total, values, from) == Err::<NumberView, EvalErrorView>(
            EvalErrorView::NotNumeric(values[at]),
        ),
        from == 0 && total is Zero ==> spec_add(values) == Err::<ExprView, EvalErrorView>(
            EvalErrorView::NotNumeric(values[at]),
        ),
    decreases at - from,
{
    if from < at {
        assert(is_numeric(values[from]));
        match add_step(total, values[from]) {
            Ok(next) => {
                lemma_sum_not_numeric(next, values, from + 1, at);
            },
            Err(_) => {},
        }
    }
}

/// Whether `after` differs from `before` at most in the innermost frame of
/// `chain`.
pub open spec fn same_but_innermost(before: Frames, after: Frames, chain: Seq<usize>) -> bool {
    &&& after.len() == before.len()
    &&& forall|i: int|
        0 <= i < before.len() && !(chain.len() > 0 && i == chain.last()) ==> (#[trigger] after[i])
            == before[i]
}

/// An evaluation writes to the innermost frame of its environment and to no
/// other: it adds no frame, and every other frame stays as it was.
pub proof fn lemma_eval_is_local(e: ExprView, frames: Frames, chain: Seq<usize>, depth: nat)
    ensures
        same_but_innermost(frames, spec_eval(e, frames, chain, depth).frames, chain),
    decreases depth, e, 0nat,
{
    match e {
        ExprView::Combination(operator, arguments) => {
            let target = spec_eval(*operator, frames, chain, depth);
            lemma_eval_is_local(*operator, frames, chain, depth);
            match target.result {
                Err(_) => {},
                Ok(target_value) => {
                    let args = spec_eval_args(
                        arguments,
                        0,
                        Seq::empty(),
                        target.frames,
                        chain,
                        depth,
                    );
                    lemma_eval_args_is_local(
                        arguments,
                        0,
                        Seq::empty(),
                        target.frames,
                        chain,
                        depth,
                    );
                    match args.result {
                        Err(_) => {},
                        Ok(values) => {
                            if depth > 0 && reevaluates(target_value, values) {
                                lemma_eval_is_local(
                                    values[0],
                                    args.frames,
                                    chain,
                                    (depth - 1) as nat,
                                );
                            }
                        },
                    }
                },
            }
        },
        _ => {},
    }
}

/// The evaluation of arguments writes to the innermost frame of its
/// environment and to no other.
pub proof fn lemma_eval_args_is_local(
    arguments: Seq<ExprView>,
    from: int,
    done: Seq<ExprView>,
    frames: Frames,
    chain: Seq<usize>,
    depth: nat,
)
    ensures
        same_but_innermost(
            frames,
            spec_eval_args(arguments, from, done, frames, chain, depth).frames,
            chain,
        ),
    decreases depth, arguments, arguments.len() - from,
{
    if 0 <= from < arguments.len() {
        let first = spec_eval(arguments[from], frames, chain, depth);
        lemma_eval_is_local(arguments[from], frames, chain, depth);
        match first.result {
            Err(_) => {},
            Ok(value) => {
                lemma_eval_args_is_local(
                    arguments,
                    from + 1,
                    done.push(value),
                    first.frames,
                    chain,
                    depth,
                );
            },
        }
    }
}

} // verus!
