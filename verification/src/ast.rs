//! The expression tree that the parser produces and the evaluator consumes.

use chrono::TimeDelta;
use vstd::prelude::*;

verus! {

/// `chrono::TimeDelta`, a span of time. Nothing of its inside is read here.
#[verifier::external_type_specification]
#[verifier::external_body]
pub struct ExTimeDelta(TimeDelta);

/// A point in time, in UTC: the whole seconds since the start of 1970, and
/// the nanoseconds since the last whole second.
#[derive(Debug, Clone, Copy, PartialEq)]
pub struct Timestamp {
    pub seconds: i64,
    pub nanoseconds: u32,
}

/// A span of time.
#[derive(Debug, Clone, Copy, PartialEq)]
pub struct Duration(pub TimeDelta);

/// An identifier, used for lookup or as an operator name.
#[derive(Debug, PartialEq)]
pub struct Symbol(pub String);

impl View for Symbol {
    type V = Seq<char>;

    open spec fn view(&self) -> Seq<char> {
        self.0@
    }
}

impl std::ops::Deref for Symbol {
    type Target = str;

    fn deref(&self) -> (text: &str)
        ensures
            text@ == self@,
    {
        self.0.as_str()
    }
}

impl Clone for Symbol {
    fn clone(&self) -> (r: Self)
        ensures
            r@ == self@,
    {
        Symbol(self.0.clone())
    }
}

/// A double-precision number, held as the operations that produce it.
///
/// The library never reads the numeric value of a float: it only records
/// where one comes from. A value is therefore kept as the exact sequence of
/// IEEE 754 operations that yields it, for the caller to carry out.
#[derive(Debug, PartialEq)]
pub enum Float {
    /// The number that a literal denotes. The text is the literal without
    /// its underscores.
    Literal(String),
    /// The double nearest to an integer.
    FromInteger(i64),
    /// The sum of two doubles, left operand first.
    Sum(Box<Float>, Box<Float>),
}

/// The mathematical value of a [`Float`].
pub enum FloatView {
    Literal(Seq<char>),
    FromInteger(i64),
    Sum(Box<FloatView>, Box<FloatView>),
}

/// The mathematical value of a float.
pub open spec fn float_view(f: Float) -> FloatView
    decreases f,
{
    match f {
        Float::Literal(text) => FloatView::Literal(text@),
        Float::FromInteger(i) => FloatView::FromInteger(i),
        Float::Sum(left, right) => FloatView::Sum(
            Box::new(float_view(*left)),
            Box::new(float_view(*right)),
        ),
    }
}

impl View for Float {
    type V = FloatView;

    open spec fn view(&self) -> FloatView {
        float_view(*self)
    }
}

impl Clone for Float {
    fn clone(&self) -> (r: Self)
        ensures
            r@ == self@,
        decreases self,
    {
        match self {
            Float::Literal(text) => Float::Literal(text.clone()),
            Float::FromInteger(i) => Float::FromInteger(*i),
            Float::Sum(left, right) => {
                let l = (**left).clone();
                let r = (**right).clone();
                Float::Sum(Box::new(l), Box::new(r))
            },
        }
    }
}

/// An expression: what the parser produces and the evaluator consumes and returns.
#[derive(Debug, PartialEq)]
pub enum Expr {
    Nil,
    Comment(String),
    Combination(Box<Expr>, Vec<Expr>),
    Symbol(Symbol),
    Boolean(bool),
    Float(Float),
    String(String),
    Duration(Duration),
    Timestamp(Timestamp),
    Integer(i64),
}

/// The mathematical value of an [`Expr`].
pub enum ExprView {
    Nil,
    Comment(Seq<char>),
    Combination(Box<ExprView>, Seq<ExprView>),
    Symbol(Seq<char>),
    Boolean(bool),
    Float(FloatView),
    String(Seq<char>),
    Duration(Duration),
    Timestamp(Timestamp),
    Integer(i64),
}

/// The mathematical value of an expression.
pub open spec fn expr_view(e: Expr) -> ExprView
    decreases e,
{
    match e {
        Expr::Nil => ExprView::Nil,
        Expr::Comment(text) => ExprView::Comment(text@),
        Expr::Combination(operator, arguments) => ExprView::Combination(
            Box::new(expr_view(*operator)),
            Seq::new(
                arguments@.len(),
                |i: int|
                    if 0 <= i < arguments@.len() {
                        expr_view(arguments@[i])
                    } else {
                        ExprView::Nil
                    },
            ),
        ),
        Expr::Symbol(symbol) => ExprView::Symbol(symbol@),
        Expr::Boolean(b) => ExprView::Boolean(b),
        Expr::Float(f) => ExprView::Float(f@),
        Expr::String(text) => ExprView::String(text@),
        Expr::Duration(d) => ExprView::Duration(d),
        Expr::Timestamp(t) => ExprView::Timestamp(t),
        Expr::Integer(i) => ExprView::Integer(i),
    }
}

impl View for Expr {
    type V = ExprView;

    open spec fn view(&self) -> ExprView {
        expr_view(*self)
    }
}

/// The values of a sequence of expressions, in order.
pub open spec fn exprs_view(s: Seq<Expr>) -> Seq<ExprView> {
    Seq::new(s.len(), |i: int| expr_view(s[i]))
}

/// The value of a combination is made of the values of its parts.
pub proof fn lemma_combination_view(operator: Box<Expr>, arguments: Vec<Expr>)
    ensures
        expr_view(Expr::Combination(operator, arguments)) == ExprView::Combination(
            Box::new(expr_view(*operator)),
            exprs_view(arguments@),
        ),
{
    match expr_view(Expr::Combination(operator, arguments)) {
        ExprView::Combination(_, args) => {
            assert(args =~= exprs_view(arguments@));
        },
        _ => {},
    }
}

impl Clone for Expr {
    #[verifier::loop_isolation(false)]
    fn clone(&self) -> (r: Self)
        ensures
            r@ == self@,
        decreases self,
    {
        match self {
            Expr::Nil => Expr::Nil,
            Expr::Comment(text) => Expr::Comment(text.clone()),
            Expr::Combination(operator, arguments) => {
                let op = (**operator).clone();
                let mut args: Vec<Expr> = Vec::new();
                let mut i: usize = 0;
                while i < arguments.len()
                    invariant
                        i <= arguments.len(),
                        args.len() == i,
                        forall|j: int| 0 <= j < i ==> args[j]@ == arguments[j]@,
                    decreases arguments.len() - i,
                {
                    let a = arguments[i].clone();
                    args.push(a);
                    i += 1;
                }
                proof {
                    assert(exprs_view(args@) =~= exprs_view(arguments@));
                    lemma_combination_view(Box::new(op), args);
                    lemma_combination_view(*operator, *arguments);
                }
                Expr::Combination(Box::new(op), args)
            },
            Expr::Symbol(symbol) => Expr::Symbol(symbol.clone()),
            Expr::Boolean(b) => Expr::Boolean(*b),
            Expr::Float(f) => Expr::Float(f.clone()),
            Expr::String(text) => Expr::String(text.clone()),
            Expr::Duration(d) => Expr::Duration(*d),
            Expr::Timestamp(t) => Expr::Timestamp(*t),
            Expr::Integer(i) => Expr::Integer(*i),
        }
    }
}

} // verus!
