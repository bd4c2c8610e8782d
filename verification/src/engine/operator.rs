//! What the operators do to values.

use vstd::prelude::*;
use vstd::string::StringExecFns;
use vstd::wrapping::i64_specs::{wrapping_add, wrapping_sub};
use crate::error::{Detail, DetailView, Error, ErrorKind, ErrorView};
use crate::parser::ast::BinaryOperator;
use crate::value::float::{Float, FloatMath, Order};
use crate::value::{outcome, valid_outcome, Json, Value};

verus! {

impl BinaryOperator {
    /// The operator as it is written.
    pub open spec fn symbol_spec(self) -> Seq<char> {
        match self {
            BinaryOperator::Or => "or"@,
            BinaryOperator::And => "and"@,
            BinaryOperator::Equal => "=="@,
            BinaryOperator::NotEqual => "!="@,
            BinaryOperator::Greater => ">"@,
            BinaryOperator::GreaterOrEqual => ">="@,
            BinaryOperator::Lower => "<"@,
            BinaryOperator::LowerOrEqual => "<="@,
            BinaryOperator::Add => "+"@,
            BinaryOperator::Subtract => "-"@,
        }
    }

    /// The operator as it is written.
    pub fn symbol(self) -> (s: &'static str)
        ensures
            s@ == self.symbol_spec(),
    {
        match self {
            BinaryOperator::Or => "or",
            BinaryOperator::And => "and",
            BinaryOperator::Equal => "==",
            BinaryOperator::NotEqual => "!=",
            BinaryOperator::Greater => ">",
            BinaryOperator::GreaterOrEqual => ">=",
            BinaryOperator::Lower => "<",
            BinaryOperator::LowerOrEqual => "<=",
            BinaryOperator::Add => "+",
            BinaryOperator::Subtract => "-",
        }
    }

    /// Whether the left operand alone fixes the result: `false` does for
    /// `and`, `true` for `or`.
    pub open spec fn decided_by(self, left: Json) -> bool {
        ||| self == BinaryOperator::And && left == Json::Bool(false)
        ||| self == BinaryOperator::Or && left == Json::Bool(true)
    }

    /// Whether a comparison holds of two values that stand in `order`.
    pub open spec fn holds(self, order: Order) -> bool {
        match self {
            BinaryOperator::Greater => order == Order::Greater,
            BinaryOperator::GreaterOrEqual => order != Order::Less,
            BinaryOperator::Lower => order == Order::Less,
            BinaryOperator::LowerOrEqual => order != Order::Greater,
            _ => false,
        }
    }
}

/// The error of an operator that met an operand it is not defined on.
pub open spec fn mismatch(symbol: Seq<char>) -> ErrorView {
    ErrorView::bare(ErrorKind::TypeMismatch).with("operator"@, DetailView::Text(symbol))
}

/// What becomes of a float that the host computed for an operator: a
/// value where it is finite, else an error.
pub open spec fn finite_result(x: Float, symbol: Seq<char>) -> Result<Json, ErrorView> {
    if x.finite() {
        Ok(Json::Float(x))
    } else {
        Err(
            ErrorView::bare(ErrorKind::NonFiniteResult).with(
                "operator"@,
                DetailView::Text(symbol),
            ),
        )
    }
}

/// What `not` gives for a value.
pub open spec fn negation(v: Json) -> Result<Json, ErrorView> {
    match v {
        Json::Bool(b) => Ok(Json::Bool(!b)),
        _ => Err(mismatch("not"@)),
    }
}

/// Whether `x` is what the host may give as the sum of two floats, for
/// `+`, or as their difference, for `-`.
pub open spec fn host_gives<M: FloatMath>(
    math: M,
    op: BinaryOperator,
    a: Float,
    b: Float,
    x: Float,
) -> bool {
    if op == BinaryOperator::Add {
        math.add_gives(a, b, x)
    } else {
        math.sub_gives(a, b, x)
    }
}

/// Whether `out` is what a binary operator gives for two values, where
/// the left one has not decided the result already.
///
/// - `and`, `or`: both must be booleans, and the right one is the result.
/// - `==`, `!=`: any two values compare; the result is never an error.
/// - The comparisons are defined on two numbers and on two strings.
/// - `+`, `-`: two integers give an integer, wrapped to 64 bits. Two numbers
///   with a float among them are handed to the host as floats, and what it
///   gives for them is held to [`finite_result`].
pub open spec fn binary<M: FloatMath>(
    math: M,
    op: BinaryOperator,
    a: Json,
    b: Json,
    out: Result<Json, ErrorView>,
) -> bool {
    match op {
        BinaryOperator::And | BinaryOperator::Or => if a is Bool && b is Bool {
            out == Ok::<Json, ErrorView>(b)
        } else {
            out == Err::<Json, ErrorView>(mismatch(op.symbol_spec()))
        },
        BinaryOperator::Equal => out == Ok::<Json, ErrorView>(Json::Bool(a.same(b))),
        BinaryOperator::NotEqual => out == Ok::<Json, ErrorView>(Json::Bool(!a.same(b))),
        BinaryOperator::Greater
        | BinaryOperator::GreaterOrEqual
        | BinaryOperator::Lower
        | BinaryOperator::LowerOrEqual => match a.order(b) {
            Some(order) => out == Ok::<Json, ErrorView>(Json::Bool(op.holds(order))),
            None => out == Err::<Json, ErrorView>(mismatch(op.symbol_spec())),
        },
        BinaryOperator::Add | BinaryOperator::Subtract => match (a, b) {
            (Json::Integer(x), Json::Integer(y)) => out == Ok::<Json, ErrorView>(
                Json::Integer(
                    if op == BinaryOperator::Add {
                        wrapping_add(x as i64, y as i64) as int
                    } else {
                        wrapping_sub(x as i64, y as i64) as int
                    },
                ),
            ),
            _ => if a.is_number() && b.is_number() {
                exists|x: Float|
                    host_gives(math, op, a.as_float()->0, b.as_float()->0, x) && out
                        == #[trigger] finite_result(x, op.symbol_spec())
            } else {
                out == Err::<Json, ErrorView>(mismatch(op.symbol_spec()))
            },
        },
    }
}

fn mismatch_error(symbol: &'static str) -> (e: Error)
    ensures
        e@ == mismatch(symbol@),
{
    Error::new(ErrorKind::TypeMismatch).context("operator", Detail::Text(String::from_str(symbol)))
}

/// Accepts a float that the host computed for an operator, unless it is
/// infinite or not a number.
pub fn finite_operand(x: Float, symbol: &'static str) -> (r: Result<Value, Error>)
    ensures
        outcome(r) == finite_result(x, symbol@),
        valid_outcome(outcome(r)),
{
    if x.is_finite() {
        Ok(Value::Float(x))
    } else {
        Err(
            Error::new(ErrorKind::NonFiniteResult).context(
                "operator",
                Detail::Text(String::from_str(symbol)),
            ),
        )
    }
}

/// Applies `not`.
pub fn apply_not(v: &Value) -> (r: Result<Value, Error>)
    ensures
        outcome(r) == negation(v@),
        valid_outcome(outcome(r)),
{
    match v {
        Value::Bool(b) => Ok(Value::Bool(!*b)),
        _ => Err(mismatch_error("not")),
    }
}

/// Whether the left operand alone fixes the result of `op`.
pub fn decides(op: BinaryOperator, left: &Value) -> (r: bool)
    ensures
        r == op.decided_by(left@),
{
    match (op, left) {
        (BinaryOperator::And, Value::Bool(b)) => !*b,
        (BinaryOperator::Or, Value::Bool(b)) => *b,
        _ => false,
    }
}

/// Applies a binary operator to two values.
pub fn apply_binary<M: FloatMath>(op: BinaryOperator, a: &Value, b: &Value, math: &M) -> (r:
    Result<Value, Error>)
    ensures
        binary(*math, op, a@, b@, outcome(r)),
        valid_outcome(outcome(r)),
{
    match op {
        BinaryOperator::And | BinaryOperator::Or => match (a, b) {
            (Value::Bool(_), Value::Bool(y)) => Ok(Value::Bool(*y)),
            _ => Err(mismatch_error(op.symbol())),
        },
        BinaryOperator::Equal => Ok(Value::Bool(a.same(b))),
        BinaryOperator::NotEqual => Ok(Value::Bool(!a.same(b))),
        BinaryOperator::Greater => match a.order(b) {
            Some(order) => Ok(Value::Bool(matches!(order, Order::Greater))),
            None => Err(mismatch_error(op.symbol())),
        },
        BinaryOperator::GreaterOrEqual => match a.order(b) {
            Some(order) => Ok(Value::Bool(!matches!(order, Order::Less))),
            None => Err(mismatch_error(op.symbol())),
        },
        BinaryOperator::Lower => match a.order(b) {
            Some(order) => Ok(Value::Bool(matches!(order, Order::Less))),
            None => Err(mismatch_error(op.symbol())),
        },
        BinaryOperator::LowerOrEqual => match a.order(b) {
            Some(order) => Ok(Value::Bool(!matches!(order, Order::Greater))),
            None => Err(mismatch_error(op.symbol())),
        },
        BinaryOperator::Add | BinaryOperator::Subtract => match (a, b) {
            (Value::Integer(x), Value::Integer(y)) => {
                if matches!(op, BinaryOperator::Add) {
                    Ok(Value::Integer(x.wrapping_add(*y)))
                } else {
                    Ok(Value::Integer(x.wrapping_sub(*y)))
                }
            },
            _ => match (a.as_float(), b.as_float()) {
                (Some(x), Some(y)) => {
                    let z = if matches!(op, BinaryOperator::Add) {
                        math.add(x, y)
                    } else {
                        math.sub(x, y)
                    };
                    let r = finite_operand(z, op.symbol());
                    assert(host_gives(*math, op, x, y, z) && outcome(r) == finite_result(
                        z,
                        op.symbol_spec(),
                    ));
                    r
                },
                _ => Err(mismatch_error(op.symbol())),
            },
        },
    }
}

/// Equality and inequality are defined on every pair of values.
pub proof fn lemma_equality_is_total<M: FloatMath>(
    math: M,
    op: BinaryOperator,
    a: Json,
    b: Json,
    out: Result<Json, ErrorView>,
)
    requires
        op == BinaryOperator::Equal || op == BinaryOperator::NotEqual,
        binary(math, op, a, b, out),
    ensures
        out is Ok,
        a is String && b.is_number() ==> out == Ok::<Json, ErrorView>(
            Json::Bool(op == BinaryOperator::NotEqual),
        ),
{
}

/// A comparison of two values that are neither two numbers nor two
/// strings is a type error.
pub proof fn lemma_order_needs_one_kind<M: FloatMath>(
    math: M,
    op: BinaryOperator,
    a: Json,
    b: Json,
    out: Result<Json, ErrorView>,
)
    requires
        op == BinaryOperator::Greater || op == BinaryOperator::GreaterOrEqual || op
            == BinaryOperator::Lower || op == BinaryOperator::LowerOrEqual,
        !(a.is_number() && b.is_number()),
        !(a is String && b is String),
        binary(math, op, a, b, out),
    ensures
        out matches Err(e) && e.kind == ErrorKind::TypeMismatch,
{
}

} // verus!
