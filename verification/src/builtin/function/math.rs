//! `POW`, `LOG10`, `MAX` and `MIN`.

use vstd::prelude::*;
use vstd::string::StringExecFns;
use crate::engine::context::Context;
use crate::error::{Detail, DetailView, Error, ErrorKind, ErrorView};
use crate::value::float::{Float, FloatMath, Order};
use crate::value::integer::{integer_power, wrapping_power};
use crate::value::{all_valid, items_view, lemma_items_view, outcome, valid_outcome, Json, Value};

verus! {

/// Whether a count lies within bounds that are inclusive where present.
pub open spec fn within(count: nat, min: Option<usize>, max: Option<usize>) -> bool {
    &&& min matches Some(least) ==> count >= least
    &&& max matches Some(most) ==> count <= most
}

/// The error for a call of `name` with `count` arguments where `expected`
/// is the bound that was missed.
pub open spec fn arity_error(name: Seq<char>, count: nat, expected: nat) -> ErrorView {
    ErrorView::bare(ErrorKind::InvalidArgumentCount).with(
        "function"@,
        DetailView::Text(name),
    ).with("argument count"@, DetailView::Count(count)).with(
        "expected"@,
        DetailView::Count(expected),
    )
}

/// What validating an argument count gives: the lower bound is looked at
/// first.
pub open spec fn validate_spec(
    count: nat,
    min: Option<usize>,
    max: Option<usize>,
    name: Seq<char>,
) -> Result<(), ErrorView> {
    if min is Some && count < min->0 {
        Err(arity_error(name, count, min->0 as nat))
    } else if max is Some && count > max->0 {
        Err(arity_error(name, count, max->0 as nat))
    } else {
        Ok(())
    }
}

fn arity_failure(name: &'static str, count: usize, expected: usize) -> (e: Error)
    ensures
        e@ == arity_error(name@, count as nat, expected as nat),
{
    Error::new(ErrorKind::InvalidArgumentCount).context(
        "function",
        Detail::Text(String::from_str(name)),
    ).context("argument count", Detail::Count(count)).context("expected", Detail::Count(expected))
}

/// Checks the number of arguments of the function `name` against
/// inclusive bounds.
pub fn validate_args_len(
    args: &[Value],
    min: Option<usize>,
    max: Option<usize>,
    name: &'static str,
) -> (r: Result<(), Error>)
    ensures
        r is Ok <==> within(args@.len(), min, max),
        match r {
            Ok(()) => validate_spec(args@.len(), min, max, name@) is Ok,
            Err(e) => validate_spec(args@.len(), min, max, name@) == Err::<(), ErrorView>(e@),
        },
{
    if let Some(least) = min {
        if args.len() < least {
            return Err(arity_failure(name, args.len(), least));
        }
    }
    if let Some(most) = max {
        if args.len() > most {
            return Err(arity_failure(name, args.len(), most));
        }
    }
    Ok(())
}

/// The argument at `index`, as `f` reads it.
///
/// Fails with [`ErrorKind::InvalidArgumentType`] where there is no such
/// argument or `f` gives nothing for it.
pub fn get_arg<T, F>(args: &[Value], index: usize, f: F) -> (r: Result<T, Error>) where
    F: FnOnce(&Value) -> Option<T>,

    requires
        index < args@.len() ==> call_requires(f, (&args@[index as int],)),
    ensures
        match r {
            Ok(t) => index < args@.len() && call_ensures(f, (&args@[index as int],), Some(t)),
            Err(e) => e@ == ErrorView::bare(ErrorKind::InvalidArgumentType) && (index
                >= args@.len() || call_ensures(f, (&args@[index as int],), None::<T>)),
        },
{
    if index < args.len() {
        match f(&args[index]) {
            Some(t) => Ok(t),
            None => Err(Error::new(ErrorKind::InvalidArgumentType)),
        }
    } else {
        Err(Error::new(ErrorKind::InvalidArgumentType))
    }
}

/// The first two arguments, the first as `f1` reads it and the second as
/// `f2` does. The first is read first.
pub fn get_two_args<T1, T2, F1, F2>(args: &[Value], f1: F1, f2: F2) -> (r: Result<
    (T1, T2),
    Error,
>) where F1: FnOnce(&Value) -> Option<T1>, F2: FnOnce(&Value) -> Option<T2>
    requires
        0 < args@.len() ==> call_requires(f1, (&args@[0],)),
        1 < args@.len() ==> call_requires(f2, (&args@[1],)),
    ensures
        match r {
            Ok((t1, t2)) => {
                &&& 1 < args@.len()
                &&& call_ensures(f1, (&args@[0],), Some(t1))
                &&& call_ensures(f2, (&args@[1],), Some(t2))
            },
            Err(e) => {
                &&& e@ == ErrorView::bare(ErrorKind::InvalidArgumentType)
                &&& {
                    ||| args@.len() < 2
                    ||| call_ensures(f1, (&args@[0],), None::<T1>)
                    ||| exists|t1: T1|
                        call_ensures(f1, (&args@[0],), Some(t1)) && call_ensures(
                            f2,
                            (&args@[1],),
                            None::<T2>,
                        )
                }
            },
        },
{
    let r1 = match get_arg(args, 0, f1) {
        Ok(t1) => t1,
        Err(e) => {
            return Err(e);
        },
    };
    let r2 = match get_arg(args, 1, f2) {
        Ok(t2) => t2,
        Err(e) => {
            return Err(e);
        },
    };
    Ok((r1, r2))
}

/// The value that a float computed by the host becomes: itself where it is
/// finite, else an error that names the function.
pub open spec fn finite_number_spec(x: Float, name: Seq<char>) -> Result<Json, ErrorView> {
    if x.finite() {
        Ok(Json::Float(x))
    } else {
        Err(
            ErrorView::bare(ErrorKind::NonFiniteResult).with("function"@, DetailView::Text(name)),
        )
    }
}

/// Accepts a float that the host computed for the function `name`, unless
/// it is infinite or not a number: the value model holds neither.
pub fn finite_number(x: Float, name: &'static str) -> (r: Result<Value, Error>)
    ensures
        outcome(r) == finite_number_spec(x, name@),
        valid_outcome(outcome(r)),
{
    if x.is_finite() {
        Ok(Value::Float(x))
    } else {
        Err(
            Error::new(ErrorKind::NonFiniteResult).context(
                "function",
                Detail::Text(String::from_str(name)),
            ),
        )
    }
}

/// What a function that may need the host's arithmetic does with its
/// arguments: it is done, with a value or an error, or it hands two floats
/// (for `LOG10` the second is not used) to the host.
pub enum Plan {
    Done(Result<Json, ErrorView>),
    Host(Float, Float),
}

/// `POW` of two integers, the exponent not negative, is the integer power,
/// wrapped to 64 bits. Of other numbers it is the host's power of the two as
/// floats.
pub open spec fn pow_plan(args: Seq<Json>) -> Plan {
    if args.len() != 2 {
        Plan::Done(Err(arity_error("POW"@, args.len(), 2)))
    } else if args[0] is Integer && args[1].as_natural() is Some {
        Plan::Done(
            Ok(Json::Integer(integer_power(args[0]->Integer_0, args[1]->Integer_0 as nat) as int)),
        )
    } else if args[0].is_number() && args[1].is_number() {
        Plan::Host(args[0].as_float()->0, args[1].as_float()->0)
    } else {
        Plan::Done(Err(ErrorView::bare(ErrorKind::InvalidArgumentType)))
    }
}

/// `LOG10` of a number is the host's logarithm of it as a float.
pub open spec fn log10_plan(args: Seq<Json>) -> Plan {
    if args.len() != 1 {
        Plan::Done(Err(arity_error("LOG10"@, args.len(), 1)))
    } else if args[0].is_number() {
        Plan::Host(args[0].as_float()->0, args[0].as_float()->0)
    } else {
        Plan::Done(Err(ErrorView::bare(ErrorKind::InvalidArgumentType)))
    }
}

/// Whether `r` is what `POW` gives: what the plan fixes, or a float that
/// the host gives as the power of the two floats of the plan, held to
/// [`finite_number_spec`].
pub open spec fn pow_result<M: FloatMath>(
    math: M,
    args: Seq<Json>,
    r: Result<Json, ErrorView>,
) -> bool {
    match pow_plan(args) {
        Plan::Done(fixed) => r == fixed,
        Plan::Host(base, exponent) => exists|x: Float|
            math.pow_gives(base, exponent, x) && r == #[trigger] finite_number_spec(x, "POW"@),
    }
}

/// Whether `r` is what `LOG10` gives: what the plan fixes, or a float that
/// the host gives as the logarithm of the float of the plan, held to
/// [`finite_number_spec`].
pub open spec fn log10_result<M: FloatMath>(
    math: M,
    args: Seq<Json>,
    r: Result<Json, ErrorView>,
) -> bool {
    match log10_plan(args) {
        Plan::Done(fixed) => r == fixed,
        Plan::Host(x, _) => exists|y: Float|
            math.log10_gives(x, y) && r == #[trigger] finite_number_spec(y, "LOG10"@),
    }
}

/// `POW(base, exponent)`.
///
/// Two integers with an exponent that is not negative give the integer
/// power; it wraps around where it leaves the 64-bit range. Every other
/// pair of numbers is raised by the host as floats, and a result that is
/// not finite is an error.
pub fn pow<M: FloatMath>(args: &[Value], context: &mut Context, math: &M) -> (r: Result<
    Value,
    Error,
>)
    ensures
        pow_result(*math, items_view(args@), outcome(r)),
        valid_outcome(outcome(r)),
        *final(context) == *old(context),
{
    proof {
        lemma_items_view(args@);
    }
    match validate_args_len(args, Some(2), Some(2), "POW") {
        Err(e) => {
            return Err(e);
        },
        Ok(()) => {},
    }
    if let Ok((b, e)) = get_two_args(args, Value::as_i64, Value::as_u64) {
        return Ok(Value::Integer(wrapping_power(b, e)));
    }
    match get_two_args(args, Value::as_float, Value::as_float) {
        Err(e) => Err(e),
        Ok((b, e)) => {
            let x = math.pow(b, e);
            let r = finite_number(x, "POW");
            proof {
                let views = items_view(args@);
                assert(views[0].as_float() == Some(b) && views[1].as_float() == Some(e));
                assert(pow_plan(views) == Plan::Host(b, e));
                assert(math.pow_gives(b, e, x) && outcome(r) == finite_number_spec(x, "POW"@));
            }
            r
        },
    }
}

/// `LOG10(x)`: the host's logarithm to base 10 of the number as a float.
/// A result that is not finite, as for zero, is an error.
pub fn log10<M: FloatMath>(args: &[Value], context: &mut Context, math: &M) -> (r: Result<
    Value,
    Error,
>)
    ensures
        log10_result(*math, items_view(args@), outcome(r)),
        valid_outcome(outcome(r)),
        *final(context) == *old(context),
{
    proof {
        lemma_items_view(args@);
    }
    match validate_args_len(args, Some(1), Some(1), "LOG10") {
        Err(e) => {
            return Err(e);
        },
        Ok(()) => {},
    }
    match get_arg(args, 0, Value::as_float) {
        Err(e) => Err(e),
        Ok(x) => {
            let y = math.log10(x);
            let r = finite_number(y, "LOG10");
            proof {
                let views = items_view(args@);
                assert(views[0].as_float() == Some(x));
                assert(log10_plan(views) == Plan::Host(x, x));
                assert(math.log10_gives(x, y) && outcome(r) == finite_number_spec(
                    y,
                    "LOG10"@,
                ));
            }
            r
        },
    }
}

/// Which end of the order a reduction looks for.
#[derive(Clone, Copy, Debug, PartialEq, Eq, Structural)]
pub enum Extreme {
    Least,
    Greatest,
}

impl Extreme {
    /// Whether `a` may stand before `b` at this end: it is not smaller,
    /// for the greatest; not greater, for the least.
    pub open spec fn admits(self, a: int, b: int) -> bool {
        match self {
            Extreme::Greatest => a >= b,
            Extreme::Least => a <= b,
        }
    }
}

pub open spec fn all_integers(args: Seq<Json>) -> bool {
    forall|i: int| 0 <= i < args.len() ==> (#[trigger] args[i]) is Integer
}

pub open spec fn all_numbers(args: Seq<Json>) -> bool {
    forall|i: int| 0 <= i < args.len() ==> (#[trigger] args[i]).is_number()
}

/// `m` is one of the integers `args` and at the given end of them.
pub open spec fn is_extreme_integer(args: Seq<Json>, m: int, end: Extreme) -> bool {
    &&& exists|i: int| 0 <= i < args.len() && #[trigger] args[i] == Json::Integer(m)
    &&& forall|j: int|
        0 <= j < args.len() ==> end.admits(m, (#[trigger] args[j])->Integer_0)
}

/// `f` is one of the numbers `args`, as a float, and at the given end of
/// them by value. Where several are of that value, as the two zeros are,
/// it is any of them.
pub open spec fn is_extreme_float(args: Seq<Json>, f: Float, end: Extreme) -> bool {
    &&& exists|i: int| 0 <= i < args.len() && (#[trigger] args[i]).as_float() == Some(f)
    &&& forall|j: int|
        0 <= j < args.len() ==> end.admits(
            f.scaled(),
            (#[trigger] args[j]).as_float()->0.scaled(),
        )
}

/// What `MAX` and `MIN` give. Integers alone are reduced as integers; as
/// soon as one argument is a float, all are reduced as floats.
pub open spec fn extreme_spec(
    args: Seq<Json>,
    name: Seq<char>,
    end: Extreme,
    r: Result<Json, ErrorView>,
) -> bool {
    if args.len() == 0 {
        r == Err::<Json, ErrorView>(arity_error(name, 0, 1))
    } else if all_integers(args) {
        r matches Ok(Json::Integer(m)) && is_extreme_integer(args, m, end)
    } else if all_numbers(args) {
        r matches Ok(Json::Float(f)) && is_extreme_float(args, f, end)
    } else {
        r == Err::<Json, ErrorView>(ErrorView::bare(ErrorKind::InvalidArgumentType))
    }
}

/// The integer at the given end of `args`, if all of them are integers.
fn extreme_integer(args: &[Value], end: Extreme) -> (r: Option<i64>)
    requires
        args@.len() > 0,
    ensures
        r is Some <==> all_integers(items_view(args@)),
        r matches Some(m) ==> is_extreme_integer(items_view(args@), m as int, end),
{
    proof {
        lemma_items_view(args@);
    }
    let ghost views = items_view(args@);
    let mut best: i64 = match args[0].as_i64() {
        Some(first) => first,
        None => {
            assert(!(views[0] is Integer));
            return None;
        },
    };
    let ghost mut at: int = 0;
    let mut i: usize = 1;
    while i < args.len()
        invariant
            1 <= i <= args.len(),
            views == items_view(args@),
            views.len() == args@.len(),
            forall|k: int| 0 <= k < args@.len() ==> #[trigger] views[k] == args@[k]@,
            0 <= at < i,
            views[at] == Json::Integer(best as int),
            forall|j: int| 0 <= j < i ==> (#[trigger] views[j]) is Integer,
            forall|j: int| 0 <= j < i ==> end.admits(best as int, (#[trigger] views[j])->Integer_0),
        decreases args.len() - i,
    {
        match args[i].as_i64() {
            None => {
                assert(!(views[i as int] is Integer));
                return None;
            },
            Some(next) => {
                let better = match end {
                    Extreme::Greatest => next > best,
                    Extreme::Least => next < best,
                };
                if better {
                    best = next;
                    proof {
                        at = i as int;
                    }
                }
            },
        }
        i = i + 1;
    }
    Some(best)
}

/// The float at the given end of `args`, if all of them are numbers.
fn extreme_float(args: &[Value], end: Extreme) -> (r: Option<Float>)
    requires
        args@.len() > 0,
    ensures
        r is Some <==> all_numbers(items_view(args@)),
        r matches Some(f) ==> is_extreme_float(items_view(args@), f, end),
        all_valid(items_view(args@)) ==> (r matches Some(f) ==> f.finite()),
{
    proof {
        lemma_items_view(args@);
    }
    let ghost views = items_view(args@);
    let mut best: Float = match args[0].as_float() {
        Some(first) => first,
        None => {
            assert(!views[0].is_number());
            return None;
        },
    };
    let ghost mut at: int = 0;
    let mut i: usize = 1;
    while i < args.len()
        invariant
            1 <= i <= args.len(),
            views == items_view(args@),
            views.len() == args@.len(),
            forall|k: int| 0 <= k < args@.len() ==> #[trigger] views[k] == args@[k]@,
            0 <= at < i,
            all_valid(views) ==> best.finite(),
            views[at].as_float() == Some(best),
            forall|j: int| 0 <= j < i ==> (#[trigger] views[j]).is_number(),
            forall|j: int|
                0 <= j < i ==> end.admits(
                    best.scaled(),
                    (#[trigger] views[j]).as_float()->0.scaled(),
                ),
        decreases args.len() - i,
    {
        match args[i].as_float() {
            None => {
                assert(!views[i as int].is_number());
                return None;
            },
            Some(next) => {
                let better = match (end, next.order(best)) {
                    (Extreme::Greatest, Order::Greater) => true,
                    (Extreme::Least, Order::Less) => true,
                    _ => false,
                };
                if better {
                    best = next;
                    proof {
                        at = i as int;
                    }
                }
            },
        }
        i = i + 1;
    }
    Some(best)
}

/// The reduction that `MAX` and `MIN` share.
fn extreme(args: &[Value], name: &'static str, end: Extreme) -> (r: Result<Value, Error>)
    ensures
        extreme_spec(items_view(args@), name@, end, outcome(r)),
        all_valid(items_view(args@)) ==> valid_outcome(outcome(r)),
{
    proof {
        lemma_items_view(args@);
    }
    match validate_args_len(args, Some(1), None, name) {
        Err(e) => {
            return Err(e);
        },
        Ok(()) => {},
    }
    if let Some(m) = extreme_integer(args, end) {
        return Ok(Value::Integer(m));
    }
    match extreme_float(args, end) {
        Some(f) => Ok(Value::Float(f)),
        None => Err(Error::new(ErrorKind::InvalidArgumentType)),
    }
}

/// `MAX(x1, ...)`: the greatest of one or more numbers. Of valid
/// arguments it is a valid value.
pub fn max(args: &[Value], context: &mut Context) -> (r: Result<Value, Error>)
    ensures
        extreme_spec(items_view(args@), "MAX"@, Extreme::Greatest, outcome(r)),
        all_valid(items_view(args@)) ==> valid_outcome(outcome(r)),
        *final(context) == *old(context),
{
    extreme(args, "MAX", Extreme::Greatest)
}

/// `MIN(x1, ...)`: the least of one or more numbers. Of valid arguments
/// it is a valid value.
pub fn min(args: &[Value], context: &mut Context) -> (r: Result<Value, Error>)
    ensures
        extreme_spec(items_view(args@), "MIN"@, Extreme::Least, outcome(r)),
        all_valid(items_view(args@)) ==> valid_outcome(outcome(r)),
        *final(context) == *old(context),
{
    extreme(args, "MIN", Extreme::Least)
}

} // verus!
