//! What an expression evaluates to where the host has no say.
//!
//! [`determined`] is the outcome of a tree that reaches no floating-point
//! arithmetic and no filter or function of the host's, and nothing for a
//! tree that does. [`lemma_determined`] shows that such a tree has no
//! other outcome.

use vstd::prelude::*;
use vstd::wrapping::i64_specs::{wrapping_add, wrapping_sub};
use crate::builtin::filter::case::{lower_spec, upper_spec};
use crate::builtin::filter::trim::{is_trimmed, lemma_trimmed_is_unique};
use crate::builtin::function::math::{
    all_integers, all_numbers, arity_error, is_extreme_integer, log10_plan, pow_plan, Extreme, Plan,
};
use crate::engine::context::{resolve, INDIRECTION_LIMIT};
use crate::engine::registry::{Filter, Function};
use crate::engine::operator::{binary, mismatch, negation};
use crate::engine::semantics::{
    binary_step, builtin_filter, builtin_function, call_step, chain, chain_step, evaluates,
    filter_result, filter_step, function_result, intermediate, list_evaluates, list_step,
    named_evaluates, named_step, node_evaluates, step_evaluates, tree_step, unary_step,
    unknown_filter, unknown_function, BuiltinFilter, BuiltinFunction, Scope,
};
use crate::error::{ErrorKind, ErrorView};
use crate::parser::ast::{BinaryOperator, FilterStep, Node, Tree};
use crate::value::float::FloatMath;
use crate::value::Json;

verus! {

/// What a binary operator gives for two values, where no float is added
/// or subtracted.
pub open spec fn determined_binary(op: BinaryOperator, a: Json, b: Json) -> Option<
    Result<Json, ErrorView>,
> {
    match op {
        BinaryOperator::And | BinaryOperator::Or => Some(
            if a is Bool && b is Bool {
                Ok(b)
            } else {
                Err(mismatch(op.symbol_spec()))
            },
        ),
        BinaryOperator::Equal => Some(Ok(Json::Bool(a.same(b)))),
        BinaryOperator::NotEqual => Some(Ok(Json::Bool(!a.same(b)))),
        BinaryOperator::Greater
        | BinaryOperator::GreaterOrEqual
        | BinaryOperator::Lower
        | BinaryOperator::LowerOrEqual => Some(
            match a.order(b) {
                Some(order) => Ok(Json::Bool(op.holds(order))),
                None => Err(mismatch(op.symbol_spec())),
            },
        ),
        BinaryOperator::Add | BinaryOperator::Subtract => match (a, b) {
            (Json::Integer(x), Json::Integer(y)) => Some(
                Ok(
                    Json::Integer(
                        if op == BinaryOperator::Add {
                            wrapping_add(x as i64, y as i64) as int
                        } else {
                            wrapping_sub(x as i64, y as i64) as int
                        },
                    ),
                ),
            ),
            _ => if a.is_number() && b.is_number() {
                None
            } else {
                Some(Err(mismatch(op.symbol_spec())))
            },
        },
    }
}

/// What `MAX` and `MIN` give for arguments that are not numbers with a
/// float among them.
pub open spec fn determined_extreme(args: Seq<Json>, name: Seq<char>, end: Extreme) -> Option<
    Result<Json, ErrorView>,
> {
    if args.len() == 0 {
        Some(Err(arity_error(name, 0, 1)))
    } else if all_integers(args) {
        Some(Ok(Json::Integer(choose|m: int| is_extreme_integer(args, m, end))))
    } else if all_numbers(args) {
        None
    } else {
        Some(Err(ErrorView::bare(ErrorKind::InvalidArgumentType)))
    }
}

/// What a built-in function gives where it does not ask the host.
pub open spec fn determined_function(name: Seq<char>, args: Seq<Json>) -> Option<
    Result<Json, ErrorView>,
> {
    match builtin_function(name) {
        Some(BuiltinFunction::Pow) => match pow_plan(args) {
            Plan::Done(fixed) => Some(fixed),
            Plan::Host(_, _) => None,
        },
        Some(BuiltinFunction::Log10) => match log10_plan(args) {
            Plan::Done(fixed) => Some(fixed),
            Plan::Host(_, _) => None,
        },
        Some(BuiltinFunction::Max) => determined_extreme(args, "MAX"@, Extreme::Greatest),
        Some(BuiltinFunction::Min) => determined_extreme(args, "MIN"@, Extreme::Least),
        None => None,
    }
}

/// What a built-in filter gives.
pub open spec fn determined_filter(name: Seq<char>, input: Json) -> Option<
    Result<Json, ErrorView>,
> {
    match builtin_filter(name) {
        Some(BuiltinFilter::Trim) => Some(
            match input {
                Json::String(s) => Ok(Json::String(choose|t: Seq<char>| is_trimmed(s, t))),
                _ => Err(ErrorView::bare(ErrorKind::InvalidArgumentType)),
            },
        ),
        Some(BuiltinFilter::Upper) => Some(upper_spec(input)),
        Some(BuiltinFilter::Lower) => Some(lower_spec(input)),
        None => None,
    }
}

/// The outcome of a tree, where the host has no say in it.
pub open spec fn determined<M: FloatMath, F: Function, G: Filter>(
    tree: Tree,
    scope: Scope<M, F, G>,
) -> Option<Result<Json, ErrorView>>
    decreases tree, 1nat,
{
    match determined_node(tree.value, scope) {
        None => None,
        Some(base) => determined_chain(tree.filters, scope, base),
    }
}

/// The outcome of a value without filters, where the host has no say in
/// it.
pub open spec fn determined_node<M: FloatMath, F: Function, G: Filter>(
    node: Node,
    scope: Scope<M, F, G>,
) -> Option<Result<Json, ErrorView>>
    decreases node, 1nat,
{
    match node {
        Node::Boolean(b) => Some(Ok(Json::Bool(b))),
        Node::Integer(i) => Some(Ok(Json::Integer(i))),
        Node::Float(f) => Some(Ok(Json::Float(f))),
        Node::String(s) => Some(Ok(Json::String(s))),
        Node::Identifier(path) => Some(
            resolve(scope.root, path, scope.position, INDIRECTION_LIMIT as nat),
        ),
        Node::Unary(_, operand) => match determined(*operand, scope) {
            None => None,
            Some(Err(e)) => Some(Err(e)),
            Some(Ok(v)) => Some(negation(v)),
        },
        Node::Binary(op, left, right) => match determined(*left, scope) {
            None => None,
            Some(Err(e)) => Some(Err(e)),
            Some(Ok(a)) => if op.decided_by(a) {
                Some(Ok(a))
            } else {
                match determined(*right, scope) {
                    None => None,
                    Some(Err(e)) => Some(Err(e)),
                    Some(Ok(b)) => determined_binary(op, a, b),
                }
            },
        },
        Node::FunctionCall(name, args) => if !scope.knows_function(name) {
            Some(Err(unknown_function(name)))
        } else {
            match determined_list(args, scope) {
                None => None,
                Some(Err(e)) => Some(Err(e)),
                Some(Ok(values)) => determined_function(name, values),
            }
        },
    }
}

/// The outcome of a list of trees, where the host has no say in it.
pub open spec fn determined_list<M: FloatMath, F: Function, G: Filter>(
    trees: Seq<Tree>,
    scope: Scope<M, F, G>,
) -> Option<
    Result<Seq<Json>, ErrorView>,
>
    decreases trees, 1nat,
{
    if trees.len() == 0 {
        Some(Ok(Seq::empty()))
    } else {
        match determined_list(trees.drop_last(), scope) {
            None => None,
            Some(Err(e)) => Some(Err(e)),
            Some(Ok(front)) => match determined(trees.last(), scope) {
                None => None,
                Some(Err(e)) => Some(Err(e)),
                Some(Ok(last)) => Some(Ok(front.push(last))),
            },
        }
    }
}

/// The outcome of a list of named trees, where the host has no say in it.
pub open spec fn determined_named<M: FloatMath, F: Function, G: Filter>(
    trees: Seq<(Seq<char>, Tree)>,
    scope: Scope<M, F, G>,
) -> Option<
    Result<Seq<(Seq<char>, Json)>, ErrorView>,
>
    decreases trees, 1nat,
{
    if trees.len() == 0 {
        Some(Ok(Seq::empty()))
    } else {
        match determined_named(trees.drop_last(), scope) {
            None => None,
            Some(Err(e)) => Some(Err(e)),
            Some(Ok(front)) => match determined(trees.last().1, scope) {
                None => None,
                Some(Err(e)) => Some(Err(e)),
                Some(Ok(last)) => Some(Ok(front.push((trees.last().0, last)))),
            },
        }
    }
}

/// The outcome of one filter applied to `input`, where the host has no
/// say in it.
pub open spec fn determined_step<M: FloatMath, F: Function, G: Filter>(
    step: FilterStep,
    scope: Scope<M, F, G>,
    input: Json,
) -> Option<
    Result<Json, ErrorView>,
>
    decreases step, 1nat,
{
    if !scope.knows_filter(step.name) {
        Some(Err(unknown_filter(step.name)))
    } else {
        match determined_named(step.args, scope) {
            None => None,
            Some(Err(e)) => Some(Err(e)),
            Some(Ok(_)) => determined_filter(step.name, input),
        }
    }
}

/// The outcome of `base` piped through the filters, where the host has no
/// say in it.
pub open spec fn determined_chain<M: FloatMath, F: Function, G: Filter>(
    filters: Seq<FilterStep>,
    scope: Scope<M, F, G>,
    base: Result<Json, ErrorView>,
) -> Option<Result<Json, ErrorView>>
    decreases filters, 1nat,
{
    if filters.len() == 0 {
        Some(base)
    } else {
        match determined_chain(filters.drop_last(), scope, base) {
            None => None,
            Some(Err(e)) => Some(Err(e)),
            Some(Ok(v)) => determined_step(filters.last(), scope, v),
        }
    }
}

/// A binary operator that asks the host nothing gives one result.
pub proof fn lemma_determined_binary<M: FloatMath>(
    math: M,
    op: BinaryOperator,
    a: Json,
    b: Json,
    out: Result<Json, ErrorView>,
)
    requires
        binary(math, op, a, b, out),
        determined_binary(op, a, b) is Some,
    ensures
        determined_binary(op, a, b) == Some(out),
{
}

/// Integers have one greatest and one least among them.
pub proof fn lemma_extreme_integer_is_unique(args: Seq<Json>, m1: int, m2: int, end: Extreme)
    requires
        all_integers(args),
        is_extreme_integer(args, m1, end),
        is_extreme_integer(args, m2, end),
    ensures
        m1 == m2,
{
    let i1 = choose|i: int| 0 <= i < args.len() && #[trigger] args[i] == Json::Integer(m1);
    let i2 = choose|i: int| 0 <= i < args.len() && #[trigger] args[i] == Json::Integer(m2);
    assert(end.admits(m1, args[i2]->Integer_0));
    assert(end.admits(m2, args[i1]->Integer_0));
}

/// A function that asks the host nothing gives one result.
pub proof fn lemma_determined_function<M: FloatMath, F: Function, G: Filter>(
    scope: Scope<M, F, G>,
    name: Seq<char>,
    args: Seq<Json>,
    out: Result<Json, ErrorView>,
)
    requires
        function_result(scope, name, args, out),
        determined_function(name, args) is Some,
    ensures
        determined_function(name, args) == Some(out),
{
    match builtin_function(name) {
        Some(BuiltinFunction::Max) => {
            if args.len() > 0 && all_integers(args) {
                let m = out->Ok_0->Integer_0;
                let chosen = choose|m: int| is_extreme_integer(args, m, Extreme::Greatest);
                lemma_extreme_integer_is_unique(args, m, chosen, Extreme::Greatest);
            }
        },
        Some(BuiltinFunction::Min) => {
            if args.len() > 0 && all_integers(args) {
                let m = out->Ok_0->Integer_0;
                let chosen = choose|m: int| is_extreme_integer(args, m, Extreme::Least);
                lemma_extreme_integer_is_unique(args, m, chosen, Extreme::Least);
            }
        },
        _ => {},
    }
}

/// A built-in filter gives one result.
pub proof fn lemma_determined_filter<M: FloatMath, F: Function, G: Filter>(
    scope: Scope<M, F, G>,
    name: Seq<char>,
    input: Json,
    args: Seq<(Seq<char>, Json)>,
    out: Result<Json, ErrorView>,
)
    requires
        filter_result(scope, name, input, args, out),
        determined_filter(name, input) is Some,
    ensures
        determined_filter(name, input) == Some(out),
{
    if builtin_filter(name) == Some(BuiltinFilter::Trim) {
        if let Json::String(s) = input {
            let t = out->Ok_0->String_0;
            let chosen = choose|t: Seq<char>| is_trimmed(s, t);
            lemma_trimmed_is_unique(s, t, chosen);
        }
    }
}

/// A tree in which the host has no say has one outcome: [`determined`]
/// gives it.
pub proof fn lemma_determined<M: FloatMath, F: Function, G: Filter>(
    tree: Tree,
    scope: Scope<M, F, G>,
    out: Result<Json, ErrorView>,
)
    requires
        evaluates(tree, scope, out),
        determined(tree, scope) is Some,
    ensures
        determined(tree, scope) == Some(out),
    decreases tree, 1nat,
{
    let base = choose|base: Result<Json, ErrorView>|
        #[trigger] intermediate(base) && tree_step(tree, scope, base, out);
    lemma_determined_node(tree.value, scope, base);
    lemma_determined_chain(tree.filters, scope, base, out);
}

/// A value without filters in which the host has no say has one outcome.
pub proof fn lemma_determined_node<M: FloatMath, F: Function, G: Filter>(
    node: Node,
    scope: Scope<M, F, G>,
    out: Result<Json, ErrorView>,
)
    requires
        node_evaluates(node, scope, out),
        determined_node(node, scope) is Some,
    ensures
        determined_node(node, scope) == Some(out),
    decreases node, 1nat,
{
    match node {
        Node::Unary(_, operand) => {
            let inner = choose|inner: Result<Json, ErrorView>|
                #[trigger] intermediate(inner) && unary_step(node, scope, inner, out);
            lemma_determined(*operand, scope, inner);
        },
        Node::Binary(op, left, right) => {
            let (first, second) = choose|
                first: Result<Json, ErrorView>,
                second: Result<Json, ErrorView>,
            |
                #[trigger] intermediate((first, second)) && binary_step(
                    node,
                    scope,
                    first,
                    second,
                    out,
                );
            lemma_determined(*left, scope, first);
            if let Ok(a) = first {
                if !op.decided_by(a) {
                    lemma_determined(*right, scope, second);
                    if let Ok(b) = second {
                        lemma_determined_binary(scope.math, op, a, b, out);
                    }
                }
            }
        },
        Node::FunctionCall(name, args) => {
            if scope.knows_function(name) {
                let values = choose|values: Result<Seq<Json>, ErrorView>|
                    #[trigger] intermediate(values) && call_step(node, scope, values, out);
                lemma_determined_list(args, scope, values);
                if let Ok(vs) = values {
                    lemma_determined_function(scope, name, vs, out);
                }
            }
        },
        _ => {},
    }
}

/// A list of trees in which the host has no say has one outcome.
pub proof fn lemma_determined_list<M: FloatMath, F: Function, G: Filter>(
    trees: Seq<Tree>,
    scope: Scope<M, F, G>,
    out: Result<Seq<Json>, ErrorView>,
)
    requires
        list_evaluates(trees, scope, out),
        determined_list(trees, scope) is Some,
    ensures
        determined_list(trees, scope) == Some(out),
    decreases trees, 1nat,
{
    if trees.len() > 0 {
        let (front, last) = choose|
            front: Result<Seq<Json>, ErrorView>,
            last: Result<Json, ErrorView>,
        |
            #[trigger] intermediate((front, last)) && list_step(trees, scope, front, last, out);
        lemma_determined_list(trees.drop_last(), scope, front);
        if front is Ok {
            lemma_determined(trees.last(), scope, last);
        }
    }
}

/// A list of named trees in which the host has no say has one outcome.
pub proof fn lemma_determined_named<M: FloatMath, F: Function, G: Filter>(
    trees: Seq<(Seq<char>, Tree)>,
    scope: Scope<M, F, G>,
    out: Result<Seq<(Seq<char>, Json)>, ErrorView>,
)
    requires
        named_evaluates(trees, scope, out),
        determined_named(trees, scope) is Some,
    ensures
        determined_named(trees, scope) == Some(out),
    decreases trees, 1nat,
{
    if trees.len() > 0 {
        let (front, last) = choose|
            front: Result<Seq<(Seq<char>, Json)>, ErrorView>,
            last: Result<Json, ErrorView>,
        |
            #[trigger] intermediate((front, last)) && named_step(trees, scope, front, last, out);
        lemma_determined_named(trees.drop_last(), scope, front);
        if front is Ok {
            lemma_determined(trees.last().1, scope, last);
        }
    }
}

/// A filter in which the host has no say gives one outcome.
pub proof fn lemma_determined_step<M: FloatMath, F: Function, G: Filter>(
    step: FilterStep,
    scope: Scope<M, F, G>,
    input: Json,
    out: Result<Json, ErrorView>,
)
    requires
        step_evaluates(step, scope, input, out),
        determined_step(step, scope, input) is Some,
    ensures
        determined_step(step, scope, input) == Some(out),
    decreases step, 1nat,
{
    if scope.knows_filter(step.name) {
        let args = choose|args: Result<Seq<(Seq<char>, Json)>, ErrorView>|
            #[trigger] intermediate(args) && filter_step(step, scope, input, args, out);
        lemma_determined_named(step.args, scope, args);
        if let Ok(a) = args {
            lemma_determined_filter(scope, step.name, input, a, out);
        }
    }
}

/// A chain of filters in which the host has no say gives one outcome.
pub proof fn lemma_determined_chain<M: FloatMath, F: Function, G: Filter>(
    filters: Seq<FilterStep>,
    scope: Scope<M, F, G>,
    base: Result<Json, ErrorView>,
    out: Result<Json, ErrorView>,
)
    requires
        chain(filters, scope, base, out),
        determined_chain(filters, scope, base) is Some,
    ensures
        determined_chain(filters, scope, base) == Some(out),
    decreases filters, 1nat,
{
    if filters.len() > 0 {
        let before = choose|before: Result<Json, ErrorView>|
            #[trigger] intermediate(before) && chain_step(filters, scope, base, before, out);
        lemma_determined_chain(filters.drop_last(), scope, base, before);
        if let Ok(v) = before {
            lemma_determined_step(filters.last(), scope, v, out);
        }
    }
}

} // verus!
