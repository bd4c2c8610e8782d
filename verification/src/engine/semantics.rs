//! What an expression evaluates to.
//!
//! Evaluation is a relation, [`evaluates`], between a tree and an outcome.
//! What the host computes (floating-point arithmetic, its own filters and
//! functions) is known here only as far as the host says what it may give,
//! so a tree may have more than one outcome. Where no such part is
//! reached, it has one.

use vstd::prelude::*;
use crate::builtin::filter::case::{lower_spec, upper_spec};
use crate::builtin::filter::trim::trim_spec;
use crate::builtin::function::math::{extreme_spec, log10_result, pow_result, Extreme};
use crate::engine::context::{resolve, INDIRECTION_LIMIT, Timestamp};
use crate::engine::registry::{Filter, Function};
use crate::engine::operator::{binary, negation};
use crate::error::{DetailView, ErrorKind, ErrorView};
use crate::parser::ast::{BinaryOperator, Component, FilterStep, Node, Tree};
use crate::value::float::FloatMath;
use crate::value::Json;

verus! {

/// The functions that every engine has.
#[derive(Clone, Copy, Debug, PartialEq, Eq, Structural)]
pub enum BuiltinFunction {
    Pow,
    Log10,
    Max,
    Min,
}

/// The filters that every engine has.
#[derive(Clone, Copy, Debug, PartialEq, Eq, Structural)]
pub enum BuiltinFilter {
    Trim,
    Upper,
    Lower,
}

/// The built-in function of a name. Names are case-sensitive.
pub open spec fn builtin_function(name: Seq<char>) -> Option<BuiltinFunction> {
    if name == "POW"@ {
        Some(BuiltinFunction::Pow)
    } else if name == "LOG10"@ {
        Some(BuiltinFunction::Log10)
    } else if name == "MAX"@ {
        Some(BuiltinFunction::Max)
    } else if name == "MIN"@ {
        Some(BuiltinFunction::Min)
    } else {
        None
    }
}

/// The built-in filter of a name. Names are case-sensitive.
pub open spec fn builtin_filter(name: Seq<char>) -> Option<BuiltinFilter> {
    if name == "TRIM"@ {
        Some(BuiltinFilter::Trim)
    } else if name == "UPPER"@ {
        Some(BuiltinFilter::Upper)
    } else if name == "LOWER"@ {
        Some(BuiltinFilter::Lower)
    } else {
        None
    }
}

/// What an evaluation reads: the document, the position that relative
/// identifiers start from, what the host has registered under each name,
/// and the host's arithmetic.
pub struct Scope<M, F, G> {
    pub root: Json,
    pub position: Option<Seq<Component>>,
    pub functions: Map<Seq<char>, F>,
    pub filters: Map<Seq<char>, G>,
    pub math: M,
}

impl<M, F, G> Scope<M, F, G> {
    pub open spec fn knows_function(self, name: Seq<char>) -> bool {
        builtin_function(name) is Some || self.functions.contains_key(name)
    }

    pub open spec fn knows_filter(self, name: Seq<char>) -> bool {
        builtin_filter(name) is Some || self.filters.contains_key(name)
    }
}

/// The error for a function that is not registered.
pub open spec fn unknown_function(name: Seq<char>) -> ErrorView {
    ErrorView::bare(ErrorKind::UnknownFunction).with("function"@, DetailView::Text(name))
}

/// The error for a filter that is not registered.
pub open spec fn unknown_filter(name: Seq<char>) -> ErrorView {
    ErrorView::bare(ErrorKind::UnknownFilter).with("filter"@, DetailView::Text(name))
}

/// Whether `out` is what the function `name` may give for `args`. A
/// built-in one is held to its own rule. One of the host's is called with
/// the arguments, the document and the clock of the context, whatever that
/// has read, and `out` is what it may give for them.
pub open spec fn function_result<M: FloatMath, F: Function, G: Filter>(
    scope: Scope<M, F, G>,
    name: Seq<char>,
    args: Seq<Json>,
    out: Result<Json, ErrorView>,
) -> bool {
    match builtin_function(name) {
        Some(BuiltinFunction::Pow) => pow_result(scope.math, args, out),
        Some(BuiltinFunction::Log10) => log10_result(scope.math, args, out),
        Some(BuiltinFunction::Max) => extreme_spec(args, "MAX"@, Extreme::Greatest, out),
        Some(BuiltinFunction::Min) => extreme_spec(args, "MIN"@, Extreme::Least, out),
        None => scope.functions.contains_key(name) && exists|
            before: Option<Timestamp>,
            after: Option<Timestamp>,
        |
            #[trigger] intermediate((before, after)) && scope.functions[name].may_give(
                args,
                scope.root,
                before,
                out,
                after,
            ),
    }
}

/// Whether `out` is what the filter `name` may give for `input` and the
/// named arguments, which stand for the mapping
/// [`crate::value::named_map`]. A built-in one is held to its own rule,
/// which looks at no argument. One of the host's is applied with the
/// input, the arguments, the document and the clock of the context,
/// whatever that has read, and `out` is what it may give for them.
pub open spec fn filter_result<M: FloatMath, F: Function, G: Filter>(
    scope: Scope<M, F, G>,
    name: Seq<char>,
    input: Json,
    args: Seq<(Seq<char>, Json)>,
    out: Result<Json, ErrorView>,
) -> bool {
    match builtin_filter(name) {
        Some(BuiltinFilter::Trim) => trim_spec(input, out),
        Some(BuiltinFilter::Upper) => out == upper_spec(input),
        Some(BuiltinFilter::Lower) => out == lower_spec(input),
        None => scope.filters.contains_key(name) && exists|
            before: Option<Timestamp>,
            after: Option<Timestamp>,
        |
            #[trigger] intermediate((before, after)) && scope.filters[name].may_give(
                input,
                args,
                scope.root,
                before,
                out,
                after,
            ),
    }
}

/// Always true. The relations below say "there is an intermediate outcome
/// such that ..."; to show that there is one, state this of it.
pub open spec fn intermediate<A>(outcome: A) -> bool {
    true
}

/// Whether `out` is an outcome of the tree: of its value, piped through
/// its filters.
pub open spec fn evaluates<M: FloatMath, F: Function, G: Filter>(
    tree: Tree,
    scope: Scope<M, F, G>,
    out: Result<Json, ErrorView>,
) -> bool
    decreases tree, 1nat,
{
    exists|base: Result<Json, ErrorView>|
        #[trigger] intermediate(base) && tree_step(tree, scope, base, out)
}

/// The value of the tree gives `base`, and the filters make `out` of it.
pub open spec fn tree_step<M: FloatMath, F: Function, G: Filter>(
    tree: Tree,
    scope: Scope<M, F, G>,
    base: Result<Json, ErrorView>,
    out: Result<Json, ErrorView>,
) -> bool
    decreases tree, 0nat,
{
    node_evaluates(tree.value, scope, base) && chain(tree.filters, scope, base, out)
}

/// Whether `out` is an outcome of a value without filters.
///
/// - A literal is its value; an identifier is what it resolves to.
/// - `not` negates a boolean.
/// - A binary operator evaluates its left operand. Where that decides the
///   result, the right operand is not evaluated.
/// - A function must be known before its arguments are evaluated.
pub open spec fn node_evaluates<M: FloatMath, F: Function, G: Filter>(
    node: Node,
    scope: Scope<M, F, G>,
    out: Result<Json, ErrorView>,
) -> bool
    decreases node, 1nat,
{
    match node {
        Node::Boolean(b) => out == Ok::<Json, ErrorView>(Json::Bool(b)),
        Node::Integer(i) => out == Ok::<Json, ErrorView>(Json::Integer(i)),
        Node::Float(f) => out == Ok::<Json, ErrorView>(Json::Float(f)),
        Node::String(s) => out == Ok::<Json, ErrorView>(Json::String(s)),
        Node::Identifier(path) => out == resolve(
            scope.root,
            path,
            scope.position,
            INDIRECTION_LIMIT as nat,
        ),
        Node::Unary(_, _) => exists|inner: Result<Json, ErrorView>|
            #[trigger] intermediate(inner) && unary_step(node, scope, inner, out),
        Node::Binary(_, _, _) => exists|
            first: Result<Json, ErrorView>,
            second: Result<Json, ErrorView>,
        |
            #[trigger] intermediate((first, second)) && binary_step(
                node,
                scope,
                first,
                second,
                out,
            ),
        Node::FunctionCall(name, _) => if !scope.knows_function(name) {
            out == Err::<Json, ErrorView>(unknown_function(name))
        } else {
            exists|values: Result<Seq<Json>, ErrorView>|
                #[trigger] intermediate(values) && call_step(node, scope, values, out)
        },
    }
}

/// The operand of `not` gives `inner`, and negation makes `out` of it.
pub open spec fn unary_step<M: FloatMath, F: Function, G: Filter>(
    node: Node,
    scope: Scope<M, F, G>,
    inner: Result<Json, ErrorView>,
    out: Result<Json, ErrorView>,
) -> bool
    decreases node, 0nat,
{
    node matches Node::Unary(_, operand) && evaluates(*operand, scope, inner) && match inner {
        Err(e) => out == Err::<Json, ErrorView>(e),
        Ok(v) => out == negation(v),
    }
}

/// The left operand gives `first`. Where that is an error or decides the
/// result, it is `out`, and `second` is free: the right operand is not
/// evaluated. Otherwise the right operand gives `second`, and the operator
/// makes `out` of both.
pub open spec fn binary_step<M: FloatMath, F: Function, G: Filter>(
    node: Node,
    scope: Scope<M, F, G>,
    first: Result<Json, ErrorView>,
    second: Result<Json, ErrorView>,
    out: Result<Json, ErrorView>,
) -> bool
    decreases node, 0nat,
{
    node matches Node::Binary(op, left, right) && evaluates(*left, scope, first) && match first {
        Err(e) => out == Err::<Json, ErrorView>(e),
        Ok(a) => if op.decided_by(a) {
            out == Ok::<Json, ErrorView>(a)
        } else {
            evaluates(*right, scope, second) && match second {
                Err(e) => out == Err::<Json, ErrorView>(e),
                Ok(b) => binary(scope.math, op, a, b, out),
            }
        },
    }
}

/// The arguments give `values`, and the function makes `out` of them.
pub open spec fn call_step<M: FloatMath, F: Function, G: Filter>(
    node: Node,
    scope: Scope<M, F, G>,
    values: Result<Seq<Json>, ErrorView>,
    out: Result<Json, ErrorView>,
) -> bool
    decreases node, 0nat,
{
    node matches Node::FunctionCall(name, args) && list_evaluates(args, scope, values)
        && match values {
        Err(e) => out == Err::<Json, ErrorView>(e),
        Ok(vs) => function_result(scope, name, vs, out),
    }
}

/// Whether `out` is an outcome of a list of trees, evaluated in order up
/// to the first that fails.
pub open spec fn list_evaluates<M: FloatMath, F: Function, G: Filter>(
    trees: Seq<Tree>,
    scope: Scope<M, F, G>,
    out: Result<Seq<Json>, ErrorView>,
) -> bool
    decreases trees, 1nat,
{
    if trees.len() == 0 {
        out == Ok::<Seq<Json>, ErrorView>(Seq::empty())
    } else {
        exists|front: Result<Seq<Json>, ErrorView>, last: Result<Json, ErrorView>|
            #[trigger] intermediate((front, last)) && list_step(trees, scope, front, last, out)
    }
}

/// All trees but the last give `front`. Where that is an error it is
/// `out`, and `last` is free. Otherwise the last tree gives `last`.
pub open spec fn list_step<M: FloatMath, F: Function, G: Filter>(
    trees: Seq<Tree>,
    scope: Scope<M, F, G>,
    front: Result<Seq<Json>, ErrorView>,
    last: Result<Json, ErrorView>,
    out: Result<Seq<Json>, ErrorView>,
) -> bool
    decreases trees, 0nat,
{
    trees.len() > 0 && list_evaluates(trees.drop_last(), scope, front) && match front {
        Err(e) => out == Err::<Seq<Json>, ErrorView>(e),
        Ok(vs) => evaluates(trees.last(), scope, last) && match last {
            Err(e) => out == Err::<Seq<Json>, ErrorView>(e),
            Ok(v) => out == Ok::<Seq<Json>, ErrorView>(vs.push(v)),
        },
    }
}

/// Whether `out` is an outcome of a list of named trees, evaluated in
/// order up to the first that fails.
pub open spec fn named_evaluates<M: FloatMath, F: Function, G: Filter>(
    trees: Seq<(Seq<char>, Tree)>,
    scope: Scope<M, F, G>,
    out: Result<Seq<(Seq<char>, Json)>, ErrorView>,
) -> bool
    decreases trees, 1nat,
{
    if trees.len() == 0 {
        out == Ok::<Seq<(Seq<char>, Json)>, ErrorView>(Seq::empty())
    } else {
        exists|front: Result<Seq<(Seq<char>, Json)>, ErrorView>, last: Result<Json, ErrorView>|
            #[trigger] intermediate((front, last)) && named_step(trees, scope, front, last, out)
    }
}

/// All named trees but the last give `front`. Where that is an error it
/// is `out`, and `last` is free. Otherwise the last tree gives `last`.
pub open spec fn named_step<M: FloatMath, F: Function, G: Filter>(
    trees: Seq<(Seq<char>, Tree)>,
    scope: Scope<M, F, G>,
    front: Result<Seq<(Seq<char>, Json)>, ErrorView>,
    last: Result<Json, ErrorView>,
    out: Result<Seq<(Seq<char>, Json)>, ErrorView>,
) -> bool
    decreases trees, 0nat,
{
    trees.len() > 0 && named_evaluates(trees.drop_last(), scope, front) && match front {
        Err(e) => out == Err::<Seq<(Seq<char>, Json)>, ErrorView>(e),
        Ok(vs) => evaluates(trees.last().1, scope, last) && match last {
            Err(e) => out == Err::<Seq<(Seq<char>, Json)>, ErrorView>(e),
            Ok(v) => out == Ok::<Seq<(Seq<char>, Json)>, ErrorView>(vs.push((trees.last().0, v))),
        },
    }
}

/// Whether `out` is an outcome of one filter applied to `input`. The
/// filter must be known before its arguments are evaluated.
pub open spec fn step_evaluates<M: FloatMath, F: Function, G: Filter>(
    step: FilterStep,
    scope: Scope<M, F, G>,
    input: Json,
    out: Result<Json, ErrorView>,
) -> bool
    decreases step, 1nat,
{
    if !scope.knows_filter(step.name) {
        out == Err::<Json, ErrorView>(unknown_filter(step.name))
    } else {
        exists|args: Result<Seq<(Seq<char>, Json)>, ErrorView>|
            #[trigger] intermediate(args) && filter_step(step, scope, input, args, out)
    }
}

/// The arguments of the filter give `args`, and the filter makes `out` of
/// the input and them.
pub open spec fn filter_step<M: FloatMath, F: Function, G: Filter>(
    step: FilterStep,
    scope: Scope<M, F, G>,
    input: Json,
    args: Result<Seq<(Seq<char>, Json)>, ErrorView>,
    out: Result<Json, ErrorView>,
) -> bool
    decreases step, 0nat,
{
    named_evaluates(step.args, scope, args) && match args {
        Err(e) => out == Err::<Json, ErrorView>(e),
        Ok(a) => filter_result(scope, step.name, input, a, out),
    }
}

/// Whether `out` is an outcome of `base` piped through the filters in
/// order. A failure ends the chain.
pub open spec fn chain<M: FloatMath, F: Function, G: Filter>(
    filters: Seq<FilterStep>,
    scope: Scope<M, F, G>,
    base: Result<Json, ErrorView>,
    out: Result<Json, ErrorView>,
) -> bool
    decreases filters, 1nat,
{
    if filters.len() == 0 {
        out == base
    } else {
        exists|before: Result<Json, ErrorView>|
            #[trigger] intermediate(before) && chain_step(filters, scope, base, before, out)
    }
}

/// All filters but the last make `before` of `base`. Where that is an
/// error it is `out`; otherwise the last filter makes `out` of it.
pub open spec fn chain_step<M: FloatMath, F: Function, G: Filter>(
    filters: Seq<FilterStep>,
    scope: Scope<M, F, G>,
    base: Result<Json, ErrorView>,
    before: Result<Json, ErrorView>,
    out: Result<Json, ErrorView>,
) -> bool
    decreases filters, 0nat,
{
    filters.len() > 0 && chain(filters.drop_last(), scope, base, before) && match before {
        Err(e) => out == Err::<Json, ErrorView>(e),
        Ok(v) => step_evaluates(filters.last(), scope, v, out),
    }
}

/// What was taken in steps is an outcome of the tree.
pub proof fn lemma_tree_step<M: FloatMath, F: Function, G: Filter>(
    tree: Tree,
    scope: Scope<M, F, G>,
    base: Result<Json, ErrorView>,
    out: Result<Json, ErrorView>,
)
    requires
        tree_step(tree, scope, base, out),
    ensures
        evaluates(tree, scope, out),
{
    assert(intermediate(base));
}

/// What was taken in steps is an outcome of the negation.
pub proof fn lemma_unary_step<M: FloatMath, F: Function, G: Filter>(
    node: Node,
    scope: Scope<M, F, G>,
    inner: Result<Json, ErrorView>,
    out: Result<Json, ErrorView>,
)
    requires
        unary_step(node, scope, inner, out),
    ensures
        node_evaluates(node, scope, out),
{
    assert(intermediate(inner));
}

/// What was taken in steps is an outcome of the operator.
pub proof fn lemma_binary_step<M: FloatMath, F: Function, G: Filter>(
    node: Node,
    scope: Scope<M, F, G>,
    first: Result<Json, ErrorView>,
    second: Result<Json, ErrorView>,
    out: Result<Json, ErrorView>,
)
    requires
        binary_step(node, scope, first, second, out),
    ensures
        node_evaluates(node, scope, out),
{
    assert(intermediate((first, second)));
}

/// What was taken in steps is an outcome of the call of a known function.
pub proof fn lemma_call_step<M: FloatMath, F: Function, G: Filter>(
    node: Node,
    scope: Scope<M, F, G>,
    values: Result<Seq<Json>, ErrorView>,
    out: Result<Json, ErrorView>,
)
    requires
        node matches Node::FunctionCall(name, _) && scope.knows_function(name),
        call_step(node, scope, values, out),
    ensures
        node_evaluates(node, scope, out),
{
    assert(intermediate(values));
}

/// What was taken in steps is an outcome of the list.
pub proof fn lemma_list_step<M: FloatMath, F: Function, G: Filter>(
    trees: Seq<Tree>,
    scope: Scope<M, F, G>,
    front: Result<Seq<Json>, ErrorView>,
    last: Result<Json, ErrorView>,
    out: Result<Seq<Json>, ErrorView>,
)
    requires
        list_step(trees, scope, front, last, out),
    ensures
        list_evaluates(trees, scope, out),
{
    assert(intermediate((front, last)));
}

/// What was taken in steps is an outcome of the named list.
pub proof fn lemma_named_step<M: FloatMath, F: Function, G: Filter>(
    trees: Seq<(Seq<char>, Tree)>,
    scope: Scope<M, F, G>,
    front: Result<Seq<(Seq<char>, Json)>, ErrorView>,
    last: Result<Json, ErrorView>,
    out: Result<Seq<(Seq<char>, Json)>, ErrorView>,
)
    requires
        named_step(trees, scope, front, last, out),
    ensures
        named_evaluates(trees, scope, out),
{
    assert(intermediate((front, last)));
}

/// What was taken in steps is an outcome of the known filter.
pub proof fn lemma_filter_step<M: FloatMath, F: Function, G: Filter>(
    step: FilterStep,
    scope: Scope<M, F, G>,
    input: Json,
    args: Result<Seq<(Seq<char>, Json)>, ErrorView>,
    out: Result<Json, ErrorView>,
)
    requires
        scope.knows_filter(step.name),
        filter_step(step, scope, input, args, out),
    ensures
        step_evaluates(step, scope, input, out),
{
    assert(intermediate(args));
}

/// What was taken in steps is an outcome of the chain.
pub proof fn lemma_chain_step<M: FloatMath, F: Function, G: Filter>(
    filters: Seq<FilterStep>,
    scope: Scope<M, F, G>,
    base: Result<Json, ErrorView>,
    before: Result<Json, ErrorView>,
    out: Result<Json, ErrorView>,
)
    requires
        chain_step(filters, scope, base, before, out),
    ensures
        chain(filters, scope, base, out),
{
    assert(intermediate(before));
}

/// Whether the left operand fixes the result of `op` to `decided`:
/// `false` for `and`, `true` for `or`.
pub open spec fn short_circuit(op: BinaryOperator, decided: Json) -> bool {
    ||| op == BinaryOperator::And && decided == Json::Bool(false)
    ||| op == BinaryOperator::Or && decided == Json::Bool(true)
}

/// Where the left operand of `and` gives `false`, or that of `or` gives
/// `true`, that is an outcome of the whole, whatever the right operand is:
/// it need not even have an outcome.
pub proof fn lemma_short_circuit_decides<M: FloatMath, F: Function, G: Filter>(
    op: BinaryOperator,
    left: Tree,
    right: Tree,
    scope: Scope<M, F, G>,
    decided: Json,
)
    requires
        short_circuit(op, decided),
        evaluates(left, scope, Ok(decided)),
    ensures
        node_evaluates(
            Node::Binary(op, Box::new(left), Box::new(right)),
            scope,
            Ok(decided),
        ),
{
    let node = Node::Binary(op, Box::new(left), Box::new(right));
    let first = Ok::<Json, ErrorView>(decided);
    lemma_binary_step(node, scope, first, first, first);
}

/// Where the left operand of `and` can only give `false`, or that of `or`
/// only `true`, the whole gives nothing else: the right operand is not
/// evaluated, so no error of it is seen.
pub proof fn lemma_short_circuit_skips_right<M: FloatMath, F: Function, G: Filter>(
    op: BinaryOperator,
    left: Tree,
    right: Tree,
    scope: Scope<M, F, G>,
    decided: Json,
    out: Result<Json, ErrorView>,
)
    requires
        short_circuit(op, decided),
        forall|first: Result<Json, ErrorView>|
            evaluates(left, scope, first) ==> first == Ok::<Json, ErrorView>(decided),
        node_evaluates(Node::Binary(op, Box::new(left), Box::new(right)), scope, out),
    ensures
        out == Ok::<Json, ErrorView>(decided),
{
    let node = Node::Binary(op, Box::new(left), Box::new(right));
    let (first, second) = choose|
        first: Result<Json, ErrorView>,
        second: Result<Json, ErrorView>,
    |
        #[trigger] intermediate((first, second)) && binary_step(node, scope, first, second, out);
    assert(evaluates(left, scope, first));
}

/// `==` and `!=` never fail where both operands have a value: values of
/// different kinds are unequal.
pub proof fn lemma_equality_never_fails<M: FloatMath, F: Function, G: Filter>(
    op: BinaryOperator,
    left: Tree,
    right: Tree,
    scope: Scope<M, F, G>,
    out: Result<Json, ErrorView>,
)
    requires
        op == BinaryOperator::Equal || op == BinaryOperator::NotEqual,
        node_evaluates(Node::Binary(op, Box::new(left), Box::new(right)), scope, out),
        out is Err,
    ensures
        evaluates(left, scope, out) || evaluates(right, scope, out),
{
    let node = Node::Binary(op, Box::new(left), Box::new(right));
    let (first, second) = choose|
        first: Result<Json, ErrorView>,
        second: Result<Json, ErrorView>,
    |
        #[trigger] intermediate((first, second)) && binary_step(node, scope, first, second, out);
    assert(evaluates(left, scope, first));
}

} // verus!
