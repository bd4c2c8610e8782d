//! Evaluation of expressions against a document.

pub mod context;
pub mod determined;
pub mod operator;
pub mod registry;
pub mod semantics;

use vstd::prelude::*;
use vstd::string::StringExecFns;
use crate::builtin::filter::case::{lower, upper};
use crate::builtin::filter::trim::trim;
use crate::builtin::function::math::{log10, max, min, pow};
use crate::engine::context::{position_view, Context};
use crate::engine::determined::{determined, lemma_determined};
use crate::engine::operator::{apply_binary, apply_not, decides};
use crate::engine::registry::{Filter, Function, Registry};
use crate::engine::semantics::{
    builtin_filter, builtin_function, chain, evaluates, filter_result, function_result,
    intermediate, lemma_binary_step, lemma_call_step, lemma_chain_step, lemma_filter_step,
    lemma_list_step, lemma_named_step, lemma_tree_step, lemma_unary_step, list_evaluates,
    named_evaluates, node_evaluates, step_evaluates, BuiltinFilter, BuiltinFunction, Scope,
};
use crate::error::{Detail, Error, ErrorKind, ErrorView};
use crate::parser::ast::{
    lemma_named_view, lemma_steps_view, lemma_trees_view, named_view, steps_view, trees_view,
    Component, Expression, ExpressionValue, FilterCall, FilterStep, Identifier, Tree,
};
use crate::value::float::FloatMath;
use crate::value::{items_view, lemma_items_view, outcome, pairs_view, Json, Value};

verus! {

/// The view of what the evaluation of a list gives.
pub open spec fn list_outcome(r: Result<Vec<Value>, Error>) -> Result<Seq<Json>, ErrorView> {
    match r {
        Ok(values) => Ok(items_view(values@)),
        Err(e) => Err(e@),
    }
}

/// The view of what the evaluation of a list of named trees gives.
pub open spec fn named_outcome(r: Result<Vec<(String, Value)>, Error>) -> Result<
    Seq<(Seq<char>, Json)>,
    ErrorView,
> {
    match r {
        Ok(values) => Ok(pairs_view(values@)),
        Err(e) => Err(e@),
    }
}

/// A list whose front fails, fails with the same error.
pub proof fn lemma_list_fails<M: FloatMath, F: Function, G: Filter>(
    trees: Seq<Tree>,
    k: int,
    scope: Scope<M, F, G>,
    e: ErrorView,
)
    requires
        0 <= k <= trees.len(),
        list_evaluates(trees.take(k), scope, Err(e)),
    ensures
        list_evaluates(trees, scope, Err(e)),
    decreases trees.len() - k,
{
    if k < trees.len() {
        assert(trees.take(k + 1).drop_last() =~= trees.take(k));
        lemma_list_step(
            trees.take(k + 1),
            scope,
            Err::<Seq<Json>, ErrorView>(e),
            Err::<Json, ErrorView>(e),
            Err::<Seq<Json>, ErrorView>(e),
        );
        lemma_list_fails(trees, k + 1, scope, e);
    } else {
        assert(trees.take(k) =~= trees);
    }
}

/// A list of named trees whose front fails, fails with the same error.
pub proof fn lemma_named_fails<M: FloatMath, F: Function, G: Filter>(
    trees: Seq<(Seq<char>, Tree)>,
    k: int,
    scope: Scope<M, F, G>,
    e: ErrorView,
)
    requires
        0 <= k <= trees.len(),
        named_evaluates(trees.take(k), scope, Err(e)),
    ensures
        named_evaluates(trees, scope, Err(e)),
    decreases trees.len() - k,
{
    if k < trees.len() {
        assert(trees.take(k + 1).drop_last() =~= trees.take(k));
        lemma_named_step(
            trees.take(k + 1),
            scope,
            Err::<Seq<(Seq<char>, Json)>, ErrorView>(e),
            Err::<Json, ErrorView>(e),
            Err::<Seq<(Seq<char>, Json)>, ErrorView>(e),
        );
        lemma_named_fails(trees, k + 1, scope, e);
    } else {
        assert(trees.take(k) =~= trees);
    }
}

/// A chain fails with the error of its first failing step: no later step
/// is applied.
pub proof fn lemma_chain_fails<M: FloatMath, F: Function, G: Filter>(
    filters: Seq<FilterStep>,
    k: int,
    scope: Scope<M, F, G>,
    base: Result<Json, ErrorView>,
    e: ErrorView,
)
    requires
        0 <= k <= filters.len(),
        chain(filters.take(k), scope, base, Err(e)),
    ensures
        chain(filters, scope, base, Err(e)),
    decreases filters.len() - k,
{
    if k < filters.len() {
        assert(filters.take(k + 1).drop_last() =~= filters.take(k));
        lemma_chain_step(
            filters.take(k + 1),
            scope,
            base,
            Err::<Json, ErrorView>(e),
            Err::<Json, ErrorView>(e),
        );
        lemma_chain_fails(filters, k + 1, scope, base, e);
    } else {
        assert(filters.take(k) =~= filters);
    }
}

/// Whether a name is the given one.
fn named(name: &String, literal: &'static str) -> (r: bool)
    ensures
        r == (name@ == literal@),
{
    *name == String::from_str(literal)
}

/// The built-in function of a name.
pub fn find_builtin_function(name: &String) -> (r: Option<BuiltinFunction>)
    ensures
        r == builtin_function(name@),
{
    if named(name, "POW") {
        Some(BuiltinFunction::Pow)
    } else if named(name, "LOG10") {
        Some(BuiltinFunction::Log10)
    } else if named(name, "MAX") {
        Some(BuiltinFunction::Max)
    } else if named(name, "MIN") {
        Some(BuiltinFunction::Min)
    } else {
        None
    }
}

/// The built-in filter of a name.
pub fn find_builtin_filter(name: &String) -> (r: Option<BuiltinFilter>)
    ensures
        r == builtin_filter(name@),
{
    if named(name, "TRIM") {
        Some(BuiltinFilter::Trim)
    } else if named(name, "UPPER") {
        Some(BuiltinFilter::Upper)
    } else if named(name, "LOWER") {
        Some(BuiltinFilter::Lower)
    } else {
        None
    }
}

/// What a function name stands for.
pub enum FunctionRef<'a, F> {
    Builtin(BuiltinFunction),
    Host(&'a F),
}

/// What a filter name stands for.
pub enum FilterRef<'a, G> {
    Builtin(BuiltinFilter),
    Host(&'a G),
}

/// Evaluates expressions. It holds the host's arithmetic and what the
/// host has registered beside the built-in filters and functions.
pub struct Engine<M: FloatMath, F: Function, G: Filter> {
    pub math: M,
    pub functions: Registry<F>,
    pub filters: Registry<G>,
}

impl<M: FloatMath, F: Function, G: Filter> Engine<M, F, G> {
    /// What an evaluation by this engine reads.
    pub open spec fn scope(&self, root: Json, position: Option<Seq<Component>>) -> Scope<M, F, G> {
        Scope {
            root,
            position,
            functions: self.functions.implementations(),
            filters: self.filters.implementations(),
            math: self.math,
        }
    }

    /// An engine with the built-in filters and functions alone.
    pub fn new(math: M) -> (r: Engine<M, F, G>)
        ensures
            r.functions.names() =~= Set::<Seq<char>>::empty(),
            r.filters.names() =~= Set::<Seq<char>>::empty(),
    {
        Engine { math, functions: Registry::new(), filters: Registry::new() }
    }

    /// Registers a function of the host's. A built-in name keeps its
    /// built-in meaning.
    pub fn register_function(&mut self, name: String, function: F)
        ensures
            final(self).functions.names() =~= old(self).functions.names().insert(name@),
            final(self).functions.implementations() =~= old(
                self,
            ).functions.implementations().insert(name@, function),
            final(self).filters == old(self).filters,
    {
        self.functions.register(name, function);
    }

    /// Registers a filter of the host's. A built-in name keeps its
    /// built-in meaning.
    pub fn register_filter(&mut self, name: String, filter: G)
        ensures
            final(self).filters.names() =~= old(self).filters.names().insert(name@),
            final(self).filters.implementations() =~= old(self).filters.implementations().insert(
                name@,
                filter,
            ),
            final(self).functions == old(self).functions,
    {
        self.filters.register(name, filter);
    }

    /// What a function name stands for: the built-in functions come first.
    pub fn find_function(&self, name: &String) -> (r: Option<FunctionRef<'_, F>>)
        ensures
            match r {
                Some(FunctionRef::Builtin(b)) => builtin_function(name@) == Some(b),
                Some(FunctionRef::Host(f)) => {
                    &&& builtin_function(name@) is None
                    &&& self.functions.position(name@) matches Some(i)
                    &&& 0 <= i < self.functions.entries@.len()
                    &&& *f == self.functions.entries@[i].1
                },
                None => builtin_function(name@) is None
                    && !self.functions.implementations().contains_key(name@),
            },
    {
        match find_builtin_function(name) {
            Some(b) => Some(FunctionRef::Builtin(b)),
            None => match self.functions.find(name) {
                Some(f) => Some(FunctionRef::Host(f)),
                None => None,
            },
        }
    }

    /// What a filter name stands for: the built-in filters come first.
    pub fn find_filter(&self, name: &String) -> (r: Option<FilterRef<'_, G>>)
        ensures
            match r {
                Some(FilterRef::Builtin(b)) => builtin_filter(name@) == Some(b),
                Some(FilterRef::Host(g)) => {
                    &&& builtin_filter(name@) is None
                    &&& self.filters.position(name@) matches Some(i)
                    &&& 0 <= i < self.filters.entries@.len()
                    &&& *g == self.filters.entries@[i].1
                },
                None => builtin_filter(name@) is None
                    && !self.filters.implementations().contains_key(name@),
            },
    {
        match find_builtin_filter(name) {
            Some(b) => Some(FilterRef::Builtin(b)),
            None => match self.filters.find(name) {
                Some(g) => Some(FilterRef::Host(g)),
                None => None,
            },
        }
    }

    /// Evaluates the arguments of a function call, in order.
    fn eval_list(
        &self,
        args: &Vec<Expression>,
        position: Option<&Identifier>,
        context: &mut Context,
    ) -> (r: Result<Vec<Value>, Error>)
        ensures
            list_evaluates(
                trees_view(args@),
                self.scope(old(context).data_spec()@, position_view(position)),
                list_outcome(r),
            ),
            final(context).data_spec() == old(context).data_spec(),
        decreases args,
    {
        let ghost scope = self.scope(context.data_spec()@, position_view(position));
        let ghost trees = trees_view(args@);
        let mut values: Vec<Value> = Vec::new();
        let mut i: usize = 0;
        proof {
            lemma_trees_view(args@);
            assert(trees.take(0) =~= Seq::<Tree>::empty());
            assert(items_view(values@) =~= Seq::<Json>::empty());
        }
        while i < args.len()
            invariant
                i <= args.len(),
                trees == trees_view(args@),
                trees.len() == args@.len(),
                forall|k: int| 0 <= k < args@.len() ==> #[trigger] trees[k] == args@[k]@,
                scope == self.scope(old(context).data_spec()@, position_view(position)),
                context.data_spec() == old(context).data_spec(),
                list_evaluates(
                    trees.take(i as int),
                    scope,
                    Ok::<Seq<Json>, ErrorView>(items_view(values@)),
                ),
            decreases args.len() - i,
        {
            assert(decreases_to!(args => args[i as int]));
            let r = self.eval_tree(&args[i], position, context);
            proof {
                assert(trees.take(i + 1).drop_last() =~= trees.take(i as int));
                assert(trees.take(i + 1).last() == args@[i as int]@);
                assert(evaluates(trees.take(i + 1).last(), scope, outcome(r)));
            }
            match r {
                Err(e) => {
                    proof {
                        lemma_list_step(
                            trees.take(i + 1),
                            scope,
                            Ok::<Seq<Json>, ErrorView>(items_view(values@)),
                            Err::<Json, ErrorView>(e@),
                            Err::<Seq<Json>, ErrorView>(e@),
                        );
                        lemma_list_fails(trees, i + 1, scope, e@);
                    }
                    return Err(e);
                },
                Ok(value) => {
                    proof {
                        lemma_items_view(values@);
                        lemma_items_view(values@.push(value));
                        assert(items_view(values@.push(value)) =~= items_view(values@).push(
                            value@,
                        ));
                        lemma_list_step(
                            trees.take(i + 1),
                            scope,
                            Ok::<Seq<Json>, ErrorView>(items_view(values@)),
                            Ok::<Json, ErrorView>(value@),
                            Ok::<Seq<Json>, ErrorView>(items_view(values@).push(value@)),
                        );
                    }
                    values.push(value);
                },
            }
            i = i + 1;
        }
        proof {
            assert(trees.take(i as int) =~= trees);
        }
        Ok(values)
    }

    /// Evaluates the named arguments of a filter, in order.
    fn eval_named(
        &self,
        args: &Vec<(String, Expression)>,
        position: Option<&Identifier>,
        context: &mut Context,
    ) -> (r: Result<Vec<(String, Value)>, Error>)
        ensures
            named_evaluates(
                named_view(args@),
                self.scope(old(context).data_spec()@, position_view(position)),
                named_outcome(r),
            ),
            final(context).data_spec() == old(context).data_spec(),
        decreases args,
    {
        let ghost scope = self.scope(context.data_spec()@, position_view(position));
        let ghost trees = named_view(args@);
        let mut values: Vec<(String, Value)> = Vec::new();
        let mut i: usize = 0;
        proof {
            lemma_named_view(args@);
            assert(trees.take(0) =~= Seq::<(Seq<char>, Tree)>::empty());
            assert(pairs_view(values@) =~= Seq::<(Seq<char>, Json)>::empty());
        }
        while i < args.len()
            invariant
                i <= args.len(),
                trees == named_view(args@),
                trees.len() == args@.len(),
                forall|k: int|
                    0 <= k < args@.len() ==> #[trigger] trees[k] == (args@[k].0@, args@[k].1@),
                scope == self.scope(old(context).data_spec()@, position_view(position)),
                context.data_spec() == old(context).data_spec(),
                named_evaluates(
                    trees.take(i as int),
                    scope,
                    Ok::<Seq<(Seq<char>, Json)>, ErrorView>(pairs_view(values@)),
                ),
            decreases args.len() - i,
        {
            assert(decreases_to!(args => args[i as int]));
            let r = self.eval_tree(&args[i].1, position, context);
            proof {
                assert(trees.take(i + 1).drop_last() =~= trees.take(i as int));
                assert(trees.take(i + 1).last() == (args@[i as int].0@, args@[i as int].1@));
                assert(evaluates(trees.take(i + 1).last().1, scope, outcome(r)));
            }
            match r {
                Err(e) => {
                    proof {
                        lemma_named_step(
                            trees.take(i + 1),
                            scope,
                            Ok::<Seq<(Seq<char>, Json)>, ErrorView>(pairs_view(values@)),
                            Err::<Json, ErrorView>(e@),
                            Err::<Seq<(Seq<char>, Json)>, ErrorView>(e@),
                        );
                        lemma_named_fails(trees, i + 1, scope, e@);
                    }
                    return Err(e);
                },
                Ok(value) => {
                    let key = args[i].0.clone();
                    proof {
                        assert(pairs_view(values@.push((key, value))) =~= pairs_view(
                            values@,
                        ).push((key@, value@)));
                        lemma_named_step(
                            trees.take(i + 1),
                            scope,
                            Ok::<Seq<(Seq<char>, Json)>, ErrorView>(pairs_view(values@)),
                            Ok::<Json, ErrorView>(value@),
                            Ok::<Seq<(Seq<char>, Json)>, ErrorView>(
                                pairs_view(values@).push((key@, value@)),
                            ),
                        );
                    }
                    values.push((key, value));
                },
            }
            i = i + 1;
        }
        proof {
            assert(trees.take(i as int) =~= trees);
        }
        Ok(values)
    }

    /// Calls the function that a name stands for.
    fn call_function(
        &self,
        name: &String,
        function: FunctionRef<'_, F>,
        args: &Vec<Value>,
        position: Option<&Identifier>,
        context: &mut Context,
    ) -> (r: Result<Value, Error>)
        requires
            match function {
                FunctionRef::Builtin(b) => builtin_function(name@) == Some(b),
                FunctionRef::Host(f) => {
                    &&& builtin_function(name@) is None
                    &&& self.functions.implementations().contains_key(name@)
                    &&& self.functions.implementations()[name@] == *f
                },
            },
        ensures
            function_result(
                self.scope(old(context).data_spec()@, position_view(position)),
                name@,
                items_view(args@),
                outcome(r),
            ),
            final(context).data_spec() == old(context).data_spec(),
    {
        let ghost before = context.frozen();
        match function {
            FunctionRef::Builtin(BuiltinFunction::Pow) => pow(args.as_slice(), context, &self.math),
            FunctionRef::Builtin(BuiltinFunction::Log10) => log10(
                args.as_slice(),
                context,
                &self.math,
            ),
            FunctionRef::Builtin(BuiltinFunction::Max) => max(args.as_slice(), context),
            FunctionRef::Builtin(BuiltinFunction::Min) => min(args.as_slice(), context),
            FunctionRef::Host(f) => {
                let r = context.call_function(f, args.as_slice());
                assert(intermediate((before, context.frozen())));
                r
            },
        }
    }

    /// Applies the filter that a name stands for.
    fn apply_filter(
        &self,
        name: &String,
        filter: FilterRef<'_, G>,
        input: &Value,
        args: &Vec<(String, Value)>,
        position: Option<&Identifier>,
        context: &mut Context,
    ) -> (r: Result<Value, Error>)
        requires
            match filter {
                FilterRef::Builtin(b) => builtin_filter(name@) == Some(b),
                FilterRef::Host(g) => {
                    &&& builtin_filter(name@) is None
                    &&& self.filters.implementations().contains_key(name@)
                    &&& self.filters.implementations()[name@] == *g
                },
            },
        ensures
            filter_result(
                self.scope(old(context).data_spec()@, position_view(position)),
                name@,
                input@,
                pairs_view(args@),
                outcome(r),
            ),
            final(context).data_spec() == old(context).data_spec(),
    {
        let ghost before = context.frozen();
        match filter {
            FilterRef::Builtin(BuiltinFilter::Trim) => trim(input, args.as_slice(), context),
            FilterRef::Builtin(BuiltinFilter::Upper) => upper(input, args.as_slice(), context),
            FilterRef::Builtin(BuiltinFilter::Lower) => lower(input, args.as_slice(), context),
            FilterRef::Host(g) => {
                let r = context.apply_filter(g, input, args.as_slice());
                assert(intermediate((before, context.frozen())));
                r
            },
        }
    }

    /// Evaluates a value without filters.
    fn eval_value(
        &self,
        value: &ExpressionValue,
        position: Option<&Identifier>,
        context: &mut Context,
    ) -> (r: Result<Value, Error>)
        ensures
            node_evaluates(
                value@,
                self.scope(old(context).data_spec()@, position_view(position)),
                outcome(r),
            ),
            final(context).data_spec() == old(context).data_spec(),
        decreases value,
    {
        let ghost scope = self.scope(context.data_spec()@, position_view(position));
        match value {
            ExpressionValue::Boolean(b) => Ok(Value::Bool(*b)),
            ExpressionValue::Integer(i) => Ok(Value::Integer(*i)),
            ExpressionValue::Float(f) => Ok(Value::Float(*f)),
            ExpressionValue::String(s) => Ok(Value::String(s.clone())),
            ExpressionValue::Identifier(path) => match context.lookup_identifier(path, position) {
                Ok(found) => Ok(found.clone()),
                Err(e) => Err(e),
            },
            ExpressionValue::Unary(op, operand) => {
                let inner = self.eval_tree(operand, position, context);
                let ghost inner_outcome = outcome(inner);
                let r = match inner {
                    Err(e) => Err(e),
                    Ok(v) => apply_not(&v),
                };
                proof {
                    lemma_unary_step(value@, scope, inner_outcome, outcome(r));
                }
                r
            },
            ExpressionValue::Binary(op, left, right) => {
                let first = self.eval_tree(left, position, context);
                let ghost first_outcome = outcome(first);
                match first {
                    Err(e) => {
                        proof {
                            lemma_binary_step(
                                value@,
                                scope,
                                first_outcome,
                                first_outcome,
                                Err::<Json, ErrorView>(e@),
                            );
                        }
                        Err(e)
                    },
                    Ok(a) => {
                        if decides(*op, &a) {
                            proof {
                                lemma_binary_step(
                                    value@,
                                    scope,
                                    first_outcome,
                                    first_outcome,
                                    Ok::<Json, ErrorView>(a@),
                                );
                            }
                            Ok(a)
                        } else {
                            let second = self.eval_tree(right, position, context);
                            let ghost second_outcome = outcome(second);
                            let r = match second {
                                Err(e) => Err(e),
                                Ok(b) => apply_binary(*op, &a, &b, &self.math),
                            };
                            proof {
                                lemma_binary_step(
                                    value@,
                                    scope,
                                    first_outcome,
                                    second_outcome,
                                    outcome(r),
                                );
                            }
                            r
                        }
                    },
                }
            },
            ExpressionValue::FunctionCall(call) => {
                match self.find_function(&call.name) {
                    None => Err(
                        Error::new(ErrorKind::UnknownFunction).context(
                            "function",
                            Detail::Text(call.name.clone()),
                        ),
                    ),
                    Some(function) => {
                        let values = self.eval_list(&call.args, position, context);
                        let ghost values_outcome = list_outcome(values);
                        let r = match values {
                            Err(e) => Err(e),
                            Ok(vs) => self.call_function(
                                &call.name,
                                function,
                                &vs,
                                position,
                                context,
                            ),
                        };
                        proof {
                            lemma_call_step(value@, scope, values_outcome, outcome(r));
                        }
                        r
                    },
                }
            },
        }
    }

    /// Applies one filter to a value.
    fn eval_step(
        &self,
        step: &FilterCall,
        input: &Value,
        position: Option<&Identifier>,
        context: &mut Context,
    ) -> (r: Result<Value, Error>)
        ensures
            step_evaluates(
                step@,
                self.scope(old(context).data_spec()@, position_view(position)),
                input@,
                outcome(r),
            ),
            final(context).data_spec() == old(context).data_spec(),
        decreases step,
    {
        let ghost scope = self.scope(context.data_spec()@, position_view(position));
        match self.find_filter(&step.name) {
            None => Err(
                Error::new(ErrorKind::UnknownFilter).context(
                    "filter",
                    Detail::Text(step.name.clone()),
                ),
            ),
            Some(filter) => {
                let args = self.eval_named(&step.args, position, context);
                let ghost args_outcome = named_outcome(args);
                let r = match args {
                    Err(e) => Err(e),
                    Ok(a) => self.apply_filter(&step.name, filter, input, &a, position, context),
                };
                proof {
                    lemma_filter_step(step@, scope, input@, args_outcome, outcome(r));
                }
                r
            },
        }
    }

    /// Evaluates an expression against the document of `context`.
    ///
    /// `position` is where relative identifiers start. The document is
    /// read and never changed.
    ///
    /// The result is an outcome of the expression as [`evaluates`] has it:
    /// what the host's arithmetic, filters and functions contribute is what
    /// they may give for what they were handed. Where the expression
    /// reaches nothing of the host's, the result is the one outcome that
    /// [`determined`] gives.
    pub fn eval(
        &self,
        expression: &Expression,
        position: Option<&Identifier>,
        context: &mut Context,
    ) -> (r: Result<Value, Error>)
        ensures
            evaluates(
                expression@,
                self.scope(old(context).data_spec()@, position_view(position)),
                outcome(r),
            ),
            determined(
                expression@,
                self.scope(old(context).data_spec()@, position_view(position)),
            ) matches Some(v) ==> outcome(r) == v,
            final(context).data_spec() == old(context).data_spec(),
    {
        let r = self.eval_tree(expression, position, context);
        proof {
            let scope = self.scope(old(context).data_spec()@, position_view(position));
            if determined(expression@, scope) is Some {
                lemma_determined(expression@, scope, outcome(r));
            }
        }
        r
    }

    /// Evaluates a value and pipes it through its filters.
    fn eval_tree(
        &self,
        expression: &Expression,
        position: Option<&Identifier>,
        context: &mut Context,
    ) -> (r: Result<Value, Error>)
        ensures
            evaluates(
                expression@,
                self.scope(old(context).data_spec()@, position_view(position)),
                outcome(r),
            ),
            final(context).data_spec() == old(context).data_spec(),
        decreases expression,
    {
        let ghost scope = self.scope(context.data_spec()@, position_view(position));
        let ghost steps = steps_view(expression.filters@);
        let base = self.eval_value(&expression.value, position, context);
        let ghost base_outcome = outcome(base);
        let mut current = match base {
            Err(e) => {
                proof {
                    assert(steps.take(0) =~= Seq::<FilterStep>::empty());
                    lemma_chain_fails(steps, 0, scope, base_outcome, e@);
                    lemma_tree_step(expression@, scope, base_outcome, base_outcome);
                }
                return Err(e);
            },
            Ok(v) => v,
        };
        let mut i: usize = 0;
        proof {
            lemma_steps_view(expression.filters@);
            assert(steps.take(0) =~= Seq::<FilterStep>::empty());
        }
        while i < expression.filters.len()
            invariant
                i <= expression.filters.len(),
                steps == steps_view(expression.filters@),
                steps.len() == expression.filters@.len(),
                forall|k: int|
                    0 <= k < expression.filters@.len() ==> #[trigger] steps[k]
                        == expression.filters@[k]@,
                scope == self.scope(old(context).data_spec()@, position_view(position)),
                context.data_spec() == old(context).data_spec(),
                node_evaluates(expression.value@, scope, base_outcome),
                expression@ == (Tree { value: expression.value@, filters: steps }),
                chain(steps.take(i as int), scope, base_outcome, Ok::<Json, ErrorView>(current@)),
            decreases expression.filters.len() - i,
        {
            assert(decreases_to!(expression.filters => expression.filters[i as int]));
            let r = self.eval_step(&expression.filters[i], &current, position, context);
            proof {
                assert(steps.take(i + 1).drop_last() =~= steps.take(i as int));
                assert(steps.take(i + 1).last() == expression.filters@[i as int]@);
                lemma_chain_step(
                    steps.take(i + 1),
                    scope,
                    base_outcome,
                    Ok::<Json, ErrorView>(current@),
                    outcome(r),
                );
            }
            match r {
                Err(e) => {
                    proof {
                        lemma_chain_fails(steps, i + 1, scope, base_outcome, e@);
                        lemma_tree_step(
                            expression@,
                            scope,
                            base_outcome,
                            Err::<Json, ErrorView>(e@),
                        );
                    }
                    return Err(e);
                },
                Ok(v) => {
                    current = v;
                },
            }
            i = i + 1;
        }
        proof {
            assert(steps.take(i as int) =~= steps);
            lemma_tree_step(expression@, scope, base_outcome, Ok::<Json, ErrorView>(current@));
        }
        Ok(current)
    }
}

} // verus!
