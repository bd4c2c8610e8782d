//! The syntax tree.

use vstd::prelude::*;
use crate::value::float::Float;

verus! {

/// One step of a path into the document.
#[derive(Debug, PartialEq)]
pub enum IdentifierValue {
    /// A key written as a name: `a.b`.
    Name(String),
    /// A key written as a string in brackets: `a["b"]`. It selects what the
    /// name `b` selects.
    StringIndex(String),
    /// A position in an array; a negative one counts from the end.
    IntegerIndex(i64),
    /// An index that is itself looked up: `a[b.c]`.
    IdentifierIndex(Identifier),
    /// The current position.
    This,
    /// The parent of the current position.
    Super,
}

/// A path into the document.
#[derive(Debug, PartialEq)]
pub struct Identifier {
    pub values: Vec<IdentifierValue>,
}

/// The mathematical content of an [`IdentifierValue`].
pub enum Component {
    Name(Seq<char>),
    StringIndex(Seq<char>),
    IntegerIndex(int),
    IdentifierIndex(Seq<Component>),
    This,
    Super,
}

/// The components that a list of identifier values stands for.
pub open spec fn components_view(values: Seq<IdentifierValue>) -> Seq<Component>
    decreases values, 0nat,
{
    if values.len() == 0 {
        Seq::empty()
    } else {
        components_view(values.drop_last()).push(values.last()@)
    }
}

impl View for IdentifierValue {
    type V = Component;

    open spec fn view(&self) -> Component
        decreases self, 1nat,
    {
        match self {
            IdentifierValue::Name(name) => Component::Name(name@),
            IdentifierValue::StringIndex(key) => Component::StringIndex(key@),
            IdentifierValue::IntegerIndex(index) => Component::IntegerIndex(*index as int),
            IdentifierValue::IdentifierIndex(nested) => Component::IdentifierIndex(
                components_view(nested.values@),
            ),
            IdentifierValue::This => Component::This,
            IdentifierValue::Super => Component::Super,
        }
    }
}

impl View for Identifier {
    type V = Seq<Component>;

    open spec fn view(&self) -> Seq<Component> {
        components_view(self.values@)
    }
}

/// The view of a list is the list of the views.
pub proof fn lemma_components_view(values: Seq<IdentifierValue>)
    ensures
        components_view(values).len() == values.len(),
        forall|i: int|
            0 <= i < values.len() ==> #[trigger] components_view(values)[i] == values[i]@,
    decreases values.len(),
{
    if values.len() > 0 {
        lemma_components_view(values.drop_last());
        assert(components_view(values) == components_view(values.drop_last()).push(
            values.last()@,
        ));
    } else {
        assert(components_view(values) == Seq::<Component>::empty());
    }
}

/// Whether resolving the path needs a position to start from: its first
/// component is `this` or `super`.
pub open spec fn is_relative(path: Seq<Component>) -> bool {
    path.len() > 0 && (path[0] is This || path[0] is Super)
}

impl Identifier {
    pub fn new(values: Vec<IdentifierValue>) -> (r: Identifier)
        ensures
            r.values == values,
    {
        Identifier { values }
    }

    /// Whether the identifier starts at a position rather than at the root.
    pub fn is_relative(&self) -> (r: bool)
        ensures
            r == is_relative(self@),
    {
        proof {
            lemma_components_view(self.values@);
        }
        if self.values.len() == 0 {
            false
        } else {
            match &self.values[0] {
                IdentifierValue::This => true,
                IdentifierValue::Super => true,
                _ => false,
            }
        }
    }
}

/// An operator with one operand.
#[derive(Clone, Copy, Debug, PartialEq, Eq, Structural)]
pub enum UnaryOperator {
    Not,
}

/// An operator with two operands, from the loosest binding to the
/// tightest: `or`; `and`; the comparisons; `+` and `-`.
#[derive(Clone, Copy, Debug, PartialEq, Eq, Structural)]
pub enum BinaryOperator {
    Or,
    And,
    Equal,
    NotEqual,
    Greater,
    GreaterOrEqual,
    Lower,
    LowerOrEqual,
    Add,
    Subtract,
}

/// What an expression is before its filters are applied.
#[derive(Debug, PartialEq)]
pub enum ExpressionValue {
    Boolean(bool),
    Integer(i64),
    Float(Float),
    String(String),
    Identifier(Identifier),
    Unary(UnaryOperator, Box<Expression>),
    Binary(BinaryOperator, Box<Expression>, Box<Expression>),
    FunctionCall(FunctionCall),
}

/// A call of a function: `NAME(argument, ...)`.
#[derive(Debug, PartialEq)]
pub struct FunctionCall {
    pub name: String,
    pub args: Vec<Expression>,
}

/// One step of a filter chain: `| NAME(key: argument, ...)`.
///
/// The arguments are kept in the order they were written. A key written
/// more than once stands for its last argument; every argument is
/// evaluated all the same.
#[derive(Debug, PartialEq)]
pub struct FilterCall {
    pub name: String,
    pub args: Vec<(String, Expression)>,
}

/// An expression: a value and the filters that it is piped through, in
/// order.
#[derive(Debug, PartialEq)]
pub struct Expression {
    pub value: ExpressionValue,
    pub filters: Vec<FilterCall>,
}

/// The mathematical content of an [`ExpressionValue`].
pub enum Node {
    Boolean(bool),
    Integer(int),
    Float(Float),
    String(Seq<char>),
    Identifier(Seq<Component>),
    Unary(UnaryOperator, Box<Tree>),
    Binary(BinaryOperator, Box<Tree>, Box<Tree>),
    FunctionCall(Seq<char>, Seq<Tree>),
}

/// The mathematical content of a [`FilterCall`].
pub struct FilterStep {
    pub name: Seq<char>,
    pub args: Seq<(Seq<char>, Tree)>,
}

/// The mathematical content of an [`Expression`].
pub struct Tree {
    pub value: Node,
    pub filters: Seq<FilterStep>,
}

/// The trees that a list of expressions stands for.
pub open spec fn trees_view(expressions: Seq<Expression>) -> Seq<Tree>
    decreases expressions, 0nat,
{
    if expressions.len() == 0 {
        Seq::empty()
    } else {
        trees_view(expressions.drop_last()).push(expressions.last()@)
    }
}

/// The named trees that a list of named expressions stands for.
pub open spec fn named_view(arguments: Seq<(String, Expression)>) -> Seq<(Seq<char>, Tree)>
    decreases arguments, 0nat,
{
    if arguments.len() == 0 {
        Seq::empty()
    } else {
        named_view(arguments.drop_last()).push((arguments.last().0@, arguments.last().1@))
    }
}

/// The steps that a list of filter calls stands for.
pub open spec fn steps_view(filters: Seq<FilterCall>) -> Seq<FilterStep>
    decreases filters, 0nat,
{
    if filters.len() == 0 {
        Seq::empty()
    } else {
        steps_view(filters.drop_last()).push(filters.last()@)
    }
}

impl View for FilterCall {
    type V = FilterStep;

    open spec fn view(&self) -> FilterStep
        decreases self, 1nat,
    {
        FilterStep { name: self.name@, args: named_view(self.args@) }
    }
}

impl View for ExpressionValue {
    type V = Node;

    open spec fn view(&self) -> Node
        decreases self, 1nat,
    {
        match self {
            ExpressionValue::Boolean(b) => Node::Boolean(*b),
            ExpressionValue::Integer(i) => Node::Integer(*i as int),
            ExpressionValue::Float(f) => Node::Float(*f),
            ExpressionValue::String(s) => Node::String(s@),
            ExpressionValue::Identifier(path) => Node::Identifier(path@),
            ExpressionValue::Unary(op, operand) => Node::Unary(*op, Box::new((**operand)@)),
            ExpressionValue::Binary(op, left, right) => Node::Binary(
                *op,
                Box::new((**left)@),
                Box::new((**right)@),
            ),
            ExpressionValue::FunctionCall(call) => Node::FunctionCall(
                call.name@,
                trees_view(call.args@),
            ),
        }
    }
}

impl View for Expression {
    type V = Tree;

    open spec fn view(&self) -> Tree
        decreases self, 2nat,
    {
        Tree { value: self.value@, filters: steps_view(self.filters@) }
    }
}

/// The view of a list is the list of the views.
pub proof fn lemma_trees_view(expressions: Seq<Expression>)
    ensures
        trees_view(expressions).len() == expressions.len(),
        forall|i: int|
            0 <= i < expressions.len() ==> #[trigger] trees_view(expressions)[i]
                == expressions[i]@,
    decreases expressions.len(),
{
    if expressions.len() > 0 {
        lemma_trees_view(expressions.drop_last());
        assert(trees_view(expressions) == trees_view(expressions.drop_last()).push(
            expressions.last()@,
        ));
    } else {
        assert(trees_view(expressions) == Seq::<Tree>::empty());
    }
}

/// The view of a list is the list of the views.
pub proof fn lemma_named_view(arguments: Seq<(String, Expression)>)
    ensures
        named_view(arguments).len() == arguments.len(),
        forall|i: int|
            0 <= i < arguments.len() ==> #[trigger] named_view(arguments)[i] == (
                arguments[i].0@,
                arguments[i].1@,
            ),
    decreases arguments.len(),
{
    if arguments.len() > 0 {
        lemma_named_view(arguments.drop_last());
        assert(named_view(arguments) == named_view(arguments.drop_last()).push(
            (arguments.last().0@, arguments.last().1@),
        ));
    } else {
        assert(named_view(arguments) == Seq::<(Seq<char>, Tree)>::empty());
    }
}

/// The view of a list is the list of the views.
pub proof fn lemma_steps_view(filters: Seq<FilterCall>)
    ensures
        steps_view(filters).len() == filters.len(),
        forall|i: int| 0 <= i < filters.len() ==> #[trigger] steps_view(filters)[i] == filters[i]@,
    decreases filters.len(),
{
    if filters.len() > 0 {
        lemma_steps_view(filters.drop_last());
        assert(steps_view(filters) == steps_view(filters.drop_last()).push(filters.last()@));
    } else {
        assert(steps_view(filters) == Seq::<FilterStep>::empty());
    }
}

impl Expression {
    /// An expression without filters.
    pub fn new(value: ExpressionValue) -> (r: Expression)
        ensures
            r.value == value,
            r.filters@.len() == 0,
            r@ == (Tree { value: value@, filters: Seq::empty() }),
    {
        let r = Expression { value, filters: Vec::new() };
        assert(steps_view(r.filters@) =~= Seq::empty());
        r
    }
}

} // verus!
