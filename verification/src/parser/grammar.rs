//! From tokens to trees: the grammar.
//!
//! From the loosest binding to the tightest: `or`; `and`; `not`; the
//! comparisons; `+` and `-`; the filter pipe `|`; and the primaries, which
//! are literals, identifiers, function calls and expressions in
//! parentheses. So `a | F == b` is `(a | F) == b`.

use vstd::prelude::*;
use crate::error::{ErrorKind, ErrorView};
use crate::parser::ast::{BinaryOperator, Component, FilterStep, Node, Tree, UnaryOperator};
use crate::parser::lexer::{syntax_error, Token, TokenKind};

verus! {

/// A text and its tokens.
pub struct Source {
    pub text: Seq<char>,
    pub tokens: Seq<Token>,
}

impl Source {
    /// The kind of the token at `i`, if there is one.
    pub open spec fn kind_at(self, i: int) -> Option<TokenKind> {
        if 0 <= i < self.tokens.len() {
            Some(self.tokens[i].kind)
        } else {
            None
        }
    }

    /// The text that the token at `i` was read from.
    pub open spec fn text_at(self, i: int) -> Seq<char> {
        self.text.subrange(self.tokens[i].from as int, self.tokens[i].to as int)
    }

    /// The error of a token at `i` that the grammar has no place for; at the
    /// end of the tokens, the error of a text that ends too early.
    pub open spec fn unexpected(self, i: int) -> ErrorView {
        if 0 <= i < self.tokens.len() {
            syntax_error(ErrorKind::UnexpectedToken, self.tokens[i].from as int)
        } else {
            syntax_error(ErrorKind::UnexpectedToken, self.text.len() as int)
        }
    }

    /// How many tokens stand at `i` and behind it.
    pub open spec fn left(self, i: int) -> nat {
        if i < self.tokens.len() {
            (self.tokens.len() - i) as nat
        } else {
            0
        }
    }
}

/// A result that has gone on behind `i`. Every rule of the grammar takes
/// at least one token, so this changes no result; it is there to show
/// that.
pub open spec fn forward<A>(i: int, r: Result<(A, int), ErrorView>, otherwise: ErrorView) -> Result<
    (A, int),
    ErrorView,
> {
    match r {
        Ok((_, next)) if next <= i => Err(otherwise),
        _ => r,
    }
}

/// A tree without filters.
pub open spec fn leaf(value: Node) -> Tree {
    Tree { value, filters: Seq::empty() }
}

/// The component that a token stands for at the start of a path or after
/// a dot.
pub open spec fn plain_component(src: Source, i: int) -> Option<Component> {
    match src.kind_at(i) {
        Some(TokenKind::Name) => Some(Component::Name(src.text_at(i))),
        Some(TokenKind::This) => Some(Component::This),
        Some(TokenKind::Super) => Some(Component::Super),
        _ => None,
    }
}

/// The path that starts at `i`: a name, `this` or `super`, and what
/// follows it.
pub open spec fn parse_path(src: Source, i: int) -> Result<(Seq<Component>, int), ErrorView>
    decreases src.left(i), 1nat,
{
    match plain_component(src, i) {
        Some(first) => path_tail(src, i + 1, seq![first]),
        None => Err(src.unexpected(i)),
    }
}

/// What follows a path, any number of times: a dot and a name, `this` or
/// `super`; or in brackets a string, an integer or a path, whose value is
/// the index.
pub open spec fn path_tail(src: Source, i: int, path: Seq<Component>) -> Result<
    (Seq<Component>, int),
    ErrorView,
>
    decreases src.left(i), 0nat,
{
    match src.kind_at(i) {
        Some(TokenKind::Dot) => match plain_component(src, i + 1) {
            Some(next) => path_tail(src, i + 2, path.push(next)),
            None => Err(src.unexpected(i + 1)),
        },
        Some(TokenKind::LeftBracket) => match src.kind_at(i + 1) {
            Some(TokenKind::Text) => if src.kind_at(i + 2) == Some(TokenKind::RightBracket) {
                path_tail(src, i + 3, path.push(Component::StringIndex(src.text_at(i + 1))))
            } else {
                Err(src.unexpected(i + 2))
            },
            Some(TokenKind::Integer(index)) => if src.kind_at(i + 2) == Some(
                TokenKind::RightBracket,
            ) {
                path_tail(src, i + 3, path.push(Component::IntegerIndex(index as int)))
            } else {
                Err(src.unexpected(i + 2))
            },
            _ => match forward(i + 1, parse_path(src, i + 1), src.unexpected(i + 1)) {
                Err(e) => Err(e),
                Ok((nested, end)) => if src.kind_at(end) == Some(TokenKind::RightBracket) {
                    path_tail(src, end + 1, path.push(Component::IdentifierIndex(nested)))
                } else {
                    Err(src.unexpected(end))
                },
            },
        },
        _ => Ok((path, i)),
    }
}

/// The levels of operators that bind to the left.
#[derive(Clone, Copy, Debug, PartialEq, Eq, Structural)]
pub enum Level {
    Or,
    And,
    Additive,
}

impl Level {
    /// The operator of this level that a token stands for.
    pub open spec fn operator(self, kind: Option<TokenKind>) -> Option<BinaryOperator> {
        match (self, kind) {
            (Level::Or, Some(TokenKind::Or)) => Some(BinaryOperator::Or),
            (Level::And, Some(TokenKind::And)) => Some(BinaryOperator::And),
            (Level::Additive, Some(TokenKind::Plus)) => Some(BinaryOperator::Add),
            (Level::Additive, Some(TokenKind::Minus)) => Some(BinaryOperator::Subtract),
            _ => None,
        }
    }

    /// How loosely the level binds.
    pub open spec fn rank(self) -> nat {
        match self {
            Level::Or => 4,
            Level::And => 3,
            Level::Additive => 1,
        }
    }
}

/// The tree of an operator between two trees.
pub open spec fn binary_tree(op: BinaryOperator, left: Tree, right: Tree) -> Tree {
    leaf(Node::Binary(op, Box::new(left), Box::new(right)))
}

/// The tree of `not` before a tree.
pub open spec fn negated_tree(operand: Tree) -> Tree {
    leaf(Node::Unary(UnaryOperator::Not, Box::new(operand)))
}

/// The tree with one more filter at the end of its chain.
pub open spec fn piped_tree(base: Tree, step: FilterStep) -> Tree {
    Tree { value: base.value, filters: base.filters.push(step) }
}

/// The expression that starts at `i`.
pub open spec fn parse_expression(src: Source, i: int) -> Result<(Tree, int), ErrorView>
    decreases src.left(i), 10nat,
{
    parse_chain(src, i, Level::Or)
}

/// Operands of a level with its operators between them, grouped from the
/// left.
pub open spec fn parse_chain(src: Source, i: int, level: Level) -> Result<(Tree, int), ErrorView>
    decreases src.left(i), 2 * level.rank() + 1,
{
    match forward(i, parse_operand(src, i, level), src.unexpected(i)) {
        Err(e) => Err(e),
        Ok((first, next)) => chain_tail(src, next, level, first),
    }
}

/// What stands between the operators of a level: for `or` the `and`
/// level, for `and` a negation, for `+` and `-` a piped primary.
pub open spec fn parse_operand(src: Source, i: int, level: Level) -> Result<(Tree, int), ErrorView>
    decreases src.left(i), 2 * level.rank(),
{
    match level {
        Level::Or => parse_chain(src, i, Level::And),
        Level::And => parse_not(src, i),
        Level::Additive => parse_piped(src, i),
    }
}

/// Any number of operators of a level, each with its right operand,
/// behind the tree `left`.
pub open spec fn chain_tail(src: Source, i: int, level: Level, left: Tree) -> Result<
    (Tree, int),
    ErrorView,
>
    decreases src.left(i), 0nat,
{
    match level.operator(src.kind_at(i)) {
        Some(op) => match forward(i + 1, parse_operand(src, i + 1, level), src.unexpected(i + 1)) {
            Err(e) => Err(e),
            Ok((right, next)) => chain_tail(src, next, level, binary_tree(op, left, right)),
        },
        None => Ok((left, i)),
    }
}

/// Any number of `not`, then a comparison.
pub open spec fn parse_not(src: Source, i: int) -> Result<(Tree, int), ErrorView>
    decreases src.left(i), 5nat,
{
    if src.kind_at(i) == Some(TokenKind::Not) {
        match parse_not(src, i + 1) {
            Err(e) => Err(e),
            Ok((operand, next)) => Ok((negated_tree(operand), next)),
        }
    } else {
        parse_comparison(src, i)
    }
}

/// A sum, or two sums with one comparison between them.
pub open spec fn parse_comparison(src: Source, i: int) -> Result<(Tree, int), ErrorView>
    decreases src.left(i), 4nat,
{
    match forward(i, parse_chain(src, i, Level::Additive), src.unexpected(i)) {
        Err(e) => Err(e),
        Ok((left, next)) => match src.kind_at(next) {
            Some(TokenKind::Compare(op)) => match parse_chain(src, next + 1, Level::Additive) {
                Err(e) => Err(e),
                Ok((right, end)) => Ok((binary_tree(op, left, right), end)),
            },
            _ => Ok((left, next)),
        },
    }
}

/// A primary and the filters that it is piped through.
pub open spec fn parse_piped(src: Source, i: int) -> Result<(Tree, int), ErrorView>
    decreases src.left(i), 1nat,
{
    match forward(i, parse_primary(src, i), src.unexpected(i)) {
        Err(e) => Err(e),
        Ok((base, next)) => pipe_tail(src, next, base),
    }
}

/// Any number of `|` and a filter, behind the tree `base`.
pub open spec fn pipe_tail(src: Source, i: int, base: Tree) -> Result<(Tree, int), ErrorView>
    decreases src.left(i), 0nat,
{
    if src.kind_at(i) == Some(TokenKind::Pipe) {
        match forward(i + 1, parse_filter(src, i + 1), src.unexpected(i + 1)) {
            Err(e) => Err(e),
            Ok((step, next)) => pipe_tail(src, next, piped_tree(base, step)),
        }
    } else {
        Ok((base, i))
    }
}

/// A filter: its name, and in parentheses its named arguments, if it has
/// any.
pub open spec fn parse_filter(src: Source, i: int) -> Result<(FilterStep, int), ErrorView>
    decreases src.left(i), 3nat,
{
    if src.kind_at(i) == Some(TokenKind::Name) {
        let name = src.text_at(i);
        if src.kind_at(i + 1) == Some(TokenKind::LeftParenthesis) {
            if src.kind_at(i + 2) == Some(TokenKind::RightParenthesis) {
                Ok((FilterStep { name, args: Seq::empty() }, i + 3))
            } else {
                match parse_named(src, i + 2, Seq::empty()) {
                    Err(e) => Err(e),
                    Ok((args, next)) => Ok((FilterStep { name, args }, next)),
                }
            }
        } else {
            Ok((FilterStep { name, args: Seq::empty() }, i + 1))
        }
    } else {
        Err(src.unexpected(i))
    }
}

/// Named arguments behind those in `seen`: a name, a colon and an
/// expression; then a comma and more of them, or the closing parenthesis.
/// A name may be written more than once: each argument is kept, in order,
/// and the last of a name is the one that the name stands for.
pub open spec fn parse_named(src: Source, i: int, seen: Seq<(Seq<char>, Tree)>) -> Result<
    (Seq<(Seq<char>, Tree)>, int),
    ErrorView,
>
    decreases src.left(i), 2nat,
{
    if src.kind_at(i) != Some(TokenKind::Name) {
        Err(src.unexpected(i))
    } else if src.kind_at(i + 1) != Some(TokenKind::Colon) {
        Err(src.unexpected(i + 1))
    } else {
        match forward(i + 2, parse_expression(src, i + 2), src.unexpected(i + 2)) {
            Err(e) => Err(e),
            Ok((value, next)) => {
                let all = seen.push((src.text_at(i), value));
                match src.kind_at(next) {
                    Some(TokenKind::Comma) => parse_named(src, next + 1, all),
                    Some(TokenKind::RightParenthesis) => Ok((all, next + 1)),
                    _ => Err(src.unexpected(next)),
                }
            },
        }
    }
}

/// Arguments behind those in `seen`: an expression; then a comma and more
/// of them, or the closing parenthesis.
pub open spec fn parse_arguments(src: Source, i: int, seen: Seq<Tree>) -> Result<
    (Seq<Tree>, int),
    ErrorView,
>
    decreases src.left(i), 11nat,
{
    match forward(i, parse_expression(src, i), src.unexpected(i)) {
        Err(e) => Err(e),
        Ok((value, next)) => {
            let all = seen.push(value);
            match src.kind_at(next) {
                Some(TokenKind::Comma) => parse_arguments(src, next + 1, all),
                Some(TokenKind::RightParenthesis) => Ok((all, next + 1)),
                _ => Err(src.unexpected(next)),
            }
        },
    }
}

/// A literal, an identifier, a function call, or an expression in
/// parentheses.
pub open spec fn parse_primary(src: Source, i: int) -> Result<(Tree, int), ErrorView>
    decreases src.left(i), 0nat,
{
    match src.kind_at(i) {
        Some(TokenKind::Boolean(b)) => Ok((leaf(Node::Boolean(b)), i + 1)),
        Some(TokenKind::Integer(v)) => Ok((leaf(Node::Integer(v as int)), i + 1)),
        Some(TokenKind::Float(f)) => Ok((leaf(Node::Float(f)), i + 1)),
        Some(TokenKind::Text) => Ok((leaf(Node::String(src.text_at(i))), i + 1)),
        Some(TokenKind::LeftParenthesis) => match parse_expression(src, i + 1) {
            Err(e) => Err(e),
            Ok((inner, next)) => if src.kind_at(next) == Some(TokenKind::RightParenthesis) {
                Ok((inner, next + 1))
            } else {
                Err(src.unexpected(next))
            },
        },
        Some(TokenKind::Name) => if src.kind_at(i + 1) == Some(TokenKind::LeftParenthesis) {
            if src.kind_at(i + 2) == Some(TokenKind::RightParenthesis) {
                Ok((leaf(Node::FunctionCall(src.text_at(i), Seq::empty())), i + 3))
            } else {
                match parse_arguments(src, i + 2, Seq::empty()) {
                    Err(e) => Err(e),
                    Ok((args, next)) => Ok((leaf(Node::FunctionCall(src.text_at(i), args)), next)),
                }
            }
        } else {
            match parse_path(src, i) {
                Err(e) => Err(e),
                Ok((path, next)) => Ok((leaf(Node::Identifier(path)), next)),
            }
        },
        Some(TokenKind::This) | Some(TokenKind::Super) => match parse_path(src, i) {
            Err(e) => Err(e),
            Ok((path, next)) => Ok((leaf(Node::Identifier(path)), next)),
        },
        _ => Err(src.unexpected(i)),
    }
}

/// The tree of the tokens: one expression, and nothing behind it.
pub open spec fn parse_tokens(src: Source) -> Result<Tree, ErrorView> {
    match parse_expression(src, 0) {
        Err(e) => Err(e),
        Ok((tree, next)) => if next == src.tokens.len() {
            Ok(tree)
        } else {
            Err(src.unexpected(next))
        },
    }
}

} // verus!
