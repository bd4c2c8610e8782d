//! Expression text and the tree it stands for.

pub mod ast;
pub mod grammar;
pub mod lexer;

use vstd::prelude::*;
use vstd::string::{StrSliceExecFns, StringExecFns};
use crate::error::{Detail, Error, ErrorKind, ErrorView};
use crate::parser::ast::{
    components_view, lemma_components_view, named_view, steps_view, trees_view, BinaryOperator,
    Component, Expression, ExpressionValue, FilterCall, FilterStep, FunctionCall, Identifier,
    IdentifierValue, Node, Tree, UnaryOperator,
};
use crate::parser::grammar::{
    chain_tail, leaf, parse_arguments, parse_chain, parse_comparison, parse_expression,
    parse_filter, parse_named, parse_not, parse_operand, parse_path, parse_piped, parse_primary,
    parse_tokens, path_tail, pipe_tail, piped_tree, plain_component, Level, Source,
};
use crate::parser::lexer::{
    is_quote, lemma_lex_without_point, lemma_quote_at, lex, lex_from, next_token, read_by,
    syntax_error, tokenize, tokens_in_range, without_point, Token, TokenKind,
};
use crate::text::characters;
use crate::value::float::{Float, FloatMath};

verus! {

/// The view of a path that was read, and where the reading ended.
pub open spec fn path_result(r: Result<(Vec<IdentifierValue>, usize), Error>) -> Result<
    (Seq<Component>, int),
    ErrorView,
> {
    match r {
        Ok((path, next)) => Ok((components_view(path@), next as int)),
        Err(e) => Err(e@),
    }
}

/// The view of an expression that was read, and where the reading ended.
pub open spec fn tree_result(r: Result<(Expression, usize), Error>) -> Result<
    (Tree, int),
    ErrorView,
> {
    match r {
        Ok((expression, next)) => Ok((expression@, next as int)),
        Err(e) => Err(e@),
    }
}

/// The view of a filter that was read, and where the reading ended.
pub open spec fn step_result(r: Result<(FilterCall, usize), Error>) -> Result<
    (FilterStep, int),
    ErrorView,
> {
    match r {
        Ok((step, next)) => Ok((step@, next as int)),
        Err(e) => Err(e@),
    }
}

/// The view of arguments that were read, and where the reading ended.
pub open spec fn arguments_result(r: Result<(Vec<Expression>, usize), Error>) -> Result<
    (Seq<Tree>, int),
    ErrorView,
> {
    match r {
        Ok((args, next)) => Ok((trees_view(args@), next as int)),
        Err(e) => Err(e@),
    }
}

/// The view of named arguments that were read, and where the reading
/// ended.
pub open spec fn named_result(r: Result<(Vec<(String, Expression)>, usize), Error>) -> Result<
    (Seq<(Seq<char>, Tree)>, int),
    ErrorView,
> {
    match r {
        Ok((args, next)) => Ok((named_view(args@), next as int)),
        Err(e) => Err(e@),
    }
}

/// Whether a reading that succeeded ended behind `i` and within `len`
/// tokens.
pub open spec fn went_on<A>(r: Result<(A, usize), Error>, i: usize, len: nat) -> bool {
    r matches Ok((_, next)) ==> i < next <= len
}

/// Reads trees off the tokens of a text.
pub struct Parser<'a> {
    pub text: &'a str,
    pub tokens: &'a Vec<Token>,
}

impl<'a> Parser<'a> {
    pub open spec fn source(&self) -> Source {
        Source { text: self.text@, tokens: self.tokens@ }
    }

    /// Every token's range lies in the text.
    pub open spec fn wf(&self) -> bool {
        &&& tokens_in_range(self.tokens@, self.text@.len() as int)
        &&& self.tokens@.len() <= usize::MAX
    }

    fn kind_at(&self, i: usize) -> (r: Option<TokenKind>)
        ensures
            r == self.source().kind_at(i as int),
            r is Some ==> i < self.tokens@.len(),
    {
        if i < self.tokens.len() {
            Some(self.tokens[i].kind)
        } else {
            None
        }
    }

    fn text_at(&self, i: usize) -> (r: String)
        requires
            self.wf(),
            i < self.tokens@.len(),
        ensures
            r@ == self.source().text_at(i as int),
    {
        String::from_str(self.text.substring_char(self.tokens[i].from, self.tokens[i].to))
    }

    fn unexpected(&self, i: usize) -> (e: Error)
        ensures
            e@ == self.source().unexpected(i as int),
    {
        let position = if i < self.tokens.len() {
            self.tokens[i].from
        } else {
            self.text.unicode_len()
        };
        Error::new(ErrorKind::UnexpectedToken).context("position", Detail::Count(position))
    }

    fn plain_component(&self, i: usize) -> (r: Option<IdentifierValue>)
        requires
            self.wf(),
        ensures
            plain_component(self.source(), i as int) == match r {
                Some(c) => Some(c@),
                None => None,
            },
            r is Some ==> i < self.tokens@.len(),
    {
        match self.kind_at(i) {
            Some(TokenKind::Name) => Some(IdentifierValue::Name(self.text_at(i))),
            Some(TokenKind::This) => Some(IdentifierValue::This),
            Some(TokenKind::Super) => Some(IdentifierValue::Super),
            _ => None,
        }
    }

    /// Reads the path that starts at `i`.
    pub fn path(&self, i: usize) -> (r: Result<(Vec<IdentifierValue>, usize), Error>)
        requires
            self.wf(),
            i <= self.tokens@.len(),
        ensures
            path_result(r) == parse_path(self.source(), i as int),
            went_on(r, i, self.tokens@.len()),
        decreases self.source().left(i as int), 1nat,
    {
        match self.plain_component(i) {
            Some(first) => {
                let mut path: Vec<IdentifierValue> = Vec::new();
                proof {
                    assert(components_view(path@.push(first)) =~= seq![first@]) by {
                        lemma_components_view(path@.push(first));
                    }
                }
                path.push(first);
                self.path_tail(i + 1, path)
            },
            None => Err(self.unexpected(i)),
        }
    }

    /// Reads what follows a path.
    fn path_tail(&self, start: usize, start_path: Vec<IdentifierValue>) -> (r: Result<
        (Vec<IdentifierValue>, usize),
        Error,
    >)
        requires
            self.wf(),
            start <= self.tokens@.len(),
        ensures
            path_result(r) == path_tail(
                self.source(),
                start as int,
                components_view(start_path@),
            ),
            r matches Ok((_, next)) ==> start <= next <= self.tokens@.len(),
        decreases self.source().left(start as int), 0nat,
    {
        let ghost src = self.source();
        let ghost whole = path_tail(src, start as int, components_view(start_path@));
        let mut path = start_path;
        let mut i = start;
        loop
            invariant
                self.wf(),
                src == self.source(),
                start <= i <= self.tokens@.len(),
                whole == path_tail(src, i as int, components_view(path@)),
                whole == path_tail(src, start as int, components_view(start_path@)),
            decreases self.tokens@.len() - i,
        {
            let ghost before = components_view(path@);
            match self.kind_at(i) {
                Some(TokenKind::Dot) => {
                    match self.plain_component(i + 1) {
                        Some(next) => {
                            proof {
                                lemma_push_component(path@, next);
                            }
                            path.push(next);
                            i = i + 2;
                        },
                        None => {
                            return Err(self.unexpected(i + 1));
                        },
                    }
                },
                Some(TokenKind::LeftBracket) => {
                    match self.kind_at(i + 1) {
                        Some(TokenKind::Text) => {
                            if !matches!(self.kind_at(i + 2), Some(TokenKind::RightBracket)) {
                                return Err(self.unexpected(i + 2));
                            }
                            let index = IdentifierValue::StringIndex(self.text_at(i + 1));
                            proof {
                                lemma_push_component(path@, index);
                            }
                            path.push(index);
                            i = i + 3;
                        },
                        Some(TokenKind::Integer(value)) => {
                            if !matches!(self.kind_at(i + 2), Some(TokenKind::RightBracket)) {
                                return Err(self.unexpected(i + 2));
                            }
                            let index = IdentifierValue::IntegerIndex(value);
                            proof {
                                lemma_push_component(path@, index);
                            }
                            path.push(index);
                            i = i + 3;
                        },
                        _ => {
                            let (nested, end) = match self.path(i + 1) {
                                Err(e) => {
                                    return Err(e);
                                },
                                Ok(read) => read,
                            };
                            if !matches!(self.kind_at(end), Some(TokenKind::RightBracket)) {
                                return Err(self.unexpected(end));
                            }
                            let index = IdentifierValue::IdentifierIndex(Identifier::new(nested));
                            proof {
                                lemma_push_component(path@, index);
                            }
                            path.push(index);
                            i = end + 1;
                        },
                    }
                },
                _ => {
                    return Ok((path, i));
                },
            }
        }
    }

    /// The operator of `level` that stands at `i`.
    fn operator_at(&self, i: usize, level: Level) -> (r: Option<BinaryOperator>)
        ensures
            r == level.operator(self.source().kind_at(i as int)),
            r is Some ==> i < self.tokens@.len(),
    {
        match (level, self.kind_at(i)) {
            (Level::Or, Some(TokenKind::Or)) => Some(BinaryOperator::Or),
            (Level::And, Some(TokenKind::And)) => Some(BinaryOperator::And),
            (Level::Additive, Some(TokenKind::Plus)) => Some(BinaryOperator::Add),
            (Level::Additive, Some(TokenKind::Minus)) => Some(BinaryOperator::Subtract),
            _ => None,
        }
    }

    /// Reads the expression that starts at `i`.
    pub fn expression(&self, i: usize) -> (r: Result<(Expression, usize), Error>)
        requires
            self.wf(),
            i <= self.tokens@.len(),
        ensures
            tree_result(r) == parse_expression(self.source(), i as int),
            went_on(r, i, self.tokens@.len()),
        decreases self.source().left(i as int), 10nat,
    {
        self.chain(i, Level::Or)
    }

    /// Reads operands of a level with its operators between them.
    fn chain(&self, start: usize, level: Level) -> (r: Result<(Expression, usize), Error>)
        requires
            self.wf(),
            start <= self.tokens@.len(),
        ensures
            tree_result(r) == parse_chain(self.source(), start as int, level),
            went_on(r, start, self.tokens@.len()),
        decreases self.source().left(start as int), 2 * level.rank() + 1,
    {
        let ghost src = self.source();
        let ghost whole = parse_chain(src, start as int, level);
        let (first, next) = match self.operand(start, level) {
            Err(e) => {
                return Err(e);
            },
            Ok(read) => read,
        };
        let mut left = first;
        let mut i = next;
        loop
            invariant
                self.wf(),
                src == self.source(),
                start < i <= self.tokens@.len(),
                whole == parse_chain(src, start as int, level),
                whole == chain_tail(src, i as int, level, left@),
            decreases self.tokens@.len() - i,
        {
            match self.operator_at(i, level) {
                None => {
                    return Ok((left, i));
                },
                Some(op) => {
                    let (right, next) = match self.operand(i + 1, level) {
                        Err(e) => {
                            return Err(e);
                        },
                        Ok(read) => read,
                    };
                    left = Expression::new(
                        ExpressionValue::Binary(op, Box::new(left), Box::new(right)),
                    );
                    i = next;
                },
            }
        }
    }

    /// Reads what stands between the operators of a level.
    fn operand(&self, i: usize, level: Level) -> (r: Result<(Expression, usize), Error>)
        requires
            self.wf(),
            i <= self.tokens@.len(),
        ensures
            tree_result(r) == parse_operand(self.source(), i as int, level),
            went_on(r, i, self.tokens@.len()),
        decreases self.source().left(i as int), 2 * level.rank(),
    {
        match level {
            Level::Or => self.chain(i, Level::And),
            Level::And => self.not(i),
            Level::Additive => self.piped(i),
        }
    }

    /// Reads any number of `not`, then a comparison.
    fn not(&self, i: usize) -> (r: Result<(Expression, usize), Error>)
        requires
            self.wf(),
            i <= self.tokens@.len(),
        ensures
            tree_result(r) == parse_not(self.source(), i as int),
            went_on(r, i, self.tokens@.len()),
        decreases self.source().left(i as int), 5nat,
    {
        if matches!(self.kind_at(i), Some(TokenKind::Not)) {
            match self.not(i + 1) {
                Err(e) => Err(e),
                Ok((operand, next)) => Ok(
                    (
                        Expression::new(
                            ExpressionValue::Unary(UnaryOperator::Not, Box::new(operand)),
                        ),
                        next,
                    ),
                ),
            }
        } else {
            self.comparison(i)
        }
    }

    /// Reads a sum, or two sums with a comparison between them.
    fn comparison(&self, i: usize) -> (r: Result<(Expression, usize), Error>)
        requires
            self.wf(),
            i <= self.tokens@.len(),
        ensures
            tree_result(r) == parse_comparison(self.source(), i as int),
            went_on(r, i, self.tokens@.len()),
        decreases self.source().left(i as int), 4nat,
    {
        let (left, next) = match self.chain(i, Level::Additive) {
            Err(e) => {
                return Err(e);
            },
            Ok(read) => read,
        };
        match self.kind_at(next) {
            Some(TokenKind::Compare(op)) => match self.chain(next + 1, Level::Additive) {
                Err(e) => Err(e),
                Ok((right, end)) => Ok(
                    (
                        Expression::new(
                            ExpressionValue::Binary(op, Box::new(left), Box::new(right)),
                        ),
                        end,
                    ),
                ),
            },
            _ => Ok((left, next)),
        }
    }

    /// Reads a primary and the filters that it is piped through.
    fn piped(&self, start: usize) -> (r: Result<(Expression, usize), Error>)
        requires
            self.wf(),
            start <= self.tokens@.len(),
        ensures
            tree_result(r) == parse_piped(self.source(), start as int),
            went_on(r, start, self.tokens@.len()),
        decreases self.source().left(start as int), 1nat,
    {
        let ghost src = self.source();
        let ghost whole = parse_piped(src, start as int);
        let (primary, next) = match self.primary(start) {
            Err(e) => {
                return Err(e);
            },
            Ok(read) => read,
        };
        let mut base = primary;
        let mut i = next;
        loop
            invariant
                self.wf(),
                src == self.source(),
                start < i <= self.tokens@.len(),
                whole == parse_piped(src, start as int),
                whole == pipe_tail(src, i as int, base@),
            decreases self.tokens@.len() - i,
        {
            if !matches!(self.kind_at(i), Some(TokenKind::Pipe)) {
                return Ok((base, i));
            }
            let (step, next) = match self.filter(i + 1) {
                Err(e) => {
                    return Err(e);
                },
                Ok(read) => read,
            };
            proof {
                assert(base.filters@.push(step).drop_last() =~= base.filters@);
                assert(steps_view(base.filters@.push(step)) == steps_view(base.filters@).push(
                    step@,
                ));
            }
            let ghost before = base@;
            base.filters.push(step);
            assert(base@ == piped_tree(before, step@));
            i = next;
        }
    }

    /// Reads a filter: its name and its named arguments, if it has any.
    fn filter(&self, i: usize) -> (r: Result<(FilterCall, usize), Error>)
        requires
            self.wf(),
            i <= self.tokens@.len(),
        ensures
            step_result(r) == parse_filter(self.source(), i as int),
            went_on(r, i, self.tokens@.len()),
        decreases self.source().left(i as int), 3nat,
    {
        if !matches!(self.kind_at(i), Some(TokenKind::Name)) {
            return Err(self.unexpected(i));
        }
        let name = self.text_at(i);
        if matches!(self.kind_at(i + 1), Some(TokenKind::LeftParenthesis)) {
            if matches!(self.kind_at(i + 2), Some(TokenKind::RightParenthesis)) {
                let step = FilterCall { name, args: Vec::new() };
                assert(named_view(step.args@) =~= Seq::empty());
                Ok((step, i + 3))
            } else {
                match self.named(i + 2) {
                    Err(e) => Err(e),
                    Ok((args, next)) => Ok((FilterCall { name, args }, next)),
                }
            }
        } else {
            let step = FilterCall { name, args: Vec::new() };
            assert(named_view(step.args@) =~= Seq::empty());
            Ok((step, i + 1))
        }
    }

    /// Reads named arguments up to the closing parenthesis.
    fn named(&self, start: usize) -> (r: Result<(Vec<(String, Expression)>, usize), Error>)
        requires
            self.wf(),
            start <= self.tokens@.len(),
        ensures
            named_result(r) == parse_named(self.source(), start as int, Seq::empty()),
            went_on(r, start, self.tokens@.len()),
        decreases self.source().left(start as int), 2nat,
    {
        let ghost src = self.source();
        let ghost whole = parse_named(src, start as int, Seq::empty());
        let mut args: Vec<(String, Expression)> = Vec::new();
        let mut i = start;
        proof {
            assert(named_view(args@) =~= Seq::empty());
        }
        loop
            invariant
                self.wf(),
                src == self.source(),
                start <= i <= self.tokens@.len(),
                whole == parse_named(src, start as int, Seq::empty()),
                whole == parse_named(src, i as int, named_view(args@)),
            decreases self.tokens@.len() - i,
        {
            if !matches!(self.kind_at(i), Some(TokenKind::Name)) {
                return Err(self.unexpected(i));
            }
            if !matches!(self.kind_at(i + 1), Some(TokenKind::Colon)) {
                return Err(self.unexpected(i + 1));
            }
            let (value, next) = match self.expression(i + 2) {
                Err(e) => {
                    return Err(e);
                },
                Ok(read) => read,
            };
            let key = self.text_at(i);
            proof {
                assert(args@.push((key, value)).drop_last() =~= args@);
                assert(named_view(args@.push((key, value))) == named_view(args@).push(
                    (key@, value@),
                ));
            }
            args.push((key, value));
            match self.kind_at(next) {
                Some(TokenKind::Comma) => {
                    i = next + 1;
                },
                Some(TokenKind::RightParenthesis) => {
                    return Ok((args, next + 1));
                },
                _ => {
                    return Err(self.unexpected(next));
                },
            }
        }
    }

    /// Reads arguments up to the closing parenthesis.
    fn arguments(&self, start: usize) -> (r: Result<(Vec<Expression>, usize), Error>)
        requires
            self.wf(),
            start <= self.tokens@.len(),
        ensures
            arguments_result(r) == parse_arguments(self.source(), start as int, Seq::empty()),
            went_on(r, start, self.tokens@.len()),
        decreases self.source().left(start as int), 11nat,
    {
        let ghost src = self.source();
        let ghost whole = parse_arguments(src, start as int, Seq::empty());
        let mut args: Vec<Expression> = Vec::new();
        let mut i = start;
        proof {
            assert(trees_view(args@) =~= Seq::empty());
        }
        loop
            invariant
                self.wf(),
                src == self.source(),
                start <= i <= self.tokens@.len(),
                whole == parse_arguments(src, start as int, Seq::empty()),
                whole == parse_arguments(src, i as int, trees_view(args@)),
                i == start || self.source().left(i as int) < self.source().left(start as int),
            decreases self.tokens@.len() - i,
        {
            let (value, next) = match self.expression(i) {
                Err(e) => {
                    return Err(e);
                },
                Ok(read) => read,
            };
            proof {
                assert(args@.push(value).drop_last() =~= args@);
                assert(trees_view(args@.push(value)) == trees_view(args@).push(value@));
            }
            args.push(value);
            match self.kind_at(next) {
                Some(TokenKind::Comma) => {
                    i = next + 1;
                },
                Some(TokenKind::RightParenthesis) => {
                    return Ok((args, next + 1));
                },
                _ => {
                    return Err(self.unexpected(next));
                },
            }
        }
    }

    /// Reads a literal, an identifier, a function call, or an expression
    /// in parentheses.
    fn primary(&self, i: usize) -> (r: Result<(Expression, usize), Error>)
        requires
            self.wf(),
            i <= self.tokens@.len(),
        ensures
            tree_result(r) == parse_primary(self.source(), i as int),
            went_on(r, i, self.tokens@.len()),
        decreases self.source().left(i as int), 0nat,
    {
        match self.kind_at(i) {
            Some(TokenKind::Boolean(b)) => Ok(
                (Expression::new(ExpressionValue::Boolean(b)), i + 1),
            ),
            Some(TokenKind::Integer(v)) => Ok(
                (Expression::new(ExpressionValue::Integer(v)), i + 1),
            ),
            Some(TokenKind::Float(f)) => Ok((Expression::new(ExpressionValue::Float(f)), i + 1)),
            Some(TokenKind::Text) => Ok(
                (Expression::new(ExpressionValue::String(self.text_at(i))), i + 1),
            ),
            Some(TokenKind::LeftParenthesis) => match self.expression(i + 1) {
                Err(e) => Err(e),
                Ok((inner, next)) => {
                    if matches!(self.kind_at(next), Some(TokenKind::RightParenthesis)) {
                        Ok((inner, next + 1))
                    } else {
                        Err(self.unexpected(next))
                    }
                },
            },
            Some(TokenKind::Name) => {
                if matches!(self.kind_at(i + 1), Some(TokenKind::LeftParenthesis)) {
                    let name = self.text_at(i);
                    if matches!(self.kind_at(i + 2), Some(TokenKind::RightParenthesis)) {
                        let call = FunctionCall { name, args: Vec::new() };
                        assert(trees_view(call.args@) =~= Seq::empty());
                        Ok((Expression::new(ExpressionValue::FunctionCall(call)), i + 3))
                    } else {
                        match self.arguments(i + 2) {
                            Err(e) => Err(e),
                            Ok((args, next)) => Ok(
                                (
                                    Expression::new(
                                        ExpressionValue::FunctionCall(FunctionCall { name, args }),
                                    ),
                                    next,
                                ),
                            ),
                        }
                    }
                } else {
                    self.identifier(i)
                }
            },
            Some(TokenKind::This) | Some(TokenKind::Super) => self.identifier(i),
            _ => Err(self.unexpected(i)),
        }
    }

    /// Reads an identifier as an expression.
    fn identifier(&self, i: usize) -> (r: Result<(Expression, usize), Error>)
        requires
            self.wf(),
            i <= self.tokens@.len(),
        ensures
            tree_result(r) == match parse_path(self.source(), i as int) {
                Err(e) => Err::<(Tree, int), ErrorView>(e),
                Ok((path, next)) => Ok::<(Tree, int), ErrorView>(
                    (leaf(Node::Identifier(path)), next),
                ),
            },
            went_on(r, i, self.tokens@.len()),
    {
        match self.path(i) {
            Err(e) => Err(e),
            Ok((path, next)) => Ok(
                (Expression::new(ExpressionValue::Identifier(Identifier::new(path))), next),
            ),
        }
    }
}

/// The view of a path with one more component.
pub proof fn lemma_push_component(path: Seq<IdentifierValue>, next: IdentifierValue)
    ensures
        components_view(path.push(next)) == components_view(path).push(next@),
{
    assert(path.push(next).drop_last() =~= path);
}

/// The tree that a text stands for, or why it stands for none: the tokens
/// of the text must be one expression. `reads` gives, for each place where
/// a float literal starts, the float that the host reads there.
pub open spec fn parse_spec(text: Seq<char>, reads: spec_fn(int) -> Float) -> Result<
    Tree,
    ErrorView,
> {
    match lex(text, reads) {
        Err(e) => Err(e),
        Ok(tokens) => parse_tokens(Source { text, tokens }),
    }
}

/// The view of what parsing gives.
pub open spec fn parse_outcome(r: Result<Expression, Error>) -> Result<Tree, ErrorView> {
    match r {
        Ok(expression) => Ok(expression@),
        Err(e) => Err(e@),
    }
}

/// Reads the tokens of a text as one expression.
pub fn parse_with<M: FloatMath>(text: &str, math: &M) -> (r: (
    Result<Expression, Error>,
    Ghost<spec_fn(int) -> Float>,
))
    ensures
        parse_outcome(r.0) == parse_spec(text@, r.1@),
        read_by(*math, text@, r.1@),
{
    let chars = characters(text);
    let (lexed, Ghost(reads)) = tokenize(text, &chars, math);
    let tokens = match lexed {
        Err(e) => {
            return (Err(e), Ghost(reads));
        },
        Ok(tokens) => tokens,
    };
    let len = tokens.len();
    let parser = Parser { text, tokens: &tokens };
    match parser.expression(0) {
        Err(e) => (Err(e), Ghost(reads)),
        Ok((expression, next)) => {
            if next == len {
                (Ok(expression), Ghost(reads))
            } else {
                (Err(parser.unexpected(next)), Ghost(reads))
            }
        },
    }
}

/// Parses an expression. Float literals are read by `math`; what it reads
/// must be finite.
///
/// The result is what the grammar gives for the text and for what `math`
/// read: the tree of the one expression that the text is, or the first
/// error. Every float among the tokens is what `math` gives for the text of
/// its literal. A text without a point holds no float literal, and its result is
/// what the grammar gives for the text alone.
pub fn parse<M: FloatMath>(text: &str, math: &M) -> (r: Result<Expression, Error>)
    ensures
        exists|reads: spec_fn(int) -> Float|
            parse_outcome(r) == #[trigger] parse_spec(text@, reads) && read_by(
                *math,
                text@,
                reads,
            ),
        without_point(text@) ==> parse_outcome(r) == parse_spec(text@, nothing_read()),
{
    let (r, Ghost(reads)) = parse_with(text, math);
    proof {
        assert(parse_outcome(r) == parse_spec(text@, reads) && read_by(*math, text@, reads));
        if without_point(text@) {
            lemma_lex_without_point(text@, 0, Seq::empty(), reads, nothing_read());
        }
    }
    r
}

/// What the host reads where it is asked nothing.
pub open spec fn nothing_read() -> spec_fn(int) -> Float {
    |place: int| Float { bits: 0 }
}

/// A text that opens a string with a quote and has no second quote of
/// that kind does not parse, whichever of the three quotes it is: the
/// string is unterminated.
pub proof fn lemma_unterminated_string_fails(text: Seq<char>, reads: spec_fn(int) -> Float)
    requires
        0 < text.len() <= usize::MAX,
        is_quote(text[0]),
        forall|k: int| 0 < k < text.len() ==> #[trigger] text[k] != text[0],
    ensures
        parse_spec(text, reads) == Err::<Tree, ErrorView>(
            syntax_error(ErrorKind::UnterminatedString, 0),
        ),
{
    lemma_quote_at(text, 1, text[0]);
    assert(next_token(text, 0, false, reads) == Err::<(Token, int), ErrorView>(
        syntax_error(ErrorKind::UnterminatedString, 0),
    ));
    assert(lex_from(text, 0, Seq::empty(), reads) == Err::<Seq<Token>, ErrorView>(
        syntax_error(ErrorKind::UnterminatedString, 0),
    ));
}

} // verus!
