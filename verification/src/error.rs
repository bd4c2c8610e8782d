//! Structured errors: a kind tag and an ordered list of annotations.

use vstd::prelude::*;

verus! {

/// The four families of failure.
#[derive(Clone, Copy, Debug, PartialEq, Eq, Structural)]
pub enum Category {
    Parse,
    Lookup,
    Eval,
    Registry,
}

/// What went wrong.
#[derive(Clone, Copy, Debug, PartialEq, Eq, Structural)]
pub enum ErrorKind {
    /// The text does not continue as the grammar requires.
    UnexpectedToken,
    /// A string literal has no closing quote of the style it opened with.
    UnterminatedString,
    /// An integer literal lies outside the signed 64-bit range.
    IntegerOutOfRange,
    /// A float literal denotes no finite 64-bit float.
    InfiniteFloat,
    /// An object has no entry under the key.
    KeyNotFound,
    /// An array has no element at the index.
    IndexOutOfBounds,
    /// A key was applied to a value that is no object.
    NotAnObject,
    /// An index was applied to a value that is no array.
    NotAnArray,
    /// A relative identifier was resolved without a position.
    RelativeWithoutPosition,
    /// `super` was applied at the document root.
    SuperPastRoot,
    /// An indirect index resolved to something that is neither a string
    /// nor an integer.
    InvalidIndirectIndex,
    /// Indirect indices restarted more often than the resolver allows.
    DepthLimitExceeded,
    /// An operator met an operand of a type it is not defined on.
    TypeMismatch,
    /// A filter or function got a number of arguments outside its bounds.
    InvalidArgumentCount,
    /// A filter or function got an argument of a type it does not accept.
    InvalidArgumentType,
    /// A numeric result is infinite or not a number.
    NonFiniteResult,
    /// No filter is registered under the name.
    UnknownFilter,
    /// No function is registered under the name.
    UnknownFunction,
}

impl ErrorKind {
    /// The family a kind belongs to.
    pub open spec fn category_spec(self) -> Category {
        match self {
            ErrorKind::UnexpectedToken
            | ErrorKind::UnterminatedString
            | ErrorKind::IntegerOutOfRange
            | ErrorKind::InfiniteFloat => Category::Parse,
            ErrorKind::KeyNotFound
            | ErrorKind::IndexOutOfBounds
            | ErrorKind::NotAnObject
            | ErrorKind::NotAnArray
            | ErrorKind::RelativeWithoutPosition
            | ErrorKind::SuperPastRoot
            | ErrorKind::InvalidIndirectIndex
            | ErrorKind::DepthLimitExceeded => Category::Lookup,
            ErrorKind::TypeMismatch
            | ErrorKind::InvalidArgumentCount
            | ErrorKind::InvalidArgumentType
            | ErrorKind::NonFiniteResult => Category::Eval,
            ErrorKind::UnknownFilter | ErrorKind::UnknownFunction => Category::Registry,
        }
    }

    #[verifier::when_used_as_spec(category_spec)]
    pub fn category(self) -> (r: Category)
        ensures
            r == self.category_spec(),
    {
        match self {
            ErrorKind::UnexpectedToken
            | ErrorKind::UnterminatedString
            | ErrorKind::IntegerOutOfRange
            | ErrorKind::InfiniteFloat => Category::Parse,
            ErrorKind::KeyNotFound
            | ErrorKind::IndexOutOfBounds
            | ErrorKind::NotAnObject
            | ErrorKind::NotAnArray
            | ErrorKind::RelativeWithoutPosition
            | ErrorKind::SuperPastRoot
            | ErrorKind::InvalidIndirectIndex
            | ErrorKind::DepthLimitExceeded => Category::Lookup,
            ErrorKind::TypeMismatch
            | ErrorKind::InvalidArgumentCount
            | ErrorKind::InvalidArgumentType
            | ErrorKind::NonFiniteResult => Category::Eval,
            ErrorKind::UnknownFilter | ErrorKind::UnknownFunction => Category::Registry,
        }
    }
}

/// The value of one annotation.
#[derive(Clone, Debug, PartialEq, Eq)]
pub enum Detail {
    Text(String),
    Count(usize),
    Integer(i64),
}

/// The mathematical content of a [`Detail`].
pub enum DetailView {
    Text(Seq<char>),
    Count(nat),
    Integer(int),
}

impl View for Detail {
    type V = DetailView;

    open spec fn view(&self) -> DetailView {
        match self {
            Detail::Text(s) => DetailView::Text(s@),
            Detail::Count(n) => DetailView::Count(*n as nat),
            Detail::Integer(i) => DetailView::Integer(*i as int),
        }
    }
}

/// A failure: its kind and, in the order they were added, its annotations.
#[derive(Clone, Debug, PartialEq, Eq)]
pub struct Error {
    pub kind: ErrorKind,
    pub context: Vec<(&'static str, Detail)>,
}

/// The mathematical content of an [`Error`].
pub struct ErrorView {
    pub kind: ErrorKind,
    pub context: Seq<(Seq<char>, DetailView)>,
}

impl View for Error {
    type V = ErrorView;

    open spec fn view(&self) -> ErrorView {
        ErrorView {
            kind: self.kind,
            context: Seq::new(
                self.context@.len(),
                |i: int| (self.context@[i].0@, self.context@[i].1@),
            ),
        }
    }
}

impl ErrorView {
    /// An error of the given kind without annotations.
    pub open spec fn bare(kind: ErrorKind) -> ErrorView {
        ErrorView { kind, context: Seq::empty() }
    }

    /// This error with one more annotation at the end.
    pub open spec fn with(self, key: Seq<char>, detail: DetailView) -> ErrorView {
        ErrorView { kind: self.kind, context: self.context.push((key, detail)) }
    }
}

impl Error {
    /// An error of the given kind without annotations.
    pub fn new(kind: ErrorKind) -> (e: Error)
        ensures
            e@ == ErrorView::bare(kind),
    {
        let e = Error { kind, context: Vec::new() };
        assert(e@.context =~= Seq::empty());
        e
    }

    /// Adds an annotation after those already present.
    pub fn context(self, key: &'static str, detail: Detail) -> (e: Error)
        ensures
            e@ == self@.with(key@, detail@),
    {
        let ghost before = self@;
        let mut e = self;
        e.context.push((key, detail));
        assert(e@.context =~= before.context.push((key@, detail@)));
        e
    }

    pub fn kind(&self) -> (k: ErrorKind)
        ensures
            k == self@.kind,
    {
        self.kind
    }

    pub fn category(&self) -> (c: Category)
        ensures
            c == self@.kind.category_spec(),
    {
        self.kind.category()
    }
}

} // verus!
