//! The evaluation context: the document, the frozen clock, and the
//! resolution of identifiers against the document.

use vstd::prelude::*;
use crate::engine::registry::{Filter, Function};
use crate::error::{Detail, DetailView, Error, ErrorKind, ErrorView};
use crate::parser::ast::{
    is_relative, lemma_components_view, Component, Identifier, IdentifierValue,
};
use crate::value::{items_view, outcome, pairs_view, Json, Value};

verus! {

/// How many indirect indices may be open at once while one identifier is
/// resolved. An identifier nested deeper, or a position that refers to
/// itself through a relative index, fails with
/// [`ErrorKind::DepthLimitExceeded`].
pub const INDIRECTION_LIMIT: u32 = 64;

/// The stack after a key has been applied to its top.
pub open spec fn push_key(stack: Seq<Json>, key: Seq<char>) -> Result<Seq<Json>, ErrorView> {
    match stack.last() {
        Json::Object(entries) => if entries.contains_key(key) {
            Ok(stack.push(entries[key]))
        } else {
            Err(ErrorView::bare(ErrorKind::KeyNotFound).with("key"@, DetailView::Text(key)))
        },
        _ => Err(ErrorView::bare(ErrorKind::NotAnObject)),
    }
}

/// The stack after an index has been applied to its top. A negative index
/// is counted from the end, once.
pub open spec fn push_index(stack: Seq<Json>, index: int) -> Result<Seq<Json>, ErrorView> {
    match stack.last() {
        Json::Array(items) => match Json::position(items.len(), index) {
            Some(i) => Ok(stack.push(items[i])),
            None => Err(
                ErrorView::bare(ErrorKind::IndexOutOfBounds).with(
                    "index"@,
                    DetailView::Integer(index),
                ),
            ),
        },
        _ => Err(ErrorView::bare(ErrorKind::NotAnArray)),
    }
}

/// The stack after one component has been applied to it.
///
/// An indirect index is resolved on its own, from the root and with the
/// same position, and what it yields is applied as a key or as an index.
pub open spec fn apply(
    root: Json,
    stack: Seq<Json>,
    component: Component,
    position: Option<Seq<Component>>,
    depth: nat,
) -> Result<Seq<Json>, ErrorView>
    decreases depth, 0nat, 0nat,
{
    match component {
        Component::Name(key) => push_key(stack, key),
        Component::StringIndex(key) => push_key(stack, key),
        Component::IntegerIndex(index) => push_index(stack, index),
        Component::This => Ok(stack),
        Component::Super => if stack.len() <= 1 {
            Err(ErrorView::bare(ErrorKind::SuperPastRoot))
        } else {
            Ok(stack.drop_last())
        },
        Component::IdentifierIndex(nested) => if depth == 0 {
            Err(ErrorView::bare(ErrorKind::DepthLimitExceeded))
        } else {
            match resolve(root, nested, position, (depth - 1) as nat) {
                Err(e) => Err(e),
                Ok(Json::String(key)) => push_key(stack, key),
                Ok(Json::Integer(index)) => push_index(stack, index),
                Ok(_) => Err(ErrorView::bare(ErrorKind::InvalidIndirectIndex)),
            }
        },
    }
}

/// The stack after the components of a path have been applied in order;
/// the first failure ends the walk.
pub open spec fn walk(
    root: Json,
    stack: Seq<Json>,
    path: Seq<Component>,
    position: Option<Seq<Component>>,
    depth: nat,
) -> Result<Seq<Json>, ErrorView>
    decreases depth, 1nat, path.len(),
{
    if path.len() == 0 {
        Ok(stack)
    } else {
        match apply(root, stack, path[0], position, depth) {
            Err(e) => Err(e),
            Ok(next) => walk(root, next, path.drop_first(), position, depth),
        }
    }
}

/// The stack a resolution of `path` starts from: the root alone for an
/// absolute path, the stack that the position leads to for a relative one.
pub open spec fn baseline(
    root: Json,
    path: Seq<Component>,
    position: Option<Seq<Component>>,
    depth: nat,
) -> Result<Seq<Json>, ErrorView>
    decreases depth, 2nat, 0nat,
{
    if is_relative(path) {
        match position {
            None => Err(ErrorView::bare(ErrorKind::RelativeWithoutPosition)),
            Some(p) => walk(root, seq![root], p, position, depth),
        }
    } else {
        Ok(seq![root])
    }
}

/// What a path resolves to in the document `root`: the top of the stack
/// after the walk from its baseline.
pub open spec fn resolve(
    root: Json,
    path: Seq<Component>,
    position: Option<Seq<Component>>,
    depth: nat,
) -> Result<Json, ErrorView>
    decreases depth, 3nat, 0nat,
{
    match baseline(root, path, position, depth) {
        Err(e) => Err(e),
        Ok(stack) => match walk(root, stack, path, position, depth) {
            Err(e) => Err(e),
            Ok(end) => Ok(end.last()),
        },
    }
}

/// The view of an optional position.
pub open spec fn position_view(position: Option<&Identifier>) -> Option<Seq<Component>> {
    match position {
        Some(p) => Some(p@),
        None => None,
    }
}

/// The contents of a stack of references into the document.
pub open spec fn stack_view(stack: Seq<&Value>) -> Seq<Json> {
    Seq::new(stack.len(), |i: int| stack[i]@)
}

/// Resolves an identifier: a stack of the values passed on the way, the
/// last of them on top.
pub struct Lookup<'a> {
    /// The whole document.
    pub root: &'a Value,
    /// One value for every step taken and not undone, the root first.
    pub stack: Vec<&'a Value>,
}

impl<'a> Lookup<'a> {
    /// The stack is never empty.
    pub open spec fn wf(&self) -> bool {
        self.stack@.len() > 0
    }

    pub open spec fn stack_spec(&self) -> Seq<Json> {
        stack_view(self.stack@)
    }

    /// A stack that holds the root alone.
    pub fn new(root: &'a Value) -> (r: Lookup<'a>)
        ensures
            r.wf(),
            r.root == root,
            r.stack_spec() == seq![root@],
    {
        let mut stack: Vec<&'a Value> = Vec::new();
        stack.push(root);
        let r = Lookup { root, stack };
        assert(r.stack_spec() =~= seq![root@]);
        r
    }

    /// Applies a key to the top of the stack.
    fn update_with_key(&mut self, key: &String) -> (r: Result<(), Error>)
        requires
            old(self).wf(),
        ensures
            final(self).root == old(self).root,
            match r {
                Ok(()) => final(self).wf() && push_key(old(self).stack_spec(), key@) == Ok::<
                    Seq<Json>,
                    ErrorView,
                >(final(self).stack_spec()),
                Err(e) => push_key(old(self).stack_spec(), key@) == Err::<Seq<Json>, ErrorView>(
                    e@,
                ) && *final(self) == *old(self),
            },
    {
        let top: &'a Value = self.stack[self.stack.len() - 1];
        assert(top@ == self.stack_spec().last());
        if !top.is_object() {
            return Err(Error::new(ErrorKind::NotAnObject));
        }
        match top.get(key) {
            Some(value) => {
                self.stack.push(value);
                assert(self.stack_spec() =~= old(self).stack_spec().push(value@));
                Ok(())
            },
            None => Err(
                Error::new(ErrorKind::KeyNotFound).context("key", Detail::Text(key.clone())),
            ),
        }
    }

    /// Applies an index to the top of the stack.
    fn update_with_index(&mut self, index: i64) -> (r: Result<(), Error>)
        requires
            old(self).wf(),
        ensures
            final(self).root == old(self).root,
            match r {
                Ok(()) => final(self).wf() && push_index(old(self).stack_spec(), index as int)
                    == Ok::<Seq<Json>, ErrorView>(final(self).stack_spec()),
                Err(e) => push_index(old(self).stack_spec(), index as int) == Err::<
                    Seq<Json>,
                    ErrorView,
                >(e@) && *final(self) == *old(self),
            },
    {
        let top: &'a Value = self.stack[self.stack.len() - 1];
        assert(top@ == self.stack_spec().last());
        if !top.is_array() {
            return Err(Error::new(ErrorKind::NotAnArray));
        }
        match top.at(index) {
            Some(value) => {
                self.stack.push(value);
                assert(self.stack_spec() =~= old(self).stack_spec().push(value@));
                Ok(())
            },
            None => Err(
                Error::new(ErrorKind::IndexOutOfBounds).context("index", Detail::Integer(index)),
            ),
        }
    }

    /// Applies the next component of an identifier to the stack. Where
    /// that fails, the stack stays as it is.
    ///
    /// `position` is where a relative identifier starts; `depth` is how
    /// many indirect indices may still be opened.
    pub fn update_with_identifier_value(
        &mut self,
        identifier_value: &IdentifierValue,
        position: Option<&Identifier>,
        depth: u32,
    ) -> (r: Result<(), Error>)
        requires
            old(self).wf(),
        ensures
            final(self).root == old(self).root,
            match r {
                Ok(()) => final(self).wf() && apply(
                    old(self).root@,
                    old(self).stack_spec(),
                    identifier_value@,
                    position_view(position),
                    depth as nat,
                ) == Ok::<Seq<Json>, ErrorView>(final(self).stack_spec()),
                Err(e) => apply(
                    old(self).root@,
                    old(self).stack_spec(),
                    identifier_value@,
                    position_view(position),
                    depth as nat,
                ) == Err::<Seq<Json>, ErrorView>(e@) && *final(self) == *old(self),
            },
        decreases depth, 0nat,
    {
        match identifier_value {
            IdentifierValue::Name(name) => self.update_with_key(name),
            IdentifierValue::StringIndex(name) => self.update_with_key(name),
            IdentifierValue::This => Ok(()),
            IdentifierValue::Super => {
                if self.stack.len() <= 1 {
                    return Err(Error::new(ErrorKind::SuperPastRoot));
                }
                self.stack.pop();
                assert(self.stack_spec() =~= old(self).stack_spec().drop_last());
                Ok(())
            },
            IdentifierValue::IntegerIndex(index) => self.update_with_index(*index),
            IdentifierValue::IdentifierIndex(identifier) => {
                if depth == 0 {
                    return Err(Error::new(ErrorKind::DepthLimitExceeded));
                }
                match Lookup::lookup_identifier(self.root, identifier, position, depth - 1) {
                    Err(e) => Err(e),
                    Ok(Value::String(key)) => self.update_with_key(key),
                    Ok(Value::Integer(index)) => self.update_with_index(*index),
                    Ok(_) => Err(Error::new(ErrorKind::InvalidIndirectIndex)),
                }
            },
        }
    }

    /// Applies the components of `path` in order.
    fn update_with_path(
        &mut self,
        path: &Identifier,
        position: Option<&Identifier>,
        depth: u32,
    ) -> (r: Result<(), Error>)
        requires
            old(self).wf(),
        ensures
            final(self).root == old(self).root,
            match r {
                Ok(()) => final(self).wf() && walk(
                    old(self).root@,
                    old(self).stack_spec(),
                    path@,
                    position_view(position),
                    depth as nat,
                ) == Ok::<Seq<Json>, ErrorView>(final(self).stack_spec()),
                Err(e) => walk(
                    old(self).root@,
                    old(self).stack_spec(),
                    path@,
                    position_view(position),
                    depth as nat,
                ) == Err::<Seq<Json>, ErrorView>(e@),
            },
        decreases depth, 1nat,
    {
        let ghost whole = walk(
            self.root@,
            self.stack_spec(),
            path@,
            position_view(position),
            depth as nat,
        );
        let mut i: usize = 0;
        proof {
            lemma_components_view(path.values@);
            assert(path@.skip(0) =~= path@);
        }
        while i < path.values.len()
            invariant
                i <= path.values.len(),
                self.wf(),
                self.root == old(self).root,
                path@.len() == path.values.len(),
                whole == walk(
                    old(self).root@,
                    old(self).stack_spec(),
                    path@,
                    position_view(position),
                    depth as nat,
                ),
                whole == walk(
                    self.root@,
                    self.stack_spec(),
                    path@.skip(i as int),
                    position_view(position),
                    depth as nat,
                ),
            decreases path.values.len() - i,
        {
            proof {
                lemma_components_view(path.values@);
                assert(path@.skip(i as int).drop_first() =~= path@.skip(i + 1));
                assert(path@.skip(i as int)[0] == path.values@[i as int]@);
            }
            match self.update_with_identifier_value(&path.values[i], position, depth) {
                Err(e) => {
                    return Err(e);
                },
                Ok(()) => {},
            }
            i = i + 1;
        }
        Ok(())
    }

    /// Resolves `identifier` in the document `root`.
    ///
    /// `position` is where a relative identifier starts, be it `identifier`
    /// itself or one of its indirect indices; where there is none of
    /// these, it is not looked at. `depth` is how many indirect indices may
    /// be open at once.
    pub fn lookup_identifier(
        root: &'a Value,
        identifier: &Identifier,
        position: Option<&Identifier>,
        depth: u32,
    ) -> (r: Result<&'a Value, Error>)
        ensures
            match r {
                Ok(value) => resolve(root@, identifier@, position_view(position), depth as nat)
                    == Ok::<Json, ErrorView>(value@),
                Err(e) => resolve(root@, identifier@, position_view(position), depth as nat)
                    == Err::<Json, ErrorView>(e@),
            },
        decreases depth, 2nat,
    {
        let mut lookup = Lookup::new(root);
        if identifier.is_relative() {
            match position {
                None => {
                    return Err(Error::new(ErrorKind::RelativeWithoutPosition));
                },
                Some(start) => {
                    match lookup.update_with_path(start, position, depth) {
                        Err(e) => {
                            return Err(e);
                        },
                        Ok(()) => {},
                    }
                },
            }
        }
        match lookup.update_with_path(identifier, position, depth) {
            Err(e) => Err(e),
            Ok(()) => {
                let top: &'a Value = lookup.stack[lookup.stack.len() - 1];
                assert(top@ == lookup.stack_spec().last());
                Ok(top)
            },
        }
    }
}

/// A relative identifier does not resolve without a position.
pub proof fn lemma_relative_needs_position(root: Json, path: Seq<Component>, depth: nat)
    requires
        is_relative(path),
    ensures
        resolve(root, path, None, depth) == Err::<Json, ErrorView>(
            ErrorView::bare(ErrorKind::RelativeWithoutPosition),
        ),
{
}

/// A key selects the same, written as a name or as a string in brackets.
pub proof fn lemma_name_is_string_index(
    root: Json,
    stack: Seq<Json>,
    key: Seq<char>,
    position: Option<Seq<Component>>,
    depth: nat,
)
    ensures
        apply(root, stack, Component::Name(key), position, depth) == apply(
            root,
            stack,
            Component::StringIndex(key),
            position,
            depth,
        ),
{
}

/// An index of -1 selects the last element; an index one before the first
/// element, or one past the last, selects nothing.
pub proof fn lemma_index_bounds(stack: Seq<Json>, items: Seq<Json>)
    requires
        stack.len() > 0,
        stack.last() == Json::Array(items),
    ensures
        items.len() > 0 ==> push_index(stack, -1) == Ok::<Seq<Json>, ErrorView>(
            stack.push(items.last()),
        ),
        push_index(stack, -(items.len() + 1)) matches Err(e) && e.kind
            == ErrorKind::IndexOutOfBounds,
        push_index(stack, items.len() as int) matches Err(e) && e.kind
            == ErrorKind::IndexOutOfBounds,
{
}

/// A moment in time: seconds since the start of 1970 in UTC and the
/// nanoseconds within the second.
#[derive(Clone, Copy, Debug, PartialEq, Eq, Structural)]
pub struct Timestamp {
    pub seconds: i64,
    pub nanoseconds: u32,
}

/// The part of a context that changes: the clock reading, once taken.
///
/// The library has no clock of its own: whoever wants the time of a
/// context hands in a way to read the clock, and it is used once. Only a
/// context makes an `Internal`, and nothing but [`Internal::freeze`] and
/// [`Internal::cached_now`] change it: whoever is handed the clock of a
/// context cannot set it back.
pub struct Internal {
    cached_now: Option<Timestamp>,
}

/// The time of a clock that had read `memo` and is shown `reading`: the
/// memo where there is one, else the reading.
pub open spec fn frozen_time(memo: Option<Timestamp>, reading: Timestamp) -> Timestamp {
    match memo {
        Some(earlier) => earlier,
        None => reading,
    }
}

impl Internal {
    /// The clock reading, where one was taken.
    pub closed spec fn reading(&self) -> Option<Timestamp> {
        self.cached_now
    }

    /// A clock that was not read yet.
    pub(crate) fn new() -> (r: Internal)
        ensures
            r.reading() is None,
    {
        Internal { cached_now: None }
    }

    /// Shows the clock a reading. The first reading shown is kept and is
    /// the time from then on; a later one has no effect.
    pub fn freeze(&mut self, reading: Timestamp) -> (now: Timestamp)
        ensures
            now == frozen_time(old(self).reading(), reading),
            final(self).reading() == Some(now),
    {
        match self.cached_now {
            Some(earlier) => earlier,
            None => {
                self.cached_now = Some(reading);
                reading
            },
        }
    }

    /// The time of this context. At the first call `read` is called and
    /// what it returns is kept; every later call hands that out and does
    /// not call `read`.
    pub fn cached_now<F: FnOnce() -> Timestamp>(&mut self, read: F) -> (now: Timestamp)
        requires
            call_requires(read, ()),
        ensures
            final(self).reading() == Some(now),
            old(self).reading() matches Some(earlier) ==> now == earlier,
            old(self).reading() is None ==> call_ensures(read, (), now),
    {
        match self.cached_now {
            Some(earlier) => earlier,
            None => {
                let reading = read();
                self.freeze(reading)
            },
        }
    }
}

/// The evaluation context: the document that identifiers are resolved in,
/// and the reading of a clock that is read once.
pub struct Context {
    data: Value,
    internal: Internal,
}

impl Context {
    /// The document.
    pub closed spec fn data_spec(&self) -> Value {
        self.data
    }

    /// The clock reading, where one was taken.
    pub closed spec fn frozen(&self) -> Option<Timestamp> {
        self.internal.reading()
    }

    /// A context over the document `data`, its clock not yet read.
    pub fn new(data: Value) -> (r: Context)
        ensures
            r.data_spec() == data,
            r.frozen() is None,
    {
        Context { data, internal: Internal::new() }
    }

    pub fn data(&self) -> (r: &Value)
        ensures
            *r == self.data_spec(),
    {
        &self.data
    }

    /// Shows the clock of this context a reading. The first reading shown
    /// is kept and is the time of the context from then on; a later one
    /// has no effect.
    pub fn freeze(&mut self, reading: Timestamp) -> (now: Timestamp)
        ensures
            now == frozen_time(old(self).frozen(), reading),
            final(self).frozen() == Some(now),
            final(self).data_spec() == old(self).data_spec(),
    {
        self.internal.freeze(reading)
    }

    /// The current time of this context. At the first call `read` is
    /// called and what it returns is kept; every later call returns that
    /// and does not call `read`.
    pub fn cached_now<F: FnOnce() -> Timestamp>(&mut self, read: F) -> (now: Timestamp)
        requires
            call_requires(read, ()),
        ensures
            final(self).frozen() == Some(now),
            old(self).frozen() matches Some(earlier) ==> now == earlier,
            old(self).frozen() is None ==> call_ensures(read, (), now),
            final(self).data_spec() == old(self).data_spec(),
    {
        self.internal.cached_now(read)
    }

    /// Resolves `identifier` in the document. `position` is where a
    /// relative identifier starts, be it `identifier` itself or one of its
    /// indirect indices. At most [`INDIRECTION_LIMIT`] indirect indices may
    /// be open at once.
    pub fn lookup_identifier(&self, identifier: &Identifier, position: Option<&Identifier>) -> (r:
        Result<&Value, Error>)
        ensures
            match r {
                Ok(value) => resolve(
                    self.data_spec()@,
                    identifier@,
                    position_view(position),
                    INDIRECTION_LIMIT as nat,
                ) == Ok::<Json, ErrorView>(value@),
                Err(e) => resolve(
                    self.data_spec()@,
                    identifier@,
                    position_view(position),
                    INDIRECTION_LIMIT as nat,
                ) == Err::<Json, ErrorView>(e@),
            },
    {
        Lookup::lookup_identifier(&self.data, identifier, position, INDIRECTION_LIMIT)
    }
}

impl Context {
    /// Calls a function of the host's with the arguments and with the
    /// document and the clock of this context, and returns what it
    /// returns: a result that the function may give for just these, as
    /// [`Function::may_give`] has it. The function may read the clock.
    /// Whatever it does, the document stays as it is.
    pub fn call_function<F: Function>(&mut self, function: &F, args: &[Value]) -> (r: Result<
        Value,
        Error,
    >)
        ensures
            function.may_give(
                items_view(args@),
                old(self).data_spec()@,
                old(self).frozen(),
                outcome(r),
                final(self).frozen(),
            ),
            final(self).data_spec() == old(self).data_spec(),
    {
        function.call(args, &self.data, &mut self.internal)
    }

    /// Applies a filter of the host's to the input with the named
    /// arguments and with the document and the clock of this context, and
    /// returns what it returns: a result that the filter may give for just
    /// these, as [`Filter::may_give`] has it. The filter may read the
    /// clock. Whatever it does, the document stays as it is.
    pub fn apply_filter<G: Filter>(
        &mut self,
        filter: &G,
        input: &Value,
        args: &[(String, Value)],
    ) -> (r: Result<Value, Error>)
        ensures
            filter.may_give(
                input@,
                pairs_view(args@),
                old(self).data_spec()@,
                old(self).frozen(),
                outcome(r),
                final(self).frozen(),
            ),
            final(self).data_spec() == old(self).data_spec(),
    {
        filter.apply(input, args, &self.data, &mut self.internal)
    }
}

impl Default for Context {
    /// A context over the document `null`.
    fn default() -> (r: Context)
        ensures
            r.data_spec() == Value::Null,
            r.frozen() is None,
    {
        Context::new(Value::Null)
    }
}

} // verus!
