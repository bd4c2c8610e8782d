//! Filters and functions that the host adds to the built-in ones.

use vstd::prelude::*;
use crate::engine::context::{Internal, Timestamp};
use crate::error::{Error, ErrorKind, ErrorView};
use crate::value::{items_view, outcome, pairs_view, Json, Value};

verus! {

/// A function of the host's. It gets the arguments, the document, and the
/// context's clock.
///
/// Nothing is assumed of what it returns: each implementation says for
/// itself, in [`Function::may_give`], what it may do, and whoever calls it
/// learns that much of the result and no more.
pub trait Function {
    /// Whether the function, called with `args` and `document` and a clock
    /// that had read `before`, may return `out` and leave the clock at
    /// `after`. An implementation that does not say may do anything.
    open spec fn may_give(
        &self,
        args: Seq<Json>,
        document: Json,
        before: Option<Timestamp>,
        out: Result<Json, ErrorView>,
        after: Option<Timestamp>,
    ) -> bool {
        true
    }

    fn call(&self, args: &[Value], document: &Value, clock: &mut Internal) -> (r: Result<
        Value,
        Error,
    >)
        ensures
            self.may_give(
                items_view(args@),
                document@,
                old(clock).reading(),
                outcome(r),
                final(clock).reading(),
            ),
    ;
}

/// A filter of the host's. It gets the value piped into it, the named
/// arguments in the order they were written, the document, and the
/// context's clock. A name written more than once stands for its last
/// argument: [`crate::value::argument`] finds it.
///
/// Nothing is assumed of what it returns: each implementation says for
/// itself, in [`Filter::may_give`], what it may do, and whoever applies it
/// learns that much of the result and no more.
pub trait Filter {
    /// Whether the filter, applied to `input` with `args` and `document`
    /// and a clock that had read `before`, may return `out` and leave the
    /// clock at `after`. An implementation that does not say may do
    /// anything.
    open spec fn may_give(
        &self,
        input: Json,
        args: Seq<(Seq<char>, Json)>,
        document: Json,
        before: Option<Timestamp>,
        out: Result<Json, ErrorView>,
        after: Option<Timestamp>,
    ) -> bool {
        true
    }

    fn apply(
        &self,
        input: &Value,
        args: &[(String, Value)],
        document: &Value,
        clock: &mut Internal,
    ) -> (r: Result<Value, Error>)
        ensures
            self.may_give(
                input@,
                pairs_view(args@),
                document@,
                old(clock).reading(),
                outcome(r),
                final(clock).reading(),
            ),
    ;
}

/// The extension of a host that has none: under whatever name it is
/// registered, it fails as an unknown name does, and does not read the
/// clock.
pub struct NoExtension;

impl Function for NoExtension {
    open spec fn may_give(
        &self,
        args: Seq<Json>,
        document: Json,
        before: Option<Timestamp>,
        out: Result<Json, ErrorView>,
        after: Option<Timestamp>,
    ) -> bool {
        out == Err::<Json, ErrorView>(ErrorView::bare(ErrorKind::UnknownFunction)) && after
            == before
    }

    fn call(&self, args: &[Value], document: &Value, clock: &mut Internal) -> (r: Result<
        Value,
        Error,
    >)
        ensures
            *final(clock) == *old(clock),
    {
        Err(Error::new(ErrorKind::UnknownFunction))
    }
}

impl Filter for NoExtension {
    open spec fn may_give(
        &self,
        input: Json,
        args: Seq<(Seq<char>, Json)>,
        document: Json,
        before: Option<Timestamp>,
        out: Result<Json, ErrorView>,
        after: Option<Timestamp>,
    ) -> bool {
        out == Err::<Json, ErrorView>(ErrorView::bare(ErrorKind::UnknownFilter)) && after
            == before
    }

    fn apply(
        &self,
        input: &Value,
        args: &[(String, Value)],
        document: &Value,
        clock: &mut Internal,
    ) -> (r: Result<Value, Error>)
        ensures
            *final(clock) == *old(clock),
    {
        Err(Error::new(ErrorKind::UnknownFilter))
    }
}

/// A mapping from names to implementations. Names are case-sensitive; a
/// name registered again stands for its last implementation.
pub struct Registry<T> {
    pub entries: Vec<(String, T)>,
}

impl<T> Registry<T> {
    /// The names that are registered.
    pub open spec fn names(&self) -> Set<Seq<char>> {
        Set::new(|name: Seq<char>| self.position(name) is Some)
    }

    /// The implementation that each registered name stands for.
    pub open spec fn implementations(&self) -> Map<Seq<char>, T> {
        Map::new(
            |name: Seq<char>| self.position(name) is Some,
            |name: Seq<char>| self.entries@[self.position(name)->0].1,
        )
    }

    /// Where the implementation of a name is: at its last entry.
    pub open spec fn position(&self, name: Seq<char>) -> Option<int> {
        Self::last_of(self.entries@, name)
    }

    pub open spec fn last_of(entries: Seq<(String, T)>, name: Seq<char>) -> Option<int>
        decreases entries.len(),
    {
        if entries.len() == 0 {
            None
        } else if entries.last().0@ == name {
            Some(entries.len() - 1)
        } else {
            Self::last_of(entries.drop_last(), name)
        }
    }

    /// The last entry of a name lies among the entries and has the name.
    pub proof fn lemma_last_of(entries: Seq<(String, T)>, name: Seq<char>)
        ensures
            Self::last_of(entries, name) matches Some(i) ==> 0 <= i < entries.len()
                && entries[i].0@ == name,
        decreases entries.len(),
    {
        if entries.len() > 0 && entries.last().0@ != name {
            Self::lemma_last_of(entries.drop_last(), name);
        }
    }

    /// A registry without names.
    pub fn new() -> (r: Registry<T>)
        ensures
            r.entries@.len() == 0,
            r.names() =~= Set::<Seq<char>>::empty(),
    {
        Registry { entries: Vec::new() }
    }

    /// Adds a name, or gives a name that is there a new implementation.
    pub fn register(&mut self, name: String, implementation: T)
        ensures
            final(self).entries@ == old(self).entries@.push((name, implementation)),
            final(self).names() =~= old(self).names().insert(name@),
            final(self).implementations() =~= old(self).implementations().insert(
                name@,
                implementation,
            ),
            final(self).position(name@) == Some(old(self).entries@.len() as int),
    {
        let ghost before = self.entries@;
        self.entries.push((name, implementation));
        proof {
            assert(self.entries@.drop_last() =~= before);
            assert forall|other: Seq<char>|
                self.names().contains(other) == old(self).names().insert(name@).contains(
                    other,
                ) by {
                if other != name@ {
                    assert(Self::last_of(self.entries@, other) == Self::last_of(before, other));
                }
            }
            assert forall|other: Seq<char>|
                self.implementations().contains_key(other) implies old(
                self,
            ).implementations().insert(name@, implementation).contains_key(other)
                && self.implementations()[other] == old(self).implementations().insert(
                name@,
                implementation,
            )[other] by {
                if other != name@ {
                    assert(Self::last_of(self.entries@, other) == Self::last_of(before, other));
                    let at = Self::last_of(before, other)->0;
                    Self::lemma_last_of(before, other);
                    assert(self.entries@[at] == before[at]);
                }
            }
            assert forall|other: Seq<char>|
                old(self).implementations().insert(name@, implementation).contains_key(
                    other,
                ) implies self.implementations().contains_key(other) by {
                if other != name@ {
                    assert(Self::last_of(self.entries@, other) == Self::last_of(before, other));
                }
            }
        }
    }

    /// The implementation registered under `name`.
    pub fn find(&self, name: &String) -> (r: Option<&T>)
        ensures
            match r {
                Some(found) => self.position(name@) matches Some(i) && 0 <= i
                    < self.entries@.len() && *found == self.entries@[i].1,
                None => !self.names().contains(name@),
            },
    {
        let mut i: usize = self.entries.len();
        proof {
            assert(self.entries@.take(i as int) =~= self.entries@);
        }
        while i > 0
            invariant
                i <= self.entries.len(),
                Self::last_of(self.entries@, name@) == Self::last_of(
                    self.entries@.take(i as int),
                    name@,
                ),
            decreases i,
        {
            proof {
                assert(self.entries@.take(i as int).drop_last() =~= self.entries@.take(i - 1));
                assert(self.entries@.take(i as int).last() == self.entries@[i - 1]);
            }
            i = i - 1;
            if self.entries[i].0 == *name {
                return Some(&self.entries[i].1);
            }
        }
        None
    }
}

} // verus!
