//! The document value model.

pub mod float;
pub mod integer;
pub mod relate;

use vstd::prelude::*;
use crate::error::{Error, ErrorView};
use crate::value::float::{nearest, Float};

verus! {

/// A JSON-compatible value.
///
/// An object is a list of entries; a key that occurs more than once stands
/// for its last entry.
///
/// `==` compares two values as they are written down: entries in their
/// order, floats by their encoding. [`Value::same`] compares what they
/// stand for.
#[derive(Debug, PartialEq)]
pub enum Value {
    Null,
    Bool(bool),
    Integer(i64),
    Float(Float),
    String(String),
    Array(Vec<Value>),
    Object(Vec<(String, Value)>),
}

/// The mathematical content of a [`Value`].
pub enum Json {
    Null,
    Bool(bool),
    Integer(int),
    Float(Float),
    String(Seq<char>),
    Array(Seq<Json>),
    Object(Map<Seq<char>, Json>),
}

/// The map that a list of entries stands for: later entries replace
/// earlier ones of the same key.
pub open spec fn entries_view(entries: Seq<(String, Value)>) -> Map<Seq<char>, Json>
    decreases entries, 0nat,
{
    if entries.len() == 0 {
        Map::empty()
    } else {
        entries_view(entries.drop_last()).insert(entries.last().0@, entries.last().1@)
    }
}

/// The sequence that a list of items stands for.
pub open spec fn items_view(items: Seq<Value>) -> Seq<Json>
    decreases items, 0nat,
{
    if items.len() == 0 {
        Seq::empty()
    } else {
        items_view(items.drop_last()).push(items.last()@)
    }
}

impl View for Value {
    type V = Json;

    open spec fn view(&self) -> Json
        decreases self, 1nat,
    {
        match self {
            Value::Null => Json::Null,
            Value::Bool(b) => Json::Bool(*b),
            Value::Integer(i) => Json::Integer(*i as int),
            Value::Float(f) => Json::Float(*f),
            Value::String(s) => Json::String(s@),
            Value::Array(items) => Json::Array(items_view(items@)),
            Value::Object(entries) => Json::Object(entries_view(entries@)),
        }
    }
}

/// The view of a list is the list of the views.
pub proof fn lemma_items_view(items: Seq<Value>)
    ensures
        items_view(items).len() == items.len(),
        forall|i: int| 0 <= i < items.len() ==> #[trigger] items_view(items)[i] == items[i]@,
    decreases items.len(),
{
    if items.len() > 0 {
        lemma_items_view(items.drop_last());
        assert(items_view(items) == items_view(items.drop_last()).push(items.last()@));
    } else {
        assert(items_view(items) == Seq::<Json>::empty());
    }
}

impl Clone for Value {
    /// A deep copy.
    #[verifier::loop_isolation(false)]
    fn clone(&self) -> (r: Value)
        ensures
            r@ == self@,
        decreases self,
    {
        match self {
            Value::Null => Value::Null,
            Value::Bool(b) => Value::Bool(*b),
            Value::Integer(i) => Value::Integer(*i),
            Value::Float(f) => Value::Float(*f),
            Value::String(s) => Value::String(s.clone()),
            Value::Array(items) => {
                let mut copy: Vec<Value> = Vec::new();
                let mut i: usize = 0;
                while i < items.len()
                    invariant
                        i <= items.len(),
                        copy@.len() == i,
                        items_view(copy@) == items_view(items@.take(i as int)),
                    decreases items.len() - i,
                {
                    assert(decreases_to!(items => items[i as int]));
                    let item = items[i].clone();
                    proof {
                        assert(items@.take(i + 1).drop_last() =~= items@.take(i as int));
                        assert(copy@.push(item).drop_last() =~= copy@);
                    }
                    copy.push(item);
                    i = i + 1;
                }
                proof {
                    assert(items@.take(i as int) =~= items@);
                }
                Value::Array(copy)
            },
            Value::Object(entries) => {
                let mut copy: Vec<(String, Value)> = Vec::new();
                let mut i: usize = 0;
                while i < entries.len()
                    invariant
                        i <= entries.len(),
                        copy@.len() == i,
                        entries_view(copy@) == entries_view(entries@.take(i as int)),
                    decreases entries.len() - i,
                {
                    let key = entries[i].0.clone();
                    assert(decreases_to!(entries => entries[i as int]));
                    let value = entries[i].1.clone();
                    proof {
                        assert(entries@.take(i + 1).drop_last() =~= entries@.take(i as int));
                        assert(copy@.push((key, value)).drop_last() =~= copy@);
                    }
                    copy.push((key, value));
                    i = i + 1;
                }
                proof {
                    assert(entries@.take(i as int) =~= entries@);
                }
                Value::Object(copy)
            },
        }
    }
}

/// The position of the last entry under `key`, if there is one.
pub open spec fn find_entry(entries: Seq<(String, Value)>, key: Seq<char>) -> Option<int>
    decreases entries.len(),
{
    if entries.len() == 0 {
        None
    } else if entries.last().0@ == key {
        Some(entries.len() - 1)
    } else {
        find_entry(entries.drop_last(), key)
    }
}

/// The map of a list of entries holds a key exactly when some entry has
/// it, and holds under it the value of the last such entry.
pub proof fn lemma_entries_view(entries: Seq<(String, Value)>, key: Seq<char>)
    ensures
        entries_view(entries).contains_key(key) <==> find_entry(entries, key) is Some,
        find_entry(entries, key) matches Some(i) ==> {
            &&& 0 <= i < entries.len()
            &&& entries[i].0@ == key
            &&& entries_view(entries)[key] == entries[i].1@
        },
        find_entry(entries, key) is None ==> forall|i: int|
            0 <= i < entries.len() ==> (#[trigger] entries[i]).0@ != key,
    decreases entries.len(),
{
    if entries.len() > 0 {
        lemma_entries_view(entries.drop_last(), key);
        assert(entries_view(entries) == entries_view(entries.drop_last()).insert(
            entries.last().0@,
            entries.last().1@,
        ));
        if find_entry(entries, key) is None {
            assert forall|i: int| 0 <= i < entries.len() implies (#[trigger] entries[i]).0@
                != key by {
                if i < entries.len() - 1 {
                    assert(entries.drop_last()[i] == entries[i]);
                }
            }
        }
    } else {
        assert(entries_view(entries) == Map::<Seq<char>, Json>::empty());
    }
}

/// The position of the last entry under `key`.
pub fn find_index(entries: &Vec<(String, Value)>, key: &String) -> (r: Option<usize>)
    ensures
        find_entry(entries@, key@) == match r {
            Some(i) => Some(i as int),
            None => None,
        },
        r matches Some(i) ==> i < entries@.len(),
{
    let mut i: usize = entries.len();
    proof {
        assert(entries@.take(i as int) =~= entries@);
    }
    while i > 0
        invariant
            i <= entries.len(),
            find_entry(entries@, key@) == find_entry(entries@.take(i as int), key@),
        decreases i,
    {
        proof {
            assert(entries@.take(i as int).drop_last() =~= entries@.take(i - 1));
            assert(entries@.take(i as int).last() == entries@[i - 1]);
        }
        i = i - 1;
        if entries[i].0 == *key {
            return Some(i);
        }
    }
    None
}

impl Json {
    /// The entry of an object under a key; nothing for what is no object
    /// or has no such key.
    pub open spec fn member(self, key: Seq<char>) -> Option<Json> {
        match self {
            Json::Object(entries) => if entries.contains_key(key) {
                Some(entries[key])
            } else {
                None
            },
            _ => None,
        }
    }

    /// The position in an array of `len` items that `index` stands for:
    /// a negative index counts from the end, once.
    pub open spec fn position(len: nat, index: int) -> Option<int> {
        let i = if index < 0 {
            index + len
        } else {
            index
        };
        if 0 <= i < len {
            Some(i)
        } else {
            None
        }
    }

    /// The element of an array at an index; nothing for what is no array
    /// or has no such position.
    pub open spec fn element(self, index: int) -> Option<Json> {
        match self {
            Json::Array(items) => match Json::position(items.len(), index) {
                Some(i) => Some(items[i]),
                None => None,
            },
            _ => None,
        }
    }
}

impl Value {
    pub fn is_object(&self) -> (r: bool)
        ensures
            r == (self@ is Object),
    {
        match self {
            Value::Object(_) => true,
            _ => false,
        }
    }

    pub fn is_array(&self) -> (r: bool)
        ensures
            r == (self@ is Array),
    {
        match self {
            Value::Array(_) => true,
            _ => false,
        }
    }

    /// The entry of an object under `key`.
    pub fn get(&self, key: &String) -> (r: Option<&Value>)
        ensures
            match r {
                Some(v) => self@.member(key@) == Some(v@),
                None => self@.member(key@) is None,
            },
    {
        match self {
            Value::Object(entries) => {
                proof {
                    lemma_entries_view(entries@, key@);
                }
                match find_index(entries, key) {
                    Some(i) => Some(&entries[i].1),
                    None => None,
                }
            },
            _ => None,
        }
    }

    /// The element of an array at `index`; a negative index counts from
    /// the end.
    pub fn at(&self, index: i64) -> (r: Option<&Value>)
        ensures
            match r {
                Some(v) => self@.element(index as int) == Some(v@),
                None => self@.element(index as int) is None,
            },
    {
        match self {
            Value::Array(items) => {
                proof {
                    lemma_items_view(items@);
                }
                let len = items.len();
                if index < 0 {
                    let back: u64 = (0 - (index as i128)) as u64;
                    if back as u128 > len as u128 {
                        None
                    } else {
                        Some(&items[len - (back as usize)])
                    }
                } else if (index as u128) < (len as u128) {
                    Some(&items[index as usize])
                } else {
                    None
                }
            },
            _ => None,
        }
    }
}

/// The named values that a list of named values stands for, in their
/// order and with every repetition of a name. What they mean is
/// [`named_map`].
pub open spec fn pairs_view(pairs: Seq<(String, Value)>) -> Seq<(Seq<char>, Json)> {
    Seq::new(pairs.len(), |i: int| (pairs[i].0@, pairs[i].1@))
}

/// The mapping that named values stand for: a name that occurs more than
/// once stands for its last value, as a key of an object does.
pub open spec fn named_map(pairs: Seq<(Seq<char>, Json)>) -> Map<Seq<char>, Json>
    decreases pairs.len(),
{
    if pairs.len() == 0 {
        Map::empty()
    } else {
        named_map(pairs.drop_last()).insert(pairs.last().0, pairs.last().1)
    }
}

/// Named values stand for the mapping that the same entries of an object
/// stand for.
pub proof fn lemma_named_map(pairs: Seq<(String, Value)>)
    ensures
        named_map(pairs_view(pairs)) == entries_view(pairs),
    decreases pairs.len(),
{
    if pairs.len() > 0 {
        lemma_named_map(pairs.drop_last());
        assert(pairs_view(pairs).drop_last() =~= pairs_view(pairs.drop_last()));
        assert(entries_view(pairs) == entries_view(pairs.drop_last()).insert(
            pairs.last().0@,
            pairs.last().1@,
        ));
    } else {
        assert(entries_view(pairs) == Map::<Seq<char>, Json>::empty());
    }
}

/// The value of the argument `name` among named arguments: that of the
/// last entry of that name.
pub fn argument<'a>(args: &'a [(String, Value)], name: &String) -> (r: Option<&'a Value>)
    ensures
        match r {
            Some(v) => named_map(pairs_view(args@)).contains_key(name@) && named_map(
                pairs_view(args@),
            )[name@] == v@,
            None => !named_map(pairs_view(args@)).contains_key(name@),
        },
{
    let mut i: usize = args.len();
    proof {
        lemma_named_map(args@);
        lemma_entries_view(args@, name@);
        assert(args@.take(i as int) =~= args@);
    }
    while i > 0
        invariant
            i <= args.len(),
            find_entry(args@, name@) == find_entry(args@.take(i as int), name@),
        decreases i,
    {
        proof {
            assert(args@.take(i as int).drop_last() =~= args@.take(i - 1));
            assert(args@.take(i as int).last() == args@[i - 1]);
        }
        i = i - 1;
        if args[i].0 == *name {
            proof {
                lemma_named_map(args@);
                lemma_entries_view(args@, name@);
            }
            return Some(&args[i].1);
        }
    }
    proof {
        lemma_named_map(args@);
        lemma_entries_view(args@, name@);
    }
    None
}

/// Whether every value of a list is valid.
pub open spec fn all_valid(values: Seq<Json>) -> bool {
    forall|i: int| 0 <= i < values.len() ==> (#[trigger] values[i]).valid()
}

/// Whether what an evaluation gives is, where it is a value, a valid one.
pub open spec fn valid_outcome(r: Result<Json, ErrorView>) -> bool {
    r matches Ok(v) ==> v.valid()
}

/// The view of what an evaluation gives: a value or an error.
pub open spec fn outcome(r: Result<Value, Error>) -> Result<Json, ErrorView> {
    match r {
        Ok(v) => Ok(v@),
        Err(e) => Err(e@),
    }
}

impl Json {
    /// Whether the value is one of the value model: it holds no float that
    /// is infinite or not a number.
    pub open spec fn valid(self) -> bool
        decreases self,
    {
        match self {
            Json::Float(f) => f.finite(),
            Json::Array(items) => forall|i: int|
                #![trigger items[i]]
                0 <= i < items.len() ==> items[i].valid(),
            Json::Object(entries) => forall|key: Seq<char>|
                #![trigger entries[key]]
                entries.contains_key(key) ==> entries[key].valid(),
            _ => true,
        }
    }

    pub open spec fn is_number(self) -> bool {
        self is Integer || self is Float
    }

    /// The integer, where the value is one.
    pub open spec fn as_integer(self) -> Option<int> {
        match self {
            Json::Integer(i) => Some(i),
            _ => None,
        }
    }

    /// The integer, where the value is one and is not negative.
    pub open spec fn as_natural(self) -> Option<int> {
        match self {
            Json::Integer(i) if i >= 0 => Some(i),
            _ => None,
        }
    }

    /// The number as a float: a float as it is, an integer promoted to the
    /// nearest float.
    pub open spec fn as_float(self) -> Option<Float> {
        match self {
            Json::Integer(i) => Some(nearest(i)),
            Json::Float(f) => Some(f),
            _ => None,
        }
    }
}

impl Value {
    pub fn as_i64(&self) -> (r: Option<i64>)
        ensures
            self@.as_integer() == match r {
                Some(i) => Some(i as int),
                None => None,
            },
    {
        match self {
            Value::Integer(i) => Some(*i),
            _ => None,
        }
    }

    pub fn as_u64(&self) -> (r: Option<u64>)
        ensures
            self@.as_natural() == match r {
                Some(i) => Some(i as int),
                None => None,
            },
    {
        match self {
            Value::Integer(i) => if *i >= 0 {
                Some(*i as u64)
            } else {
                None
            },
            _ => None,
        }
    }

    /// The number as a float; an integer is promoted. The float of a valid
    /// value is finite.
    pub fn as_float(&self) -> (r: Option<Float>)
        ensures
            r == self@.as_float(),
            self@.valid() ==> (r matches Some(f) ==> f.finite()),
    {
        match self {
            Value::Integer(i) => Some(Float::from_i64(*i)),
            Value::Float(f) => Some(*f),
            _ => None,
        }
    }

    pub fn as_str(&self) -> (r: Option<&str>)
        ensures
            match r {
                Some(s) => self@ == Json::String(s@),
                None => !(self@ is String),
            },
    {
        match self {
            Value::String(s) => Some(s.as_str()),
            _ => None,
        }
    }
}

} // verus!
