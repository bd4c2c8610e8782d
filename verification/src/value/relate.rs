//! Equality and order of values.

use vstd::prelude::*;
use vstd::utf8::encode_utf8;
use crate::value::float::{order_of, Float, Order};
use crate::value::{
    entries_view, find_entry, find_index, items_view, lemma_entries_view, lemma_items_view, Json,
    Value,
};

verus! {

/// The order of two byte strings: the first byte that differs decides, and
/// a proper prefix comes first.
pub open spec fn bytes_order(a: Seq<u8>, b: Seq<u8>) -> Order
    decreases a.len(),
{
    if a.len() == 0 {
        if b.len() == 0 {
            Order::Equal
        } else {
            Order::Less
        }
    } else if b.len() == 0 {
        Order::Greater
    } else if a[0] < b[0] {
        Order::Less
    } else if a[0] > b[0] {
        Order::Greater
    } else {
        bytes_order(a.drop_first(), b.drop_first())
    }
}

/// The order of two texts: that of their UTF-8 encodings, which is the
/// order of their characters' code points.
pub open spec fn text_order(a: Seq<char>, b: Seq<char>) -> Order {
    bytes_order(encode_utf8(a), encode_utf8(b))
}

impl Json {
    /// How two numbers stand to each other. Two integers are compared as
    /// integers; with a float among them, both are compared as floats.
    pub open spec fn number_order(self, other: Json) -> Order {
        match (self, other) {
            (Json::Integer(x), Json::Integer(y)) => order_of(x, y),
            _ => self.as_float()->0.order_spec(other.as_float()->0),
        }
    }

    /// How two values stand to each other: defined for two numbers and for
    /// two strings, and for nothing else.
    pub open spec fn order(self, other: Json) -> Option<Order> {
        if self.is_number() && other.is_number() {
            Some(self.number_order(other))
        } else if self is String && other is String {
            Some(text_order(self->String_0, other->String_0))
        } else {
            None
        }
    }

    /// Whether two values are equal. Values of one kind are compared by
    /// content: numbers by value, arrays item by item, objects key by key.
    /// Values of different kinds are unequal.
    pub open spec fn same(self, other: Json) -> bool
        decreases self,
    {
        match (self, other) {
            (Json::Null, Json::Null) => true,
            (Json::Bool(x), Json::Bool(y)) => x == y,
            (Json::String(x), Json::String(y)) => x == y,
            (Json::Array(x), Json::Array(y)) => {
                &&& x.len() == y.len()
                &&& forall|i: int| 0 <= i < x.len() ==> (#[trigger] x[i]).same(y[i])
            },
            (Json::Object(x), Json::Object(y)) => {
                &&& forall|k: Seq<char>|
                    #![trigger x.contains_key(k)]
                    #![trigger y.contains_key(k)]
                    x.contains_key(k) <==> y.contains_key(k)
                &&& forall|k: Seq<char>|
                    #![trigger x[k]]
                    #![trigger y[k]]
                    x.contains_key(k) ==> x[k].same(y[k])
            },
            _ => self.is_number() && other.is_number() && self.number_order(other)
                == Order::Equal,
        }
    }
}

/// Compares two byte strings.
pub fn order_bytes(a: &[u8], b: &[u8]) -> (r: Order)
    ensures
        r == bytes_order(a@, b@),
{
    let mut i: usize = 0;
    proof {
        assert(a@.skip(0) =~= a@);
        assert(b@.skip(0) =~= b@);
    }
    while i < a.len() && i < b.len()
        invariant
            i <= a.len(),
            i <= b.len(),
            bytes_order(a@, b@) == bytes_order(a@.skip(i as int), b@.skip(i as int)),
        decreases a.len() - i,
    {
        proof {
            assert(a@.skip(i as int).drop_first() =~= a@.skip(i + 1));
            assert(b@.skip(i as int).drop_first() =~= b@.skip(i + 1));
        }
        if a[i] < b[i] {
            return Order::Less;
        }
        if a[i] > b[i] {
            return Order::Greater;
        }
        i = i + 1;
    }
    if i < b.len() {
        Order::Less
    } else if i < a.len() {
        Order::Greater
    } else {
        Order::Equal
    }
}

impl Value {
    /// How `self` stands to `other`, where both are numbers or both are
    /// strings.
    pub fn order(&self, other: &Value) -> (r: Option<Order>)
        ensures
            r == self@.order(other@),
    {
        match (self, other) {
            (Value::Integer(x), Value::Integer(y)) => {
                if *x < *y {
                    Some(Order::Less)
                } else if *x == *y {
                    Some(Order::Equal)
                } else {
                    Some(Order::Greater)
                }
            },
            (Value::String(x), Value::String(y)) => Some(
                order_bytes(x.as_str().as_bytes(), y.as_str().as_bytes()),
            ),
            _ => match (self.as_float(), other.as_float()) {
                (Some(x), Some(y)) => Some(x.order(y)),
                _ => None,
            },
        }
    }
}

/// Whether two lists of items are equal item by item.
fn same_items(x: &Vec<Value>, y: &Vec<Value>) -> (r: bool)
    ensures
        r == Json::Array(items_view(x@)).same(Json::Array(items_view(y@))),
    decreases x, 0nat,
{
    proof {
        lemma_items_view(x@);
        lemma_items_view(y@);
    }
    if x.len() != y.len() {
        return false;
    }
    let mut i: usize = 0;
    while i < x.len()
        invariant
            i <= x.len(),
            x.len() == y.len(),
            items_view(x@).len() == x@.len(),
            items_view(y@).len() == y@.len(),
            forall|k: int| 0 <= k < x@.len() ==> #[trigger] items_view(x@)[k] == x@[k]@,
            forall|k: int| 0 <= k < y@.len() ==> #[trigger] items_view(y@)[k] == y@[k]@,
            forall|k: int| 0 <= k < i ==> (#[trigger] items_view(x@)[k]).same(items_view(y@)[k]),
        decreases x.len() - i,
    {
        assert(decreases_to!(x => x[i as int]));
        if !x[i].same(&y[i]) {
            assert(!items_view(x@)[i as int].same(items_view(y@)[i as int]));
            return false;
        }
        i = i + 1;
    }
    true
}

/// Objects that differ under one key are unequal.
proof fn lemma_objects_differ(x: Map<Seq<char>, Json>, y: Map<Seq<char>, Json>, k: Seq<char>)
    requires
        x.contains_key(k) != y.contains_key(k) || (x.contains_key(k) && !x[k].same(y[k])),
    ensures
        !Json::Object(x).same(Json::Object(y)),
{
    let a = Json::Object(x);
    let b = Json::Object(y);
    if a.same(b) {
        assert(a->Object_0.contains_key(k) == b->Object_0.contains_key(k));
        assert(a->Object_0.contains_key(k) ==> a->Object_0[k].same(b->Object_0[k]));
    }
}

/// Whether two lists of entries stand for equal objects.
fn same_entries(x: &Vec<(String, Value)>, y: &Vec<(String, Value)>) -> (r: bool)
    ensures
        r == Json::Object(entries_view(x@)).same(Json::Object(entries_view(y@))),
    decreases x, 0nat,
{
    let ghost xs = entries_view(x@);
    let ghost ys = entries_view(y@);
    let mut i: usize = 0;
    while i < x.len()
        invariant
            i <= x.len(),
            xs == entries_view(x@),
            ys == entries_view(y@),
            forall|k: int|
                0 <= k < i && find_entry(x@, (#[trigger] x@[k]).0@) == Some(k) ==> ys.contains_key(
                    x@[k].0@,
                ) && x@[k].1@.same(ys[x@[k].0@]),
        decreases x.len() - i,
    {
        let key = &x[i].0;
        proof {
            lemma_entries_view(x@, key@);
            lemma_entries_view(y@, key@);
        }
        match find_index(x, key) {
            Some(last) => {
                if last == i {
                    match find_index(y, key) {
                        None => {
                            proof {
                                lemma_objects_differ(xs, ys, key@);
                            }
                            return false;
                        },
                        Some(j) => {
                            assert(decreases_to!(x => x[i as int]));
                            if !x[i].1.same(&y[j].1) {
                                proof {
                                    lemma_objects_differ(xs, ys, key@);
                                }
                                return false;
                            }
                        },
                    }
                }
            },
            None => {},
        }
        i = i + 1;
    }
    let mut j: usize = 0;
    while j < y.len()
        invariant
            j <= y.len(),
            xs == entries_view(x@),
            ys == entries_view(y@),
            forall|k: int| 0 <= k < j ==> xs.contains_key((#[trigger] y@[k]).0@),
        decreases y.len() - j,
    {
        let key = &y[j].0;
        proof {
            lemma_entries_view(x@, key@);
            lemma_entries_view(y@, key@);
        }
        if find_index(x, key).is_none() {
            proof {
                lemma_objects_differ(xs, ys, key@);
            }
            return false;
        }
        j = j + 1;
    }
    proof {
        assert forall|k: Seq<char>| xs.contains_key(k) implies ys.contains_key(k) by {
            lemma_entries_view(x@, k);
            let at = find_entry(x@, k)->0;
            assert(find_entry(x@, x@[at].0@) == Some(at));
        }
        assert forall|k: Seq<char>| xs.contains_key(k) implies (#[trigger] xs[k]).same(ys[k]) by {
            lemma_entries_view(x@, k);
            let at = find_entry(x@, k)->0;
            assert(find_entry(x@, x@[at].0@) == Some(at));
        }
        assert forall|k: Seq<char>| ys.contains_key(k) implies xs.contains_key(k) by {
            lemma_entries_view(y@, k);
            let at = find_entry(y@, k)->0;
            assert(xs.contains_key(y@[at].0@));
        }
    }
    true
}

impl Value {
    /// Whether `self` equals `other`. Values of different kinds are
    /// unequal; the comparison never fails.
    pub fn same(&self, other: &Value) -> (r: bool)
        ensures
            r == self@.same(other@),
        decreases self, 1nat,
    {
        match (self, other) {
            (Value::Null, Value::Null) => true,
            (Value::Bool(x), Value::Bool(y)) => *x == *y,
            (Value::String(x), Value::String(y)) => *x == *y,
            (Value::Array(x), Value::Array(y)) => same_items(x, y),
            (Value::Object(x), Value::Object(y)) => same_entries(x, y),
            (Value::Integer(_), Value::Integer(_))
            | (Value::Integer(_), Value::Float(_))
            | (Value::Float(_), Value::Integer(_))
            | (Value::Float(_), Value::Float(_)) => match self.order(other) {
                Some(Order::Equal) => true,
                _ => false,
            },
            _ => false,
        }
    }
}

/// Values of different kinds are never equal, and never fail to compare:
/// a string and anything that is no string are unequal.
pub proof fn lemma_kinds_differ(a: Json, b: Json)
    ensures
        a is String && !(b is String) ==> !a.same(b) && !b.same(a),
        a is Bool && !(b is Bool) ==> !a.same(b) && !b.same(a),
        a is Null && !(b is Null) ==> !a.same(b) && !b.same(a),
        a is Array && !(b is Array) ==> !a.same(b) && !b.same(a),
        a is Object && !(b is Object) ==> !a.same(b) && !b.same(a),
        a.is_number() && !b.is_number() ==> !a.same(b) && !b.same(a),
{
}

/// Whether every item of a list is valid.
fn valid_items(items: &Vec<Value>) -> (r: bool)
    ensures
        r == Json::Array(items_view(items@)).valid(),
    decreases items, 0nat,
{
    proof {
        lemma_items_view(items@);
    }
    let mut i: usize = 0;
    while i < items.len()
        invariant
            i <= items.len(),
            items_view(items@).len() == items@.len(),
            forall|k: int| 0 <= k < items@.len() ==> #[trigger] items_view(items@)[k] == items@[k]@,
            forall|k: int| 0 <= k < i ==> (#[trigger] items_view(items@)[k]).valid(),
        decreases items.len() - i,
    {
        assert(decreases_to!(items => items[i as int]));
        if !items[i].is_valid() {
            proof {
                let array = Json::Array(items_view(items@));
                if array.valid() {
                    assert(array->Array_0[i as int].valid());
                }
            }
            return false;
        }
        i = i + 1;
    }
    true
}

/// Whether every value that a key of the entries stands for is valid. An
/// entry that a later one of its key replaces is not looked at.
fn valid_entries(entries: &Vec<(String, Value)>) -> (r: bool)
    ensures
        r == Json::Object(entries_view(entries@)).valid(),
    decreases entries, 0nat,
{
    let ghost map = entries_view(entries@);
    let mut i: usize = 0;
    while i < entries.len()
        invariant
            i <= entries.len(),
            map == entries_view(entries@),
            forall|k: int|
                0 <= k < i && find_entry(entries@, (#[trigger] entries@[k]).0@) == Some(k)
                    ==> entries@[k].1@.valid(),
        decreases entries.len() - i,
    {
        let key = &entries[i].0;
        proof {
            lemma_entries_view(entries@, key@);
        }
        match find_index(entries, key) {
            Some(last) => {
                if last == i {
                    assert(decreases_to!(entries => entries[i as int]));
                    if !entries[i].1.is_valid() {
                        proof {
                            let object = Json::Object(map);
                            if object.valid() {
                                assert(object->Object_0.contains_key(key@));
                                assert(object->Object_0[key@].valid());
                            }
                        }
                        return false;
                    }
                }
            },
            None => {},
        }
        i = i + 1;
    }
    proof {
        assert forall|key: Seq<char>| map.contains_key(key) implies (
        #[trigger] map[key]).valid() by {
            lemma_entries_view(entries@, key);
            let at = find_entry(entries@, key)->0;
            assert(find_entry(entries@, entries@[at].0@) == Some(at));
        }
    }
    true
}

impl Value {
    /// Whether the value is one of the value model: whether it holds no
    /// float that is infinite or not a number.
    pub fn is_valid(&self) -> (r: bool)
        ensures
            r == self@.valid(),
        decreases self, 1nat,
    {
        match self {
            Value::Float(f) => f.is_finite(),
            Value::Array(items) => valid_items(items),
            Value::Object(entries) => valid_entries(entries),
            _ => true,
        }
    }
}

} // verus!
