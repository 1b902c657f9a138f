//! The value tree and its mathematical model.
//!
//! A [`Value`] is one of seven kinds. Contracts speak of a value through its
//! view, a [`Tree`]: big integers become `int`, strings become `Seq<char>`,
//! arrays become `Seq<Tree>` and tables become `Map<Seq<char>, Tree>`.
//!
//! A [`Table`] keeps its entries in insertion order in two parallel vectors.
//! That no key occurs twice is its type invariant, so every table that
//! executable code can hold is a finite map.

use crate::float::Float;
use crate::float::FloatModel;
use crate::integer::int_of;
use crate::integer::integer_clone;
use num_bigint::BigInt;
use vstd::prelude::*;
use vstd::string::StringExecFns;

verus! {

/// The model of a value.
pub ghost enum Tree {
    Nil,
    Integer(int),
    Float(FloatModel),
    Boolean(bool),
    String(Seq<char>),
    Table(Map<Seq<char>, Tree>),
    Array(Seq<Tree>),
}

/// A dynamically typed value.
#[derive(Debug)]
pub enum Value {
    Nil,
    Integer(BigInt),
    Float(Float),
    Boolean(bool),
    String(String),
    Table(Table),
    Array(Vec<Value>),
}

/// A mapping from strings to values with unique keys.
#[derive(Debug)]
pub struct Table {
    keys: Vec<String>,
    values: Vec<Value>,
}

/// No two of the keys are the same string.
pub open spec fn distinct_keys(keys: Seq<String>) -> bool {
    forall|i: int, j: int| 0 <= i < j < keys.len() ==> keys[i]@ != keys[j]@
}

/// The models of a sequence of values, in order.
pub open spec fn items_model(items: Seq<Value>) -> Seq<Tree>
    decreases items,
{
    if items.len() == 0 {
        Seq::empty()
    } else {
        items_model(items.drop_last()).push(items.last().model())
    }
}

/// The map that parallel sequences of keys and values stand for.
pub open spec fn entries_model(keys: Seq<String>, values: Seq<Value>) -> Map<Seq<char>, Tree>
    decreases values,
{
    if values.len() == 0 || keys.len() != values.len() {
        Map::empty()
    } else {
        entries_model(keys.drop_last(), values.drop_last()).insert(
            keys.last()@,
            values.last().model(),
        )
    }
}

impl Value {
    /// The tree that the value stands for.
    pub open spec fn model(self) -> Tree
        decreases self,
    {
        match self {
            Value::Nil => Tree::Nil,
            Value::Integer(n) => Tree::Integer(int_of(n)),
            Value::Float(f) => Tree::Float(f@),
            Value::Boolean(b) => Tree::Boolean(b),
            Value::String(s) => Tree::String(s@),
            Value::Table(t) => Tree::Table(t.model()),
            Value::Array(items) => Tree::Array(items_model(items@)),
        }
    }
}

impl View for Value {
    type V = Tree;

    open spec fn view(&self) -> Tree {
        self.model()
    }
}

impl View for Table {
    type V = Map<Seq<char>, Tree>;

    open spec fn view(&self) -> Map<Seq<char>, Tree> {
        self.model()
    }
}

/// The model of a sequence of values has the same length, and each place
/// holds the model of the value at that place.
pub proof fn lemma_items_model(items: Seq<Value>)
    ensures
        items_model(items).len() == items.len(),
        forall|i: int| 0 <= i < items.len() ==> #[trigger] items_model(items)[i] == items[i]@,
    decreases items.len(),
{
    if items.len() > 0 {
        lemma_items_model(items.drop_last());
        assert forall|i: int| 0 <= i < items.len() implies #[trigger] items_model(items)[i]
            == items[i]@ by {
            if i < items.len() - 1 {
                assert(items.drop_last()[i] == items[i]);
            }
        }
    }
}

/// Pushing a value pushes its model.
pub proof fn lemma_items_model_push(items: Seq<Value>, last: Value)
    ensures
        items_model(items.push(last)) == items_model(items).push(last@),
{
    assert(items.push(last).drop_last() == items);
}

/// Replacing a value replaces its model.
pub proof fn lemma_items_model_update(items: Seq<Value>, i: int, item: Value)
    requires
        0 <= i < items.len(),
    ensures
        items_model(items.update(i, item)) == items_model(items).update(i, item@),
{
    lemma_items_model(items);
    lemma_items_model(items.update(i, item));
    assert(items_model(items.update(i, item)) =~= items_model(items).update(i, item@));
}

/// Inserting a value inserts its model at the same place.
pub proof fn lemma_items_model_insert(items: Seq<Value>, i: int, item: Value)
    requires
        0 <= i <= items.len(),
    ensures
        items_model(items.insert(i, item)) == items_model(items).insert(i, item@),
{
    lemma_items_model(items);
    lemma_items_model(items.insert(i, item));
    assert(items_model(items.insert(i, item)) =~= items_model(items).insert(i, item@));
}

/// What parallel sequences of keys and values stand for: a finite map whose
/// keys are the given keys; where the keys are distinct each key maps to the
/// model of its value and the map has as many entries as there are keys.
proof fn lemma_entries_model(keys: Seq<String>, values: Seq<Value>)
    requires
        keys.len() == values.len(),
    ensures
        entries_model(keys, values).dom().finite(),
        forall|k: Seq<char>| #[trigger]
            entries_model(keys, values).contains_key(k) <==> exists|i: int|
                0 <= i < keys.len() && keys[i]@ == k,
        distinct_keys(keys) ==> entries_model(keys, values).dom().len() == keys.len(),
        distinct_keys(keys) ==> forall|i: int|
            0 <= i < keys.len() ==> #[trigger] entries_model(keys, values)[keys[i]@]
                == values[i]@,
    decreases values.len(),
{
    if values.len() > 0 {
        let front_keys = keys.drop_last();
        let front_values = values.drop_last();
        lemma_entries_model(front_keys, front_values);
        let front = entries_model(front_keys, front_values);
        let whole = entries_model(keys, values);
        assert forall|k: Seq<char>| #[trigger] whole.contains_key(k) implies exists|i: int|
            0 <= i < keys.len() && keys[i]@ == k by {
            if k == keys.last()@ {
                assert(keys[keys.len() - 1]@ == k);
            } else {
                assert(front.contains_key(k));
                let i = choose|i: int| 0 <= i < front_keys.len() && front_keys[i]@ == k;
                assert(keys[i]@ == k);
            }
        }
        assert forall|k: Seq<char>|
            (exists|i: int| 0 <= i < keys.len() && keys[i]@ == k) implies #[trigger]
            whole.contains_key(k) by {
            let i = choose|i: int| 0 <= i < keys.len() && keys[i]@ == k;
            if i < keys.len() - 1 {
                assert(front_keys[i]@ == k);
            }
        }
        if distinct_keys(keys) {
            assert(distinct_keys(front_keys)) by {
                assert forall|i: int, j: int| 0 <= i < j < front_keys.len() implies front_keys[i]@
                    != front_keys[j]@ by {
                    assert(keys[i]@ != keys[j]@);
                }
            }
            assert(!front.contains_key(keys.last()@)) by {
                if front.contains_key(keys.last()@) {
                    let i = choose|i: int|
                        0 <= i < front_keys.len() && front_keys[i]@ == keys.last()@;
                    assert(keys[i]@ != keys[keys.len() - 1]@);
                }
            }
            assert(whole.dom() =~= front.dom().insert(keys.last()@));
            assert forall|i: int| 0 <= i < keys.len() implies #[trigger] whole[keys[i]@]
                == values[i]@ by {
                if i < keys.len() - 1 {
                    assert(keys[i]@ != keys[keys.len() - 1]@);
                    assert(front_keys[i] == keys[i]);
                    assert(front_values[i] == values[i]);
                }
            }
        }
    }
}

/// Without its last key, a sequence of distinct keys is still distinct, and
/// the last key is not among the others.
proof fn lemma_distinct_front(keys: Seq<String>)
    requires
        distinct_keys(keys),
        keys.len() > 0,
    ensures
        distinct_keys(keys.drop_last()),
        forall|i: int| 0 <= i < keys.len() - 1 ==> keys[i]@ != keys.last()@,
{
    assert forall|i: int, j: int| 0 <= i < j < keys.drop_last().len() implies keys.drop_last()[i]@
        != keys.drop_last()[j]@ by {
        assert(keys[i]@ != keys[j]@);
    }
    assert forall|i: int| 0 <= i < keys.len() - 1 implies keys[i]@ != keys.last()@ by {
        assert(keys[i]@ != keys[keys.len() - 1]@);
    }
}

/// Replacing the value of one entry maps its key to the new value's model.
proof fn lemma_entries_update(keys: Seq<String>, values: Seq<Value>, i: int, value: Value)
    requires
        keys.len() == values.len(),
        distinct_keys(keys),
        0 <= i < keys.len(),
    ensures
        entries_model(keys, values.update(i, value)) == entries_model(keys, values).insert(
            keys[i]@,
            value@,
        ),
{
    let before = entries_model(keys, values);
    let after = entries_model(keys, values.update(i, value));
    lemma_entries_model(keys, values);
    lemma_entries_model(keys, values.update(i, value));
    assert forall|k: Seq<char>| #[trigger] after.contains_key(k) implies after[k]
        == before.insert(keys[i]@, value@)[k] by {
        let j = choose|j: int| 0 <= j < keys.len() && keys[j]@ == k;
        assert(after[keys[j]@] == values.update(i, value)[j]@);
        assert(before[keys[j]@] == values[j]@);
        if j != i {
            if j < i {
                assert(keys[j]@ != keys[i]@);
            } else {
                assert(keys[i]@ != keys[j]@);
            }
        }
    }
    assert(before.contains_key(keys[i]@));
    assert(after =~= before.insert(keys[i]@, value@));
}

/// Appending an entry with a new key inserts it into the map.
proof fn lemma_entries_push(keys: Seq<String>, values: Seq<Value>, key: String, value: Value)
    requires
        keys.len() == values.len(),
    ensures
        entries_model(keys.push(key), values.push(value)) == entries_model(keys, values).insert(
            key@,
            value@,
        ),
{
    assert(keys.push(key).drop_last() == keys);
    assert(values.push(value).drop_last() == values);
}

/// Dropping the last entry of a table with distinct keys removes its key
/// from the map.
proof fn lemma_entries_drop_last(keys: Seq<String>, values: Seq<Value>)
    requires
        keys.len() == values.len(),
        keys.len() > 0,
        distinct_keys(keys),
    ensures
        entries_model(keys.drop_last(), values.drop_last()) == entries_model(keys, values).remove(
            keys.last()@,
        ),
        entries_model(keys, values).contains_key(keys.last()@),
        entries_model(keys, values)[keys.last()@] == values.last()@,
{
    lemma_distinct_front(keys);
    lemma_entries_model(keys.drop_last(), values.drop_last());
    let front = entries_model(keys.drop_last(), values.drop_last());
    assert(!front.contains_key(keys.last()@)) by {
        if front.contains_key(keys.last()@) {
            let i = choose|i: int|
                0 <= i < keys.drop_last().len() && keys.drop_last()[i]@ == keys.last()@;
            assert(keys[i]@ != keys.last()@);
        }
    }
    assert(front =~= entries_model(keys, values).remove(keys.last()@));
}

/// Entries with the same keys and values of the same models stand for the
/// same map.
proof fn lemma_entries_same(
    keys: Seq<String>,
    values: Seq<Value>,
    other_keys: Seq<String>,
    other_values: Seq<Value>,
)
    requires
        keys.len() == values.len(),
        other_keys.len() == other_values.len(),
        keys.len() == other_keys.len(),
        forall|i: int| 0 <= i < keys.len() ==> keys[i]@ == other_keys[i]@,
        forall|i: int| 0 <= i < values.len() ==> values[i]@ == other_values[i]@,
    ensures
        entries_model(keys, values) == entries_model(other_keys, other_values),
    decreases values.len(),
{
    if values.len() > 0 {
        lemma_entries_same(
            keys.drop_last(),
            values.drop_last(),
            other_keys.drop_last(),
            other_values.drop_last(),
        );
        assert(keys.last()@ == other_keys.last()@);
        assert(values.last()@ == other_values.last()@);
    }
}

impl Table {
    /// The type invariant: one value for each key, and no key twice.
    #[verifier::type_invariant]
    pub closed spec fn inv(self) -> bool {
        self.keys.len() == self.values.len() && distinct_keys(self.keys@)
    }

    /// The map that the table stands for.
    pub closed spec fn model(self) -> Map<Seq<char>, Tree>
        decreases self,
    {
        entries_model(self.keys@, self.values@)
    }

    /// The number of entries.
    pub closed spec fn size(self) -> nat {
        self.keys@.len()
    }

    /// The key of the entry at a position.
    pub closed spec fn key_at(self, i: int) -> Seq<char> {
        self.keys@[i]@
    }

    /// The value of the entry at a position.
    pub closed spec fn value_at(self, i: int) -> Value {
        self.values@[i]
    }

    /// How the entries of a table relate to the map that it stands for.
    pub proof fn lemma_entries(self)
        requires
            self.inv(),
        ensures
            self@.dom().finite(),
            self@.dom().len() == self.size(),
            forall|k: Seq<char>| #[trigger]
                self@.contains_key(k) <==> exists|i: int|
                    0 <= i < self.size() && self.key_at(i) == k,
            forall|i: int|
                0 <= i < self.size() ==> self@.contains_key(#[trigger] self.key_at(i))
                    && self@[self.key_at(i)] == self.value_at(i)@,
            forall|i: int, j: int|
                0 <= i < self.size() && 0 <= j < self.size() && i != j ==> self.key_at(i)
                    != self.key_at(j),
    {
        lemma_entries_model(self.keys@, self.values@);
        assert forall|k: Seq<char>| #[trigger] self@.contains_key(k) implies exists|i: int|
            0 <= i < self.size() && self.key_at(i) == k by {
            let i = choose|i: int| 0 <= i < self.keys@.len() && self.keys@[i]@ == k;
            assert(self.key_at(i) == k);
        }
        assert forall|k: Seq<char>|
            (exists|i: int| 0 <= i < self.size() && self.key_at(i) == k) implies #[trigger]
            self@.contains_key(k) by {
            let i = choose|i: int| 0 <= i < self.size() && self.key_at(i) == k;
            assert(self.keys@[i]@ == k);
        }
        assert forall|i: int| 0 <= i < self.size() implies self@.contains_key(
            #[trigger] self.key_at(i),
        ) && self@[self.key_at(i)] == self.value_at(i)@ by {
            assert(self.keys@[i]@ == self.key_at(i));
            assert(entries_model(self.keys@, self.values@)[self.keys@[i]@] == self.values@[i]@);
        }
        assert forall|i: int, j: int|
            0 <= i < self.size() && 0 <= j < self.size() && i != j implies self.key_at(i)
            != self.key_at(j) by {
            if i < j {
                assert(self.keys@[i]@ != self.keys@[j]@);
            } else {
                assert(self.keys@[j]@ != self.keys@[i]@);
            }
        }
    }

    /// The value of an entry is a part of the table.
    pub proof fn lemma_value_smaller(self, i: int)
        requires
            self.inv(),
            0 <= i < self.size(),
        ensures
            decreases_to!(self => self.value_at(i)),
    {
        broadcast use vstd::std_specs::vec::axiom_vec_index_decreases;

        assert(decreases_to!(self.values => self.values[i]));
    }

    /// The empty table.
    pub fn new() -> (t: Table)
        ensures
            t@ == Map::<Seq<char>, Tree>::empty(),
            t.size() == 0,
    {
        Table { keys: Vec::new(), values: Vec::new() }
    }

    /// The number of entries.
    pub fn len(&self) -> (n: usize)
        ensures
            n == self.size(),
            n == self@.dom().len(),
            self@.dom().finite(),
    {
        proof {
            use_type_invariant(self);
            self.lemma_entries();
        }
        self.keys.len()
    }

    /// The position of the entry with the given key, if there is one.
    pub fn position(&self, key: &str) -> (r: Option<usize>)
        ensures
            match r {
                Some(i) => i < self.size() && self.key_at(i as int) == key@ && self@.contains_key(
                    key@,
                ) && self@[key@] == self.value_at(i as int)@,
                None => !self@.contains_key(key@),
            },
    {
        proof {
            use_type_invariant(self);
            self.lemma_entries();
        }
        let wanted = String::from_str(key);
        let mut i: usize = 0;
        while i < self.keys.len()
            invariant
                self.inv(),
                i <= self.keys.len(),
                wanted@ == key@,
                forall|j: int| 0 <= j < i ==> self.key_at(j) != key@,
            decreases self.keys.len() - i,
        {
            if self.keys[i] == wanted {
                proof {
                    self.lemma_entries();
                }
                assert(self.key_at(i as int) == key@);
                return Some(i);
            }
            i += 1;
        }
        assert(!self@.contains_key(key@)) by {
            if self@.contains_key(key@) {
                let j = choose|j: int| 0 <= j < self.size() && self.key_at(j) == key@;
                assert(self.key_at(j) != key@);
            }
        }
        None
    }

    /// Whether the table has no entries.
    pub fn is_empty(&self) -> (r: bool)
        ensures
            r == (self.size() == 0),
            r == (self@ == Map::<Seq<char>, Tree>::empty()),
    {
        proof {
            use_type_invariant(self);
            self.lemma_entries();
            if self.size() == 0 {
                assert(self@ =~= Map::<Seq<char>, Tree>::empty());
            } else {
                assert(self@.contains_key(self.key_at(0)));
            }
        }
        self.keys.len() == 0
    }

    /// The key of the entry at a position.
    pub fn key(&self, i: usize) -> (k: &String)
        requires
            i < self.size(),
        ensures
            k@ == self.key_at(i as int),
    {
        &self.keys[i]
    }

    /// The value of the entry at a position.
    pub fn value(&self, i: usize) -> (v: &Value)
        requires
            i < self.size(),
        ensures
            *v == self.value_at(i as int),
    {
        proof {
            use_type_invariant(self);
        }
        &self.values[i]
    }

    /// The value under the given key, if there is one.
    pub fn get(&self, key: &str) -> (r: Option<&Value>)
        ensures
            match r {
                Some(v) => self@.contains_key(key@) && v@ == self@[key@],
                None => !self@.contains_key(key@),
            },
    {
        match self.position(key) {
            Some(i) => Some(self.value(i)),
            None => None,
        }
    }

    /// Whether the table has an entry under the given key.
    pub fn contains_key(&self, key: &str) -> (r: bool)
        ensures
            r == self@.contains_key(key@),
    {
        self.position(key).is_some()
    }

    /// Mutable access to the value of the entry at a position. The table
    /// afterwards maps that entry's key to whatever the value has become; all
    /// else is as before.
    pub fn slot(&mut self, i: usize) -> (r: &mut Value)
        requires
            i < old(self).size(),
        ensures
            *r == old(self).value_at(i as int),
            final(self).size() == old(self).size(),
            forall|j: int|
                0 <= j < old(self).size() ==> final(self).key_at(j) == old(self).key_at(j),
            forall|j: int|
                0 <= j < old(self).size() && j != i ==> final(self).value_at(j) == old(
                    self,
                ).value_at(j),
            final(self).value_at(i as int) == *final(r),
            final(self)@ == old(self)@.insert(old(self).key_at(i as int), final(r)@),
    {
        proof {
            use_type_invariant(&*self);
        }
        let ghost keys = self.keys@;
        let ghost values = self.values@;
        let r = &mut self.values[i];
        proof {
            lemma_entries_update(keys, values, i as int, *final(r));
        }
        r
    }

    /// Puts a value under a key: replaces the value of the entry with that
    /// key, or adds an entry at the end. Returns the value that was there.
    pub fn insert(&mut self, key: String, value: Value) -> (previous: Option<Value>)
        ensures
            final(self)@ == old(self)@.insert(key@, value@),
            match previous {
                Some(p) => old(self)@.contains_key(key@) && p@ == old(self)@[key@],
                None => !old(self)@.contains_key(key@),
            },
    {
        proof {
            use_type_invariant(&*self);
            self.lemma_entries();
        }
        match self.position(key.as_str()) {
            Some(i) => {
                let mut value = value;
                let place = self.slot(i);
                core::mem::swap(place, &mut value);
                Some(value)
            },
            None => {
                let mut taken = Table::new();
                core::mem::swap(self, &mut taken);
                let Table { mut keys, mut values } = taken;
                proof {
                    lemma_entries_push(keys@, values@, key, value);
                    assert forall|a: int, b: int| 0 <= a < b < keys@.push(key).len() implies keys@.push(
                        key,
                    )[a]@ != keys@.push(key)[b]@ by {
                        if b < keys@.len() {
                            assert(keys@[a]@ != keys@[b]@);
                        } else {
                            assert(old(self).key_at(a) == keys@[a]@);
                        }
                    }
                }
                keys.push(key);
                values.push(value);
                *self = Table { keys, values };
                None
            },
        }
    }

    /// Takes the last entry out of the table.
    pub fn pop(&mut self) -> (r: Option<(String, Value)>)
        ensures
            match r {
                Some((k, v)) => {
                    &&& old(self).size() > 0
                    &&& final(self).size() == old(self).size() - 1
                    &&& k@ == old(self).key_at(old(self).size() - 1)
                    &&& v == old(self).value_at(old(self).size() - 1)
                    &&& forall|j: int|
                        0 <= j < final(self).size() ==> final(self).key_at(j) == old(self).key_at(j)
                            && final(self).value_at(j) == old(self).value_at(j)
                    &&& old(self)@.contains_key(k@)
                    &&& old(self)@[k@] == v@
                    &&& final(self)@ == old(self)@.remove(k@)
                },
                None => {
                    &&& old(self).size() == 0
                    &&& old(self)@ == Map::<Seq<char>, Tree>::empty()
                    &&& *final(self) == *old(self)
                },
            },
    {
        proof {
            use_type_invariant(&*self);
        }
        if self.keys.len() == 0 {
            return None;
        }
        let mut taken = Table::new();
        core::mem::swap(self, &mut taken);
        let Table { mut keys, mut values } = taken;
        proof {
            lemma_entries_drop_last(keys@, values@);
            lemma_distinct_front(keys@);
        }
        let k = keys.pop().unwrap();
        let v = values.pop().unwrap();
        *self = Table { keys, values };
        Some((k, v))
    }
}

impl Clone for Table {
    /// A copy that stands for the same map, with the entries in the same
    /// order.
    fn clone(&self) -> (copy: Table)
        ensures
            copy@ == self@,
            copy.size() == self.size(),
        decreases self,
    {
        proof {
            use_type_invariant(self);
        }
        let mut keys: Vec<String> = Vec::new();
        let mut values: Vec<Value> = Vec::new();
        let mut i: usize = 0;
        while i < self.keys.len()
            invariant
                self.inv(),
                i <= self.keys.len(),
                keys.len() == i,
                values.len() == i,
                forall|j: int| 0 <= j < i ==> keys[j]@ == self.keys[j]@,
                forall|j: int| 0 <= j < i ==> values[j]@ == self.values[j]@,
            decreases self.keys.len() - i,
        {
            proof {
                broadcast use vstd::std_specs::vec::axiom_vec_index_decreases;

                assert(decreases_to!(self.values => self.values[i as int]));
            }
            keys.push(self.keys[i].clone());
            values.push(self.values[i].clone());
            i += 1;
        }
        proof {
            assert forall|a: int, b: int| 0 <= a < b < keys@.len() implies keys@[a]@
                != keys@[b]@ by {
                assert(self.keys@[a]@ != self.keys@[b]@);
            }
            lemma_entries_same(keys@, values@, self.keys@, self.values@);
        }
        Table { keys, values }
    }
}

/// Copies of the items, in order.
pub fn clone_items(items: &Vec<Value>) -> (copies: Vec<Value>)
    ensures
        items_model(copies@) == items_model(items@),
        copies.len() == items.len(),
    decreases items,
{
    let mut copies: Vec<Value> = Vec::new();
    let mut i: usize = 0;
    while i < items.len()
        invariant
            i <= items.len(),
            copies.len() == i,
            forall|j: int| 0 <= j < i ==> copies[j]@ == items[j]@,
        decreases items.len() - i,
    {
        proof {
            broadcast use vstd::std_specs::vec::axiom_vec_index_decreases;

            assert(decreases_to!(items => items[i as int]));
        }
        copies.push(items[i].clone());
        i += 1;
    }
    proof {
        lemma_items_model(items@);
        lemma_items_model(copies@);
        assert(items_model(copies@) =~= items_model(items@));
    }
    copies
}

impl Clone for Value {
    /// A copy that stands for the same tree and shares nothing with the
    /// value.
    fn clone(&self) -> (copy: Value)
        ensures
            copy@ == self@,
        decreases self,
    {
        match self {
            Value::Nil => Value::Nil,
            Value::Integer(n) => Value::Integer(integer_clone(n)),
            Value::Float(f) => Value::Float(f.clone()),
            Value::Boolean(b) => Value::Boolean(*b),
            Value::String(s) => Value::String(s.clone()),
            Value::Table(entries) => {
                assert(decreases_to!(self => self->Table_0));
                Value::Table(entries.clone())
            },
            Value::Array(items) => {
                assert(decreases_to!(self => self->Array_0));
                Value::Array(clone_items(items))
            },
        }
    }
}

} // verus!
