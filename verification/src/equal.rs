//! Equality of values.
//!
//! Two values are equal when they are of the same kind and hold equal things:
//! floats as floats are equal (the two zeros are, and a NaN equals nothing),
//! arrays place by place, and tables entry by entry, whatever the order in
//! which the entries were put.

use crate::float::floats_equal;
use crate::float::Float;
use crate::integer::integer_eq;
use crate::value::items_model;
use crate::value::lemma_items_model;
use crate::value::Table;
use crate::value::Tree;
use crate::value::Value;
use vstd::prelude::*;
use vstd::set_lib::lemma_subset_equality;
use vstd::std_specs::cmp::PartialEqSpecImpl;

verus! {

/// Whether two trees are equal.
pub open spec fn same_tree(a: Tree, b: Tree) -> bool
    decreases a,
{
    match (a, b) {
        (Tree::Float(x), Tree::Float(y)) => floats_equal(x.bits, y.bits),
        (Tree::Array(items), Tree::Array(others)) => items.len() == others.len() && forall|i: int|
            #![trigger others[i]]
            0 <= i < items.len() ==> same_tree(items[i], others[i]),
        (Tree::Table(entries), Tree::Table(others)) => entries.dom() =~= others.dom()
            && forall|k: Seq<char>|
            #![trigger others[k]]
            entries.contains_key(k) ==> same_tree(entries[k], others[k]),
        (Tree::Float(_), _) => false,
        (Tree::Array(_), _) => false,
        (Tree::Table(_), _) => false,
        _ => a == b,
    }
}

impl PartialEq for Float {
    fn eq(&self, other: &Float) -> (r: bool) {
        !self.is_nan() && !other.is_nan() && (self.bits == other.bits || (self.is_zero()
            && other.is_zero()))
    }
}

impl PartialEqSpecImpl for Float {
    open spec fn obeys_eq_spec() -> bool {
        true
    }

    open spec fn eq_spec(&self, other: &Float) -> bool {
        floats_equal(self.bits, other.bits)
    }
}

/// Whether two runs of values are equal, place by place.
fn same_items(items: &Vec<Value>, others: &Vec<Value>) -> (r: bool)
    ensures
        r == same_tree(Tree::Array(items_model(items@)), Tree::Array(items_model(others@))),
    decreases items,
{
    proof {
        lemma_items_model(items@);
        lemma_items_model(others@);
    }
    if items.len() != others.len() {
        return false;
    }
    let mut i: usize = 0;
    while i < items.len()
        invariant
            i <= items.len(),
            items.len() == others.len(),
            forall|j: int| 0 <= j < i ==> same_tree(items[j]@, #[trigger] others[j]@),
        decreases items.len() - i,
    {
        proof {
            broadcast use vstd::std_specs::vec::axiom_vec_index_decreases;

            assert(decreases_to!(items => items[i as int]));
            lemma_items_model(items@);
            lemma_items_model(others@);
        }
        if !items[i].eq(&others[i]) {
            proof {
                let held = items_model(others@)[i as int];
                assert(!same_tree(items_model(items@)[i as int], items_model(others@)[i as int]));
            }
            return false;
        }
        i += 1;
    }
    proof {
        let left = items_model(items@);
        let right = items_model(others@);
        assert forall|j: int| #![trigger right[j]] 0 <= j < left.len() implies same_tree(
            left[j],
            right[j],
        ) by {
            assert(same_tree(items[j]@, others[j]@));
        }
    }
    true
}

impl PartialEq for Table {
    fn eq(&self, other: &Table) -> (r: bool)
        decreases self,
    {
        proof {
            use_type_invariant(self);
            use_type_invariant(other);
            self.lemma_entries();
            other.lemma_entries();
        }
        let count = self.len();
        if count != other.len() {
            proof {
                assert(self@.dom().len() != other@.dom().len());
            }
            return false;
        }
        let mut i: usize = 0;
        while i < count
            invariant
                i <= count,
                count == self.size(),
                self.inv(),
                other.inv(),
                forall|j: int|
                    0 <= j < i ==> other@.contains_key(#[trigger] self.key_at(j)) && same_tree(
                        self.value_at(j)@,
                        other@[self.key_at(j)],
                    ),
            decreases count - i,
        {
            proof {
                self.lemma_value_smaller(i as int);
                self.lemma_entries();
            }
            match other.get(self.key(i).as_str()) {
                None => {
                    proof {
                        assert(self@.dom().contains(self.key_at(i as int)));
                        assert(!other@.dom().contains(self.key_at(i as int)));
                    }
                    return false;
                },
                Some(value) => {
                    if !self.value(i).eq(value) {
                        proof {
                            let k = self.key_at(i as int);
                            let held = other@[k];
                            assert(self@.contains_key(k));
                            assert(!same_tree(self@[k], other@[k]));
                        }
                        return false;
                    }
                },
            }
            i += 1;
        }
        proof {
            assert forall|k: Seq<char>| self@.contains_key(k) implies other@.contains_key(k)
                && same_tree(self@[k], other@[k]) by {
                let j = choose|j: int| 0 <= j < self.size() && self.key_at(j) == k;
                assert(other@.contains_key(self.key_at(j)));
            }
            assert(self@.dom().subset_of(other@.dom()));
            lemma_subset_equality(self@.dom(), other@.dom());
        }
        true
    }
}

impl PartialEqSpecImpl for Table {
    open spec fn obeys_eq_spec() -> bool {
        true
    }

    open spec fn eq_spec(&self, other: &Table) -> bool {
        same_tree(Tree::Table(self@), Tree::Table(other@))
    }
}

impl PartialEq for Value {
    fn eq(&self, other: &Value) -> (r: bool)
        decreases self,
    {
        match (self, other) {
            (Value::Nil, Value::Nil) => true,
            (Value::Integer(a), Value::Integer(b)) => integer_eq(a, b),
            (Value::Float(a), Value::Float(b)) => a.eq(b),
            (Value::Boolean(a), Value::Boolean(b)) => *a == *b,
            (Value::String(a), Value::String(b)) => *a == *b,
            (Value::Table(a), Value::Table(b)) => {
                assert(decreases_to!(self => self->Table_0));
                a.eq(b)
            },
            (Value::Array(a), Value::Array(b)) => {
                assert(decreases_to!(self => self->Array_0));
                same_items(a, b)
            },
            _ => false,
        }
    }
}

impl PartialEqSpecImpl for Value {
    open spec fn obeys_eq_spec() -> bool {
        true
    }

    open spec fn eq_spec(&self, other: &Value) -> bool {
        same_tree(self@, other@)
    }
}

} // verus!
