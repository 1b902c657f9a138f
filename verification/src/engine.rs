//! The path engine: finding and placing values inside a tree.
//!
//! Finding walks a path and gives up, without an error, at the first step
//! that the tree does not have. Placing walks the same path and makes what is
//! missing: a step by name turns whatever is not a table into an empty table,
//! a step by position turns whatever is not an array into an array of one
//! `Nil`, and an array that is too short for a position is padded with `Nil`
//! (at its end for a position from the front, at its front for a position
//! from the end) until the position exists.

use crate::coerce::FromValue;
use crate::coerce::IntoValue;
use crate::error::Error;
use crate::error::Failure;
use crate::parser::IntoPath;
use crate::path::steps_of;
use crate::path::Path;
use crate::path::PathNode;
use crate::path::Step;
use crate::value::items_model;
use crate::value::lemma_items_model;
use crate::value::lemma_items_model_insert;
use crate::value::lemma_items_model_push;
use crate::value::Table;
use crate::value::Tree;
use crate::value::Value;
use vstd::prelude::*;

verus! {

/// The place in an array of the given length that an index addresses: the
/// index itself where it is not negative, else counted back from the end.
/// The result lies outside `0..len` where the array has no such place.
pub open spec fn resolve(index: int, len: int) -> int {
    if index >= 0 {
        index
    } else {
        len + index
    }
}

/// The part of a tree that one step leads to, if the tree has it.
pub open spec fn child(tree: Tree, step: Step) -> Option<Tree> {
    match (step, tree) {
        (Step::Identifier(name), Tree::Table(entries)) => if entries.contains_key(name) {
            Some(entries[name])
        } else {
            None
        },
        (Step::Index(index), Tree::Array(items)) => {
            let place = resolve(index, items.len() as int);
            if 0 <= place < items.len() {
                Some(items[place])
            } else {
                None
            }
        },
        _ => None,
    }
}

/// The part of a tree that a path leads to, if the tree has it. The empty
/// path leads to the tree itself.
pub open spec fn found(tree: Tree, path: Seq<Step>) -> Option<Tree>
    decreases path.len(),
{
    if path.len() == 0 {
        Some(tree)
    } else {
        match child(tree, path[0]) {
            Some(part) => found(part, path.drop_first()),
            None => None,
        }
    }
}

/// The entries that a step by name works on: those of a table, none for
/// anything else.
pub open spec fn entries_of(tree: Tree) -> Map<Seq<char>, Tree> {
    match tree {
        Tree::Table(entries) => entries,
        _ => Map::empty(),
    }
}

/// The items that a step by position works on: those of an array, a single
/// `Nil` for anything else.
pub open spec fn items_of(tree: Tree) -> Seq<Tree> {
    match tree {
        Tree::Array(items) => items,
        _ => seq![Tree::Nil],
    }
}

/// A run of `Nil`s.
pub open spec fn nils(count: int) -> Seq<Tree> {
    Seq::new(count as nat, |i: int| Tree::Nil)
}

/// The items after room has been made for an index: unchanged where the
/// index addresses one of them, else padded with `Nil` until it does.
pub open spec fn with_room(items: Seq<Tree>, index: int) -> Seq<Tree> {
    let place = resolve(index, items.len() as int);
    if place < 0 {
        nils(-place) + items
    } else if place >= items.len() {
        items + nils(place + 1 - items.len())
    } else {
        items
    }
}

/// The place that an index addresses once room has been made for it.
pub open spec fn place_of(items: Seq<Tree>, index: int) -> int {
    let place = resolve(index, items.len() as int);
    if place < 0 {
        0
    } else {
        place
    }
}

/// The part of a tree that placing descends into at one step: what is there,
/// or the `Nil` that is made.
pub open spec fn entered(tree: Tree, step: Step) -> Tree {
    match step {
        Step::Identifier(name) => if entries_of(tree).contains_key(name) {
            entries_of(tree)[name]
        } else {
            Tree::Nil
        },
        Step::Index(index) => with_room(items_of(tree), index)[place_of(items_of(tree), index)],
    }
}

/// The tree after placing has descended into it at one step and left `part`
/// there.
pub open spec fn rebuilt(tree: Tree, step: Step, part: Tree) -> Tree {
    match step {
        Step::Identifier(name) => Tree::Table(entries_of(tree).insert(name, part)),
        Step::Index(index) => Tree::Array(
            with_room(items_of(tree), index).update(place_of(items_of(tree), index), part),
        ),
    }
}

/// The tree after `value` has been placed at a path.
pub open spec fn placed(tree: Tree, path: Seq<Step>, value: Tree) -> Tree
    decreases path.len(),
{
    if path.len() == 0 {
        value
    } else {
        rebuilt(tree, path[0], placed(entered(tree, path[0]), path.drop_first(), value))
    }
}

/// What placing at a path finds in the place that it fills: the value that
/// was there, or `Nil` where the place had to be made.
pub open spec fn displaced(tree: Tree, path: Seq<Step>) -> Tree
    decreases path.len(),
{
    if path.len() == 0 {
        tree
    } else {
        displaced(entered(tree, path[0]), path.drop_first())
    }
}

/// After room has been made for an index, the index addresses the place
/// that room was made for.
pub proof fn lemma_room_is_made(items: Seq<Tree>, index: int)
    ensures
        0 <= place_of(items, index) < with_room(items, index).len(),
        resolve(index, with_room(items, index).len() as int) == place_of(items, index),
        with_room(with_room(items, index), index) == with_room(items, index),
        place_of(with_room(items, index), index) == place_of(items, index),
{
}

/// A negative index counts from the end of an array: the last item is at
/// `-1`, the first at minus the length. An index beyond either end leads
/// nowhere.
pub proof fn lemma_index_from_the_end(items: Seq<Tree>, index: int)
    ensures
        -items.len() <= index < 0 ==> child(Tree::Array(items), Step::Index(index)) == Some(
            items[items.len() + index],
        ),
        0 <= index < items.len() ==> child(Tree::Array(items), Step::Index(index)) == Some(
            items[index],
        ),
        index < -items.len() || index >= items.len() ==> child(
            Tree::Array(items),
            Step::Index(index),
        ) is None,
{
}

/// Placing at a path of two names in `Nil` makes a table with the first
/// name, which holds a table with the second name, which holds the value.
pub proof fn lemma_placed_in_nil(first: Seq<char>, second: Seq<char>, value: Tree)
    ensures
        placed(Tree::Nil, seq![Step::Identifier(first), Step::Identifier(second)], value)
            == Tree::Table(
            Map::<Seq<char>, Tree>::empty().insert(
                first,
                Tree::Table(Map::<Seq<char>, Tree>::empty().insert(second, value)),
            ),
        ),
{
    let path = seq![Step::Identifier(first), Step::Identifier(second)];
    let rest = path.drop_first();
    assert(rest =~= seq![Step::Identifier(second)]);
    assert(rest.drop_first() =~= Seq::<Step>::empty());
    assert(placed(Tree::Nil, rest.drop_first(), value) == value);
    assert(placed(Tree::Nil, rest, value) == Tree::Table(
        Map::<Seq<char>, Tree>::empty().insert(second, value),
    ));
}

/// What has been placed at a path is found at that path, and placing there
/// again displaces it: for every tree, path and value.
pub proof fn lemma_placed_is_found(tree: Tree, path: Seq<Step>, value: Tree)
    ensures
        found(placed(tree, path, value), path) == Some(value),
        displaced(placed(tree, path, value), path) == value,
    decreases path.len(),
{
    if path.len() > 0 {
        let step = path[0];
        let part = placed(entered(tree, step), path.drop_first(), value);
        let whole = rebuilt(tree, step, part);
        lemma_placed_is_found(entered(tree, step), path.drop_first(), value);
        match step {
            Step::Identifier(name) => {
                assert(child(whole, step) == Some(part));
                assert(entered(whole, step) == part);
            },
            Step::Index(index) => {
                let items = items_of(tree);
                lemma_room_is_made(items, index);
                let after = with_room(items, index).update(place_of(items, index), part);
                assert(with_room(after, index) == after);
                assert(child(whole, step) == Some(part));
                assert(entered(whole, step) == part);
            },
        }
    }
}

/// What getting at a path yields: nothing where the tree does not have the
/// path, else what is there, taken as the requested type, or the reason why
/// it cannot be taken so.
pub open spec fn got<T: FromValue>(tree: Tree, path: Seq<Step>) -> Result<
    Option<T::Form>,
    Failure,
> {
    match found(tree, path) {
        None => Ok(None),
        Some(part) => match T::coerced(part) {
            Ok(form) => Ok(Some(form)),
            Err(failure) => Err(failure),
        },
    }
}

/// Whether a result of getting is what was to be got.
pub open spec fn is_got<T: FromValue>(
    result: Result<Option<T>, Error>,
    expected: Result<Option<T::Form>, Failure>,
) -> bool {
    match (result, expected) {
        (Ok(None), Ok(None)) => true,
        (Ok(Some(x)), Ok(Some(form))) => x.form() == form,
        (Err(e), Err(failure)) => e@ == failure,
        _ => false,
    }
}

/// The place in an array of `len` items that an index addresses, if the
/// array has it.
pub fn map_index(index: isize, len: usize) -> (r: Option<usize>)
    ensures
        match r {
            Some(place) => place == resolve(index as int, len as int) && place < len,
            None => !(0 <= resolve(index as int, len as int) < len),
        },
{
    if index >= 0 {
        let place = index as usize;
        if place < len {
            Some(place)
        } else {
            None
        }
    } else {
        let back = (-(index + 1)) as usize;
        if back < len {
            Some(len - back - 1)
        } else {
            None
        }
    }
}

/// Makes room in an array for an index: pads the array with `Nil` until the
/// index addresses one of its items, and returns the place of that item.
fn make_room(items: &mut Vec<Value>, index: isize) -> (place: usize)
    ensures
        items_model(final(items)@) == with_room(items_model(old(items)@), index as int),
        place == place_of(items_model(old(items)@), index as int),
        place < final(items).len(),
{
    let ghost before = items_model(items@);
    let len = items.len();
    proof {
        lemma_items_model(items@);
    }
    if index >= 0 {
        let place = index as usize;
        while items.len() <= place
            invariant
                items.len() >= len,
                before.len() == len,
                items.len() <= place + 1 || items.len() == len,
                items_model(items@) == before + nils(items.len() - len),
            decreases place + 1 - items.len(),
        {
            proof {
                lemma_items_model_push(items@, Value::Nil);
                assert((before + nils(items.len() - len)).push(Tree::Nil) =~= before + nils(
                    items.len() + 1 - len,
                ));
            }
            items.push(Value::Nil);
        }
        proof {
            if place < len {
                assert(before + nils(0) =~= before);
            }
        }
        place
    } else {
        let back = ((-(index + 1)) as usize) + 1;
        if back <= len {
            len - back
        } else {
            let need = back - len;
            let mut made: usize = 0;
            proof {
                assert(nils(0) + before =~= before);
            }
            while made < need
                invariant
                    made <= need,
                    before.len() == len,
                    items.len() == len + made,
                    items_model(items@) == nils(made as int) + before,
                decreases need - made,
            {
                proof {
                    lemma_items_model_insert(items@, 0, Value::Nil);
                    assert((nils(made as int) + before).insert(0, Tree::Nil) =~= nils(made + 1)
                        + before);
                }
                items.insert(0, Value::Nil);
                made += 1;
            }
            0
        }
    }
}

impl Value {
    /// The part of the value that a path leads to, if the value has it.
    pub fn lookup(&self, path: &Path) -> (r: Option<&Value>)
        ensures
            match r {
                Some(part) => found(self@, path@) == Some(part@),
                None => found(self@, path@) is None,
            },
    {
        let mut current: &Value = self;
        let mut i: usize = 0;
        assert(path@.skip(0) =~= path@);
        while i < path.0.len()
            invariant
                i <= path.0.len(),
                found(self@, path@) == found(current@, path@.skip(i as int)),
            decreases path.0.len() - i,
        {
            let ghost rest = path@.skip(i as int);
            proof {
                assert(rest[0] == path.0[i as int]@);
                assert(rest.drop_first() =~= path@.skip(i + 1));
            }
            match &path.0[i] {
                PathNode::Identifier(name) => match current {
                    Value::Table(entries) => match entries.get(name.as_str()) {
                        Some(part) => {
                            current = part;
                        },
                        None => {
                            return None;
                        },
                    },
                    _ => {
                        return None;
                    },
                },
                PathNode::Index(index) => match current {
                    Value::Array(items) => {
                        proof {
                            lemma_items_model(items@);
                        }
                        match map_index(*index, items.len()) {
                            Some(place) => {
                                current = &items[place];
                            },
                            None => {
                                return None;
                            },
                        }
                    },
                    _ => {
                        return None;
                    },
                },
            }
            i += 1;
        }
        proof {
            assert(path@.skip(i as int).len() == 0);
        }
        Some(current)
    }

    /// Whether the value is a table.
    pub fn is_table(&self) -> (r: bool)
        ensures
            r == (self@ is Table),
    {
        matches!(self, Value::Table(_))
    }

    /// Whether the value is an array.
    pub fn is_array(&self) -> (r: bool)
        ensures
            r == (self@ is Array),
    {
        matches!(self, Value::Array(_))
    }

    /// Places `value` at the steps of `nodes` from position `from` on.
    fn put(&mut self, nodes: &Vec<PathNode>, from: usize, value: Value) -> (previous: Value)
        requires
            from <= nodes.len(),
        ensures
            final(self)@ == placed(old(self)@, steps_of(nodes@).skip(from as int), value@),
            previous@ == displaced(old(self)@, steps_of(nodes@).skip(from as int)),
        decreases nodes.len() - from,
    {
        let ghost rest = steps_of(nodes@).skip(from as int);
        if from >= nodes.len() {
            let mut value = value;
            core::mem::swap(self, &mut value);
            return value;
        }
        proof {
            assert(rest[0] == nodes[from as int]@);
            assert(rest.drop_first() =~= steps_of(nodes@).skip(from + 1));
        }
        match &nodes[from] {
            PathNode::Identifier(name) => {
                if !self.is_table() {
                    *self = Value::Table(Table::new());
                }
                match self {
                    Value::Table(entries) => {
                        let ghost made = entries@;
                        if !entries.contains_key(name.as_str()) {
                            entries.insert(name.clone(), Value::Nil);
                        }
                        let ghost ready = entries@;
                        match entries.position(name.as_str()) {
                            Some(i) => {
                                let place = entries.slot(i);
                                let previous = place.put(nodes, from + 1, value);
                                proof {
                                    assert(ready.insert(name@, final(place)@) =~= made.insert(
                                        name@,
                                        final(place)@,
                                    ));
                                }
                                previous
                            },
                            None => {
                                assert(false);
                                value
                            },
                        }
                    },
                    _ => {
                        assert(false);
                        value
                    },
                }
            },
            PathNode::Index(index) => {
                if !self.is_array() {
                    let mut items: Vec<Value> = Vec::new();
                    items.push(Value::Nil);
                    proof {
                        lemma_items_model(items@);
                        assert(items_model(items@) =~= seq![Tree::Nil]);
                    }
                    *self = Value::Array(items);
                }
                match self {
                    Value::Array(items) => {
                        let place = make_room(items, *index);
                        let ghost ready = items@;
                        let part = &mut items[place];
                        let previous = part.put(nodes, from + 1, value);
                        proof {
                            lemma_items_model(ready);
                            crate::value::lemma_items_model_update(
                                ready,
                                place as int,
                                *final(part),
                            );
                        }
                        previous
                    },
                    _ => {
                        assert(false);
                        value
                    },
                }
            },
        }
    }

    /// Places `value` at a path, making what the path needs on the way, and
    /// returns what the place held: the value that was there, or `Nil` where
    /// the place was made.
    pub fn set_at(&mut self, path: &Path, value: Value) -> (previous: Value)
        ensures
            final(self)@ == placed(old(self)@, path@, value@),
            previous@ == displaced(old(self)@, path@),
    {
        proof {
            assert(path@.skip(0) =~= path@);
        }
        self.put(&path.0, 0, value)
    }

    /// Gets what a path leads to, taken as the requested type: nothing where
    /// the value does not have the path, an error where what is there cannot
    /// be taken as the type.
    pub fn get_at<T: FromValue>(&self, path: &Path) -> (r: Result<Option<T>, Error>)
        ensures
            is_got::<T>(r, got::<T>(self@, path@)),
    {
        match self.lookup(path) {
            None => Ok(None),
            Some(part) => match T::from_value(part) {
                Ok(x) => Ok(Some(x)),
                Err(e) => Err(e),
            },
        }
    }

    /// Gets what a path leads to, taken as the requested type. The path may
    /// be given as a text; a text that is not a path is a path-parse error.
    pub fn get<T: FromValue, P: IntoPath>(&self, path: P) -> (r: Result<Option<T>, Error>)
        ensures
            match path.steps() {
                Ok(steps) => is_got::<T>(r, got::<T>(self@, steps)),
                Err(failure) => r is Err && r->Err_0@ == failure,
            },
    {
        match path.into_path() {
            Ok(parsed) => self.get_at(&parsed),
            Err(e) => Err(e),
        }
    }

    /// Places a value at a path, making what the path needs on the way, and
    /// returns what the place held: the value that was there, or `Nil` where
    /// the place was made. The path may be given as a text; a text that is
    /// not a path is a path-parse error, and the value is then untouched.
    pub fn set<P: IntoPath, V: IntoValue>(&mut self, path: P, value: V) -> (r: Result<Value, Error>)
        ensures
            match path.steps() {
                Ok(steps) => r is Ok && final(self)@ == placed(old(self)@, steps, value.tree())
                    && r->Ok_0@ == displaced(old(self)@, steps),
                Err(failure) => r is Err && r->Err_0@ == failure && *final(self) == *old(self),
            },
    {
        match path.into_path() {
            Ok(parsed) => Ok(self.set_at(&parsed, value.into_value())),
            Err(e) => Err(e),
        }
    }
}

} // verus!
