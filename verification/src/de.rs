//! The decoding half of the serialization bridge.
//!
//! A structure is decoded straight from a value. Asked without a type, a
//! value presents itself by its kind ([`Visit`]); an option is absent for
//! `Nil` and present for everything else; an array and a table hand their
//! contents out one by one ([`SeqAccess`], [`MapAccess`]); and an enum is
//! written either as a string that names a unit variant or as a table with
//! exactly one entry, whose key names the variant and whose value is the
//! variant's payload ([`EnumAccess`]).

use crate::error::Error;
use crate::error::Failure;
use crate::float::Float;
use crate::float::FloatModel;
use crate::integer::integer_to_i64;
use crate::text::same_text;
use crate::value::items_model;
use crate::value::lemma_items_model;
use crate::value::Table;
use crate::value::Tree;
use crate::value::Value;
use vstd::prelude::*;
use vstd::string::StringExecFns;

verus! {

/// The items of an array, handed out from the first to the last.
#[derive(Debug)]
pub struct SeqAccess {
    elements: Vec<Value>,
    next: usize,
}

impl View for SeqAccess {
    type V = Seq<Tree>;

    /// The items that are still to come, in order.
    closed spec fn view(&self) -> Seq<Tree> {
        items_model(self.elements@).skip(self.next as int)
    }
}

impl SeqAccess {
    #[verifier::type_invariant]
    closed spec fn inv(self) -> bool {
        self.next <= self.elements.len()
    }

    /// A cursor over the items of an array.
    pub fn new(elements: Vec<Value>) -> (access: SeqAccess)
        ensures
            access@ == items_model(elements@),
    {
        proof {
            assert(items_model(elements@).skip(0) =~= items_model(elements@));
        }
        SeqAccess { elements, next: 0 }
    }

    /// The next item, if any is left.
    pub fn next_element(&mut self) -> (r: Option<Value>)
        ensures
            match r {
                Some(item) => old(self)@.len() > 0 && item@ == old(self)@[0] && final(self)@
                    == old(self)@.drop_first(),
                None => old(self)@.len() == 0 && final(self)@ == old(self)@,
            },
    {
        proof {
            use_type_invariant(&*self);
            lemma_items_model(self.elements@);
        }
        if self.next >= self.elements.len() {
            return None;
        }
        let mut taken = SeqAccess { elements: Vec::new(), next: 0 };
        core::mem::swap(self, &mut taken);
        let SeqAccess { mut elements, next } = taken;
        let ghost before = elements@;
        let mut item = Value::Nil;
        core::mem::swap(&mut elements[next], &mut item);
        proof {
            lemma_items_model(elements@);
            assert(items_model(elements@).skip(next + 1) =~= items_model(before).skip(
                next as int,
            ).drop_first());
        }
        *self = SeqAccess { elements, next: next + 1 };
        Some(item)
    }

    /// How many items are left.
    pub fn size_hint(&self) -> (r: Option<usize>)
        ensures
            r == Some(self@.len() as usize),
    {
        proof {
            use_type_invariant(self);
            lemma_items_model(self.elements@);
        }
        Some(self.elements.len() - self.next)
    }
}

/// The entries of a table, handed out one by one: first the key of an
/// entry, then its value.
#[derive(Debug)]
pub struct MapAccess {
    elements: Table,
}

impl View for MapAccess {
    type V = Map<Seq<char>, Tree>;

    /// The entries that are still to come.
    closed spec fn view(&self) -> Map<Seq<char>, Tree> {
        self.elements@
    }
}

impl MapAccess {
    /// The key of the entry whose value comes next, if any entry is left.
    pub closed spec fn upcoming(self) -> Option<Seq<char>> {
        if self.elements.size() > 0 {
            Some(self.elements.key_at(self.elements.size() - 1))
        } else {
            None
        }
    }

    /// A cursor over the entries of a table.
    pub fn new(table: Table) -> (access: MapAccess)
        ensures
            access@ == table@,
    {
        MapAccess { elements: table }
    }

    /// The key of the entry whose value comes next, if any entry is left.
    pub fn next_key(&self) -> (r: Option<String>)
        ensures
            match r {
                Some(key) => self.upcoming() == Some(key@) && self@.contains_key(key@),
                None => self.upcoming() is None && self@ == Map::<Seq<char>, Tree>::empty(),
            },
    {
        let count = self.elements.len();
        proof {
            use_type_invariant(&self.elements);
            self.elements.lemma_entries();
        }
        if count > 0 {
            let key = self.elements.key(count - 1).clone();
            assert(self@.contains_key(self.elements.key_at(count - 1)));
            Some(key)
        } else {
            assert(self@ =~= Map::<Seq<char>, Tree>::empty());
            None
        }
    }

    /// The value of the entry whose key came last, if any entry is left.
    pub fn next_value(&mut self) -> (r: Option<Value>)
        ensures
            match r {
                Some(value) => {
                    &&& old(self).upcoming() is Some
                    &&& old(self)@.contains_key(old(self).upcoming()->Some_0)
                    &&& value@ == old(self)@[old(self).upcoming()->Some_0]
                    &&& final(self)@ == old(self)@.remove(old(self).upcoming()->Some_0)
                },
                None => old(self).upcoming() is None && final(self)@ == old(self)@,
            },
    {
        match self.elements.pop() {
            Some((_, value)) => Some(value),
            None => None,
        }
    }
}

/// What a value presents itself as when it is asked without a type.
#[derive(Debug)]
pub enum Visit {
    Unit,
    I64(i64),
    Bool(bool),
    Float(Float),
    String(String),
    Array(SeqAccess),
    Table(MapAccess),
}

/// The model of a [`Visit`].
pub ghost enum Visited {
    Unit,
    I64(i64),
    Bool(bool),
    Float(FloatModel),
    String(Seq<char>),
    Array(Seq<Tree>),
    Table(Map<Seq<char>, Tree>),
}

impl View for Visit {
    type V = Visited;

    open spec fn view(&self) -> Visited {
        match *self {
            Visit::Unit => Visited::Unit,
            Visit::I64(v) => Visited::I64(v),
            Visit::Bool(b) => Visited::Bool(b),
            Visit::Float(f) => Visited::Float(f@),
            Visit::String(s) => Visited::String(s@),
            Visit::Array(access) => Visited::Array(access@),
            Visit::Table(access) => Visited::Table(access@),
        }
    }
}

/// What a tree presents itself as: `Nil` as the unit, an integer as a signed
/// 64-bit integer where it fits and as a range error where it does not, and
/// every other kind as itself.
pub open spec fn visited(tree: Tree) -> Result<Visited, Failure> {
    match tree {
        Tree::Nil => Ok(Visited::Unit),
        Tree::Integer(n) => if i64::MIN <= n <= i64::MAX {
            Ok(Visited::I64(n as i64))
        } else {
            Err(Failure::Range(n))
        },
        Tree::Boolean(b) => Ok(Visited::Bool(b)),
        Tree::Float(f) => Ok(Visited::Float(f)),
        Tree::String(s) => Ok(Visited::String(s)),
        Tree::Array(items) => Ok(Visited::Array(items)),
        Tree::Table(entries) => Ok(Visited::Table(entries)),
    }
}

/// The message that an enum has no variant of a name.
pub open spec fn no_constructor(enum_name: Seq<char>, variant: Seq<char>) -> Failure {
    Failure::Message("enum "@ + enum_name + " does not have variant constructor "@ + variant)
}

/// The message that a value has not the form of an enum.
pub open spec fn not_an_enum(enum_name: Seq<char>) -> Failure {
    Failure::Message(
        "value of enum "@ + enum_name
            + " should be represented by either string or table with exactly one key"@,
    )
}

/// Whether a name is among the names of the variants.
pub open spec fn is_variant(variants: Seq<&'static str>, name: Seq<char>) -> bool {
    exists|i: int| 0 <= i < variants.len() && (#[trigger] variants[i])@ == name
}

/// The variant that a tree names as an enum: a string names the variant
/// itself, a table with exactly one entry names it by the key of that entry.
/// A name that the enum does not have, and every other tree, is an error.
pub open spec fn variant_of(tree: Tree, enum_name: Seq<char>, variants: Seq<&'static str>) -> Result<
    Seq<char>,
    Failure,
> {
    match tree {
        Tree::String(s) => if is_variant(variants, s) {
            Ok(s)
        } else {
            Err(no_constructor(enum_name, s))
        },
        Tree::Table(entries) => if entries.dom().finite() && entries.dom().len() == 1 {
            let key = entries.dom().choose();
            if is_variant(variants, key) {
                Ok(key)
            } else {
                Err(no_constructor(enum_name, key))
            }
        } else {
            Err(not_an_enum(enum_name))
        },
        _ => Err(not_an_enum(enum_name)),
    }
}

/// The name of a variant, ready to be decoded as an identifier.
#[derive(Debug, Clone, Copy)]
pub struct StrDeserializer<'a>(pub &'a str);

impl<'a> StrDeserializer<'a> {
    /// A decoder of the given name.
    pub fn new(key: &'a str) -> (d: StrDeserializer<'a>)
        ensures
            d.0@ == key@,
    {
        StrDeserializer(key)
    }
}

/// A value that is to be decoded as an enum with the given name and
/// variants.
#[derive(Debug)]
pub struct EnumAccess {
    pub value: Value,
    pub name: &'static str,
    pub variants: &'static [&'static str],
}

/// A finite set of one element holds nothing but what it chooses.
proof fn lemma_sole_element(keys: Set<Seq<char>>, key: Seq<char>)
    requires
        keys.finite(),
        keys.len() == 1,
        keys.contains(key),
    ensures
        keys.choose() == key,
{
    let chosen = keys.choose();
    if chosen != key {
        assert(keys.remove(key).len() == 0);
        assert(keys.remove(key).contains(chosen));
    }
}

/// The form of an enum: a table names a variant exactly when it has one
/// entry whose key is the name of a variant. A table with no entry or with
/// more than one has not the form of an enum, and a table whose only key is
/// no variant names a variant that the enum does not have.
pub proof fn lemma_enum_as_table(
    entries: Map<Seq<char>, Tree>,
    enum_name: Seq<char>,
    variants: Seq<&'static str>,
)
    requires
        entries.dom().finite(),
    ensures
        variant_of(Tree::Table(entries), enum_name, variants) is Ok <==> entries.dom().len() == 1
            && is_variant(variants, entries.dom().choose()),
        entries.dom().len() != 1 ==> variant_of(Tree::Table(entries), enum_name, variants) == Err::<
            Seq<char>,
            Failure,
        >(not_an_enum(enum_name)),
        forall|key: Seq<char>|
            entries.dom().len() == 1 && entries.contains_key(key) ==> variant_of(
                Tree::Table(entries),
                enum_name,
                variants,
            ) == (if is_variant(variants, key) {
                Ok::<Seq<char>, Failure>(key)
            } else {
                Err::<Seq<char>, Failure>(no_constructor(enum_name, key))
            }),
{
    assert forall|key: Seq<char>|
        entries.dom().len() == 1 && entries.contains_key(key) implies variant_of(
        Tree::Table(entries),
        enum_name,
        variants,
    ) == (if is_variant(variants, key) {
        Ok::<Seq<char>, Failure>(key)
    } else {
        Err::<Seq<char>, Failure>(no_constructor(enum_name, key))
    }) by {
        lemma_sole_element(entries.dom(), key);
    }
}

impl EnumAccess {
    /// The message that the enum has no variant of the given name.
    pub fn no_constructor_error(&self, supposed_variant: &str) -> (e: Error)
        ensures
            e@ == no_constructor(self.name@, supposed_variant@),
    {
        Error::message(
            String::from_str("enum ").concat(self.name).concat(
                " does not have variant constructor ",
            ).concat(supposed_variant),
        )
    }

    /// The message that the value has not the form of an enum.
    pub fn structural_error(&self) -> (e: Error)
        ensures
            e@ == not_an_enum(self.name@),
    {
        Error::message(
            String::from_str("value of enum ").concat(self.name).concat(
                " should be represented by either string or table with exactly one key",
            ),
        )
    }

    /// The variant of the given name, where the enum has it.
    pub fn variant_deserializer(&self, name: &str) -> (r: Result<StrDeserializer<'static>, Error>)
        ensures
            match r {
                Ok(d) => is_variant(self.variants@, name@) && d.0@ == name@,
                Err(e) => !is_variant(self.variants@, name@) && e@ == no_constructor(
                    self.name@,
                    name@,
                ),
            },
    {
        let mut i: usize = 0;
        while i < self.variants.len()
            invariant
                i <= self.variants.len(),
                forall|j: int| 0 <= j < i ==> (#[trigger] self.variants@[j])@ != name@,
            decreases self.variants.len() - i,
        {
            if same_text(self.variants[i], name) {
                return Ok(StrDeserializer(self.variants[i]));
            }
            i += 1;
        }
        Err(self.no_constructor_error(name))
    }

    /// The variant that a table names: that of its key where it has exactly
    /// one entry.
    pub fn table_deserializer(&self, table: &Table) -> (r: Result<StrDeserializer<'static>, Error>)
        ensures
            match (r, variant_of(Tree::Table(table@), self.name@, self.variants@)) {
                (Ok(d), Ok(name)) => d.0@ == name,
                (Err(e), Err(failure)) => e@ == failure,
                _ => false,
            },
    {
        if table.len() == 1 {
            proof {
                use_type_invariant(table);
                table.lemma_entries();
                assert(table@.contains_key(table.key_at(0)));
                lemma_sole_element(table@.dom(), table.key_at(0));
            }
            self.variant_deserializer(table.key(0).as_str())
        } else {
            Err(self.structural_error())
        }
    }

    /// The variant that the value names.
    pub fn variant(&self) -> (r: Result<StrDeserializer<'static>, Error>)
        ensures
            match (r, variant_of(self.value@, self.name@, self.variants@)) {
                (Ok(d), Ok(name)) => d.0@ == name,
                (Err(e), Err(failure)) => e@ == failure,
                _ => false,
            },
    {
        match &self.value {
            Value::String(s) => self.variant_deserializer(s.as_str()),
            Value::Table(t) => self.table_deserializer(t),
            _ => Err(self.structural_error()),
        }
    }

    /// A unit variant has nothing more to decode.
    pub fn unit_variant(self) -> (r: Result<(), Error>)
        ensures
            r is Ok,
    {
        Ok(())
    }

    /// The payload of the variant: the value of an entry of the table that
    /// the enum is written as; nothing where it is not written as a table
    /// with an entry.
    pub fn payload(self) -> (r: Option<Value>)
        ensures
            match r {
                Some(value) => self.value@ is Table && exists|k: Seq<char>|
                    #![trigger self.value@->Table_0[k]]
                    self.value@->Table_0.contains_key(k) && self.value@->Table_0[k] == value@,
                None => !(self.value@ is Table) || self.value@->Table_0 == Map::<
                    Seq<char>,
                    Tree,
                >::empty(),
            },
    {
        match self.value {
            Value::Table(mut entries) => {
                let ghost whole = entries@;
                match entries.pop() {
                    Some((key, value)) => {
                        assert(self.value@->Table_0 == whole);
                        assert(self.value@->Table_0.contains_key(key@)
                            && self.value@->Table_0[key@] == value@);
                        Some(value)
                    },
                    None => None,
                }
            },
            _ => None,
        }
    }
}

impl Value {
    /// What the value presents itself as when it is asked without a type.
    pub fn deserialize_any(self) -> (r: Result<Visit, Error>)
        ensures
            match (r, visited(self@)) {
                (Ok(visit), Ok(expected)) => visit@ == expected,
                (Err(e), Err(failure)) => e@ == failure,
                _ => false,
            },
    {
        match self {
            Value::Nil => Ok(Visit::Unit),
            Value::Integer(n) => match integer_to_i64(&n) {
                Some(v) => Ok(Visit::I64(v)),
                None => Err(Error::too_large(n)),
            },
            Value::Boolean(b) => Ok(Visit::Bool(b)),
            Value::Float(f) => Ok(Visit::Float(f)),
            Value::String(s) => Ok(Visit::String(s)),
            Value::Array(items) => Ok(Visit::Array(SeqAccess::new(items))),
            Value::Table(entries) => Ok(Visit::Table(MapAccess::new(entries))),
        }
    }

    /// The value as an option: nothing for `Nil`, the value itself for
    /// everything else.
    pub fn deserialize_option(self) -> (r: Option<Value>)
        ensures
            match r {
                Some(value) => !(self@ is Nil) && value == self,
                None => self@ is Nil,
            },
    {
        match self {
            Value::Nil => None,
            other => Some(other),
        }
    }

    /// The value as an enum with the given name and variants.
    pub fn deserialize_enum(self, name: &'static str, variants: &'static [&'static str]) -> (r:
        EnumAccess)
        ensures
            r.value == self,
            r.name == name,
            r.variants == variants,
    {
        EnumAccess { value: self, name, variants }
    }
}

} // verus!
