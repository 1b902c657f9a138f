//! The encoding half of the serialization bridge.
//!
//! A structure is encoded by visiting it: entering a field or a variant
//! pushes a key, leaving it pops the key, every element of a sequence moves
//! the running index of the innermost key on, and every primitive met on the
//! way is placed in the output at the path that the innermost key spells; a
//! primitive met with no key entered is the output itself.
//! [`ValueSerializer`] keeps that state and makes every decision; the visit
//! itself is driven from outside.
//!
//! [`ToStringSerializer`] turns the key of a map into the one string that a
//! key has to be, and refuses whatever is not a primitive.

use crate::engine::placed;
use crate::error::Error;
use crate::error::Failure;
use crate::float::Float;
use crate::integer::decimal_text;
use crate::integer::digits_text;
use crate::parser::parse_path;
use crate::path::Path;
use crate::text::natural_text;
use crate::text::push_char;
use crate::value::Tree;
use crate::value::Value;
use vstd::prelude::*;
use vstd::string::StringExecFns;

verus! {

/// The decimal text of a signed integer.
pub fn signed_text(v: i64) -> (text: String)
    ensures
        text@ == decimal_text(v as int),
{
    if v < 0 {
        let magnitude = ((-(v + 1)) as u64) + 1;
        proof {
            reveal_strlit("-");
            assert("-"@ =~= seq!['-']);
        }
        String::from_str("-").concat(natural_text(magnitude).as_str())
    } else {
        natural_text(v as u64)
    }
}

/// The path that a key on the stack spells: the key itself, followed by its
/// running index in brackets where it has one.
pub open spec fn key_text(key: (Seq<char>, Option<usize>)) -> Seq<char> {
    match key.1 {
        Some(index) => key.0 + "["@ + digits_text(index as nat) + "]"@,
        None => key.0,
    }
}

/// The key under which something named `name` is entered: the name after a
/// `/`, after the path of the innermost key where there is one.
pub open spec fn full_key(keys: Seq<(Seq<char>, Option<usize>)>, name: Seq<char>) -> Seq<char> {
    if keys.len() > 0 {
        key_text(keys.last()) + "/"@ + name
    } else {
        "/"@ + name
    }
}

/// The state of an encoding: the stack of keys and the output so far.
#[derive(Debug)]
pub struct ValueSerializer {
    pub keys: Vec<(String, Option<usize>)>,
    pub output: Value,
}

/// The model of a [`ValueSerializer`].
pub ghost struct Encoding {
    pub keys: Seq<(Seq<char>, Option<usize>)>,
    pub output: Tree,
}

/// The models of the keys on a stack.
pub open spec fn keys_of(keys: Seq<(String, Option<usize>)>) -> Seq<(Seq<char>, Option<usize>)> {
    Seq::new(keys.len(), |i: int| (keys[i].0@, keys[i].1))
}

impl View for ValueSerializer {
    type V = Encoding;

    open spec fn view(&self) -> Encoding {
        Encoding { keys: keys_of(self.keys@), output: self.output@ }
    }
}

impl Default for ValueSerializer {
    /// An encoding that has not begun: no key, and `Nil` for the output.
    fn default() -> (s: ValueSerializer)
        ensures
            s@ == (Encoding { keys: Seq::empty(), output: Tree::Nil }),
    {
        let s = ValueSerializer { keys: Vec::new(), output: Value::Nil };
        assert(s@.keys =~= Seq::empty());
        s
    }
}

/// The encoding after the running index of the innermost key has moved on,
/// or why it cannot.
pub open spec fn advanced(enc: Encoding) -> Result<Encoding, Failure> {
    if enc.keys.len() == 0 {
        Err(Failure::Message("keys is empty"@))
    } else {
        match enc.keys.last().1 {
            None => Ok(
                Encoding {
                    keys: enc.keys.update(enc.keys.len() - 1, (enc.keys.last().0, Some(0usize))),
                    output: enc.output,
                },
            ),
            Some(i) => if i == usize::MAX {
                Err(Failure::Message("last key index is too large"@))
            } else {
                Ok(
                    Encoding {
                        keys: enc.keys.update(
                            enc.keys.len() - 1,
                            (enc.keys.last().0, Some((i + 1) as usize)),
                        ),
                        output: enc.output,
                    },
                )
            },
        }
    }
}

/// The encoding after a value has been written: at the path that the
/// innermost key spells, or at the root where no key is entered. A key that
/// spells no path is a path-parse error.
pub open spec fn written(enc: Encoding, value: Tree) -> Result<Encoding, Failure> {
    if enc.keys.len() == 0 {
        Ok(Encoding { keys: enc.keys, output: value })
    } else {
        match parse_path(key_text(enc.keys.last())) {
            Ok(steps) => Ok(Encoding { keys: enc.keys, output: placed(enc.output, steps, value) }),
            Err(fault) => Err(Failure::PathParse { path: key_text(enc.keys.last()), fault }),
        }
    }
}

/// Whether a step of the encoding came out as it should: on success the
/// encoding is what was expected, on failure the error is, and the encoding
/// is as before.
pub open spec fn came_out(
    r: Result<(), Error>,
    before: Encoding,
    after: Encoding,
    expected: Result<Encoding, Failure>,
) -> bool {
    match (r, expected) {
        (Ok(()), Ok(enc)) => after == enc,
        (Err(e), Err(failure)) => e@ == failure && after == before,
        _ => false,
    }
}

/// The encoding after one more element of a sequence has been written, and
/// the failure that stopped it, if one did.
pub open spec fn element_written(enc: Encoding, value: Tree) -> (Encoding, Option<Failure>) {
    match advanced(enc) {
        Err(failure) => (enc, Some(failure)),
        Ok(moved) => match written(moved, value) {
            Err(failure) => (moved, Some(failure)),
            Ok(done) => (done, None),
        },
    }
}

/// The encoding after bytes have been written as a sequence of integers, up
/// to the first failure, and that failure, if there was one.
pub open spec fn bytes_written(enc: Encoding, bytes: Seq<u8>) -> (Encoding, Option<Failure>)
    decreases bytes.len(),
{
    if bytes.len() == 0 {
        (enc, None)
    } else {
        match element_written(enc, Tree::Integer(bytes[0] as int)) {
            (stopped, Some(failure)) => (stopped, Some(failure)),
            (done, None) => bytes_written(done, bytes.drop_first()),
        }
    }
}

/// The text of a key with its running index.
fn text_of_key(key: &String, index: Option<usize>) -> (text: String)
    ensures
        text@ == key_text((key@, index)),
{
    match index {
        Some(i) => key.clone().concat("[").concat(natural_text(i as u64).as_str()).concat("]"),
        None => key.clone(),
    }
}

impl ValueSerializer {
    /// The innermost key and its running index, if any key is entered.
    pub fn last_key_index_pair(&self) -> (r: Option<(&str, Option<usize>)>)
        ensures
            match r {
                Some((key, index)) => self@.keys.len() > 0 && (key@, index) == self@.keys.last(),
                None => self@.keys.len() == 0,
            },
    {
        let len = self.keys.len();
        if len > 0 {
            let pair = &self.keys[len - 1];
            Some((pair.0.as_str(), pair.1))
        } else {
            None
        }
    }

    /// Moves the running index of the innermost key on: to zero where it had
    /// none, else by one. Fails where no key is entered, and where the index
    /// cannot grow.
    pub fn inc_last_key_index(&mut self) -> (r: Result<(), Error>)
        ensures
            came_out(r, old(self)@, final(self)@, advanced(old(self)@)),
    {
        let len = self.keys.len();
        if len == 0 {
            return Err(Error::message(String::from_str("keys is empty")));
        }
        let next = match self.keys[len - 1].1 {
            Some(i) => {
                if i == usize::MAX {
                    return Err(Error::message(String::from_str("last key index is too large")));
                }
                i + 1
            },
            None => 0,
        };
        let ghost before = self.keys@;
        let pair = &mut self.keys[len - 1];
        pair.1 = Some(next);
        proof {
            assert(keys_of(self.keys@) =~= keys_of(before).update(
                len - 1,
                (before[len - 1].0@, Some(next)),
            ));
        }
        Ok(())
    }

    /// The key under which something named `key` is entered now.
    pub fn make_full_key(&self, key: &str) -> (r: String)
        ensures
            r@ == full_key(self@.keys, key@),
    {
        let len = self.keys.len();
        if len > 0 {
            let pair = &self.keys[len - 1];
            text_of_key(&pair.0, pair.1).concat("/").concat(key)
        } else {
            String::from_str("/").concat(key)
        }
    }

    /// Enters something named `key`.
    pub fn push_key(&mut self, key: &str)
        ensures
            final(self).output == old(self).output,
            final(self)@.keys == old(self)@.keys.push((full_key(old(self)@.keys, key@), None)),
    {
        let full = self.make_full_key(key);
        let ghost before = self.keys@;
        self.keys.push((full, None));
        proof {
            assert(keys_of(self.keys@) =~= keys_of(before).push((full@, None)));
        }
    }

    /// Leaves what was entered last, and returns its key.
    pub fn pop_key(&mut self) -> (r: Option<(String, Option<usize>)>)
        ensures
            final(self).output == old(self).output,
            match r {
                Some(pair) => old(self)@.keys.len() > 0 && (pair.0@, pair.1) == old(
                    self,
                )@.keys.last() && final(self)@.keys == old(self)@.keys.drop_last(),
                None => old(self)@.keys.len() == 0 && final(self)@.keys == old(self)@.keys,
            },
    {
        let ghost before = self.keys@;
        let r = self.keys.pop();
        proof {
            if before.len() > 0 {
                assert(keys_of(self.keys@) =~= keys_of(before).drop_last());
            }
        }
        r
    }

    /// Writes a value at the path that the innermost key spells, or at the
    /// root where no key is entered.
    ///
    /// Fails with a path-parse error where the key does not spell a path; the
    /// encoding is then as it was.
    pub fn serialize_primitive(&mut self, value: Value) -> (r: Result<(), Error>)
        ensures
            came_out(r, old(self)@, final(self)@, written(old(self)@, value@)),
    {
        let len = self.keys.len();
        if len == 0 {
            let root = Path::default();
            self.output.set_at(&root, value);
            return Ok(());
        }
        let key = text_of_key(&self.keys[len - 1].0, self.keys[len - 1].1);
        match self.output.set(key.as_str(), value) {
            Ok(_) => Ok(()),
            Err(e) => Err(e),
        }
    }

    /// Writes a boolean.
    pub fn serialize_bool(&mut self, v: bool) -> (r: Result<(), Error>)
        ensures
            came_out(r, old(self)@, final(self)@, written(old(self)@, Tree::Boolean(v))),
    {
        self.serialize_primitive(Value::from(v))
    }

    /// Writes an integer.
    pub fn serialize_i8(&mut self, v: i8) -> (r: Result<(), Error>)
        ensures
            came_out(r, old(self)@, final(self)@, written(old(self)@, Tree::Integer(v as int))),
    {
        self.serialize_i64(v as i64)
    }

    /// Writes an integer.
    pub fn serialize_i16(&mut self, v: i16) -> (r: Result<(), Error>)
        ensures
            came_out(r, old(self)@, final(self)@, written(old(self)@, Tree::Integer(v as int))),
    {
        self.serialize_i64(v as i64)
    }

    /// Writes an integer.
    pub fn serialize_i32(&mut self, v: i32) -> (r: Result<(), Error>)
        ensures
            came_out(r, old(self)@, final(self)@, written(old(self)@, Tree::Integer(v as int))),
    {
        self.serialize_i64(v as i64)
    }

    /// Writes an integer.
    pub fn serialize_i64(&mut self, v: i64) -> (r: Result<(), Error>)
        ensures
            came_out(r, old(self)@, final(self)@, written(old(self)@, Tree::Integer(v as int))),
    {
        self.serialize_primitive(Value::from(v))
    }

    /// Writes an integer.
    pub fn serialize_u8(&mut self, v: u8) -> (r: Result<(), Error>)
        ensures
            came_out(r, old(self)@, final(self)@, written(old(self)@, Tree::Integer(v as int))),
    {
        self.serialize_u64(v as u64)
    }

    /// Writes an integer.
    pub fn serialize_u16(&mut self, v: u16) -> (r: Result<(), Error>)
        ensures
            came_out(r, old(self)@, final(self)@, written(old(self)@, Tree::Integer(v as int))),
    {
        self.serialize_u64(v as u64)
    }

    /// Writes an integer.
    pub fn serialize_u32(&mut self, v: u32) -> (r: Result<(), Error>)
        ensures
            came_out(r, old(self)@, final(self)@, written(old(self)@, Tree::Integer(v as int))),
    {
        self.serialize_u64(v as u64)
    }

    /// Writes an integer.
    pub fn serialize_u64(&mut self, v: u64) -> (r: Result<(), Error>)
        ensures
            came_out(r, old(self)@, final(self)@, written(old(self)@, Tree::Integer(v as int))),
    {
        self.serialize_primitive(Value::from(v))
    }

    /// Writes a float.
    pub fn serialize_float(&mut self, v: Float) -> (r: Result<(), Error>)
        ensures
            came_out(r, old(self)@, final(self)@, written(old(self)@, Tree::Float(v@))),
    {
        self.serialize_primitive(Value::from(v))
    }

    /// Writes a character, as a string of one character.
    pub fn serialize_char(&mut self, v: char) -> (r: Result<(), Error>)
        ensures
            came_out(r, old(self)@, final(self)@, written(old(self)@, Tree::String(seq![v]))),
    {
        let mut text = String::new();
        push_char(&mut text, v);
        assert(text@ =~= seq![v]);
        self.serialize_primitive(Value::from(text))
    }

    /// Writes a string.
    pub fn serialize_str(&mut self, v: &str) -> (r: Result<(), Error>)
        ensures
            came_out(r, old(self)@, final(self)@, written(old(self)@, Tree::String(v@))),
    {
        self.serialize_primitive(Value::from(v))
    }

    /// Writes bytes, as a sequence of integers. Where an element fails, the
    /// elements before it have been written.
    pub fn serialize_bytes(&mut self, v: &[u8]) -> (r: Result<(), Error>)
        ensures
            final(self)@ == bytes_written(old(self)@, v@).0,
            match r {
                Ok(()) => bytes_written(old(self)@, v@).1 is None,
                Err(e) => bytes_written(old(self)@, v@).1 == Some(e@),
            },
    {
        let mut i: usize = 0;
        assert(v@.skip(0) =~= v@);
        while i < v.len()
            invariant
                i <= v.len(),
                bytes_written(old(self)@, v@) == bytes_written(self@, v@.skip(i as int)),
            decreases v.len() - i,
        {
            proof {
                assert(v@.skip(i as int)[0] == v@[i as int]);
                assert(v@.skip(i as int).drop_first() =~= v@.skip(i + 1));
            }
            match self.inc_last_key_index() {
                Ok(()) => {},
                Err(e) => {
                    return Err(e);
                },
            }
            match self.serialize_u8(v[i]) {
                Ok(()) => {},
                Err(e) => {
                    return Err(e);
                },
            }
            i += 1;
        }
        Ok(())
    }

    /// Writes `Nil` for nothing.
    pub fn serialize_none(&mut self) -> (r: Result<(), Error>)
        ensures
            came_out(r, old(self)@, final(self)@, written(old(self)@, Tree::Nil)),
    {
        self.serialize_unit()
    }

    /// Writes `Nil` for the unit.
    pub fn serialize_unit(&mut self) -> (r: Result<(), Error>)
        ensures
            came_out(r, old(self)@, final(self)@, written(old(self)@, Tree::Nil)),
    {
        self.serialize_primitive(Value::Nil)
    }

    /// Writes `Nil` for a unit struct.
    pub fn serialize_unit_struct(&mut self, name: &str) -> (r: Result<(), Error>)
        ensures
            came_out(r, old(self)@, final(self)@, written(old(self)@, Tree::Nil)),
    {
        self.serialize_unit()
    }

    /// Writes a unit variant, as the name of the variant.
    pub fn serialize_unit_variant(&mut self, name: &str, variant_index: u32, variant: &str) -> (r:
        Result<(), Error>)
        ensures
            came_out(r, old(self)@, final(self)@, written(old(self)@, Tree::String(variant@))),
    {
        self.serialize_str(variant)
    }
}

/// What `String::from_utf8_lossy` makes of bytes.
pub uninterp spec fn lossy_text_of(bytes: Seq<u8>) -> Seq<char>;

/// `String::from_utf8_lossy`: the text that the bytes encode, with a
/// replacement character for what is not UTF-8.
#[verifier::external_body]
pub(crate) fn lossy_text(bytes: &[u8]) -> (r: String)
    ensures
        r@ == lossy_text_of(bytes@),
{
    String::from_utf8_lossy(bytes).into_owned()
}

/// The refusal of something that is no primitive: what it is, its names, and
/// that it cannot be a string.
pub open spec fn refusal(what: Seq<char>, names: Seq<char>) -> Failure {
    Failure::Message(what + names + " can't serialize to string"@)
}

/// The encoder of map keys: every primitive becomes its text, everything else
/// is refused.
#[derive(Debug, Clone, Copy, Default)]
pub struct ToStringSerializer;

impl ToStringSerializer {
    /// The text of a boolean.
    pub fn serialize_bool(self, v: bool) -> (r: Result<String, Error>)
        ensures
            r is Ok && r->Ok_0@ == crate::render::bool_text(v),
    {
        Ok(
            if v {
                String::from_str("true")
            } else {
                String::from_str("false")
            },
        )
    }

    /// The decimal text of an integer.
    pub fn serialize_i8(self, v: i8) -> (r: Result<String, Error>)
        ensures
            r is Ok && r->Ok_0@ == decimal_text(v as int),
    {
        Ok(signed_text(v as i64))
    }

    /// The decimal text of an integer.
    pub fn serialize_i16(self, v: i16) -> (r: Result<String, Error>)
        ensures
            r is Ok && r->Ok_0@ == decimal_text(v as int),
    {
        Ok(signed_text(v as i64))
    }

    /// The decimal text of an integer.
    pub fn serialize_i32(self, v: i32) -> (r: Result<String, Error>)
        ensures
            r is Ok && r->Ok_0@ == decimal_text(v as int),
    {
        Ok(signed_text(v as i64))
    }

    /// The decimal text of an integer.
    pub fn serialize_i64(self, v: i64) -> (r: Result<String, Error>)
        ensures
            r is Ok && r->Ok_0@ == decimal_text(v as int),
    {
        Ok(signed_text(v))
    }

    /// The decimal text of an integer.
    pub fn serialize_u8(self, v: u8) -> (r: Result<String, Error>)
        ensures
            r is Ok && r->Ok_0@ == decimal_text(v as int),
    {
        Ok(natural_text(v as u64))
    }

    /// The decimal text of an integer.
    pub fn serialize_u16(self, v: u16) -> (r: Result<String, Error>)
        ensures
            r is Ok && r->Ok_0@ == decimal_text(v as int),
    {
        Ok(natural_text(v as u64))
    }

    /// The decimal text of an integer.
    pub fn serialize_u32(self, v: u32) -> (r: Result<String, Error>)
        ensures
            r is Ok && r->Ok_0@ == decimal_text(v as int),
    {
        Ok(natural_text(v as u64))
    }

    /// The decimal text of an integer.
    pub fn serialize_u64(self, v: u64) -> (r: Result<String, Error>)
        ensures
            r is Ok && r->Ok_0@ == decimal_text(v as int),
    {
        Ok(natural_text(v))
    }

    /// The text of a float.
    pub fn serialize_float(self, v: &Float) -> (r: Result<String, Error>)
        ensures
            r is Ok && r->Ok_0@ == v@.text,
    {
        Ok(v.text.clone())
    }

    /// The string of one character.
    pub fn serialize_char(self, v: char) -> (r: Result<String, Error>)
        ensures
            r is Ok && r->Ok_0@ == seq![v],
    {
        let mut text = String::new();
        push_char(&mut text, v);
        assert(text@ =~= seq![v]);
        Ok(text)
    }

    /// The string itself.
    pub fn serialize_str(self, v: &str) -> (r: Result<String, Error>)
        ensures
            r is Ok && r->Ok_0@ == v@,
    {
        Ok(String::from_str(v))
    }

    /// The text that the bytes encode, with replacements for what is not
    /// UTF-8.
    pub fn serialize_bytes(self, v: &[u8]) -> (r: Result<String, Error>)
        ensures
            r is Ok && r->Ok_0@ == lossy_text_of(v@),
    {
        Ok(lossy_text(v))
    }

    /// The empty string, for nothing.
    pub fn serialize_none(self) -> (r: Result<String, Error>)
        ensures
            r is Ok && r->Ok_0@ == Seq::<char>::empty(),
    {
        self.serialize_unit()
    }

    /// The empty string, for the unit.
    pub fn serialize_unit(self) -> (r: Result<String, Error>)
        ensures
            r is Ok && r->Ok_0@ == Seq::<char>::empty(),
    {
        Ok(String::new())
    }

    /// The empty string, for a unit struct.
    pub fn serialize_unit_struct(self, name: &str) -> (r: Result<String, Error>)
        ensures
            r is Ok && r->Ok_0@ == Seq::<char>::empty(),
    {
        self.serialize_unit()
    }

    /// The name of a unit variant.
    pub fn serialize_unit_variant(self, name: &str, variant_index: u32, variant: &str) -> (r:
        Result<String, Error>)
        ensures
            r is Ok && r->Ok_0@ == variant@,
    {
        Ok(String::from_str(variant))
    }

    /// A sequence is refused.
    pub fn serialize_seq(self, len: Option<usize>) -> (r: Result<ToStringSerializer, Error>)
        ensures
            r is Err && r->Err_0@ == refusal("seq"@, Seq::empty()),
    {
        assert("seq"@ + Seq::<char>::empty() =~= "seq"@);
        Err(Error::message(String::from_str("seq").concat(" can't serialize to string")))
    }

    /// A tuple is refused.
    pub fn serialize_tuple(self, len: usize) -> (r: Result<ToStringSerializer, Error>)
        ensures
            r is Err && r->Err_0@ == refusal("tuple"@, Seq::empty()),
    {
        assert("tuple"@ + Seq::<char>::empty() =~= "tuple"@);
        Err(Error::message(String::from_str("tuple").concat(" can't serialize to string")))
    }

    /// A tuple struct is refused.
    pub fn serialize_tuple_struct(self, name: &str, len: usize) -> (r: Result<
        ToStringSerializer,
        Error,
    >)
        ensures
            r is Err && r->Err_0@ == refusal("tuple struct "@, name@),
    {
        Err(
            Error::message(
                String::from_str("tuple struct ").concat(name).concat(" can't serialize to string"),
            ),
        )
    }

    /// A tuple variant is refused.
    pub fn serialize_tuple_variant(
        self,
        name: &str,
        variant_index: u32,
        variant: &str,
        len: usize,
    ) -> (r: Result<ToStringSerializer, Error>)
        ensures
            r is Err && r->Err_0@ == refusal("tuple variant "@, name@ + "::"@ + variant@),
    {
        let names = String::from_str(name).concat("::").concat(variant);
        Err(
            Error::message(
                String::from_str("tuple variant ").concat(names.as_str()).concat(
                    " can't serialize to string",
                ),
            ),
        )
    }

    /// A map is refused.
    pub fn serialize_map(self, len: Option<usize>) -> (r: Result<ToStringSerializer, Error>)
        ensures
            r is Err && r->Err_0@ == Failure::Message("map can't serialize to string key"@),
    {
        Err(Error::message(String::from_str("map can't serialize to string key")))
    }

    /// A struct is refused.
    pub fn serialize_struct(self, name: &str, len: usize) -> (r: Result<ToStringSerializer, Error>)
        ensures
            r is Err && r->Err_0@ == refusal("struct "@, name@),
    {
        Err(
            Error::message(
                String::from_str("struct ").concat(name).concat(" can't serialize to string"),
            ),
        )
    }

    /// A struct variant is refused.
    pub fn serialize_struct_variant(
        self,
        name: &str,
        variant_index: u32,
        variant: &str,
        len: usize,
    ) -> (r: Result<ToStringSerializer, Error>)
        ensures
            r is Err && r->Err_0@ == refusal("struct variant "@, name@ + "::"@ + variant@),
    {
        let names = String::from_str(name).concat("::").concat(variant);
        Err(
            Error::message(
                String::from_str("struct variant ").concat(names.as_str()).concat(
                    " can't serialize to string",
                ),
            ),
        )
    }
}

} // verus!
