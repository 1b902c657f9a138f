//! Conversions between values and primitive types.
//!
//! Into a value every conversion is total and keeps what it is given. Out of
//! a value a conversion follows a loose table: a boolean may come from a
//! number or from one of a few words, an integer from a boolean, a float or a
//! numeric text, a string from any scalar. What the table does not allow is a
//! type error that says what was found and what was expected; an integer that
//! does not fit the requested width is a range error.

use crate::error::found_of;
use crate::error::Error;
use crate::error::Failure;
use crate::error::Found;
use crate::error::Unexpected;
use crate::float::bits_are_zero;
use crate::float::integer_of_float;
use crate::float::Float;
use crate::integer::decimal_text;
use crate::integer::integer_clone;
use crate::integer::integer_from_i64;
use crate::integer::integer_from_u64;
use crate::integer::integer_is_zero;
use crate::integer::integer_text;
use crate::integer::integer_to_i64;
use crate::integer::integer_to_u64;
use crate::text::characters;
use crate::text::digits_end;
use crate::text::digits_value;
use crate::text::read_digits;
use crate::text::same_text;
use crate::value::clone_items;
use crate::value::items_model;
use crate::value::Table;
use crate::value::Tree;
use crate::value::Value;
use vstd::prelude::*;
use vstd::std_specs::convert::FromSpecImpl;
use vstd::string::StringExecFns;

verus! {

/// What `str::to_lowercase` makes of a text.
pub uninterp spec fn lowercase_of(text: Seq<char>) -> Seq<char>;

/// `str::to_lowercase`: the text with every character in lower case, by the
/// rules of Unicode.
#[verifier::external_body]
pub(crate) fn lowercase(text: &str) -> (lowered: String)
    ensures
        lowered@ == lowercase_of(text@),
{
    text.to_lowercase()
}

/// The truth that a word stands for: `true`, `on` and `yes` for true,
/// `false`, `off` and `no` for false.
pub open spec fn truth_of_word(word: Seq<char>) -> Option<bool> {
    if word == "true"@ || word == "on"@ || word == "yes"@ {
        Some(true)
    } else if word == "false"@ || word == "off"@ || word == "no"@ {
        Some(false)
    } else {
        None
    }
}

/// The truth that a text stands for as a boolean: that of a word, or `1` for
/// true and `0` for false.
pub open spec fn truth_of_text(text: Seq<char>) -> Option<bool> {
    if text == "1"@ {
        Some(true)
    } else if text == "0"@ {
        Some(false)
    } else {
        truth_of_word(text)
    }
}

/// The truth that a word stands for, if it is one of the six words.
pub fn word_truth(word: &str) -> (r: Option<bool>)
    ensures
        r == truth_of_word(word@),
{
    if same_text(word, "true") || same_text(word, "on") || same_text(word, "yes") {
        Some(true)
    } else if same_text(word, "false") || same_text(word, "off") || same_text(word, "no") {
        Some(false)
    } else {
        None
    }
}

/// The truth that a text stands for as a boolean, if it stands for one.
pub fn text_truth(text: &str) -> (r: Option<bool>)
    ensures
        r == truth_of_text(text@),
{
    if same_text(text, "1") {
        Some(true)
    } else if same_text(text, "0") {
        Some(false)
    } else {
        word_truth(text)
    }
}

/// A type that a value can be taken as.
pub trait FromValue: Sized {
    /// What a result of the type stands for in specifications.
    type Form;

    /// What this result stands for.
    spec fn form(&self) -> Self::Form;

    /// What a tree is taken as, or why it cannot be.
    spec fn coerced(tree: Tree) -> Result<Self::Form, Failure>;

    /// Takes a value as the type.
    fn from_value(value: &Value) -> (r: Result<Self, Error>)
        ensures
            match r {
                Ok(x) => Self::coerced(value@) == Ok::<Self::Form, Failure>(x.form()),
                Err(e) => Self::coerced(value@) == Err::<Self::Form, Failure>(e@),
            },
    ;
}

/// The type error for a tree that cannot be taken as what was expected.
pub open spec fn mismatch(tree: Tree, expected: Seq<char>) -> Failure {
    Failure::Type { found: found_of(tree), expected }
}

/// A tree as a boolean: a boolean is itself, a number is true unless it is
/// zero, a text is what it stands for once in lower case.
pub open spec fn coerce_bool(tree: Tree) -> Result<bool, Failure> {
    match tree {
        Tree::Boolean(b) => Ok(b),
        Tree::Integer(n) => Ok(n != 0),
        Tree::Float(f) => Ok(!bits_are_zero(f.bits)),
        Tree::String(s) => match truth_of_text(lowercase_of(s)) {
            Some(b) => Ok(b),
            None => Err(
                Failure::Type { found: Found::Str(lowercase_of(s)), expected: "a boolean"@ },
            ),
        },
        _ => Err(mismatch(tree, "a boolean"@)),
    }
}

/// A text in lower case as a boolean.
pub fn bool_from_lowered(lowered: String) -> (r: Result<bool, Error>)
    ensures
        match r {
            Ok(b) => truth_of_text(lowered@) == Some(b),
            Err(e) => truth_of_text(lowered@) is None && e@ == (Failure::Type {
                found: Found::Str(lowered@),
                expected: "a boolean"@,
            }),
        },
{
    match text_truth(lowered.as_str()) {
        Some(b) => Ok(b),
        None => Err(Error::invalid_type(Unexpected::Str(lowered), "a boolean")),
    }
}

impl FromValue for bool {
    type Form = bool;

    open spec fn form(&self) -> bool {
        *self
    }

    open spec fn coerced(tree: Tree) -> Result<bool, Failure> {
        coerce_bool(tree)
    }

    fn from_value(value: &Value) -> (r: Result<bool, Error>) {
        match value {
            Value::Boolean(b) => Ok(*b),
            Value::Integer(n) => Ok(!integer_is_zero(n)),
            Value::Float(f) => Ok(!f.is_zero()),
            Value::String(s) => bool_from_lowered(lowercase(s.as_str())),
            other => Err(Error::invalid_type(Unexpected::describing(other), "a boolean")),
        }
    }
}

/// The integer within `min..=max` that a text spells: digits with an optional
/// `+` in front, or a `-` where the range has negative numbers, and nothing
/// else.
pub open spec fn integer_of_text(text: Seq<char>, min: int, max: int) -> Option<int> {
    let signed = text.len() > 0 && (text[0] == '+' || (text[0] == '-' && min < 0));
    let start = if signed {
        1int
    } else {
        0int
    };
    let end = digits_end(text, start);
    let magnitude = digits_value(text.subrange(start, end));
    let number = if signed && text[0] == '-' {
        -magnitude
    } else {
        magnitude as int
    };
    if end != text.len() || end <= start || number < min || number > max {
        None
    } else {
        Some(number)
    }
}

/// A tree as an integer within `min..=max`: an integer is itself where it
/// fits, a boolean is one or zero, a float is rounded and brought into the
/// range, a text is one or zero for a word of truth and else the number that
/// it spells.
pub open spec fn coerce_integer(tree: Tree, min: int, max: int) -> Result<int, Failure> {
    match tree {
        Tree::Integer(n) => if min <= n <= max {
            Ok(n)
        } else {
            Err(Failure::Range(n))
        },
        Tree::String(s) => match truth_of_word(lowercase_of(s)) {
            Some(b) => Ok(
                if b {
                    1int
                } else {
                    0int
                },
            ),
            None => match integer_of_text(s, min, max) {
                Some(n) => Ok(n),
                None => Err(Failure::Type { found: Found::Str(s), expected: "an integer"@ }),
            },
        },
        Tree::Boolean(b) => Ok(
            if b {
                1int
            } else {
                0int
            },
        ),
        Tree::Float(f) => Ok(integer_of_float(f.bits, min, max)),
        _ => Err(mismatch(tree, "an integer"@)),
    }
}

/// Whether `min..=max` is the range of an integer type of at most 64 bits.
pub open spec fn is_width(min: int, max: int) -> bool {
    (min == 0 && 1 <= max <= u64::MAX) || (i64::MIN <= min < 0 && 1 <= max <= i64::MAX)
}

/// The integer within `min..=max` that a text spells, if it spells one.
pub fn integer_from_text(text: &str, min: i128, max: i128) -> (r: Option<i128>)
    requires
        is_width(min as int, max as int),
    ensures
        match r {
            Some(n) => integer_of_text(text@, min as int, max as int) == Some(n as int),
            None => integer_of_text(text@, min as int, max as int) is None,
        },
{
    let chars = characters(text);
    let signed = chars.len() > 0 && (chars[0] == '+' || (chars[0] == '-' && min < 0));
    let negative = signed && chars[0] == '-';
    let start: usize = if signed {
        1
    } else {
        0
    };
    let limit: u64 = if negative {
        ((-(min + 1)) as u64) + 1
    } else {
        max as u64
    };
    let (end, total) = read_digits(&chars, start, limit);
    if end != chars.len() || end == start {
        return None;
    }
    match total {
        None => None,
        Some(magnitude) => if negative {
            Some(-(magnitude as i128))
        } else {
            Some(magnitude as i128)
        },
    }
}

/// A text as an integer within `min..=max`, given the text in lower case.
pub fn integer_from_lowered(text: &String, lowered: &str, min: i128, max: i128) -> (r: Result<
    i128,
    Error,
>)
    requires
        is_width(min as int, max as int),
    ensures
        match r {
            Ok(n) => min <= n <= max && (match truth_of_word(lowered@) {
                Some(b) => n == (if b {
                    1int
                } else {
                    0int
                }),
                None => integer_of_text(text@, min as int, max as int) == Some(n as int),
            }),
            Err(e) => truth_of_word(lowered@) is None && integer_of_text(
                text@,
                min as int,
                max as int,
            ) is None && e@ == (Failure::Type { found: Found::Str(text@), expected: "an integer"@ }),
        },
{
    match word_truth(lowered) {
        Some(b) => Ok(
            if b {
                1
            } else {
                0
            },
        ),
        None => match integer_from_text(text.as_str(), min, max) {
            Some(n) => Ok(n),
            None => Err(Error::invalid_type(Unexpected::Str(text.clone()), "an integer")),
        },
    }
}

/// Takes a value as an integer within `min..=max`.
pub fn integer_from_value(value: &Value, min: i128, max: i128) -> (r: Result<i128, Error>)
    requires
        is_width(min as int, max as int),
    ensures
        match r {
            Ok(n) => min <= n <= max && coerce_integer(value@, min as int, max as int) == Ok::<
                int,
                Failure,
            >(n as int),
            Err(e) => coerce_integer(value@, min as int, max as int) == Err::<int, Failure>(e@),
        },
{
    match value {
        Value::Integer(n) => {
            if min < 0 {
                match integer_to_i64(n) {
                    Some(v) => if min <= v as i128 && v as i128 <= max {
                        Ok(v as i128)
                    } else {
                        Err(Error::too_large(integer_clone(n)))
                    },
                    None => Err(Error::too_large(integer_clone(n))),
                }
            } else {
                match integer_to_u64(n) {
                    Some(v) => if v as i128 <= max {
                        Ok(v as i128)
                    } else {
                        Err(Error::too_large(integer_clone(n)))
                    },
                    None => Err(Error::too_large(integer_clone(n))),
                }
            }
        },
        Value::String(s) => integer_from_lowered(s, lowercase(s.as_str()).as_str(), min, max),
        Value::Boolean(b) => Ok(
            if *b {
                1
            } else {
                0
            },
        ),
        Value::Float(f) => Ok(f.to_integer(min, max)),
        other => Err(Error::invalid_type(Unexpected::describing(other), "an integer")),
    }
}

/// What is left to compute in floating point when a value is taken as a
/// float.
#[derive(Debug)]
pub enum FloatTask {
    /// The float with these bits.
    Bits(u64),
    /// The float that the text spells; a text that spells none is a type
    /// error, see [`float_text_error`].
    Text(String),
    /// The float nearest to the integer; an integer that has none is a range
    /// error, see [`Error::too_large`].
    Integer(num_bigint::BigInt),
}

/// The model of a [`FloatTask`].
pub ghost enum FloatPlan {
    Bits(u64),
    Text(Seq<char>),
    Integer(int),
}

impl View for FloatTask {
    type V = FloatPlan;

    open spec fn view(&self) -> FloatPlan {
        match *self {
            FloatTask::Bits(bits) => FloatPlan::Bits(bits),
            FloatTask::Text(text) => FloatPlan::Text(text@),
            FloatTask::Integer(n) => FloatPlan::Integer(crate::integer::int_of(n)),
        }
    }
}

/// The bits of the float one.
pub const ONE_BITS: u64 = 0x3ff0_0000_0000_0000;

/// A tree as a float: a float is itself, a boolean is one or zero, a text is
/// one or zero for a word of truth and else the float that it spells, an
/// integer is the float nearest to it.
pub open spec fn coerce_float(tree: Tree) -> Result<FloatPlan, Failure> {
    match tree {
        Tree::Float(f) => Ok(FloatPlan::Bits(f.bits)),
        Tree::String(s) => match truth_of_word(lowercase_of(s)) {
            Some(b) => Ok(
                FloatPlan::Bits(
                    if b {
                        ONE_BITS
                    } else {
                        0
                    },
                ),
            ),
            None => Ok(FloatPlan::Text(s)),
        },
        Tree::Integer(n) => Ok(FloatPlan::Integer(n)),
        Tree::Boolean(b) => Ok(
            FloatPlan::Bits(
                if b {
                    ONE_BITS
                } else {
                    0
                },
            ),
        ),
        _ => Err(mismatch(tree, "a floating point"@)),
    }
}

/// A text as a float, given the text in lower case.
pub fn float_from_lowered(text: &String, lowered: &str) -> (task: FloatTask)
    ensures
        task@ == (match truth_of_word(lowered@) {
            Some(b) => FloatPlan::Bits(
                if b {
                    ONE_BITS
                } else {
                    0
                },
            ),
            None => FloatPlan::Text(text@),
        }),
{
    match word_truth(lowered) {
        Some(b) => FloatTask::Bits(
            if b {
                ONE_BITS
            } else {
                0
            },
        ),
        None => FloatTask::Text(text.clone()),
    }
}

/// Takes a value as a float, up to what has to be computed in floating
/// point.
pub fn float_task(value: &Value) -> (r: Result<FloatTask, Error>)
    ensures
        match r {
            Ok(task) => coerce_float(value@) == Ok::<FloatPlan, Failure>(task@),
            Err(e) => coerce_float(value@) == Err::<FloatPlan, Failure>(e@),
        },
{
    match value {
        Value::Float(f) => Ok(FloatTask::Bits(f.bits)),
        Value::String(s) => Ok(float_from_lowered(s, lowercase(s.as_str()).as_str())),
        Value::Integer(n) => Ok(FloatTask::Integer(integer_clone(n))),
        Value::Boolean(b) => Ok(
            FloatTask::Bits(
                if *b {
                    ONE_BITS
                } else {
                    0
                },
            ),
        ),
        other => Err(Error::invalid_type(Unexpected::describing(other), "a floating point")),
    }
}

/// The type error for a text that spells no float.
pub fn float_text_error(text: String) -> (e: Error)
    ensures
        e@ == (Failure::Type { found: Found::Str(text@), expected: "a floating point"@ }),
{
    Error::invalid_type(Unexpected::Str(text), "a floating point")
}

/// A tree as a string: a string is itself, any other scalar is its text.
pub open spec fn coerce_string(tree: Tree) -> Result<Seq<char>, Failure> {
    match tree {
        Tree::String(s) => Ok(s),
        Tree::Boolean(b) => Ok(
            if b {
                "true"@
            } else {
                "false"@
            },
        ),
        Tree::Integer(n) => Ok(decimal_text(n)),
        Tree::Float(f) => Ok(f.text),
        _ => Err(mismatch(tree, "a string"@)),
    }
}

impl FromValue for String {
    type Form = Seq<char>;

    open spec fn form(&self) -> Seq<char> {
        self@
    }

    open spec fn coerced(tree: Tree) -> Result<Seq<char>, Failure> {
        coerce_string(tree)
    }

    fn from_value(value: &Value) -> (r: Result<String, Error>) {
        match value {
            Value::String(s) => Ok(s.clone()),
            Value::Boolean(b) => Ok(
                if *b {
                    String::from_str("true")
                } else {
                    String::from_str("false")
                },
            ),
            Value::Integer(n) => Ok(integer_text(n)),
            Value::Float(f) => Ok(f.text.clone()),
            other => Err(Error::invalid_type(Unexpected::describing(other), "a string")),
        }
    }
}

/// A tree as an array: only an array is one.
pub open spec fn coerce_array(tree: Tree) -> Result<Seq<Tree>, Failure> {
    match tree {
        Tree::Array(items) => Ok(items),
        _ => Err(mismatch(tree, "an array"@)),
    }
}

impl FromValue for Vec<Value> {
    type Form = Seq<Tree>;

    open spec fn form(&self) -> Seq<Tree> {
        items_model(self@)
    }

    open spec fn coerced(tree: Tree) -> Result<Seq<Tree>, Failure> {
        coerce_array(tree)
    }

    fn from_value(value: &Value) -> (r: Result<Vec<Value>, Error>) {
        match value {
            Value::Array(items) => Ok(clone_items(items)),
            other => Err(Error::invalid_type(Unexpected::describing(other), "an array")),
        }
    }
}

/// A tree as a table: only a table is one.
pub open spec fn coerce_table(tree: Tree) -> Result<Map<Seq<char>, Tree>, Failure> {
    match tree {
        Tree::Table(entries) => Ok(entries),
        _ => Err(mismatch(tree, "a map"@)),
    }
}

impl FromValue for Table {
    type Form = Map<Seq<char>, Tree>;

    open spec fn form(&self) -> Map<Seq<char>, Tree> {
        self@
    }

    open spec fn coerced(tree: Tree) -> Result<Map<Seq<char>, Tree>, Failure> {
        coerce_table(tree)
    }

    fn from_value(value: &Value) -> (r: Result<Table, Error>) {
        match value {
            Value::Table(entries) => Ok(entries.clone()),
            other => Err(Error::invalid_type(Unexpected::describing(other), "a map")),
        }
    }
}

impl FromValue for Value {
    type Form = Tree;

    open spec fn form(&self) -> Tree {
        self@
    }

    /// Every tree can be taken as a value: as itself.
    open spec fn coerced(tree: Tree) -> Result<Tree, Failure> {
        Ok(tree)
    }

    fn from_value(value: &Value) -> (r: Result<Value, Error>) {
        Ok(value.clone())
    }
}

impl FromValue for () {
    type Form = ();

    open spec fn form(&self) -> () {
        ()
    }

    /// Every tree can be taken as nothing.
    open spec fn coerced(tree: Tree) -> Result<(), Failure> {
        Ok(())
    }

    fn from_value(value: &Value) -> (r: Result<(), Error>) {
        Ok(())
    }
}

impl From<bool> for Value {
    /// The boolean as a value.
    fn from(value: bool) -> (v: Value)
        ensures
            v@ == Tree::Boolean(value),
    {
        Value::Boolean(value)
    }
}

impl FromSpecImpl<bool> for Value {
    open spec fn obeys_from_spec() -> bool {
        true
    }

    open spec fn from_spec(value: bool) -> Value {
        Value::Boolean(value)
    }
}

impl From<String> for Value {
    /// The string as a value.
    fn from(value: String) -> (v: Value)
        ensures
            v@ == Tree::String(value@),
    {
        Value::String(value)
    }
}

impl FromSpecImpl<String> for Value {
    open spec fn obeys_from_spec() -> bool {
        true
    }

    open spec fn from_spec(value: String) -> Value {
        Value::String(value)
    }
}

impl<'a> From<&'a str> for Value {
    /// The text as a string value.
    fn from(value: &'a str) -> (v: Value)
        ensures
            v@ == Tree::String(value@),
    {
        Value::String(String::from_str(value))
    }
}

impl<'a> FromSpecImpl<&'a str> for Value {
    /// The conversion makes a new string, which no specification can write
    /// down: the contract of `from` says what the result stands for.
    open spec fn obeys_from_spec() -> bool {
        false
    }

    open spec fn from_spec(value: &'a str) -> Value {
        choose|v: Value| v@ == Tree::String(value@)
    }
}

impl From<Float> for Value {
    /// The float as a value.
    fn from(value: Float) -> (v: Value)
        ensures
            v@ == Tree::Float(value@),
    {
        Value::Float(value)
    }
}

impl FromSpecImpl<Float> for Value {
    open spec fn obeys_from_spec() -> bool {
        true
    }

    open spec fn from_spec(value: Float) -> Value {
        Value::Float(value)
    }
}

impl From<Table> for Value {
    /// The table as a value.
    fn from(value: Table) -> (v: Value)
        ensures
            v@ == Tree::Table(value@),
    {
        Value::Table(value)
    }
}

impl FromSpecImpl<Table> for Value {
    open spec fn obeys_from_spec() -> bool {
        true
    }

    open spec fn from_spec(value: Table) -> Value {
        Value::Table(value)
    }
}

impl From<Vec<Value>> for Value {
    /// The values as an array.
    fn from(value: Vec<Value>) -> (v: Value)
        ensures
            v@ == Tree::Array(items_model(value@)),
    {
        Value::Array(value)
    }
}

impl FromSpecImpl<Vec<Value>> for Value {
    open spec fn obeys_from_spec() -> bool {
        true
    }

    open spec fn from_spec(value: Vec<Value>) -> Value {
        Value::Array(value)
    }
}

impl From<Option<Value>> for Value {
    /// What the option holds, or `Nil` for nothing.
    fn from(value: Option<Value>) -> (v: Value)
        ensures
            v@ == (match value {
                Some(inner) => inner@,
                None => Tree::Nil,
            }),
    {
        match value {
            Some(inner) => inner,
            None => Value::Nil,
        }
    }
}

impl FromSpecImpl<Option<Value>> for Value {
    open spec fn obeys_from_spec() -> bool {
        true
    }

    open spec fn from_spec(value: Option<Value>) -> Value {
        match value {
            Some(inner) => inner,
            None => Value::Nil,
        }
    }
}

impl Default for Value {
    /// `Nil`.
    fn default() -> (v: Value)
        ensures
            v@ == Tree::Nil,
    {
        Value::Nil
    }
}

/// The conversions from machine integers make a big integer, which no
/// specification can write down; so the specification function of each only
/// stands for some value of the right tree, and the contract of each `from`
/// says what the result stands for.

impl From<i8> for Value {
    /// The integer as a value.
    fn from(value: i8) -> (v: Value)
        ensures
            v@ == Tree::Integer(value as int),
    {
        Value::Integer(integer_from_i64(value as i64))
    }
}

impl FromSpecImpl<i8> for Value {
    open spec fn obeys_from_spec() -> bool {
        false
    }

    open spec fn from_spec(value: i8) -> Value {
        choose|v: Value| v@ == Tree::Integer(value as int)
    }
}

impl FromValue for i8 {
    type Form = int;

    open spec fn form(&self) -> int {
        *self as int
    }

    open spec fn coerced(tree: Tree) -> Result<int, Failure> {
        coerce_integer(tree, i8::MIN as int, i8::MAX as int)
    }

    fn from_value(value: &Value) -> (r: Result<i8, Error>) {
        match integer_from_value(value, i8::MIN as i128, i8::MAX as i128) {
            Ok(n) => Ok(n as i8),
            Err(e) => Err(e),
        }
    }
}

impl From<i16> for Value {
    /// The integer as a value.
    fn from(value: i16) -> (v: Value)
        ensures
            v@ == Tree::Integer(value as int),
    {
        Value::Integer(integer_from_i64(value as i64))
    }
}

impl FromSpecImpl<i16> for Value {
    open spec fn obeys_from_spec() -> bool {
        false
    }

    open spec fn from_spec(value: i16) -> Value {
        choose|v: Value| v@ == Tree::Integer(value as int)
    }
}

impl FromValue for i16 {
    type Form = int;

    open spec fn form(&self) -> int {
        *self as int
    }

    open spec fn coerced(tree: Tree) -> Result<int, Failure> {
        coerce_integer(tree, i16::MIN as int, i16::MAX as int)
    }

    fn from_value(value: &Value) -> (r: Result<i16, Error>) {
        match integer_from_value(value, i16::MIN as i128, i16::MAX as i128) {
            Ok(n) => Ok(n as i16),
            Err(e) => Err(e),
        }
    }
}

impl From<i32> for Value {
    /// The integer as a value.
    fn from(value: i32) -> (v: Value)
        ensures
            v@ == Tree::Integer(value as int),
    {
        Value::Integer(integer_from_i64(value as i64))
    }
}

impl FromSpecImpl<i32> for Value {
    open spec fn obeys_from_spec() -> bool {
        false
    }

    open spec fn from_spec(value: i32) -> Value {
        choose|v: Value| v@ == Tree::Integer(value as int)
    }
}

impl FromValue for i32 {
    type Form = int;

    open spec fn form(&self) -> int {
        *self as int
    }

    open spec fn coerced(tree: Tree) -> Result<int, Failure> {
        coerce_integer(tree, i32::MIN as int, i32::MAX as int)
    }

    fn from_value(value: &Value) -> (r: Result<i32, Error>) {
        match integer_from_value(value, i32::MIN as i128, i32::MAX as i128) {
            Ok(n) => Ok(n as i32),
            Err(e) => Err(e),
        }
    }
}

impl From<i64> for Value {
    /// The integer as a value.
    fn from(value: i64) -> (v: Value)
        ensures
            v@ == Tree::Integer(value as int),
    {
        Value::Integer(integer_from_i64(value))
    }
}

impl FromSpecImpl<i64> for Value {
    open spec fn obeys_from_spec() -> bool {
        false
    }

    open spec fn from_spec(value: i64) -> Value {
        choose|v: Value| v@ == Tree::Integer(value as int)
    }
}

impl FromValue for i64 {
    type Form = int;

    open spec fn form(&self) -> int {
        *self as int
    }

    open spec fn coerced(tree: Tree) -> Result<int, Failure> {
        coerce_integer(tree, i64::MIN as int, i64::MAX as int)
    }

    fn from_value(value: &Value) -> (r: Result<i64, Error>) {
        match integer_from_value(value, i64::MIN as i128, i64::MAX as i128) {
            Ok(n) => Ok(n as i64),
            Err(e) => Err(e),
        }
    }
}

impl From<isize> for Value {
    /// The integer as a value.
    fn from(value: isize) -> (v: Value)
        ensures
            v@ == Tree::Integer(value as int),
    {
        Value::Integer(integer_from_i64(value as i64))
    }
}

impl FromSpecImpl<isize> for Value {
    open spec fn obeys_from_spec() -> bool {
        false
    }

    open spec fn from_spec(value: isize) -> Value {
        choose|v: Value| v@ == Tree::Integer(value as int)
    }
}

impl FromValue for isize {
    type Form = int;

    open spec fn form(&self) -> int {
        *self as int
    }

    open spec fn coerced(tree: Tree) -> Result<int, Failure> {
        coerce_integer(tree, isize::MIN as int, isize::MAX as int)
    }

    fn from_value(value: &Value) -> (r: Result<isize, Error>) {
        match integer_from_value(value, isize::MIN as i128, isize::MAX as i128) {
            Ok(n) => Ok(n as isize),
            Err(e) => Err(e),
        }
    }
}

impl From<u8> for Value {
    /// The integer as a value.
    fn from(value: u8) -> (v: Value)
        ensures
            v@ == Tree::Integer(value as int),
    {
        Value::Integer(integer_from_u64(value as u64))
    }
}

impl FromSpecImpl<u8> for Value {
    open spec fn obeys_from_spec() -> bool {
        false
    }

    open spec fn from_spec(value: u8) -> Value {
        choose|v: Value| v@ == Tree::Integer(value as int)
    }
}

impl FromValue for u8 {
    type Form = int;

    open spec fn form(&self) -> int {
        *self as int
    }

    open spec fn coerced(tree: Tree) -> Result<int, Failure> {
        coerce_integer(tree, u8::MIN as int, u8::MAX as int)
    }

    fn from_value(value: &Value) -> (r: Result<u8, Error>) {
        match integer_from_value(value, u8::MIN as i128, u8::MAX as i128) {
            Ok(n) => Ok(n as u8),
            Err(e) => Err(e),
        }
    }
}

impl From<u16> for Value {
    /// The integer as a value.
    fn from(value: u16) -> (v: Value)
        ensures
            v@ == Tree::Integer(value as int),
    {
        Value::Integer(integer_from_u64(value as u64))
    }
}

impl FromSpecImpl<u16> for Value {
    open spec fn obeys_from_spec() -> bool {
        false
    }

    open spec fn from_spec(value: u16) -> Value {
        choose|v: Value| v@ == Tree::Integer(value as int)
    }
}

impl FromValue for u16 {
    type Form = int;

    open spec fn form(&self) -> int {
        *self as int
    }

    open spec fn coerced(tree: Tree) -> Result<int, Failure> {
        coerce_integer(tree, u16::MIN as int, u16::MAX as int)
    }

    fn from_value(value: &Value) -> (r: Result<u16, Error>) {
        match integer_from_value(value, u16::MIN as i128, u16::MAX as i128) {
            Ok(n) => Ok(n as u16),
            Err(e) => Err(e),
        }
    }
}

impl From<u32> for Value {
    /// The integer as a value.
    fn from(value: u32) -> (v: Value)
        ensures
            v@ == Tree::Integer(value as int),
    {
        Value::Integer(integer_from_u64(value as u64))
    }
}

impl FromSpecImpl<u32> for Value {
    open spec fn obeys_from_spec() -> bool {
        false
    }

    open spec fn from_spec(value: u32) -> Value {
        choose|v: Value| v@ == Tree::Integer(value as int)
    }
}

impl FromValue for u32 {
    type Form = int;

    open spec fn form(&self) -> int {
        *self as int
    }

    open spec fn coerced(tree: Tree) -> Result<int, Failure> {
        coerce_integer(tree, u32::MIN as int, u32::MAX as int)
    }

    fn from_value(value: &Value) -> (r: Result<u32, Error>) {
        match integer_from_value(value, u32::MIN as i128, u32::MAX as i128) {
            Ok(n) => Ok(n as u32),
            Err(e) => Err(e),
        }
    }
}

impl From<u64> for Value {
    /// The integer as a value.
    fn from(value: u64) -> (v: Value)
        ensures
            v@ == Tree::Integer(value as int),
    {
        Value::Integer(integer_from_u64(value))
    }
}

impl FromSpecImpl<u64> for Value {
    open spec fn obeys_from_spec() -> bool {
        false
    }

    open spec fn from_spec(value: u64) -> Value {
        choose|v: Value| v@ == Tree::Integer(value as int)
    }
}

impl FromValue for u64 {
    type Form = int;

    open spec fn form(&self) -> int {
        *self as int
    }

    open spec fn coerced(tree: Tree) -> Result<int, Failure> {
        coerce_integer(tree, u64::MIN as int, u64::MAX as int)
    }

    fn from_value(value: &Value) -> (r: Result<u64, Error>) {
        match integer_from_value(value, u64::MIN as i128, u64::MAX as i128) {
            Ok(n) => Ok(n as u64),
            Err(e) => Err(e),
        }
    }
}

impl From<usize> for Value {
    /// The integer as a value.
    fn from(value: usize) -> (v: Value)
        ensures
            v@ == Tree::Integer(value as int),
    {
        Value::Integer(integer_from_u64(value as u64))
    }
}

impl FromSpecImpl<usize> for Value {
    open spec fn obeys_from_spec() -> bool {
        false
    }

    open spec fn from_spec(value: usize) -> Value {
        choose|v: Value| v@ == Tree::Integer(value as int)
    }
}

impl FromValue for usize {
    type Form = int;

    open spec fn form(&self) -> int {
        *self as int
    }

    open spec fn coerced(tree: Tree) -> Result<int, Failure> {
        coerce_integer(tree, usize::MIN as int, usize::MAX as int)
    }

    fn from_value(value: &Value) -> (r: Result<usize, Error>) {
        match integer_from_value(value, usize::MIN as i128, usize::MAX as i128) {
            Ok(n) => Ok(n as usize),
            Err(e) => Err(e),
        }
    }
}

/// A type that can be made into a value.
pub trait IntoValue: Sized {
    /// The tree of the value that this is made into.
    spec fn tree(self) -> Tree;

    /// Makes this into a value.
    fn into_value(self) -> (v: Value)
        ensures
            v@ == self.tree(),
    ;
}

impl IntoValue for Value {
    open spec fn tree(self) -> Tree {
        self@
    }

    fn into_value(self) -> (v: Value) {
        self
    }
}

impl IntoValue for bool {
    open spec fn tree(self) -> Tree {
        Tree::Boolean(self)
    }

    fn into_value(self) -> (v: Value) {
        Value::Boolean(self)
    }
}

impl IntoValue for String {
    open spec fn tree(self) -> Tree {
        Tree::String(self@)
    }

    fn into_value(self) -> (v: Value) {
        Value::String(self)
    }
}

impl<'a> IntoValue for &'a str {
    open spec fn tree(self) -> Tree {
        Tree::String(self@)
    }

    fn into_value(self) -> (v: Value) {
        Value::String(String::from_str(self))
    }
}

impl IntoValue for Float {
    open spec fn tree(self) -> Tree {
        Tree::Float(self@)
    }

    fn into_value(self) -> (v: Value) {
        Value::Float(self)
    }
}

impl IntoValue for Table {
    open spec fn tree(self) -> Tree {
        Tree::Table(self@)
    }

    fn into_value(self) -> (v: Value) {
        Value::Table(self)
    }
}

impl<T: IntoValue> IntoValue for Option<T> {
    /// What the option holds, or `Nil` for nothing.
    open spec fn tree(self) -> Tree {
        match self {
            Some(inner) => inner.tree(),
            None => Tree::Nil,
        }
    }

    fn into_value(self) -> (v: Value) {
        match self {
            Some(inner) => inner.into_value(),
            None => Value::Nil,
        }
    }
}

impl<T: IntoValue> IntoValue for Vec<T> {
    /// The array of what the items are made into.
    open spec fn tree(self) -> Tree {
        Tree::Array(Seq::new(self@.len(), |i: int| self@[i].tree()))
    }

    fn into_value(self) -> (v: Value) {
        let ghost whole = self@;
        let mut items: Vec<Value> = Vec::new();
        for item in it: self
            invariant
                it.seq() == whole,
                items.len() == it.index(),
                forall|j: int| 0 <= j < items.len() ==> (#[trigger] items[j])@ == whole[j].tree(),
        {
            items.push(item.into_value());
        }
        proof {
            crate::value::lemma_items_model(items@);
            assert(items_model(items@) =~= Seq::new(whole.len(), |i: int| whole[i].tree()));
        }
        Value::Array(items)
    }
}

impl IntoValue for i8 {
    open spec fn tree(self) -> Tree {
        Tree::Integer(self as int)
    }

    fn into_value(self) -> (v: Value) {
        Value::from(self)
    }
}

impl IntoValue for i16 {
    open spec fn tree(self) -> Tree {
        Tree::Integer(self as int)
    }

    fn into_value(self) -> (v: Value) {
        Value::from(self)
    }
}

impl IntoValue for i32 {
    open spec fn tree(self) -> Tree {
        Tree::Integer(self as int)
    }

    fn into_value(self) -> (v: Value) {
        Value::from(self)
    }
}

impl IntoValue for i64 {
    open spec fn tree(self) -> Tree {
        Tree::Integer(self as int)
    }

    fn into_value(self) -> (v: Value) {
        Value::from(self)
    }
}

impl IntoValue for isize {
    open spec fn tree(self) -> Tree {
        Tree::Integer(self as int)
    }

    fn into_value(self) -> (v: Value) {
        Value::from(self)
    }
}

impl IntoValue for u8 {
    open spec fn tree(self) -> Tree {
        Tree::Integer(self as int)
    }

    fn into_value(self) -> (v: Value) {
        Value::from(self)
    }
}

impl IntoValue for u16 {
    open spec fn tree(self) -> Tree {
        Tree::Integer(self as int)
    }

    fn into_value(self) -> (v: Value) {
        Value::from(self)
    }
}

impl IntoValue for u32 {
    open spec fn tree(self) -> Tree {
        Tree::Integer(self as int)
    }

    fn into_value(self) -> (v: Value) {
        Value::from(self)
    }
}

impl IntoValue for u64 {
    open spec fn tree(self) -> Tree {
        Tree::Integer(self as int)
    }

    fn into_value(self) -> (v: Value) {
        Value::from(self)
    }
}

impl IntoValue for usize {
    open spec fn tree(self) -> Tree {
        Tree::Integer(self as int)
    }

    fn into_value(self) -> (v: Value) {
        Value::from(self)
    }
}

/// A boolean made into a value is taken back as the same boolean.
pub proof fn lemma_bool_round_trip(b: bool)
    ensures
        coerce_bool(Tree::Boolean(b)) == Ok::<bool, Failure>(b),
{
}

/// An integer made into a value is taken back as the same integer by every
/// width that has room for it.
pub proof fn lemma_integer_round_trip(n: int, min: int, max: int)
    requires
        min <= n <= max,
    ensures
        coerce_integer(Tree::Integer(n), min, max) == Ok::<int, Failure>(n),
{
}

/// A string made into a value is taken back as the same string.
pub proof fn lemma_string_round_trip(s: Seq<char>)
    ensures
        coerce_string(Tree::String(s)) == Ok::<Seq<char>, Failure>(s),
{
}

/// A float made into a value is taken back as the float with the same bits.
pub proof fn lemma_float_round_trip(f: crate::float::FloatModel)
    ensures
        coerce_float(Tree::Float(f)) == Ok::<FloatPlan, Failure>(FloatPlan::Bits(f.bits)),
{
}

} // verus!
