//! The textual forms of values and errors.

use crate::error::Error;
use crate::error::ErrorKind;
use crate::error::Failure;
use crate::error::Found;
use crate::error::PathFault;
use crate::error::PathFaultKind;
use crate::error::Unexpected;
use crate::integer::decimal_text;
use crate::integer::digits_text;
use crate::integer::integer_text;
use crate::path::Path;
use crate::path::PathNode;
use crate::path::Step;
use crate::ser::signed_text;
use crate::spelling::path_text;
use crate::spelling::spelled;
use crate::spelling::step_text;
use crate::text::push_char;
use crate::text::natural_text;
use crate::value::Table;
use crate::value::Tree;
use crate::value::Value;
use vstd::prelude::*;
use vstd::string::StringExecFns;

verus! {

/// What the `Debug` form of a string slice is: the text in double quotes,
/// with what needs it escaped.
pub uninterp spec fn quoted_of(text: Seq<char>) -> Seq<char>;

/// The `Debug` form of `str`, through `format!`.
#[verifier::external_body]
pub(crate) fn quoted(text: &str) -> (r: String)
    ensures
        r@ == quoted_of(text@),
{
    format!("{:?}", text)
}

/// The text of a boolean.
pub open spec fn bool_text(b: bool) -> Seq<char> {
    if b {
        "true"@
    } else {
        "false"@
    }
}

/// The text of what a type error found.
pub open spec fn found_text(found: Found) -> Seq<char> {
    match found {
        Found::Bool(b) => "boolean `"@ + bool_text(b) + "`"@,
        Found::Integer(n) => "integer `"@ + decimal_text(n) + "`"@,
        Found::Float(f) => "floating point `"@ + f.text + "`"@,
        Found::Str(s) => "string "@ + quoted_of(s),
        Found::Unit => "unit value"@,
        Found::Array => "array"@,
        Found::Table => "map"@,
    }
}

/// Why a text is not a path, in words.
pub open spec fn fault_reason(kind: PathFaultKind) -> Seq<char> {
    match kind {
        PathFaultKind::Empty => "the path is empty"@,
        PathFaultKind::NoRoot => "expected `/`"@,
        PathFaultKind::NoIdentifier => "expected an identifier"@,
        PathFaultKind::NoIndex => "expected an index"@,
        PathFaultKind::IndexTooLarge => "the index is too large"@,
        PathFaultKind::NoClosingBracket => "expected `]`"@,
        PathFaultKind::Stray => "expected `/`, `[` or the end"@,
    }
}

/// The text of a fault: its place, then its reason.
pub open spec fn fault_text(fault: PathFault) -> Seq<char> {
    "at position "@ + digits_text(fault.position as nat) + ": "@ + fault_reason(fault.kind)
}

/// The text of an error.
pub open spec fn failure_text(failure: Failure) -> Seq<char> {
    match failure {
        Failure::PathParse { path, fault } => fault_text(fault) + "\n for "@ + path,
        Failure::Io(text) => text,
        Failure::Type { found, expected } => "invalid type: "@ + found_text(found)
            + ", expected "@ + expected,
        Failure::FormatParse { origin, source } => source + "\n in "@ + origin,
        Failure::Message(text) => text,
        Failure::Range(n) => "invalid range "@ + decimal_text(n),
    }
}

/// The text of a boolean.
fn text_of_bool(b: bool) -> (r: &'static str)
    ensures
        r@ == bool_text(b),
{
    if b {
        "true"
    } else {
        "false"
    }
}

impl Unexpected {
    /// The text of what was found.
    pub fn to_text(&self) -> (r: String)
        ensures
            r@ == found_text(self@),
    {
        match self {
            Unexpected::Bool(b) => String::from_str("boolean `").concat(text_of_bool(*b)).concat(
                "`",
            ),
            Unexpected::Integer(n) => String::from_str("integer `").concat(
                integer_text(n).as_str(),
            ).concat("`"),
            Unexpected::Float(f) => String::from_str("floating point `").concat(
                f.text.as_str(),
            ).concat("`"),
            Unexpected::Str(s) => String::from_str("string ").concat(quoted(s.as_str()).as_str()),
            Unexpected::Unit => String::from_str("unit value"),
            Unexpected::Array => String::from_str("array"),
            Unexpected::Table => String::from_str("map"),
        }
    }
}

impl PathFault {
    /// The text of the fault.
    pub fn to_text(&self) -> (r: String)
        ensures
            r@ == fault_text(*self),
    {
        let reason = match self.kind {
            PathFaultKind::Empty => "the path is empty",
            PathFaultKind::NoRoot => "expected `/`",
            PathFaultKind::NoIdentifier => "expected an identifier",
            PathFaultKind::NoIndex => "expected an index",
            PathFaultKind::IndexTooLarge => "the index is too large",
            PathFaultKind::NoClosingBracket => "expected `]`",
            PathFaultKind::Stray => "expected `/`, `[` or the end",
        };
        String::from_str("at position ").concat(
            natural_text(self.position as u64).as_str(),
        ).concat(": ").concat(reason)
    }
}

impl Error {
    /// The text of the error.
    pub fn to_text(&self) -> (r: String)
        ensures
            r@ == failure_text(self@),
    {
        match &self.kind {
            ErrorKind::PathParse { path, fault } => fault.to_text().concat("\n for ").concat(
                path.as_str(),
            ),
            ErrorKind::Io(text) => text.clone(),
            ErrorKind::Type { unexpected, expected } => String::from_str("invalid type: ").concat(
                unexpected.to_text().as_str(),
            ).concat(", expected ").concat(expected),
            ErrorKind::FormatParse { origin, source } => source.clone().concat("\n in ").concat(
                origin.as_str(),
            ),
            ErrorKind::Message(text) => text.clone(),
            ErrorKind::Range(n) => String::from_str("invalid range ").concat(
                integer_text(n).as_str(),
            ),
        }
    }
}

impl Path {
    /// The text that spells the path: `/` for the root, else every name after
    /// a `/` and every index in brackets.
    pub fn to_text(&self) -> (r: String)
        ensures
            r@ == path_text(self@),
    {
        let mut text = String::new();
        if self.0.len() == 0 {
            push_char(&mut text, '/');
            assert(text@ =~= seq!['/']);
            return text;
        }
        let mut i: usize = 0;
        assert(self@.take(0) =~= Seq::<Step>::empty());
        while i < self.0.len()
            invariant
                i <= self.0.len(),
                text@ == spelled(self@.take(i as int)),
            decreases self.0.len() - i,
        {
            proof {
                assert(self@.take(i + 1).drop_last() =~= self@.take(i as int));
                assert(self@.take(i + 1).last() == self.0[i as int]@);
            }
            let ghost before = text@;
            match &self.0[i] {
                PathNode::Identifier(name) => {
                    push_char(&mut text, '/');
                    text.append(name.as_str());
                    assert(text@ =~= before + step_text(Step::Identifier(name@)));
                },
                PathNode::Index(index) => {
                    push_char(&mut text, '[');
                    text.append(signed_text(*index as i64).as_str());
                    push_char(&mut text, ']');
                    assert(text@ =~= before + step_text(Step::Index(*index as int)));
                },
            }
            i += 1;
        }
        assert(self@.take(i as int) =~= self@);
        text
    }
}

/// The text of a scalar or of `Nil`; a container has none of this kind.
pub open spec fn scalar_text(tree: Tree) -> Option<Seq<char>> {
    match tree {
        Tree::String(s) => Some(s),
        Tree::Boolean(b) => Some(bool_text(b)),
        Tree::Integer(n) => Some(decimal_text(n)),
        Tree::Float(f) => Some(f.text),
        Tree::Nil => Some("nil"@),
        _ => None,
    }
}

/// Texts one after the other, with a comma and a space between any two.
pub open spec fn joined(texts: Seq<Seq<char>>) -> Seq<char>
    decreases texts.len(),
{
    if texts.len() == 0 {
        Seq::empty()
    } else if texts.len() == 1 {
        texts[0]
    } else {
        joined(texts.drop_last()) + ", "@ + texts.last()
    }
}

/// The texts of values, in order.
pub open spec fn items_texts(items: Seq<Value>) -> Seq<Seq<char>>
    decreases items, 0nat,
{
    if items.len() == 0 {
        Seq::empty()
    } else {
        items_texts(items.drop_last()).push(value_text(items.last()))
    }
}

/// The texts of the first `count` entries of a table, in the order in which
/// the table holds them: of each the quoted key, a colon and the text of the
/// value.
pub open spec fn entries_texts(table: Table, count: nat) -> Seq<Seq<char>>
    decreases table, count,
{
    if count == 0 || count > table.size() || !table.inv() {
        Seq::empty()
    } else {
        proof {
            table.lemma_value_smaller(count - 1);
        }
        entries_texts(table, (count - 1) as nat).push(
            quoted_of(table.key_at(count - 1)) + ": "@ + value_text(table.value_at(count - 1)),
        )
    }
}

/// The text of a value: a scalar as it is written, `Nil` as `nil`, an array
/// as the texts of its items in square brackets, and a table as the texts of
/// its entries in braces.
pub open spec fn value_text(value: Value) -> Seq<char>
    decreases value, 0nat,
{
    match value {
        Value::Array(items) => "["@ + joined(items_texts(items@)) + "]"@,
        Value::Table(table) => "{"@ + joined(entries_texts(table, table.size())) + "}"@,
        _ => scalar_text(value@)->Some_0,
    }
}

/// Joining one text more appends it, after a comma and a space unless it is
/// the first.
proof fn lemma_joined_push(texts: Seq<Seq<char>>, last: Seq<char>)
    ensures
        joined(texts.push(last)) == (if texts.len() == 0 {
            last
        } else {
            joined(texts) + ", "@ + last
        }),
{
    assert(texts.push(last).drop_last() =~= texts);
}

impl Value {
    /// The text of the value: a scalar as it is written, `Nil` as `nil`, an
    /// array as the texts of its items in square brackets and a table as the
    /// texts of its entries in braces, each in order and with a comma and a
    /// space between any two.
    pub fn to_text(&self) -> (r: String)
        ensures
            r@ == value_text(*self),
        decreases self,
    {
        match self {
            Value::String(s) => s.clone(),
            Value::Boolean(b) => String::from_str(text_of_bool(*b)),
            Value::Integer(n) => integer_text(n),
            Value::Float(f) => f.text.clone(),
            Value::Nil => String::from_str("nil"),
            Value::Array(items) => {
                let mut text = String::from_str("[");
                let mut i: usize = 0;
                proof {
                    assert(items@.take(0) =~= Seq::<Value>::empty());
                    assert("["@ + joined(items_texts(items@.take(0))) =~= "["@);
                }
                while i < items.len()
                    invariant
                        i <= items.len(),
                        self is Array,
                        self->Array_0 == *items,
                        text@ == "["@ + joined(items_texts(items@.take(i as int))),
                        items_texts(items@.take(i as int)).len() == i,
                    decreases items.len() - i,
                {
                    proof {
                        broadcast use vstd::std_specs::vec::axiom_vec_index_decreases;

                        assert(decreases_to!(self => self->Array_0));
                        assert(decreases_to!(items => items[i as int]));
                        assert(items@.take(i + 1).drop_last() =~= items@.take(i as int));
                        lemma_joined_push(
                            items_texts(items@.take(i as int)),
                            value_text(items[i as int]),
                        );
                    }
                    let ghost before = text@;
                    if i > 0 {
                        text.append(", ");
                    }
                    text.append(items[i].to_text().as_str());
                    proof {
                        assert(text@ =~= "["@ + joined(items_texts(items@.take(i + 1))));
                    }
                    i += 1;
                }
                proof {
                    assert(items@.take(i as int) =~= items@);
                }
                text.append("]");
                text
            },
            Value::Table(entries) => {
                let mut text = String::from_str("{");
                let count = entries.len();
                let mut i: usize = 0;
                proof {
                    use_type_invariant(entries);
                    assert("{"@ + joined(entries_texts(*entries, 0)) =~= "{"@);
                }
                while i < count
                    invariant
                        i <= count,
                        count == entries.size(),
                        entries.inv(),
                        self is Table,
                        self->Table_0 == *entries,
                        text@ == "{"@ + joined(entries_texts(*entries, i as nat)),
                        entries_texts(*entries, i as nat).len() == i,
                    decreases count - i,
                {
                    proof {
                        assert(decreases_to!(self => self->Table_0));
                        entries.lemma_value_smaller(i as int);
                        lemma_joined_push(
                            entries_texts(*entries, i as nat),
                            quoted_of(entries.key_at(i as int)) + ": "@ + value_text(
                                entries.value_at(i as int),
                            ),
                        );
                    }
                    if i > 0 {
                        text.append(", ");
                    }
                    text.append(quoted(entries.key(i).as_str()).as_str());
                    text.append(": ");
                    text.append(entries.value(i).to_text().as_str());
                    proof {
                        assert(text@ =~= "{"@ + joined(entries_texts(*entries, (i + 1) as nat)));
                    }
                    i += 1;
                }
                text.append("}");
                text
            },
        }
    }
}

} // verus!
