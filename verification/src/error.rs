//! Errors.
//!
//! Every fallible operation of the library returns an [`Error`]. Contracts
//! speak of an error through its view, a [`Failure`].

use crate::float::Float;
use crate::float::FloatModel;
use crate::integer::int_of;
use crate::integer::integer_clone;
use crate::value::Tree;
use crate::value::Value;
use num_bigint::BigInt;
use vstd::prelude::*;

verus! {

/// What was found where a value of another kind was expected.
#[derive(Debug)]
pub enum Unexpected {
    Bool(bool),
    Integer(BigInt),
    Float(Float),
    Str(String),
    Unit,
    Array,
    Table,
}

/// The model of an [`Unexpected`].
pub ghost enum Found {
    Bool(bool),
    Integer(int),
    Float(FloatModel),
    Str(Seq<char>),
    Unit,
    Array,
    Table,
}

impl View for Unexpected {
    type V = Found;

    open spec fn view(&self) -> Found {
        match *self {
            Unexpected::Bool(b) => Found::Bool(b),
            Unexpected::Integer(n) => Found::Integer(int_of(n)),
            Unexpected::Float(f) => Found::Float(f@),
            Unexpected::Str(s) => Found::Str(s@),
            Unexpected::Unit => Found::Unit,
            Unexpected::Array => Found::Array,
            Unexpected::Table => Found::Table,
        }
    }
}

/// How a type error describes a value: a scalar with its payload, a
/// container or `Nil` by its kind alone.
pub open spec fn found_of(tree: Tree) -> Found {
    match tree {
        Tree::Nil => Found::Unit,
        Tree::Integer(n) => Found::Integer(n),
        Tree::Float(f) => Found::Float(f),
        Tree::Boolean(b) => Found::Bool(b),
        Tree::String(s) => Found::Str(s),
        Tree::Table(_) => Found::Table,
        Tree::Array(_) => Found::Array,
    }
}

impl Unexpected {
    /// What a type error reports of a value.
    pub fn describing(value: &Value) -> (u: Unexpected)
        ensures
            u@ == found_of(value@),
    {
        match value {
            Value::Nil => Unexpected::Unit,
            Value::Integer(n) => Unexpected::Integer(integer_clone(n)),
            Value::Float(f) => Unexpected::Float(f.clone()),
            Value::Boolean(b) => Unexpected::Bool(*b),
            Value::String(s) => Unexpected::Str(s.clone()),
            Value::Table(_) => Unexpected::Table,
            Value::Array(_) => Unexpected::Array,
        }
    }
}

/// Why a text is not a path.
#[derive(Clone, Copy, Debug, PartialEq, Eq, Structural)]
pub enum PathFaultKind {
    /// The text is empty.
    Empty,
    /// The text does not begin with `/`.
    NoRoot,
    /// A segment does not begin with an identifier.
    NoIdentifier,
    /// An opening bracket is not followed by a number.
    NoIndex,
    /// The number in brackets does not fit the index type.
    IndexTooLarge,
    /// A number in brackets is not followed by a closing bracket.
    NoClosingBracket,
    /// A segment is followed by something other than `/`, `[` or the end.
    Stray,
}

/// Where and why a text is not a path. The position counts characters from
/// the start of the text.
#[derive(Clone, Copy, Debug, PartialEq, Eq, Structural)]
pub struct PathFault {
    pub position: usize,
    pub kind: PathFaultKind,
}

/// The kinds of error.
#[derive(Debug)]
pub enum ErrorKind {
    /// A text could not be parsed as a path.
    PathParse { path: String, fault: PathFault },
    /// An input or output operation of a collaborator failed.
    Io(String),
    /// A value could not be taken as the requested kind.
    Type { unexpected: Unexpected, expected: &'static str },
    /// A collaborator could not parse its input format.
    FormatParse { origin: String, source: String },
    /// A complaint of the serialization bridge.
    Message(String),
    /// An integer does not fit the requested width.
    Range(BigInt),
}

/// An error of the library.
#[derive(Debug)]
pub struct Error {
    pub kind: ErrorKind,
}

/// The model of an [`Error`].
pub ghost enum Failure {
    PathParse { path: Seq<char>, fault: PathFault },
    Io(Seq<char>),
    Type { found: Found, expected: Seq<char> },
    FormatParse { origin: Seq<char>, source: Seq<char> },
    Message(Seq<char>),
    Range(int),
}

impl View for Error {
    type V = Failure;

    open spec fn view(&self) -> Failure {
        match self.kind {
            ErrorKind::PathParse { path, fault } => Failure::PathParse { path: path@, fault },
            ErrorKind::Io(text) => Failure::Io(text@),
            ErrorKind::Type { unexpected, expected } => Failure::Type {
                found: unexpected@,
                expected: expected@,
            },
            ErrorKind::FormatParse { origin, source } => Failure::FormatParse {
                origin: origin@,
                source: source@,
            },
            ErrorKind::Message(text) => Failure::Message(text@),
            ErrorKind::Range(n) => Failure::Range(int_of(n)),
        }
    }
}

impl Error {
    /// The error of an input or output operation, by its description.
    pub fn io(description: String) -> (e: Error)
        ensures
            e@ == Failure::Io(description@),
    {
        Error { kind: ErrorKind::Io(description) }
    }

    /// The error of an integer that does not fit the requested width.
    pub fn too_large(value: BigInt) -> (e: Error)
        ensures
            e@ == Failure::Range(int_of(value)),
    {
        Error { kind: ErrorKind::Range(value) }
    }

    /// The error of a value of the wrong kind.
    pub fn invalid_type(unexpected: Unexpected, expected: &'static str) -> (e: Error)
        ensures
            e@ == (Failure::Type { found: unexpected@, expected: expected@ }),
    {
        Error { kind: ErrorKind::Type { unexpected, expected } }
    }

    /// The error of a text that is not a path.
    pub fn path_parse(fault: PathFault, path: &str) -> (e: Error)
        ensures
            e@ == (Failure::PathParse { path: path@, fault }),
    {
        Error { kind: ErrorKind::PathParse { path: path.to_owned(), fault } }
    }

    /// The error of a collaborator that could not parse its format.
    pub fn format_parse(origin: &str, source: String) -> (e: Error)
        ensures
            e@ == (Failure::FormatParse { origin: origin@, source: source@ }),
    {
        Error { kind: ErrorKind::FormatParse { origin: origin.to_owned(), source } }
    }

    /// A free-form error of the serialization bridge.
    pub fn message(text: String) -> (e: Error)
        ensures
            e@ == Failure::Message(text@),
    {
        Error { kind: ErrorKind::Message(text) }
    }
}

} // verus!
