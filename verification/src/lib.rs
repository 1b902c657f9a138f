//! A dynamically typed value tree.
//!
//! A [`Value`] is nil, a boolean, an integer of any size, a float, a string,
//! an array of values or a table from strings to values. Values are addressed
//! by paths such as `/servers[0]/name`, updated in place with whatever a path
//! needs made on the way, merged with a strict discipline of kinds, and taken
//! as primitive types by a loose table of coercions. The two halves of a
//! serialization bridge keep the state and make the decisions of encoding a
//! structure as a value and of decoding a value as a structure.
//!
//! Every function is verified against a contract over the mathematical
//! models of the types: a value is a [`value::Tree`], a path a sequence of
//! [`path::Step`]s, an error a [`error::Failure`].
//!
//! - [`value`]: values, tables and their models
//! - [`path`], [`parser`], [`spelling`]: paths, their language and its parser
//! - [`engine`]: finding and placing values by path
//! - [`merge`]: merging one value into another
//! - [`coerce`]: conversions between values and primitive types
//! - [`ser`], [`de`]: encoding and decoding
//! - [`error`], [`render`]: errors and textual forms
//! - [`integer`], [`float`], [`text`], [`equal`]: numbers, strings, equality

pub mod coerce;
pub mod de;
pub mod engine;
pub mod equal;
pub mod error;
pub mod float;
pub mod integer;
pub mod merge;
pub mod parser;
pub mod path;
pub mod render;
pub mod ser;
pub mod spelling;
pub mod text;
pub mod value;

pub use crate::error::Error;
pub use crate::path::Path;
pub use crate::value::Value;
