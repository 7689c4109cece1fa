//! A JSON parser whose behaviour is stated in contracts and proved by Verus.
//!
//! [`parse`] turns a text into a [`Json`] tree or a [`ParseJsonError`]. What it
//! returns, for every text, is fixed by the functions of [`grammar`], which read
//! the text as a mathematical sequence of characters; [`Parser`] is the cursor
//! that walks the text and is proved to follow them step by step.
//!
//! [`syntax`] says what a JSON document is without reading one: the text of
//! a tree of tokens and whitespace. [`laws`] ties the two together: a text
//! parses exactly when it is such a document, and to the value of its tree.
//!
//! Numbers are kept as they were written. A [`JsonNumber`] holds the lexeme,
//! which is proved to follow the grammar of numbers; what float or integer it
//! is read as is left to the caller.
pub mod error;
pub mod grammar;
pub mod laws;
pub mod parser;
pub mod proofs;
pub mod std_specs;
pub mod syntax;
pub mod value;

pub use error::ParseJsonError;
pub use parser::{parse, Parser};
pub use value::{Json, JsonNumber, JsonObject, Value};
