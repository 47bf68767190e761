//! A small library for a line-oriented notation that describes a UI component
//! hierarchy in the BEM (Block Element Modifier) style: one block line,
//! followed by zero or more element lines, each line a name with an optional
//! bracketed modifier list.  The library parses that notation into a
//! structured model and converts the model to and from a fixed JSON shape.
//!
//! Every function of the library is verified: the grammar and the JSON wire
//! format are stated as specification-level functions, the executable parser
//! and codec are proved to implement them exactly, and the round trip from a
//! well-formed block through JSON and back is proved to reproduce the block.

pub mod chars;
pub mod codec;
pub mod grammar;
pub mod json;
pub mod models;
pub mod parser;
pub mod roundtrip;

pub use codec::{from_json, to_json};
pub use models::{BEMBlock, BEMElement};
pub use parser::parse;
