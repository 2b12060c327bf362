//! A recognizer for a restricted JSON grammar, a builder of value trees from
//! it, and a compact serializer, all proved against a grammar stated over
//! character sequences.

pub mod grammar;
pub mod laws;
mod lexer;
pub mod parser;
pub mod roundtrip;
pub mod serializer;
mod text;
pub mod value;

pub use parser::{parse_json_file, JSONError, JSONParser, Rule, SyntaxError};
pub use serializer::serialize_jsonvalue;
pub use value::{JSONValue, JValue};
