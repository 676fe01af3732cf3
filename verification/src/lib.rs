//! A textual-JSON-to-in-memory-tree parser.
//!
//! The parser walks the input once with a peekable character cursor and
//! produces a tagged tree value (`JsonValue`) or a structural error
//! (`JsonError`).  Every production is verified against a specification-level
//! grammar over `Seq<char>` (`grammar`), and the round-trip law for
//! serialized documents is proved in `laws`.

pub mod chars;
pub mod value;
pub mod grammar;
pub mod parser;
pub mod laws;

pub use value::JsonValue;
pub use value::JsonError;
pub use value::Json;
pub use parser::parse_json;
pub use parser::Cursor;
pub use parser::parse_key;
pub use parser::consume_whitespace;
