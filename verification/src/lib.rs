//! A parser for a small line-oriented configuration format.
//!
//! Every declaration names a variable, gives it one of nine type tags and,
//! optionally, a literal value, and ends with a semicolon:
//!
//! ```text
//! NAME: string = "hello"; AGE: int32 = 30;
//! ```
//!
//! The crate recognises the declarations of a line ([`matcher`]), turns the
//! raw value text into a typed value ([`value`], on top of [`chars`] and
//! [`number`]) and collects the results in a store in which the last value
//! of a name stands ([`store`], [`parser`]). Text that is no declaration is
//! passed over, and value text that is no literal of its type becomes the
//! null marker; only a failure of the line source, or a type tag that is
//! none of the nine keywords, abandons a parse ([`failure`]).
pub mod chars;
pub mod failure;
pub mod matcher;
pub mod number;
pub mod parser;
pub mod store;
pub mod value;

pub use crate::failure::ParseFailure;
pub use crate::matcher::{match_line, Declaration};
pub use crate::parser::{Driver, VxdeParser};
pub use crate::store::VariableStore;
pub use crate::value::{coerce, coerce_value, FloatLiteral, TypeTag, VxdValue};
