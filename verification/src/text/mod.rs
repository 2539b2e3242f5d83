//! The text format: brackets, braces, quoted strings and composite keys; a
//! reader, a compact writer and a pretty writer.
//!
//! Between the quotes of a string a backslash escapes: `\"` stands for a quote
//! and `\\` for a backslash. Every other character stands for itself, and a
//! backslash before any other character is a parsing error.

pub mod chars;
pub mod de;
pub mod law;
pub mod pretty_law;
pub mod ser;

pub use de::JsonDeserializer;
pub use ser::{JsonSerializer, PrettyJsonSerializer};
