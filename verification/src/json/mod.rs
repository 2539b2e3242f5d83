//! JSON documents through the JSON crate: a sink that builds a value of the
//! crate, and a reader of a document that the crate has parsed.

pub mod de;
pub mod ser;
pub mod value;

pub use de::Deserializer;
pub use ser::Serializer;
