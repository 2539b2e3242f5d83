//! The binary format: one tag byte, then what the tag announces, every
//! number with the most significant byte first.

pub mod de;
pub mod law;
pub mod ser;
pub mod wire;

pub use de::Deserializer;
pub use ser::Serializer;
