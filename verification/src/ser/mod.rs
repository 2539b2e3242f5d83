//! The writing protocol: the sinks that take calls, and the types that make
//! them.

pub mod impls;
pub mod traits;

pub use traits::{Event, Serialize, Serializer};
