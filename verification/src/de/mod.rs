//! The reading protocol: the destinations that take tokens, the readers
//! that hand them out, and the types that are read through both.

pub mod impls;
pub mod place;
pub mod seq;
pub mod traits;
pub mod visitor;

pub use place::Place;
pub use seq::SeqBuilder;
pub use traits::{Cursor, Deserialize, Deserializer, MemberKey};
pub use visitor::{Reject, Token, Visitor};
