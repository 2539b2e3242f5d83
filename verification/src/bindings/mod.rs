//! What a binding rests on: the table of a type's members or variants, each
//! with its number and its name, and what resolves a key against a table.

pub mod key;
pub mod law;
pub mod record;
pub mod table;
pub mod unique;
pub mod variant;

pub use key::split_key;
pub use record::{StructBuilder, UnionBuilder};
pub use table::Entry;
pub use unique::check_unique_ids;
pub use variant::{deserialize_enum, serialize_enum, EnumPlace};
