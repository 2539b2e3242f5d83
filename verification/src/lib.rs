//! A format-agnostic serialization engine: typed values are written to and
//! read from a self-describing text format and a compact binary format
//! through one pair of protocols.

pub mod bindings;
pub mod de;
pub mod error;
pub mod integer;
pub mod json;
pub mod model;
pub mod msgpack;
pub mod number;
pub mod ser;
pub mod text;
