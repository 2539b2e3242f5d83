use vstd::prelude::*;

verus! {

/// Why a value could not be read.
#[derive(Debug, PartialEq, Eq, Clone, Copy)]
pub enum DeserializeError {
    /// A slot was left empty although every call succeeded.
    UnknownError,
    /// The destination does not take a token of the kind that arrived.
    UnimplementedVisit,
    /// A number arrived that the destination's range does not hold.
    IncompatibleNumericType,
    /// The input ended inside a value.
    UnexpectedEof,
    /// No variant of the enum has the identifier or the name that arrived.
    UnknownEnumVariant,
    /// No variant of the union has the identifier or the name that arrived.
    UnknownUnionVariant,
    /// The input is not in the format's syntax.
    ParsingError,
    /// A record was closed before the named member had arrived.
    MissingField(&'static str),
    /// A record member arrived that the binding does not declare.
    UnknownField,
}

/// A sink refused a value or could not write it.
#[derive(Debug, PartialEq, Eq, Clone, Copy)]
pub struct SerializeError;

} // verus!
