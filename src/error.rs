use vstd::prelude::*;

verus! {

/// Every way in which an encode or decode call can fail. Each one ends the call.
#[derive(Debug, Clone, Copy, PartialEq, Eq, Structural)]
pub enum Error {
    /// A shape the format does not define was asked for (maps).
    NotYetImplemented,
    /// A self-describing decode was asked for; the format carries no type tags.
    WontImplement,
    /// The input ended before a field could be read.
    DeserializeUnexpectedEnd,
    /// A varint ran over the widest length it may have without ending.
    DeserializeBadVarint,
    /// A bool byte was neither 0 nor 1.
    DeserializeBadBool,
    /// Four bytes read as a char were not a Unicode scalar value.
    DeserializeBadChar,
    /// The bytes of a string were not UTF-8.
    DeserializeBadUtf8,
    /// The tag byte of an option was neither 0 nor 1.
    DeserializeBadOption,
    /// An enum ordinal does not name a variant.
    DeserializeBadEnum,
    /// A stuffed frame was malformed.
    DeserializeBadEncoding,
}

} // verus!
