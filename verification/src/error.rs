use vstd::prelude::*;

verus! {

/// The integer width that a narrowed decode or a widened encode was aimed at.
///
/// The wire format carries every ordinary integer as a signed 32-bit value, so
/// narrower host targets range-check after decoding and wider host sources
/// range-check before encoding.
#[derive(Debug, Clone, Copy, PartialEq, Eq, Structural)]
pub enum IntWidth {
    I8,
    I16,
    I32,
    U8,
    U16,
    U32,
    U64,
}

/// Everything that can go wrong while encoding or decoding wire data.
///
/// Decoding never recovers locally: the first violation aborts the whole call
/// and is reported through exactly one of these variants.
#[derive(Debug, Clone, Copy, PartialEq, Eq, Structural)]
pub enum Error {
    /// The decoder was asked for a none sentinel but found another tag.
    ExpectedNone,
    /// The decoder was asked for a logic value but found another tag word.
    ExpectedLogic,
    /// The decoder was asked for an integer but found another tag word.
    ExpectedInteger,
    /// The decoder was asked for a float but found another tag word.
    ExpectedFloat,
    /// The decoder was asked for a char but found another tag.
    ExpectedChar,
    /// The decoder was asked for a string but found another tag.
    ExpectedString,
    /// The decoder was asked for a binary blob but found another tag.
    ExpectedBinary,
    /// The decoder was asked for a block but found another tag word.
    ExpectedBlock,
    /// The decoder was asked for a paren but found another tag word.
    ExpectedParen,
    /// A value did not fit the named integer width.
    WidthExceeded(IntWidth),
    /// A block decoded as a map had an odd element count.
    UnevenMapLength,
    /// A map block ended between a key and its value.
    NoMapValue,
    /// Bytes were left over after the single top-level value.
    TrailingBytes,
    /// The input ended before the value it promised.
    Truncated,
    /// The reference flag was set: shared-series views are not supported.
    UnsupportedReference,
    /// A text payload was not valid for its declared unit width.
    TranscodingFailure,
    /// A string or binary header declared a unit width the format does not define.
    UnsupportedUnitWidth,
    /// A paren decoded as a tagged union had an element count other than 1 or 2.
    MalformedEnumArity,
    /// A tag byte that names no value kind of the format.
    UnsupportedTag,
    /// The input does not start with the format's magic bytes.
    BadMagic,
    /// The envelope names a format version this codec does not speak.
    UnsupportedVersion,
    /// The envelope promises a record count other than 1.
    UnsupportedRecordCount,
    /// A value is too large for the format's 32-bit length fields.
    LengthOverflow,
}

} // verus!
