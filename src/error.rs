use vstd::prelude::*;

verus! {

/// The ways a decode can fail. Every decode entry point returns one of these
/// instead of panicking on malformed input.
#[derive(Debug, Clone, Copy, PartialEq, Eq, Structural)]
pub enum DecodeError {
    /// The leading magic does not match the expected constant.
    MagicMismatch,
    /// A declared length or count runs past the end of the input.
    TruncatedInput,
    /// An offset or index points outside the buffer it refers to.
    OutOfBounds,
    /// A record's field-by-field decode consumed a different number of bits
    /// than the table's record size promises.
    RecordSizeMismatch,
    /// A storage encoding that is recognised but not supported.
    UnsupportedEncoding,
    /// A required table row or section is absent.
    MissingRequiredSection,
    /// A decoded value lies outside the range of its target type.
    InvalidValue,
}

} // verus!
