use vstd::prelude::*;

verus! {

/// Why a decode operation failed.
///
/// Every failure of the codec is reported as exactly one of these kinds;
/// errors raised while decoding a nested construct (an element inside a
/// sequence, an identity inside a handshake message) propagate to the
/// caller unchanged.
#[derive(Clone, Copy, Debug, PartialEq, Eq, Structural)]
pub enum DecodeError {
    /// The reserved integer tag byte 255 was read.
    UnsupportedTag,
    /// The declared size byte of an identity token was not 16.
    InvalidIdentitySize,
    /// A string payload was not valid UTF-8.
    InvalidUtf8,
    /// A declared string length does not fit the platform's indexing type.
    LengthOverflow,
    /// A handshake message tag byte outside the known set was read.
    UnknownAuthTag,
    /// The stream ended before the construct was complete.
    UnexpectedEndOfStream,
}

} // verus!
