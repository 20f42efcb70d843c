//! The failures that any part of the codec can surface.

use vstd::prelude::*;

verus! {

/// Everything that can go wrong while marshalling or unmarshalling.
///
/// `NeedMoreBytes` is the one recoverable outcome: the input ended before the
/// value did, and a framing layer may retry with a longer buffer. All other
/// variants are terminal for the buffer at hand.
#[derive(Clone, Copy, Debug, PartialEq, Eq, Structural)]
pub enum DbusParseError {
    /// The first header byte is neither `l` nor `B`.
    InvalidEndianness,
    /// The message-type byte is outside 1..=4.
    InvalidMessageType,
    /// The protocol-version byte is not 1.
    UnsupportedProtocolVersion,
    /// A signature byte is outside the D-Bus type alphabet.
    InvalidSignatureToken,
    /// A signature's tokens do not form a sequence of complete types.
    MalformedSignature,
    /// A header-field code is duplicated.
    InvalidHeaderField,
    /// A header field that the message type demands is absent.
    MissingRequiredHeaderField,
    /// An object path breaks the path grammar.
    MalformedObjectPath,
    /// A string's bytes are not valid UTF-8.
    InvalidUtf8,
    /// The NUL byte that must close a string or signature is missing.
    MissingNulTerminator,
    /// A boolean word is neither 0 nor 1.
    InvalidBoolean,
    /// An array's payload is longer than the protocol allows.
    ArrayLengthOverflow,
    /// A value's runtime variant disagrees with the requested projection or
    /// with the enclosing signature.
    TypeMismatch,
    /// The input ended before the value did; recoverable by reading more.
    NeedMoreBytes,
    /// Decoding succeeded but left bytes behind where none may remain.
    TrailingBytes,
}

} // verus!
