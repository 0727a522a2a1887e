use vstd::prelude::*;

verus! {

/// The failures that the codec and the connection logic tell apart.
#[derive(Clone, Copy, Debug, PartialEq, Eq, Structural)]
pub enum ProtocolError {
    /// The bytes ended in the middle of a value.
    ShortBuffer,
    /// A frame declares more bytes than are available.
    ShortFrame,
    /// A frame declares a length of zero.
    ZeroLength,
    /// A VarInt would need more than five bytes.
    VarintOverflow,
    /// A string's bytes are not valid UTF-8.
    BadUtf8,
    /// A frame carries another packet id than the one expected.
    IdMismatch,
    /// A compressed frame could not be inflated.
    DecompressError,
    /// A frame would be too long for its VarInt length prefix.
    FrameTooLarge,
    /// A listener vetoed the operation.
    ConnectionAborted,
}

} // verus!
