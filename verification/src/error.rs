//! Errors of the Bonk protocol.

use vstd::prelude::*;

verus! {

/// What can go wrong on a single Bonk connection.
///
/// Every variant is scoped to the session that produced it: the session is
/// closed or the message rejected, the listener keeps serving.
#[derive(Debug, Clone, Copy, PartialEq, Eq, Structural)]
pub enum BonkError {
    /// A message other than `Handshake` arrived before the handshake.
    HandshakeIncomplete,
    /// A frame was cut short or declared more bytes than the limit allows.
    MalformedFrame,
    /// The bytes could not be written out as a frame.
    WriterFailure,
    /// The payload of a frame is not the encoding of a message.
    Serialization,
}

impl BonkError {
    /// The message shown to a user for this error.
    pub fn describe(&self) -> (text: &'static str)
        ensures
            text@ == match *self {
                BonkError::HandshakeIncomplete => "No handshake was completed"@,
                BonkError::MalformedFrame => "Malformed frame"@,
                BonkError::WriterFailure => "Failed to write a data stream"@,
                BonkError::Serialization => "Failed to encode or decode a message"@,
            },
    {
        match self {
            BonkError::HandshakeIncomplete => "No handshake was completed",
            BonkError::MalformedFrame => "Malformed frame",
            BonkError::WriterFailure => "Failed to write a data stream",
            BonkError::Serialization => "Failed to encode or decode a message",
        }
    }
}

} // verus!
