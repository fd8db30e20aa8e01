//! Failures of the wire codec and of a connection.

use vstd::prelude::*;
use crate::message::Message;

verus! {

/// Why a value could not be taken from, or checked against, its wire form.
#[derive(Debug, Clone, Copy, PartialEq, Eq, Structural)]
pub enum VariantError {
    /// Fewer bytes remain than the field at hand needs.
    InsufficientData,
    /// The payload of a string or object path is not UTF-8.
    InvalidUtf8,
    /// A signature string does not follow the grammar.
    InvalidSignature,
    /// The signature asked for is not the signature of the type.
    SignatureMismatch,
    /// A length prefix is beyond what the format admits.
    InvalidData,
}

/// What went wrong on the socket, as far as the connection tells cases
/// apart.
#[derive(Debug, Clone, Copy, PartialEq, Eq, Structural)]
pub enum IoErrorKind {
    /// The socket is not ready; the same call will work later.
    WouldBlock,
    /// The peer has closed the socket.
    BrokenPipe,
    /// Any other failure.
    Other,
}

/// Why an operation of a connection failed.
#[derive(Debug, Clone, PartialEq, Eq)]
pub enum Error {
    /// The socket failed.
    Io(IoErrorKind),
    /// The authentication dialogue failed.
    Handshake(String),
    /// A value could not be taken from its wire form.
    Variant(VariantError),
    /// The peer answered a method call with an error message.
    MethodError {
        /// The name of the error.
        name: String,
        /// The error message itself, with its body.
        body: Message,
    },
    /// File descriptors were to be sent to a peer that did not agree to
    /// take them.
    Unsupported,
    /// The unique name was already set.
    NameTaken,
}

} // verus!
