//! Errors reported while reading a message.
use vstd::prelude::*;

verus! {

/// Why a line could not be read as a message.
#[derive(Clone, Copy, PartialEq, Eq, Debug)]
pub enum MessageParseError {
    /// The line was empty.
    EmptyMessage,
    /// The line did not hold a command.
    InvalidCommand,
}

/// An error of the protocol layer.
#[derive(Clone, PartialEq, Debug)]
pub enum ProtocolError {
    /// The line `string` could not be read as a message, for the reason `cause`.
    InvalidMessage { string: String, cause: MessageParseError },
}

/// The mathematical value of a `ProtocolError`.
pub enum ProtocolErrorView {
    InvalidMessage { string: Seq<char>, cause: MessageParseError },
}

impl View for ProtocolError {
    type V = ProtocolErrorView;

    open spec fn view(&self) -> ProtocolErrorView {
        match self {
            ProtocolError::InvalidMessage { string, cause } => ProtocolErrorView::InvalidMessage {
                string: string@,
                cause: *cause,
            },
        }
    }
}

} // verus!
