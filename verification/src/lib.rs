//! IRC protocol messages: parsing, printing and inspection, with verified contracts.
pub mod chan;
pub mod command;
pub mod error;
pub mod laws;
pub mod message;
pub mod text;

pub use chan::is_channel_name;
pub use command::Command;
pub use error::{MessageParseError, ProtocolError};
pub use message::{OwnedMessage, Tag};
