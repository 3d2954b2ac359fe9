use vstd::prelude::*;

verus! {

/// The failures of parsing and executing a command.
#[derive(Debug)]
pub enum AppError {
    /// A stored value is not valid UTF-8 text and cannot be framed in a reply.
    Utf8Error,
    /// A numeric field of a command is malformed or out of range.
    ParseIntError,
    /// The command line is empty or lacks required fields.
    InvalidCommand,
    /// The first word of the line is not a known command.
    UnexpectedCommand(String),
    /// The shared store could not be accessed.
    StateAccessError,
}

} // verus!
