use vstd::prelude::*;

verus! {

/// A parsed request.
#[derive(Debug)]
pub enum Command {
    Store(SetCommand),
    Get(GetCommand),
}

/// `set <key> <flags> <exptime> <bytes> [noreply]`, with its data block.
#[derive(Debug)]
pub struct SetCommand {
    pub key: String,
    pub flags: u32,
    /// Relative expiration in seconds: `0` never expires, negative expires at once.
    pub expire_time: i64,
    pub byte_count: usize,
    pub noreply: bool,
    pub data: Vec<u8>,
}

/// `get <key>`.
#[derive(Debug)]
pub struct GetCommand {
    pub key: String,
}

} // verus!
