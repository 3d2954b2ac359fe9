//! Framing of the byte stream of one connection: a command line ends at the
//! first `\r\n`; a `set` is followed by a data block of its byte count plus
//! the terminator.
use crate::command::SetCommand;
use crate::errors::AppError;
use crate::storage::utf8_text;
use vstd::prelude::*;
use vstd::string::StringExecFns;
use vstd::utf8::{decode_utf8, valid_utf8};

verus! {

/// Whether `\r\n` starts at `p` in `b`.
pub open spec fn crlf_at(b: Seq<u8>, p: int) -> bool {
    0 <= p && p + 1 < b.len() && b[p] == 13 && b[p + 1] == 10
}

/// The position of the first `\r\n` in `buf`, if any.
pub fn find_line_end(buf: &Vec<u8>) -> (r: Option<usize>)
    ensures
        match r {
            Some(p) => crlf_at(buf@, p as int) && forall|q: int| 0 <= q < p ==> !crlf_at(buf@, q),
            None => forall|q: int| !crlf_at(buf@, q),
        },
{
    let mut i: usize = 0;
    while i < buf.len() && buf.len() - i >= 2
        invariant
            forall|q: int| 0 <= q < i ==> !crlf_at(buf@, q),
        decreases buf@.len() - i,
    {
        if buf[i] == 13 && buf[i + 1] == 10 {
            return Some(i);
        }
        i = i + 1;
    }
    None
}

/// The command line `buf[..end]` as text, or `Utf8Error` when it is not UTF-8.
pub fn command_line(buf: &Vec<u8>, end: usize) -> (r: Result<String, AppError>)
    requires
        end <= buf@.len(),
    ensures
        match r {
            Ok(s) => valid_utf8(buf@.take(end as int)) && s@ == decode_utf8(buf@.take(end as int)),
            Err(e) => !valid_utf8(buf@.take(end as int)) && e == AppError::Utf8Error,
        },
{
    let mut line: Vec<u8> = Vec::new();
    let mut i: usize = 0;
    while i < end
        invariant
            i <= end <= buf@.len(),
            line@ == buf@.take(i as int),
        decreases end - i,
    {
        line.push(buf[i]);
        i = i + 1;
        assert(line@ =~= buf@.take(i as int));
    }
    match utf8_text(&line) {
        Some(t) => Ok(String::from_str(t)),
        None => Err(AppError::Utf8Error),
    }
}

/// The number of bytes to read after a `set` line: the data and its `\r\n`.
/// `None` when that count does not fit in `usize`.
pub fn data_block_len(cmd: &SetCommand) -> (r: Option<usize>)
    ensures
        match r {
            Some(n) => n == cmd.byte_count + 2,
            None => cmd.byte_count + 2 > usize::MAX,
        },
{
    cmd.byte_count.checked_add(2)
}

/// Attaches the data block `block` to `cmd`, dropping its final terminator.
pub fn attach_data(cmd: &mut SetCommand, block: Vec<u8>)
    requires
        block@.len() >= 2,
    ensures
        final(cmd).data@ == block@.take(block@.len() - 2),
        final(cmd).key == old(cmd).key,
        final(cmd).flags == old(cmd).flags,
        final(cmd).expire_time == old(cmd).expire_time,
        final(cmd).byte_count == old(cmd).byte_count,
        final(cmd).noreply == old(cmd).noreply,
{
    let mut data = block;
    let n = data.len() - 2;
    data.truncate(n);
    cmd.data = data;
}

} // verus!
