use crate::command::SetCommand;
use crate::errors::AppError;
use crate::text::{decimal, push_decimal};
use vstd::prelude::*;
use vstd::string::StringExecFns;
use vstd::utf8::{decode_utf8, valid_utf8};

verus! {

/// Expiration sentinel: the record never expires.
pub const NEVER_EXPIRES: i64 = 0;

/// Expiration sentinel: the record is expired as soon as it is written.
pub const IMMEDIATELY_EXPIRES: i64 = -1;

/// One stored value with its metadata.
#[derive(Debug, Clone, PartialEq)]
pub struct Record {
    pub key: String,
    pub flags: u32,
    /// Absolute expiration instant in Unix seconds, or one of the sentinels.
    pub expire_time: i64,
    pub byte_count: usize,
    pub noreply: bool,
    pub data: Vec<u8>,
}

/// Whether a record with expiration instant `expire_at` is expired at `now`.
pub open spec fn expired(expire_at: i64, now: i64) -> bool {
    if expire_at == NEVER_EXPIRES {
        false
    } else if expire_at == IMMEDIATELY_EXPIRES {
        true
    } else {
        now >= expire_at
    }
}

/// The expiration instant of a record stored at `now` with the client's
/// relative expiration `relative`: a positive value is an offset in seconds
/// (saturating at the largest instant); zero and negative values are kept.
pub open spec fn expire_at(relative: i64, now: i64) -> i64 {
    if relative > 0 {
        if now + relative > i64::MAX {
            i64::MAX
        } else {
            (now + relative) as i64
        }
    } else {
        relative
    }
}

/// Line terminator of the protocol.
pub open spec fn crlf() -> Seq<char> {
    seq!['\r', '\n']
}

/// `VALUE <key> <flags> <bytes>\r\n<text>\r\n`.
pub open spec fn value_line(key: Seq<char>, flags: u32, byte_count: usize, text: Seq<char>) -> Seq<
    char,
> {
    seq!['V', 'A', 'L', 'U', 'E', ' '] + key + seq![' '] + decimal(flags as nat) + seq![' ']
        + decimal(byte_count as nat) + crlf() + text + crlf()
}

/// The record that a `set` received at `now` stores.
pub open spec fn record_of(cmd: SetCommand, now: i64) -> Record {
    Record {
        key: cmd.key,
        flags: cmd.flags,
        expire_time: expire_at(cmd.expire_time, now),
        byte_count: cmd.byte_count,
        noreply: cmd.noreply,
        data: cmd.data,
    }
}

/// Relies on `std::str::from_utf8`: it succeeds exactly on valid UTF-8, and
/// the text it returns is what the bytes encode.
#[verifier::external_body]
pub(crate) fn utf8_text(bytes: &Vec<u8>) -> (r: Option<&str>)
    ensures
        match r {
            Some(t) => valid_utf8(bytes@) && t@ == decode_utf8(bytes@),
            None => !valid_utf8(bytes@),
        },
{
    std::str::from_utf8(bytes.as_slice()).ok()
}

impl Default for Record {
    fn default() -> (r: Record)
        ensures
            r.key@ == Seq::<char>::empty(),
            r.flags == 0,
            r.expire_time == NEVER_EXPIRES,
            r.byte_count == 0,
            !r.noreply,
            r.data@ == Seq::<u8>::empty(),
    {
        Record {
            key: String::new(),
            flags: 0,
            expire_time: NEVER_EXPIRES,
            byte_count: 0,
            noreply: false,
            data: Vec::new(),
        }
    }
}

impl Record {
    /// A default record with the given expiration instant.
    pub fn new_with_expire_time(expire_time: i64) -> (r: Record)
        ensures
            r.key@ == Seq::<char>::empty(),
            r.flags == 0,
            r.expire_time == expire_time,
            r.byte_count == 0,
            !r.noreply,
            r.data@ == Seq::<u8>::empty(),
    {
        let mut r = Record::default();
        r.expire_time = expire_time;
        r
    }

    /// The record that `cmd`, received at `now`, stores.
    pub fn from_command(cmd: SetCommand, now: i64) -> (r: Record)
        ensures
            r == record_of(cmd, now),
    {
        Record {
            expire_time: Self::expire_time(cmd.expire_time, now),
            key: cmd.key,
            flags: cmd.flags,
            byte_count: cmd.byte_count,
            noreply: cmd.noreply,
            data: cmd.data,
        }
    }

    /// The reply line that carries this record, or `Utf8Error` when its data
    /// is not text.
    pub fn to_string(&self) -> (r: Result<String, AppError>)
        ensures
            match r {
                Ok(s) => valid_utf8(self.data@) && s@ == value_line(
                    self.key@,
                    self.flags,
                    self.byte_count,
                    decode_utf8(self.data@),
                ),
                Err(e) => !valid_utf8(self.data@) && e == AppError::Utf8Error,
            },
    {
        match utf8_text(&self.data) {
            Some(text) => {
                proof {
                    reveal_strlit("VALUE ");
                    reveal_strlit(" ");
                    reveal_strlit("\r\n");
                }
                let mut out = String::from_str("VALUE ");
                out.append(self.key.as_str());
                out.append(" ");
                push_decimal(&mut out, self.flags as u64);
                out.append(" ");
                push_decimal(&mut out, self.byte_count as u64);
                out.append("\r\n");
                out.append(text);
                out.append("\r\n");
                assert(out@ =~= value_line(
                    self.key@,
                    self.flags,
                    self.byte_count,
                    decode_utf8(self.data@),
                ));
                Ok(out)
            },
            None => Err(AppError::Utf8Error),
        }
    }

    /// Whether this record is expired at `now`.
    pub fn is_expired(&self, now: i64) -> (r: bool)
        ensures
            r == expired(self.expire_time, now),
    {
        if self.expire_time == NEVER_EXPIRES {
            return false;
        }
        if self.expire_time == IMMEDIATELY_EXPIRES {
            return true;
        }
        now >= self.expire_time
    }

    /// The expiration instant for a record stored at `now` with the
    /// client-supplied expiration `relative`.
    pub fn expire_time(relative: i64, now: i64) -> (r: i64)
        ensures
            r == expire_at(relative, now),
    {
        if relative > 0 {
            match now.checked_add(relative) {
                Some(t) => t,
                None => i64::MAX,
            }
        } else {
            relative
        }
    }
}

/// A keyed container of records with expire-on-access semantics.
pub trait Storage: Sized {
    /// The records held, by key.
    spec fn records(&self) -> Map<Seq<char>, Record>;

    /// The container's internal invariant.
    spec fn wf(&self) -> bool;

    /// Stores `record` under `key`, replacing any record held there.
    fn store(&mut self, key: String, record: Record)
        requires
            old(self).wf(),
        ensures
            final(self).wf(),
            final(self).records() == old(self).records().insert(key@, record),
    ;

    /// Removes and returns the record under `key`, expired or not.
    fn remove(&mut self, key: &str) -> (r: Option<Record>)
        requires
            old(self).wf(),
        ensures
            final(self).wf(),
            final(self).records() == old(self).records().remove(key@),
            r == lookup(old(self).records(), key@),
    ;

    /// The live record under `key` at `now`. A record found expired is
    /// removed as a side effect.
    fn find(&mut self, key: &str, now: i64) -> (r: Option<&Record>)
        requires
            old(self).wf(),
        ensures
            final(self).wf(),
            final(self).records() == after_find(old(self).records(), key@, now),
            match r {
                Some(rec) => live(old(self).records(), key@, now) == Some(*rec),
                None => live(old(self).records(), key@, now) is None,
            },
    ;

    /// Whether a live record is held under `key` at `now`, with the same
    /// side effect as `find`.
    fn contains_live(&mut self, key: &str, now: i64) -> (r: bool)
        requires
            old(self).wf(),
        ensures
            final(self).wf(),
            final(self).records() == after_find(old(self).records(), key@, now),
            r == live(old(self).records(), key@, now) is Some,
    ;
}

/// The record under `key`, if any.
pub open spec fn lookup(m: Map<Seq<char>, Record>, key: Seq<char>) -> Option<Record> {
    if m.contains_key(key) {
        Some(m[key])
    } else {
        None
    }
}

/// The record under `key` if it is present and not expired at `now`.
pub open spec fn live(m: Map<Seq<char>, Record>, key: Seq<char>, now: i64) -> Option<Record> {
    if m.contains_key(key) && !expired(m[key].expire_time, now) {
        Some(m[key])
    } else {
        None
    }
}

/// The records left after a lookup of `key` at `now`: an expired record
/// under `key` is dropped, nothing else changes.
pub open spec fn after_find(m: Map<Seq<char>, Record>, key: Seq<char>, now: i64) -> Map<
    Seq<char>,
    Record,
> {
    if m.contains_key(key) && expired(m[key].expire_time, now) {
        m.remove(key)
    } else {
        m
    }
}

} // verus!
