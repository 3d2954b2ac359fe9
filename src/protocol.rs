use crate::command::{Command, GetCommand, SetCommand};
use crate::errors::AppError;
use crate::storage::{after_find, crlf, live, record_of, value_line, Record, Storage};
use crate::text::{
    parse_i64, parse_u32, parse_usize, signed_value, split_words, unsigned_value, words,
};
use crate::util::unix_timestamp_now;
use vstd::prelude::*;
use vstd::string::{StrSliceExecFns, StringExecFns};
use vstd::utf8::{decode_utf8, valid_utf8};

verus! {

pub open spec fn get_word() -> Seq<char> {
    seq!['g', 'e', 't']
}

pub open spec fn set_word() -> Seq<char> {
    seq!['s', 'e', 't']
}

pub open spec fn noreply_word() -> Seq<char> {
    seq!['n', 'o', 'r', 'e', 'p', 'l', 'y']
}

/// `END\r\n`, the reply that closes every `get`.
pub open spec fn end_reply() -> Seq<char> {
    seq!['E', 'N', 'D'] + crlf()
}

/// `STORED\r\n`, the reply to a `set` without `noreply`.
pub open spec fn stored_reply() -> Seq<char> {
    seq!['S', 'T', 'O', 'R', 'E', 'D'] + crlf()
}

/// Whether `w` is an unsigned field whose value fits in `u32`.
pub open spec fn fits_u32(w: Seq<char>) -> bool {
    match unsigned_value(w) {
        Some(v) => v <= u32::MAX,
        None => false,
    }
}

/// Whether `w` is an unsigned field whose value fits in `usize`.
pub open spec fn fits_usize(w: Seq<char>) -> bool {
    match unsigned_value(w) {
        Some(v) => v <= usize::MAX,
        None => false,
    }
}

/// Whether `w` is a signed field whose value fits in `i64`.
pub open spec fn fits_i64(w: Seq<char>) -> bool {
    match signed_value(w) {
        Some(v) => i64::MIN <= v <= i64::MAX,
        None => false,
    }
}

/// Whether `r` is what parsing a line with the words `w` yields.
pub open spec fn parsed(w: Seq<Seq<char>>, r: Result<Command, AppError>) -> bool {
    match r {
        Ok(Command::Get(g)) => w.len() >= 2 && w[0] == get_word() && g.key@ == w[1],
        Ok(Command::Store(c)) => {
            &&& w.len() >= 5
            &&& w[0] == set_word()
            &&& c.key@ == w[1]
            &&& unsigned_value(w[2]) == Some(c.flags as int)
            &&& signed_value(w[3]) == Some(c.expire_time as int)
            &&& unsigned_value(w[4]) == Some(c.byte_count as int)
            &&& c.noreply == (w.len() > 5 && w[5] == noreply_word())
            &&& c.data@ == Seq::<u8>::empty()
        },
        Err(AppError::InvalidCommand) => w.len() == 0 || (w[0] == get_word() && w.len() < 2) || (
        w[0] == set_word() && w.len() < 5),
        Err(AppError::UnexpectedCommand(name)) => w.len() > 0 && w[0] != get_word() && w[0]
            != set_word() && name@ == w[0],
        Err(AppError::ParseIntError) => w.len() >= 5 && w[0] == set_word() && !(fits_u32(w[2])
            && fits_i64(w[3]) && fits_usize(w[4])),
        Err(_) => false,
    }
}

/// Whether the characters `chars[lo..hi]` spell `lit`.
fn span_is(chars: &Vec<char>, lo: usize, hi: usize, lit: &str) -> (r: bool)
    requires
        lo <= hi <= chars@.len(),
    ensures
        r == (chars@.subrange(lo as int, hi as int) == lit@),
{
    let n = lit.unicode_len();
    if hi - lo != n {
        return false;
    }
    let mut i: usize = 0;
    while i < n
        invariant
            n == lit@.len(),
            hi - lo == n,
            lo <= hi <= chars@.len(),
            forall|j: int| 0 <= j < i ==> chars@[lo + j] == lit@[j],
            i <= n,
        decreases n - i,
    {
        if chars[lo + i] != lit.get_char(i) {
            assert(chars@.subrange(lo as int, hi as int)[i as int] != lit@[i as int]);
            return false;
        }
        i = i + 1;
    }
    assert(chars@.subrange(lo as int, hi as int) =~= lit@);
    true
}

/// The characters of `line`.
fn chars_of(line: &str) -> (r: Vec<char>)
    ensures
        r@ == line@,
{
    let n = line.unicode_len();
    let mut r: Vec<char> = Vec::new();
    let mut i: usize = 0;
    while i < n
        invariant
            n == line@.len(),
            i <= n,
            r@ == line@.take(i as int),
        decreases n - i,
    {
        r.push(line.get_char(i));
        i = i + 1;
        assert(r@ =~= line@.take(i as int));
    }
    assert(line@.take(n as int) =~= line@);
    r
}

/// Builds a `get` from the words of `line`, of which there are at least two.
fn parse_get_cmd(line: &str, spans: &Vec<(usize, usize)>) -> (r: Result<Command, AppError>)
    requires
        spans@.len() >= 2,
        spans@[1].0 <= spans@[1].1 <= line@.len(),
    ensures
        match r {
            Ok(Command::Get(g)) => g.key@ == line@.subrange(spans@[1].0 as int, spans@[1].1 as int),
            _ => false,
        },
{
    let key = String::from_str(line.substring_char(spans[1].0, spans[1].1));
    Ok(Command::Get(GetCommand { key }))
}

/// Builds a `set` from the words of `line`, of which there are at least five.
fn parse_set_cmd(line: &str, chars: &Vec<char>, spans: &Vec<(usize, usize)>) -> (r: Result<
    Command,
    AppError,
>)
    requires
        chars@ == line@,
        spans@.len() >= 5,
        forall|k: int|
            #![trigger spans@[k]]
            0 <= k < spans@.len() ==> spans@[k].0 <= spans@[k].1 && spans@[k].1 <= chars@.len(),
        forall|k: int|
            0 <= k < spans@.len() ==> #[trigger] chars@.subrange(
                spans@[k].0 as int,
                spans@[k].1 as int,
            ) == words(chars@)[k],
        words(chars@).len() == spans@.len(),
        words(chars@)[0] == set_word(),
    ensures
        parsed(words(line@), r),
{
    let ghost w = words(chars@);
    assert(chars@.subrange(spans@[1].0 as int, spans@[1].1 as int) == w[1]);
    assert(chars@.subrange(spans@[2].0 as int, spans@[2].1 as int) == w[2]);
    assert(chars@.subrange(spans@[3].0 as int, spans@[3].1 as int) == w[3]);
    assert(chars@.subrange(spans@[4].0 as int, spans@[4].1 as int) == w[4]);
    let key = String::from_str(line.substring_char(spans[1].0, spans[1].1));
    let flags = match parse_u32(chars, spans[2].0, spans[2].1) {
        Some(v) => v,
        None => return Err(AppError::ParseIntError),
    };
    let expire_time = match parse_i64(chars, spans[3].0, spans[3].1) {
        Some(v) => v,
        None => return Err(AppError::ParseIntError),
    };
    let byte_count = match parse_usize(chars, spans[4].0, spans[4].1) {
        Some(v) => v,
        None => return Err(AppError::ParseIntError),
    };
    proof {
        reveal_strlit("noreply");
    }
    let noreply = if spans.len() > 5 {
        assert(chars@.subrange(spans@[5].0 as int, spans@[5].1 as int) == w[5]);
        span_is(chars, spans[5].0, spans[5].1, "noreply")
    } else {
        false
    };
    assert("noreply"@ =~= noreply_word());
    Ok(Command::Store(SetCommand { key, flags, expire_time, byte_count, noreply, data: Vec::new() }))
}

/// Parses one command line (without its terminator). The words of the line
/// are its maximal runs of non-whitespace; the first selects the command.
pub fn parse_command(line: &str) -> (r: Result<Command, AppError>)
    ensures
        parsed(words(line@), r),
{
    let chars = chars_of(line);
    let spans = split_words(&chars);
    let ghost w = words(chars@);
    if spans.len() == 0 {
        return Err(AppError::InvalidCommand);
    }
    assert(chars@.subrange(spans@[0].0 as int, spans@[0].1 as int) == w[0]);
    proof {
        reveal_strlit("get");
        reveal_strlit("set");
    }
    assert("get"@ =~= get_word());
    assert("set"@ =~= set_word());
    if span_is(&chars, spans[0].0, spans[0].1, "get") {
        if spans.len() < 2 {
            return Err(AppError::InvalidCommand);
        }
        assert(chars@.subrange(spans@[1].0 as int, spans@[1].1 as int) == w[1]);
        parse_get_cmd(line, &spans)
    } else if span_is(&chars, spans[0].0, spans[0].1, "set") {
        if spans.len() < 5 {
            return Err(AppError::InvalidCommand);
        }
        parse_set_cmd(line, &chars, &spans)
    } else {
        let name = String::from_str(line.substring_char(spans[0].0, spans[0].1));
        Err(AppError::UnexpectedCommand(name))
    }
}

/// The reply to `get key` at `now` against the records `m`.
pub open spec fn get_reply(m: Map<Seq<char>, Record>, key: Seq<char>, now: i64) -> Result<
    Seq<char>,
    AppError,
> {
    match live(m, key, now) {
        Some(rec) => if valid_utf8(rec.data@) {
            Ok(
                value_line(rec.key@, rec.flags, rec.byte_count, decode_utf8(rec.data@))
                    + end_reply(),
            )
        } else {
            Err(AppError::Utf8Error)
        },
        None => Ok(end_reply()),
    }
}

/// The reply to a `set` with the given `noreply` flag.
pub open spec fn set_reply(noreply: bool) -> Seq<char> {
    if noreply {
        Seq::<char>::empty()
    } else {
        stored_reply()
    }
}

/// A reply as text.
pub open spec fn reply_view(r: Result<String, AppError>) -> Result<Seq<char>, AppError> {
    match r {
        Ok(s) => Ok(s@),
        Err(e) => Err(e),
    }
}

/// The reply to `cmd` received at `now` against the records `m`.
pub open spec fn reply(cmd: Command, m: Map<Seq<char>, Record>, now: i64) -> Result<
    Seq<char>,
    AppError,
> {
    match cmd {
        Command::Get(g) => get_reply(m, g.key@, now),
        Command::Store(c) => Ok(set_reply(c.noreply)),
    }
}

/// The records after `cmd` received at `now` runs against the records `m`.
pub open spec fn next_records(cmd: Command, m: Map<Seq<char>, Record>, now: i64) -> Map<
    Seq<char>,
    Record,
> {
    match cmd {
        Command::Get(g) => after_find(m, g.key@, now),
        Command::Store(c) => m.insert(c.key@, record_of(c, now)),
    }
}

/// Runs `command` against `storage` at the Unix time `now`.
pub fn execute_at<S: Storage>(command: Command, storage: &mut S, now: i64) -> (r: Result<
    String,
    AppError,
>)
    requires
        old(storage).wf(),
    ensures
        final(storage).wf(),
        final(storage).records() == next_records(command, old(storage).records(), now),
        reply_view(r) == reply(command, old(storage).records(), now),
{
    match command {
        Command::Get(cmd) => exec_get_cmd(cmd, storage, now),
        Command::Store(cmd) => exec_set_cmd(cmd, storage, now),
    }
}

/// Runs `command` against `storage` at the current time.
pub fn execute<S: Storage>(command: Command, storage: &mut S) -> (r: Result<String, AppError>)
    requires
        old(storage).wf(),
    ensures
        final(storage).wf(),
        exists|now: i64|
            #![trigger next_records(command, old(storage).records(), now)]
            now >= 0 && final(storage).records() == next_records(
                command,
                old(storage).records(),
                now,
            ) && reply_view(r) == reply(command, old(storage).records(), now),
{
    let now = unix_timestamp_now();
    let ghost cmd = command;
    let r = execute_at(command, storage, now);
    assert(final(storage).records() == next_records(cmd, old(storage).records(), now));
    r
}

fn exec_set_cmd<S: Storage>(command: SetCommand, storage: &mut S, now: i64) -> (r: Result<
    String,
    AppError,
>)
    requires
        old(storage).wf(),
    ensures
        final(storage).wf(),
        final(storage).records() == old(storage).records().insert(
            command.key@,
            record_of(command, now),
        ),
        reply_view(r) == Ok::<Seq<char>, AppError>(set_reply(command.noreply)),
{
    let noreply = command.noreply;
    let key = command.key.clone();
    storage.store(key, Record::from_command(command, now));
    proof {
        reveal_strlit("");
        reveal_strlit("STORED\r\n");
    }
    if noreply {
        let r = String::from_str("");
        assert(r@ =~= set_reply(noreply));
        Ok(r)
    } else {
        let r = String::from_str("STORED\r\n");
        assert(r@ =~= set_reply(noreply));
        Ok(r)
    }
}

fn exec_get_cmd<S: Storage>(command: GetCommand, storage: &mut S, now: i64) -> (r: Result<
    String,
    AppError,
>)
    requires
        old(storage).wf(),
    ensures
        final(storage).wf(),
        final(storage).records() == after_find(old(storage).records(), command.key@, now),
        reply_view(r) == get_reply(old(storage).records(), command.key@, now),
{
    proof {
        reveal_strlit("END\r\n");
    }
    assert("END\r\n"@ =~= end_reply());
    match storage.find(command.key.as_str(), now) {
        Some(record) => match record.to_string() {
            Ok(line) => {
                let mut out = line;
                out.append("END\r\n");
                Ok(out)
            },
            Err(e) => Err(e),
        },
        None => Ok(String::from_str("END\r\n")),
    }
}

} // verus!
