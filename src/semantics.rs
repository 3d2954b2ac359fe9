//! Laws of the protocol over sequences of commands.
use crate::command::{Command, GetCommand, SetCommand};
use crate::errors::AppError;
use crate::protocol::{end_reply, next_records, reply};
use crate::storage::{expire_at, expired, record_of, value_line, Record};
use vstd::prelude::*;
use vstd::utf8::{decode_utf8, valid_utf8};

verus! {

/// The reply that a `get` gives for the record stored by `c`.
pub open spec fn hit_reply(c: SetCommand) -> Result<Seq<char>, AppError> {
    Ok(value_line(c.key@, c.flags, c.byte_count, decode_utf8(c.data@)) + end_reply())
}

/// A `get` of the key of a `set`, before the stored record expires, returns
/// the `VALUE` line with the key, flags, byte count and data of the `set`.
pub proof fn lemma_get_after_set(
    m: Map<Seq<char>, Record>,
    c: SetCommand,
    g: GetCommand,
    t_set: i64,
    t_get: i64,
)
    requires
        g.key@ == c.key@,
        valid_utf8(c.data@),
        !expired(expire_at(c.expire_time, t_set), t_get),
    ensures
        reply(Command::Get(g), next_records(Command::Store(c), m, t_set), t_get) == hit_reply(c),
{
}

/// A `get` of a key that is not held replies `END\r\n` and changes nothing.
pub proof fn lemma_get_absent(m: Map<Seq<char>, Record>, g: GetCommand, now: i64)
    requires
        !m.contains_key(g.key@),
    ensures
        reply(Command::Get(g), m, now) == Ok::<Seq<char>, AppError>(end_reply()),
        next_records(Command::Get(g), m, now) == m,
{
}

/// A record stored with expiration `0` is returned at any later time.
pub proof fn lemma_never_expires(
    m: Map<Seq<char>, Record>,
    c: SetCommand,
    g: GetCommand,
    t_set: i64,
    t_get: i64,
)
    requires
        c.expire_time == 0,
        g.key@ == c.key@,
        valid_utf8(c.data@),
    ensures
        reply(Command::Get(g), next_records(Command::Store(c), m, t_set), t_get) == hit_reply(c),
{
}

/// A record stored with expiration `-1` is never returned: the next `get`
/// replies `END\r\n`.
pub proof fn lemma_expires_at_once(
    m: Map<Seq<char>, Record>,
    c: SetCommand,
    g: GetCommand,
    t_set: i64,
    t_get: i64,
)
    requires
        c.expire_time == -1,
        g.key@ == c.key@,
    ensures
        reply(Command::Get(g), next_records(Command::Store(c), m, t_set), t_get) == Ok::<
            Seq<char>,
            AppError,
        >(end_reply()),
{
}

/// A record stored at `t_set` with expiration `t > 0` is returned while
/// `t_get < t_set + t`, and not from `t_set + t` on.
pub proof fn lemma_expires_after(
    m: Map<Seq<char>, Record>,
    c: SetCommand,
    g: GetCommand,
    t_set: i64,
    t_get: i64,
)
    requires
        c.expire_time > 0,
        t_set >= 0,
        t_set + c.expire_time <= i64::MAX,
        g.key@ == c.key@,
    ensures
        t_get < t_set + c.expire_time && valid_utf8(c.data@) ==> reply(
            Command::Get(g),
            next_records(Command::Store(c), m, t_set),
            t_get,
        ) == hit_reply(c),
        t_get >= t_set + c.expire_time ==> reply(
            Command::Get(g),
            next_records(Command::Store(c), m, t_set),
            t_get,
        ) == Ok::<Seq<char>, AppError>(end_reply()),
{
}

/// A second `set` of a key replaces the first entirely: the records are as if
/// the first had never run.
pub proof fn lemma_overwrite(
    m: Map<Seq<char>, Record>,
    c1: SetCommand,
    c2: SetCommand,
    t1: i64,
    t2: i64,
)
    requires
        c1.key@ == c2.key@,
    ensures
        next_records(Command::Store(c2), next_records(Command::Store(c1), m, t1), t2)
            == next_records(Command::Store(c2), m, t2),
{
    assert(m.insert(c1.key@, record_of(c1, t1)).insert(c2.key@, record_of(c2, t2)) =~= m.insert(
        c2.key@,
        record_of(c2, t2),
    ));
}

/// A `set` with `noreply` replies nothing, and a `get` that follows it still
/// returns the stored value.
pub proof fn lemma_noreply(
    m: Map<Seq<char>, Record>,
    c: SetCommand,
    g: GetCommand,
    t_set: i64,
    t_get: i64,
)
    requires
        c.noreply,
        g.key@ == c.key@,
        valid_utf8(c.data@),
        !expired(expire_at(c.expire_time, t_set), t_get),
    ensures
        reply(Command::Store(c), m, t_set) == Ok::<Seq<char>, AppError>(Seq::<char>::empty()),
        reply(Command::Get(g), next_records(Command::Store(c), m, t_set), t_get) == hit_reply(c),
{
}

/// The records after the `set`s `cs` run in order, the `i`-th at time `ts[i]`.
pub open spec fn store_all(m: Map<Seq<char>, Record>, cs: Seq<SetCommand>, ts: Seq<i64>) -> Map<
    Seq<char>,
    Record,
>
    decreases cs.len(),
{
    if cs.len() == 0 || ts.len() == 0 {
        m
    } else {
        next_records(
            Command::Store(cs.last()),
            store_all(m, cs.drop_last(), ts.drop_last()),
            ts.last(),
        )
    }
}

/// `set`s of distinct keys lose no update: after all of them, in whatever
/// order they were serialised, each key holds the record of its own `set`.
pub proof fn lemma_distinct_sets_all_visible(
    m: Map<Seq<char>, Record>,
    cs: Seq<SetCommand>,
    ts: Seq<i64>,
    i: int,
)
    requires
        cs.len() == ts.len(),
        0 <= i < cs.len(),
        forall|a: int, b: int|
            0 <= a < cs.len() && 0 <= b < cs.len() && a != b ==> cs[a].key@ != cs[b].key@,
    ensures
        store_all(m, cs, ts).contains_key(cs[i].key@),
        store_all(m, cs, ts)[cs[i].key@] == record_of(cs[i], ts[i]),
    decreases cs.len(),
{
    let n = cs.len() - 1;
    if i < n {
        let cp = cs.drop_last();
        assert forall|a: int, b: int|
            0 <= a < cp.len() && 0 <= b < cp.len() && a != b implies cp[a].key@ != cp[b].key@ by {
            assert(cp[a] == cs[a] && cp[b] == cs[b]);
        }
        lemma_distinct_sets_all_visible(m, cp, ts.drop_last(), i);
        assert(cs[n].key@ != cs[i].key@);
    }
}

} // verus!
