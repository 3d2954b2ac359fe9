use vstd::prelude::*;

verus! {

/// Relies on `SystemTime::now` and `SystemTime::duration_since(UNIX_EPOCH)`:
/// whole seconds since the Unix epoch, or `None` when the clock reads earlier.
#[verifier::external_body]
fn clock_seconds() -> (r: Option<u64>) {
    std::time::SystemTime::now().duration_since(std::time::UNIX_EPOCH).ok().map(|d| d.as_secs())
}

/// The current Unix time in seconds; `0` for a clock set before the epoch,
/// `i64::MAX` for one beyond what `i64` holds.
pub fn unix_timestamp_now() -> (r: i64)
    ensures
        r >= 0,
{
    match clock_seconds() {
        Some(s) => if s <= i64::MAX as u64 {
            s as i64
        } else {
            i64::MAX
        },
        None => 0,
    }
}

/// The port listened on when none is given.
pub const DEFAULT_PORT: usize = 11211;

/// The port to listen on: the one given, else `DEFAULT_PORT`.
pub fn listen_port(given: Option<usize>) -> (r: usize)
    ensures
        r == match given {
            Some(p) => p,
            None => DEFAULT_PORT,
        },
{
    match given {
        Some(p) => p,
        None => DEFAULT_PORT,
    }
}

} // verus!
