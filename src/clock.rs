//! Turn deadlines. Times are Unix timestamps in whole seconds.

use vstd::prelude::*;

verus! {

/// How long a player has to make a guess once the turn is theirs.
pub const TURN_SECONDS: i64 = 60;

/// How long a player's own latest guess keeps them from quitting a game in
/// progress.
pub const QUIT_WINDOW_SECONDS: i64 = 300;

/// The deadline of a turn that starts at `now` (the latest representable
/// time where the sum would not fit).
pub open spec fn deadline_after(now: i64) -> i64 {
    if now + TURN_SECONDS <= i64::MAX {
        (now + TURN_SECONDS) as i64
    } else {
        i64::MAX
    }
}

/// The deadline of a turn that starts at `now`.
pub fn compute_deadline(now: i64) -> (r: i64)
    ensures
        r == deadline_after(now),
{
    if now <= i64::MAX - TURN_SECONDS {
        now + TURN_SECONDS
    } else {
        i64::MAX
    }
}

/// The turn with this deadline has run out at `now`.
pub fn is_expired(deadline: i64, now: i64) -> (r: bool)
    ensures
        r == (now >= deadline),
{
    now >= deadline
}

/// Relies on `time::OffsetDateTime::now_utc`: the current time, read as a
/// Unix timestamp. Nothing is known of its value.
#[verifier::external_body]
pub(crate) fn unix_now() -> (r: i64) {
    time::OffsetDateTime::now_utc().unix_timestamp()
}

} // verus!
