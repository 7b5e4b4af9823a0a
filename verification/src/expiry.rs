//! The rule by which the node's caches let their entries expire.
//!
//! Times are readings of one clock that does not run backwards, in milliseconds. An entry
//! is fresh while less than the cache's window has passed since it was recorded, and counts
//! as absent from then on, whether or not it has been swept out.

use vstd::prelude::*;

verus! {

/// The window of the replay filter: twenty minutes.
pub const FILTER_WINDOW_MS: u64 = 1_200_000;

/// The window of the cache of public identities: ten minutes.
pub const PUBLIC_ID_WINDOW_MS: u64 = 600_000;

/// The time that has passed at `now` since `recorded`; none where the clock reads less
/// than it did then.
pub open spec fn age(recorded: u64, now: u64) -> nat {
    if now >= recorded {
        (now - recorded) as nat
    } else {
        0
    }
}

/// An entry that was recorded at `recorded` is still fresh at `now`.
pub open spec fn fresh(recorded: u64, now: u64, window: u64) -> bool {
    age(recorded, now) < window
}

/// Tells whether an entry that was recorded at `recorded` is still fresh at `now`.
pub fn is_fresh(recorded: u64, now: u64, window: u64) -> (r: bool)
    ensures
        r == fresh(recorded, now, window),
{
    if now >= recorded {
        now - recorded < window
    } else {
        0 < window
    }
}

/// An entry is fresh for as long as less than the window has passed since it was
/// recorded, and not from then on.
pub proof fn law_expiry(recorded: u64, delta: u64, window: u64)
    requires
        recorded + delta <= u64::MAX,
    ensures
        fresh(recorded, (recorded + delta) as u64, window) <==> delta < window,
{
}

/// An entry that has expired stays expired as time goes on.
pub proof fn law_expired_for_good(recorded: u64, now: u64, later: u64, window: u64)
    requires
        now <= later,
        !fresh(recorded, now, window),
    ensures
        !fresh(recorded, later, window),
{
}

} // verus!
