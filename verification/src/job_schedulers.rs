//! Timing of the reminder jobs: the dispatcher runs once a minute, aligned
//! to wall-clock minute boundaries, optionally shifted a few seconds ahead.

use vstd::prelude::*;

verus! {

/// Seconds until the dispatcher should run next: the next wall-clock
/// minute boundary, shifted `secs_before_min` seconds ahead of it.  The
/// result is always between 1 and 60 seconds, and the run lands exactly
/// `secs_before_min` seconds before a minute boundary.
pub fn get_start_delay(now_ts: usize, secs_before_min: usize) -> (r: usize)
    requires
        secs_before_min <= 60,
    ensures
        r == ({
            let secs_to_next_minute = 60 - (now_ts / 1000) % 60;
            if secs_to_next_minute > secs_before_min {
                secs_to_next_minute - secs_before_min
            } else {
                secs_to_next_minute + 60 - secs_before_min
            }
        }),
        1 <= r <= 60,
        ((now_ts / 1000) + r + secs_before_min) % 60 == 0,
{
    let secs_to_next_minute = 60 - (now_ts / 1000) % 60;
    proof {
        assert(((now_ts / 1000) + (60 - (now_ts / 1000) % 60)) % 60 == 0) by (nonlinear_arith);
    }
    if secs_to_next_minute > secs_before_min {
        secs_to_next_minute - secs_before_min
    } else {
        proof {
            assert(((now_ts / 1000) + (60 - (now_ts / 1000) % 60) + 60) % 60 == 0)
                by (nonlinear_arith);
        }
        secs_to_next_minute + (60 - secs_before_min)
    }
}

} // verus!
