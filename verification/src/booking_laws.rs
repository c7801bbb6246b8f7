//! Laws of slot enumeration: every emitted slot lies inside a free
//! interval, and every aligned, fitting cursor yields its slot — also when
//! the containing interval reaches past the query window.

use vstd::prelude::*;

use crate::booking_slots::BookingSlot;
use crate::booking_slots::first_fit;
use crate::booking_slots::slots_from;
use crate::event_instance::EventInstance;

verus! {

/// `s` lies inside one of the free intervals, which keeps the user
/// available until `s.available_until`.
pub open spec fn slot_covered(free: Seq<EventInstance>, s: BookingSlot, duration: int) -> bool {
    s.duration == duration && exists|k: int|
        0 <= k < free.len() && (#[trigger] free[k]).start_ts <= s.start && free[k].end_ts
            >= s.start + s.duration && s.available_until == free[k].end_ts
}

proof fn lemma_first_fit_some(events: Seq<EventInstance>, cursor: int, duration: int)
    ensures
        first_fit(events, cursor, duration) matches Some(e) ==> exists|k: int|
            0 <= k < events.len() && #[trigger] events[k] == e && e.start_ts <= cursor
                && e.end_ts >= cursor + duration,
    decreases events.len(),
{
    if events.len() == 0 {
    } else if events[0].start_ts <= cursor && events[0].end_ts >= cursor + duration {
        let e = events[0];
        assert(events[0] == e && e.start_ts <= cursor && e.end_ts >= cursor + duration);
    } else {
        let t = events.drop_first();
        lemma_first_fit_some(t, cursor, duration);
        match first_fit(events, cursor, duration) {
            Some(e) => {
                let k = choose|k: int|
                    0 <= k < t.len() && #[trigger] t[k] == e && e.start_ts <= cursor && e.end_ts
                        >= cursor + duration;
                assert(events[k + 1] == t[k]);
            },
            None => {},
        }
    }
}

/// Law: every slot that the enumeration emits lies entirely inside one of
/// the free intervals, and reports that interval's end as
/// `available_until`.
pub proof fn lemma_slots_within_free(
    free: Seq<EventInstance>,
    cursor: int,
    end_ts: int,
    duration: int,
    interval: int,
)
    requires
        1 <= duration <= i64::MAX,
        1 <= interval,
        i64::MIN <= cursor,
        end_ts + interval <= i64::MAX,
    ensures
        forall|i: int|
            0 <= i < slots_from(free, cursor, end_ts, duration, interval).len() ==> slot_covered(
                free,
                #[trigger] slots_from(free, cursor, end_ts, duration, interval)[i],
                duration,
            ),
    decreases end_ts + interval - cursor,
{
    let r = slots_from(free, cursor, end_ts, duration, interval);
    if cursor + duration > end_ts {
    } else {
        let rest = slots_from(free, cursor + interval, end_ts, duration, interval);
        lemma_slots_within_free(free, cursor + interval, end_ts, duration, interval);
        lemma_first_fit_some(free, cursor, duration);
        match first_fit(free, cursor, duration) {
            Some(e) => {
                let s = BookingSlot {
                    start: #[verifier::truncate] (cursor as i64),
                    duration: #[verifier::truncate] (duration as i64),
                    available_until: e.end_ts,
                };
                assert(r == seq![s] + rest);
                assert(s.start == cursor && s.duration == duration);
                assert forall|i: int| 0 <= i < r.len() implies slot_covered(
                    free,
                    r[i],
                    duration,
                ) by {
                    if i == 0 {
                        let k = choose|k: int|
                            0 <= k < free.len() && #[trigger] free[k] == e && e.start_ts <= cursor
                                && e.end_ts >= cursor + duration;
                        assert(free[k].start_ts <= s.start);
                    } else {
                        assert(r[i] == rest[i - 1]);
                        assert(slot_covered(free, rest[i - 1], duration));
                    }
                }
            },
            None => {
                assert forall|i: int| 0 <= i < r.len() implies slot_covered(
                    free,
                    r[i],
                    duration,
                ) by {
                    assert(r[i] == rest[i]);
                    assert(slot_covered(free, rest[i], duration));
                }
            },
        }
    }
}

/// Law: a cursor aligned to the grid (`cursor + n * interval`) whose slot
/// still ends inside the window, and which some free interval contains,
/// always yields its booking slot.  The slot keeps the free interval's true
/// end as `available_until`, also when that end lies beyond the window's
/// `end_ts`.
pub proof fn lemma_slot_emitted(
    free: Seq<EventInstance>,
    cursor: int,
    end_ts: int,
    duration: int,
    interval: int,
    n: nat,
    e: EventInstance,
)
    requires
        1 <= duration <= i64::MAX,
        1 <= interval,
        i64::MIN <= cursor,
        end_ts + interval <= i64::MAX,
        cursor + n * interval + duration <= end_ts,
        first_fit(free, cursor + n * interval, duration) == Some(e),
    ensures
        slots_from(free, cursor, end_ts, duration, interval).contains(
            BookingSlot {
                start: #[verifier::truncate] ((cursor + n * interval) as i64),
                duration: #[verifier::truncate] (duration as i64),
                available_until: e.end_ts,
            },
        ),
    decreases n,
{
    let c = cursor + n * interval;
    let s = BookingSlot {
        start: #[verifier::truncate] (c as i64),
        duration: #[verifier::truncate] (duration as i64),
        available_until: e.end_ts,
    };
    let r = slots_from(free, cursor, end_ts, duration, interval);
    assert(n * interval >= 0) by (nonlinear_arith)
        requires
            n >= 0,
            interval >= 1,
    ;
    assert(cursor + duration <= end_ts);
    let rest = slots_from(free, cursor + interval, end_ts, duration, interval);
    if n == 0 {
        assert(n * interval == 0) by (nonlinear_arith)
            requires
                n == 0,
        ;
        assert(c == cursor);
        assert(first_fit(free, cursor, duration) == Some(e));
        assert(r == seq![s] + rest);
        assert(r[0] == s);
        assert(r.contains(s));
    } else {
        assert((n - 1) as int * interval == n * interval - interval) by (nonlinear_arith);
        lemma_slot_emitted(free, cursor + interval, end_ts, duration, interval, (n - 1) as nat, e);
        assert(cursor + interval + (n - 1) as nat * interval == c);
        assert(rest.contains(s));
        let i = choose|i: int| 0 <= i < rest.len() && rest[i] == s;
        match first_fit(free, cursor, duration) {
            Some(f) => {
                assert(r == seq![
                    BookingSlot {
                        start: #[verifier::truncate] (cursor as i64),
                        duration: #[verifier::truncate] (duration as i64),
                        available_until: f.end_ts,
                    },
                ] + rest);
                assert(r[i + 1] == s);
            },
            None => {
                assert(r == rest);
                assert(r[i] == s);
            },
        }
        assert(r.contains(s));
    }
}

} // verus!
