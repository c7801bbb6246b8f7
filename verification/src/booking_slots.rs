//! Booking slot enumeration over a free interval set, and the grouping of
//! per-user slots into service-wide booking slots.

use vstd::prelude::*;

use crate::date::date_day;
use crate::date::date_month;
use crate::date::date_year;
use crate::date::is_valid_date;
use crate::date::valid_date_string;
use crate::event_instance::CompatibleInstances;
use crate::event_instance::EventInstance;
use crate::id::ID;
use crate::timezone::is_iana_timezone;
use crate::timezone::local_midnight_millis;
use crate::timezone::resolve_local_midnight;
use crate::timezone::timezone_exists;

verus! {

/// A candidate appointment: it starts at `start`, lasts `duration`
/// milliseconds, and the containing free interval keeps the user available
/// until `available_until`.
#[derive(Clone, Copy, Debug, PartialEq, Eq, Structural)]
pub struct BookingSlot {
    pub start: i64,
    pub duration: i64,
    pub available_until: i64,
}

/// The query window and discretization of a slot search: slots start at
/// `start_ts` and every `interval` milliseconds after it, must end by
/// `end_ts`, and last `duration` milliseconds.
#[derive(Clone, Copy, Debug, PartialEq, Eq, Structural)]
pub struct BookingSlotsOptions {
    pub start_ts: i64,
    pub end_ts: i64,
    pub duration: i64,
    pub interval: i64,
}

/// One service member's free time within the query window.
#[derive(Debug)]
pub struct UserFreeEvents {
    pub free_events: CompatibleInstances,
    pub user_id: ID,
}

impl View for UserFreeEvents {
    type V = (ID, Seq<EventInstance>);

    open spec fn view(&self) -> (ID, Seq<EventInstance>) {
        (self.user_id, self.free_events@)
    }
}

/// A bookable start shared by a service: the users listed are all free for
/// `[start, start + duration)`, ordered by first contribution.
#[derive(Clone, Debug, PartialEq)]
pub struct ServiceBookingSlot {
    pub start: i64,
    pub duration: i64,
    pub user_ids: Vec<ID>,
}

impl View for ServiceBookingSlot {
    type V = (i64, i64, Seq<ID>);

    open spec fn view(&self) -> (i64, i64, Seq<ID>) {
        (self.start, self.duration, self.user_ids@)
    }
}

/// The first free interval, in order, that contains the whole candidate
/// slot `[cursor, cursor + duration)`.
pub open spec fn first_fit(events: Seq<EventInstance>, cursor: int, duration: int) -> Option<
    EventInstance,
>
    decreases events.len(),
{
    if events.len() == 0 {
        None
    } else if events[0].start_ts <= cursor && events[0].end_ts >= cursor + duration {
        Some(events[0])
    } else {
        first_fit(events.drop_first(), cursor, duration)
    }
}

/// The slots emitted from `cursor` on: the cursor advances by `interval`
/// while the slot still ends by `end_ts`, and a slot is emitted whenever a
/// free interval contains it, carrying that interval's end as
/// `available_until` — also when that end lies beyond `end_ts`.
pub open spec fn slots_from(
    free: Seq<EventInstance>,
    cursor: int,
    end_ts: int,
    duration: int,
    interval: int,
) -> Seq<BookingSlot>
    decreases end_ts + interval - cursor,
        when duration >= 1 && interval >= 1
{
    if cursor + duration > end_ts {
        Seq::<BookingSlot>::empty()
    } else {
        let rest = slots_from(free, cursor + interval, end_ts, duration, interval);
        match first_fit(free, cursor, duration) {
            Some(e) => seq![
                BookingSlot {
                    start: #[verifier::truncate] (cursor as i64),
                    duration: #[verifier::truncate] (duration as i64),
                    available_until: e.end_ts,
                },
            ] + rest,
            None => rest,
        }
    }
}

/// The first free interval of `events` that contains all of
/// `[cursor, cursor + duration)`.
fn is_cursor_in_events(cursor: i64, duration: i64, events: &CompatibleInstances) -> (r: Option<
    EventInstance,
>)
    requires
        cursor + duration <= i64::MAX,
        duration >= 0,
    ensures
        r == first_fit(events@, cursor as int, duration as int),
{
    proof {
        assert(events@.skip(0) =~= events@);
    }
    let n = events.len();
    let mut i: usize = 0;
    while i < n
        invariant
            i <= events@.len(),
            n == events@.len(),
            cursor + duration <= i64::MAX,
            duration >= 0,
            first_fit(events@, cursor as int, duration as int) == first_fit(
                events@.skip(i as int),
                cursor as int,
                duration as int,
            ),
        decreases events@.len() - i,
    {
        let event = *events.get(i).unwrap();
        proof {
            assert(events@.skip(i as int).len() > 0);
            assert(events@.skip(i as int)[0] == events@[i as int]);
            assert(events@.skip(i as int).drop_first() =~= events@.skip(i + 1));
        }
        if event.start_ts <= cursor && event.end_ts >= cursor + duration {
            return Some(event);
        }
        i += 1;
    }
    proof {
        assert(events@.skip(events@.len() as int) =~= Seq::<EventInstance>::empty());
    }
    None
}

/// Enumerates the booking slots over `free_events` for the given options.
/// With a non-positive `duration` no slot exists.  The cursor starts at
/// `start_ts` and advances by `interval`; each emitted slot lies inside a
/// single free interval, whose end is reported as `available_until` even
/// when it exceeds `end_ts`.
pub fn get_booking_slots(free_events: &CompatibleInstances, options: &BookingSlotsOptions) -> (r:
    Vec<BookingSlot>)
    requires
        options.duration >= 1 ==> options.interval >= 1,
        options.duration >= 1 ==> options.start_ts + options.duration <= i64::MAX,
        options.duration >= 1 ==> options.end_ts + options.interval <= i64::MAX,
    ensures
        options.duration < 1 ==> r@ == Seq::<BookingSlot>::empty(),
        options.duration >= 1 ==> r@ == slots_from(
            free_events@,
            options.start_ts as int,
            options.end_ts as int,
            options.duration as int,
            options.interval as int,
        ),
{
    let mut booking_slots: Vec<BookingSlot> = Vec::new();
    let start_ts = options.start_ts;
    let end_ts = options.end_ts;
    let duration = options.duration;
    let interval = options.interval;

    if duration < 1 {
        return booking_slots;
    }

    let ghost full = slots_from(
        free_events@,
        start_ts as int,
        end_ts as int,
        duration as int,
        interval as int,
    );
    let mut cursor = start_ts;
    while cursor + duration <= end_ts
        invariant
            duration >= 1,
            interval >= 1,
            start_ts <= cursor,
            cursor + duration <= i64::MAX,
            end_ts + interval <= i64::MAX,
            full == booking_slots@ + slots_from(
                free_events@,
                cursor as int,
                end_ts as int,
                duration as int,
                interval as int,
            ),
        decreases end_ts + interval - cursor,
    {
        let available_event = is_cursor_in_events(cursor, duration, free_events);
        proof {
            assert(cursor + duration <= end_ts);
        }
        if let Some(event) = available_event {
            let slot = BookingSlot { start: cursor, duration, available_until: event.end_ts };
            proof {
                assert((booking_slots@.push(slot)) + slots_from(
                    free_events@,
                    cursor + interval,
                    end_ts as int,
                    duration as int,
                    interval as int,
                ) =~= booking_slots@ + (seq![slot] + slots_from(
                    free_events@,
                    cursor + interval,
                    end_ts as int,
                    duration as int,
                    interval as int,
                )));
            }
            booking_slots.push(slot);
        }
        cursor += interval;
    }
    proof {
        assert(slots_from(
            free_events@,
            cursor as int,
            end_ts as int,
            duration as int,
            interval as int,
        ) =~= Seq::<BookingSlot>::empty());
        assert(booking_slots@ + Seq::<BookingSlot>::empty() =~= booking_slots@);
    }
    booking_slots
}

/// One per-user slot folded into the grouped, sorted service slot list: a
/// slot with the same start gains the user; a new start is spliced in
/// before the first larger start.
pub open spec fn grouped_insert(
    acc: Seq<(i64, i64, Seq<ID>)>,
    start: i64,
    duration: i64,
    user_id: ID,
) -> Seq<(i64, i64, Seq<ID>)>
    decreases acc.len(),
{
    if acc.len() == 0 {
        seq![(start, duration, seq![user_id])]
    } else if acc[0].0 == start {
        seq![(acc[0].0, acc[0].1, acc[0].2.push(user_id))] + acc.drop_first()
    } else if acc[0].0 < start {
        seq![acc[0]] + grouped_insert(acc.drop_first(), start, duration, user_id)
    } else {
        seq![(start, duration, seq![user_id])] + acc
    }
}

/// `grouped_insert` folded over one user's slots, in slot order.
pub open spec fn grouped_insert_all(
    acc: Seq<(i64, i64, Seq<ID>)>,
    slots: Seq<BookingSlot>,
    user_id: ID,
) -> Seq<(i64, i64, Seq<ID>)>
    decreases slots.len(),
{
    if slots.len() == 0 {
        acc
    } else {
        grouped_insert(
            grouped_insert_all(acc, slots.drop_last(), user_id),
            slots.last().start,
            slots.last().duration,
            user_id,
        )
    }
}

/// The free sets of the members, as pairs of user id and free intervals.
pub open spec fn users_view(users: Seq<UserFreeEvents>) -> Seq<(ID, Seq<EventInstance>)> {
    users.map_values(|u: UserFreeEvents| u@)
}

/// The grouped service slots: each member's slots are enumerated over the
/// same options and folded into one list keyed by start, in member order.
pub open spec fn service_slots(
    users: Seq<(ID, Seq<EventInstance>)>,
    start_ts: int,
    end_ts: int,
    duration: int,
    interval: int,
) -> Seq<(i64, i64, Seq<ID>)>
    decreases users.len(),
{
    if users.len() == 0 {
        Seq::<(i64, i64, Seq<ID>)>::empty()
    } else {
        grouped_insert_all(
            service_slots(users.drop_last(), start_ts, end_ts, duration, interval),
            slots_from(users.last().1, start_ts, end_ts, duration, interval),
            users.last().0,
        )
    }
}

/// The starts strictly increase along the grouped slot list, so every
/// start occurs at most once.
pub open spec fn slots_strictly_sorted(s: Seq<(i64, i64, Seq<ID>)>) -> bool {
    forall|i: int, j: int| #![trigger s[i], s[j]] 0 <= i < j < s.len() ==> s[i].0 < s[j].0
}

proof fn lemma_grouped_insert_at(
    acc: Seq<(i64, i64, Seq<ID>)>,
    start: i64,
    duration: i64,
    user_id: ID,
    p: int,
)
    requires
        0 <= p <= acc.len(),
        forall|i: int| 0 <= i < p ==> (#[trigger] acc[i]).0 < start,
        p < acc.len() ==> acc[p].0 >= start,
    ensures
        p < acc.len() && acc[p].0 == start ==> grouped_insert(acc, start, duration, user_id)
            == acc.update(p, (acc[p].0, acc[p].1, acc[p].2.push(user_id))),
        !(p < acc.len() && acc[p].0 == start) ==> grouped_insert(acc, start, duration, user_id)
            == acc.take(p) + seq![(start, duration, seq![user_id])] + acc.skip(p),
    decreases p,
{
    if p == 0 {
        if acc.len() == 0 {
            assert(acc.take(0) + seq![(start, duration, seq![user_id])] + acc.skip(0)
                =~= seq![(start, duration, seq![user_id])]);
        } else if acc[0].0 == start {
            assert(seq![(acc[0].0, acc[0].1, acc[0].2.push(user_id))] + acc.drop_first()
                =~= acc.update(0, (acc[0].0, acc[0].1, acc[0].2.push(user_id))));
        } else {
            assert(acc.take(0) + seq![(start, duration, seq![user_id])] + acc.skip(0)
                =~= seq![(start, duration, seq![user_id])] + acc);
        }
    } else {
        let t = acc.drop_first();
        assert(forall|i: int| 0 <= i < t.len() ==> #[trigger] t[i] == acc[i + 1]);
        lemma_grouped_insert_at(t, start, duration, user_id, p - 1);
        assert(acc[0].0 < start);
        if p < acc.len() && acc[p].0 == start {
            assert(t[p - 1] == acc[p]);
            assert(seq![acc[0]] + t.update(p - 1, (t[p - 1].0, t[p - 1].1, t[p - 1].2.push(
                user_id,
            ))) =~= acc.update(p, (acc[p].0, acc[p].1, acc[p].2.push(user_id))));
        } else {
            assert(seq![acc[0]] + (t.take(p - 1) + seq![(start, duration, seq![user_id])] + t.skip(
                p - 1,
            )) =~= acc.take(p) + seq![(start, duration, seq![user_id])] + acc.skip(p));
        }
    }
}

/// Computes the booking slots of a whole service: enumerates each member's
/// slots over the shared options and groups them by `start`, appending each
/// member to the users of the slots it can serve.  The result is sorted
/// ascending by `start`, each start occurs once, and a slot's users appear
/// in member order.
pub fn get_service_bookingslots(
    users_free: Vec<UserFreeEvents>,
    options: &BookingSlotsOptions,
) -> (r: Vec<ServiceBookingSlot>)
    requires
        options.duration >= 1 ==> options.interval >= 1,
        options.duration >= 1 ==> options.start_ts + options.duration <= i64::MAX,
        options.duration >= 1 ==> options.end_ts + options.interval <= i64::MAX,
    ensures
        options.duration < 1 ==> r@.len() == 0,
        options.duration >= 1 ==> r@.map_values(|s: ServiceBookingSlot| s@) == service_slots(
            users_view(users_free@),
            options.start_ts as int,
            options.end_ts as int,
            options.duration as int,
            options.interval as int,
        ),
        slots_strictly_sorted(r@.map_values(|s: ServiceBookingSlot| s@)),
{
    let mut slots_lookup: Vec<ServiceBookingSlot> = Vec::new();
    if options.duration < 1 {
        return slots_lookup;
    }
    let ghost uv = users_view(users_free@);
    let ghost viewfn = |s: ServiceBookingSlot| s@;
    let ghost start_g = options.start_ts as int;
    let ghost end_g = options.end_ts as int;
    let ghost dur_g = options.duration as int;
    let ghost intv_g = options.interval as int;
    let mut u: usize = 0;
    while u < users_free.len()
        invariant
            u <= users_free@.len(),
            uv == users_view(users_free@),
            options.duration >= 1,
            options.interval >= 1,
            options.start_ts + options.duration <= i64::MAX,
            options.end_ts + options.interval <= i64::MAX,
            start_g == options.start_ts as int,
            end_g == options.end_ts as int,
            dur_g == options.duration as int,
            intv_g == options.interval as int,
            viewfn == (|s: ServiceBookingSlot| s@),
            slots_lookup@.map_values(viewfn) == service_slots(
                uv.take(u as int),
                start_g,
                end_g,
                dur_g,
                intv_g,
            ),
            slots_strictly_sorted(slots_lookup@.map_values(viewfn)),
        decreases users_free@.len() - u,
    {
        let uid = users_free[u].user_id;
        let slots = get_booking_slots(&users_free[u].free_events, options);
        let ghost m0 = slots_lookup@.map_values(viewfn);
        let ghost user_slots = slots@;
        proof {
            assert(uv[u as int] == users_free@[u as int]@);
            assert(user_slots == slots_from(uv[u as int].1, start_g, end_g, dur_g, intv_g));
        }
        let mut j: usize = 0;
        while j < slots.len()
            invariant
                j <= user_slots.len(),
                slots@ == user_slots,
                viewfn == (|s: ServiceBookingSlot| s@),
                slots_lookup@.map_values(viewfn) == grouped_insert_all(
                    m0,
                    user_slots.take(j as int),
                    uid,
                ),
                slots_strictly_sorted(slots_lookup@.map_values(viewfn)),
            decreases user_slots.len() - j,
        {
            let slot = slots[j];
            let ghost m = slots_lookup@.map_values(viewfn);
            let mut p: usize = 0;
            while p < slots_lookup.len() && slots_lookup[p].start < slot.start
                invariant
                    p <= slots_lookup@.len(),
                    viewfn == (|s: ServiceBookingSlot| s@),
                    m == slots_lookup@.map_values(viewfn),
                    forall|i: int| 0 <= i < p ==> (#[trigger] m[i]).0 < slot.start,
                decreases slots_lookup@.len() - p,
            {
                proof {
                    assert(m[p as int] == slots_lookup@[p as int]@);
                }
                p += 1;
            }
            proof {
                if (p as int) < m.len() {
                    assert(m[p as int] == slots_lookup@[p as int]@);
                }
                lemma_grouped_insert_at(m, slot.start, slot.duration, uid, p as int);
                assert(user_slots.take(j + 1).drop_last() =~= user_slots.take(j as int));
                assert(user_slots.take(j + 1).last() == user_slots[j as int]);
            }
            if p < slots_lookup.len() && slots_lookup[p].start == slot.start {
                let mut entry = slots_lookup.remove(p);
                entry.user_ids.push(uid);
                slots_lookup.insert(p, entry);
                proof {
                    assert(slots_lookup@.map_values(viewfn) =~= m.update(
                        p as int,
                        (m[p as int].0, m[p as int].1, m[p as int].2.push(uid)),
                    ));
                    assert forall|a: int, b: int|
                        #![trigger slots_lookup@.map_values(viewfn)[a], slots_lookup@.map_values(viewfn)[b]]
                        0 <= a < b < slots_lookup@.map_values(viewfn).len() implies slots_lookup@.map_values(
                        viewfn,
                    )[a].0 < slots_lookup@.map_values(viewfn)[b].0 by {
                        assert(m[a].0 < m[b].0);
                    }
                }
            } else {
                let mut ids: Vec<ID> = Vec::new();
                ids.push(uid);
                let entry = ServiceBookingSlot {
                    start: slot.start,
                    duration: slot.duration,
                    user_ids: ids,
                };
                slots_lookup.insert(p, entry);
                proof {
                    assert(slots_lookup@.map_values(viewfn) =~= m.take(p as int) + seq![
                        (slot.start, slot.duration, seq![uid]),
                    ] + m.skip(p as int));
                    let m2 = slots_lookup@.map_values(viewfn);
                    assert forall|a: int, b: int|
                        #![trigger m2[a], m2[b]]
                        0 <= a < b < m2.len() implies m2[a].0 < m2[b].0 by {
                        if a < p && b > p {
                            assert(m[a].0 < slot.start);
                            assert(m2[b] == m[b - 1]);
                            assert(m[p as int].0 < m[b - 1].0 || p as int == b - 1);
                        } else if a < p && b == p {
                            assert(m[a].0 < slot.start);
                        } else if a == p && b > p {
                            assert(m2[b] == m[b - 1]);
                            assert(m[p as int].0 <= m[b - 1].0);
                        } else if a < p && b < p {
                            assert(m[a].0 < m[b].0);
                        } else {
                            assert(m2[a] == m[a - 1]);
                            assert(m2[b] == m[b - 1]);
                            assert(m[a - 1].0 < m[b - 1].0);
                        }
                    }
                }
            }
            j += 1;
        }
        proof {
            assert(user_slots.take(user_slots.len() as int) =~= user_slots);
            assert(uv.take(u + 1).drop_last() =~= uv.take(u as int));
            assert(uv.take(u + 1).last() == uv[u as int]);
        }
        u += 1;
    }
    proof {
        assert(uv.take(uv.len() as int) =~= uv);
    }
    slots_lookup
}

/// Whether a slot interval is acceptable for a service booking query:
/// between ten minutes and one hour, in milliseconds.
pub fn validate_slots_interval(interval: i64) -> (r: bool)
    ensures
        r == (1000 * 60 * 10 <= interval && interval <= 1000 * 60 * 60),
{
    let min_interval: i64 = 1000 * 60 * 10;
    let max_interval: i64 = 1000 * 60 * 60;
    interval >= min_interval && interval <= max_interval
}

/// A service booking-slot query as the caller states it: a calendar day, an
/// optional IANA timezone (UTC when absent), and the slot duration and
/// grid interval in milliseconds.
pub struct BookingSlotsQuery {
    pub date: String,
    pub iana_tz: Option<String>,
    pub duration: i64,
    pub interval: i64,
}

/// Why a booking-slot query was rejected; the date and timezone variants
/// carry the offending input back.
#[derive(Debug, PartialEq)]
pub enum BookingQueryError {
    InvalidInterval,
    InvalidDate(String),
    InvalidTimezone(String),
}

/// The query window: one calendar day in the requested timezone.
#[derive(Clone, Copy, Debug, PartialEq, Eq, Structural)]
pub struct BookingTimespan {
    pub start_ts: i64,
    pub end_ts: i64,
}

/// The timezone a query asks for: the given one, or UTC when none is given.
pub open spec fn effective_timezone(q: &BookingSlotsQuery) -> Seq<char> {
    if q.iana_tz is Some {
        q.iana_tz->0@
    } else {
        "UTC"@
    }
}

/// Validates a booking-slot query and resolves its window: the interval
/// must lie between ten minutes and one hour, the timezone must be a known
/// IANA name, and the date must be a calendar-valid `Y-M-D` string whose
/// local midnight exists in that timezone.  The window is that midnight
/// plus one day of milliseconds.
pub fn validate_bookingslots_query(query: &BookingSlotsQuery) -> (r: Result<
    BookingTimespan,
    BookingQueryError,
>)
    ensures
        !(1000 * 60 * 10 <= query.interval && query.interval <= 1000 * 60 * 60) ==> r == Err::<
            BookingTimespan,
            BookingQueryError,
        >(BookingQueryError::InvalidInterval),
        (1000 * 60 * 10 <= query.interval && query.interval <= 1000 * 60 * 60)
            && !is_iana_timezone(effective_timezone(query)) ==> (r matches Err(
        BookingQueryError::InvalidTimezone(s)) && s@ == effective_timezone(query)),
        (1000 * 60 * 10 <= query.interval && query.interval <= 1000 * 60 * 60)
            && is_iana_timezone(effective_timezone(query)) && !valid_date_string(query.date@)
            ==> (r matches Err(BookingQueryError::InvalidDate(s)) && s@ == query.date@),
        (1000 * 60 * 10 <= query.interval && query.interval <= 1000 * 60 * 60)
            && is_iana_timezone(effective_timezone(query)) && valid_date_string(query.date@)
            ==> (match local_midnight_millis(
            effective_timezone(query),
            date_year(query.date@),
            date_month(query.date@),
            date_day(query.date@),
        ) {
            Some(start) => {
                if start <= i64::MAX - 1000 * 60 * 60 * 24 {
                    r == Ok::<BookingTimespan, BookingQueryError>(
                        (BookingTimespan {
                            start_ts: start,
                            end_ts: (start + 1000 * 60 * 60 * 24) as i64,
                        }),
                    )
                } else {
                    r matches Err(BookingQueryError::InvalidDate(s)) && s@ == query.date@
                }
            },
            None => r matches Err(BookingQueryError::InvalidDate(s)) && s@ == query.date@,
        }),
{
    if !validate_slots_interval(query.interval) {
        return Err(BookingQueryError::InvalidInterval);
    }

    let iana_tz: String = match &query.iana_tz {
        Some(tz) => tz.clone(),
        None => "UTC".to_owned(),
    };
    if !timezone_exists(iana_tz.as_str()) {
        return Err(BookingQueryError::InvalidTimezone(iana_tz));
    }

    let parsed_date = match is_valid_date(query.date.as_str()) {
        Ok(val) => val,
        Err(_) => {
            return Err(BookingQueryError::InvalidDate(query.date.clone()));
        },
    };

    let start_opt = resolve_local_midnight(
        iana_tz.as_str(),
        parsed_date.0,
        parsed_date.1,
        parsed_date.2,
    );
    match start_opt {
        Some(start_ts) => {
            let day_ms: i64 = 1000 * 60 * 60 * 24;
            if start_ts <= i64::MAX - day_ms {
                Ok(BookingTimespan { start_ts, end_ts: start_ts + day_ms })
            } else {
                Err(BookingQueryError::InvalidDate(query.date.clone()))
            }
        },
        None => Err(BookingQueryError::InvalidDate(query.date.clone())),
    }
}

} // verus!
