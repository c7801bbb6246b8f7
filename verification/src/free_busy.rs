//! The free/busy engine: expands a user's stored events within a window,
//! clips every occurrence to the window, adds the free time the user's
//! schedules grant, and removes the busy time from the free time.

use vstd::prelude::*;

use crate::calendar_event::CalendarEvent;
use crate::calendar_event::valid_rrule;
use crate::event_instance::CompatibleInstances;
use crate::event_instance::EventInstance;
use crate::event_instance::FreeBusy;
use crate::event_instance::busy_part;
use crate::event_instance::free_part;
use crate::event_instance::normalized;
use crate::event_instance::subtract_all;
use crate::expansion::expand_event;
use crate::expansion::expand_from;
use crate::expansion::rule_step_ms;
use crate::schedule::Schedule;
use crate::schedule_intervals::schedule_free_model;
use crate::schedule_intervals::valid_schedule_times;

verus! {

/// The machine limits expansion asks of one event and the window.
pub open spec fn event_expandable(event: CalendarEvent, to: i64) -> bool {
    &&& event.duration >= 0
    &&& event.start_ts + event.duration <= i64::MAX
    &&& to + event.duration <= i64::MAX
    &&& (event.recurrence matches Some(rule) ==> valid_rrule(rule, event.start_ts)
        && rule_step_ms(rule) <= i64::MAX && to + rule_step_ms(rule) <= i64::MAX)
}

/// The occurrences one event contributes to the window, before clipping.
pub open spec fn event_occurrences(event: CalendarEvent, from: i64, to: i64) -> Seq<
    EventInstance,
> {
    match event.recurrence {
        None => {
            if event.start_ts < to && event.start_ts + event.duration > from {
                seq![
                    EventInstance {
                        start_ts: event.start_ts,
                        end_ts: (event.start_ts + event.duration) as i64,
                        busy: event.busy,
                    },
                ]
            } else {
                Seq::<EventInstance>::empty()
            }
        },
        Some(rule) => expand_from(
            event.start_ts as int,
            rule_step_ms(rule),
            event.duration as int,
            event.busy,
            event.exdates@,
            match rule.count {
                Some(c) => Some(c as int),
                None => None,
            },
            match rule.until {
                Some(u) => Some(u as int),
                None => None,
            },
            from as int,
            to as int,
        ),
    }
}

/// One occurrence clipped to the window; a clipped occurrence that keeps
/// no time — a zero-length point among them — contributes no interval.
pub open spec fn clamped(e: EventInstance, from: i64, to: i64) -> Option<EventInstance> {
    let s = if e.start_ts >= from {
        e.start_ts
    } else {
        from
    };
    let t = if e.end_ts <= to {
        e.end_ts
    } else {
        to
    };
    if s < t {
        Some(EventInstance { start_ts: s, end_ts: t, busy: e.busy })
    } else {
        None
    }
}

/// Every occurrence of the sequence clipped to the window, in order.
pub open spec fn clamp_all(s: Seq<EventInstance>, from: i64, to: i64) -> Seq<EventInstance>
    decreases s.len(),
{
    if s.len() == 0 {
        Seq::<EventInstance>::empty()
    } else {
        clamp_all(s.drop_last(), from, to) + (match clamped(s.last(), from, to) {
            Some(e) => seq![e],
            None => Seq::<EventInstance>::empty(),
        })
    }
}

/// The clipped occurrences of all events, in event order.
pub open spec fn all_event_instances(
    events: Seq<CalendarEvent>,
    from: i64,
    to: i64,
) -> Seq<EventInstance>
    decreases events.len(),
{
    if events.len() == 0 {
        Seq::<EventInstance>::empty()
    } else {
        all_event_instances(events.drop_last(), from, to) + clamp_all(
            event_occurrences(events.last(), from, to),
            from,
            to,
        )
    }
}

/// The free intervals all schedules grant within the window, each
/// schedule's contribution already normalized, in schedule order.
pub open spec fn all_schedule_instances(
    schedules: Seq<Schedule>,
    from: i64,
    to: i64,
) -> Seq<EventInstance>
    decreases schedules.len(),
{
    if schedules.len() == 0 {
        Seq::<EventInstance>::empty()
    } else {
        all_schedule_instances(schedules.drop_last(), from, to) + normalized(
            schedule_free_model(schedules.last().rules@, schedules.last().timezone@, from, to),
        )
    }
}

/// Computes a user's availability over `[start_ts, end_ts)`: every event
/// is expanded and clipped to the window, the busy occurrences form the
/// busy set, the free occurrences together with the schedules' free
/// intervals form the free set, and the busy set is removed from the free
/// set — afterwards no free interval shares any time with a busy one.
pub fn calculate_free_busy(
    events: &Vec<CalendarEvent>,
    schedules: &Vec<Schedule>,
    start_ts: i64,
    end_ts: i64,
) -> (r: FreeBusy)
    requires
        forall|i: int|
            0 <= i < events@.len() ==> event_expandable(#[trigger] events@[i], end_ts),
        forall|i: int|
            0 <= i < schedules@.len() ==> valid_schedule_times((#[trigger] schedules@[i]).rules@),
    ensures
        ({
            let raw = all_event_instances(events@, start_ts, end_ts);
            let free_raw = free_part(raw) + all_schedule_instances(schedules@, start_ts, end_ts);
            &&& r.busy@ == normalized(busy_part(raw))
            &&& r.free@ == subtract_all(
                normalized(free_raw),
                normalized(busy_part(raw)),
                0,
            )
        }),
{
    let ghost raw_model = all_event_instances(events@, start_ts, end_ts);
    let mut raw: Vec<EventInstance> = Vec::new();
    let mut i: usize = 0;
    while i < events.len()
        invariant
            i <= events@.len(),
            forall|k: int|
                0 <= k < events@.len() ==> event_expandable(#[trigger] events@[k], end_ts),
            raw@ == all_event_instances(events@.take(i as int), start_ts, end_ts),
        decreases events@.len() - i,
    {
        proof {
            assert(events@.take(i + 1).drop_last() =~= events@.take(i as int));
            assert(events@.take(i + 1).last() == events@[i as int]);
        }
        let occurrences = expand_event(&events[i], start_ts, end_ts);
        let ghost occ_model = event_occurrences(events@[i as int], start_ts, end_ts);
        proof {
            assert(occurrences@ == occ_model);
        }
        let ghost raw_before = raw@;
        let mut j: usize = 0;
        while j < occurrences.len()
            invariant
                j <= occ_model.len(),
                occurrences@ == occ_model,
                raw@ == raw_before + clamp_all(occ_model.take(j as int), start_ts, end_ts),
            decreases occ_model.len() - j,
        {
            proof {
                assert(occ_model.take(j + 1).drop_last() =~= occ_model.take(j as int));
                assert(occ_model.take(j + 1).last() == occ_model[j as int]);
            }
            let e = occurrences[j];
            let s = if e.start_ts >= start_ts {
                e.start_ts
            } else {
                start_ts
            };
            let t = if e.end_ts <= end_ts {
                e.end_ts
            } else {
                end_ts
            };
            if s < t {
                raw.push(EventInstance { start_ts: s, end_ts: t, busy: e.busy });
            }
            j += 1;
        }
        proof {
            assert(occ_model.take(occ_model.len() as int) =~= occ_model);
        }
        i += 1;
    }
    proof {
        assert(events@.take(events@.len() as int) =~= events@);
    }

    let (free_raw, busy_raw) = crate::event_instance::seperate_free_busy_events(raw);

    let mut free_all = free_raw;
    let mut i: usize = 0;
    while i < schedules.len()
        invariant
            i <= schedules@.len(),
            forall|k: int|
                0 <= k < schedules@.len() ==> valid_schedule_times(
                    (#[trigger] schedules@[k]).rules@,
                ),
            free_all@ == free_part(raw_model) + all_schedule_instances(
                schedules@.take(i as int),
                start_ts,
                end_ts,
            ),
        decreases schedules@.len() - i,
    {
        proof {
            assert(schedules@.take(i + 1).drop_last() =~= schedules@.take(i as int));
            assert(schedules@.take(i + 1).last() == schedules@[i as int]);
        }
        let granted = schedules[i].free_intervals(start_ts, end_ts);
        let ghost granted_model = normalized(
            schedule_free_model(
                schedules@[i as int].rules@,
                schedules@[i as int].timezone@,
                start_ts,
                end_ts,
            ),
        );
        let pieces = granted.inner();
        proof {
            assert(pieces@ == granted_model);
        }
        let ghost free_before = free_all@;
        let mut j: usize = 0;
        while j < pieces.len()
            invariant
                j <= pieces@.len(),
                pieces@ == granted_model,
                free_all@ == free_before + granted_model.take(j as int),
            decreases pieces@.len() - j,
        {
            proof {
                assert(granted_model.take(j + 1) =~= granted_model.take(j as int).push(
                    granted_model[j as int],
                ));
            }
            free_all.push(pieces[j]);
            j += 1;
        }
        proof {
            assert(granted_model.take(granted_model.len() as int) =~= granted_model);
        }
        i += 1;
    }
    proof {
        assert(schedules@.take(schedules@.len() as int) =~= schedules@);
    }

    let mut free_instances = CompatibleInstances::new(free_all);
    let busy_instances = CompatibleInstances::new(busy_raw);

    free_instances.remove_intances(&busy_instances, 0);

    FreeBusy { free: free_instances, busy: busy_instances }
}

} // verus!
