//! Expansion of a recurring event into concrete occurrences within a
//! window.  Occurrences sit on a fixed-length grid: the anchor start plus
//! whole multiples of the rule's period (a day, a week, or the 30-day and
//! 365-day periods used for monthly and yearly rules), `interval` periods
//! apart.  The `count` bound is counted from the series anchor — also for
//! occurrences that fall before the window or on an exception date — and
//! `until` bounds the last occurrence start.

use vstd::prelude::*;

use crate::calendar_event::CalendarEvent;
use crate::calendar_event::RRuleFrequency;
use crate::calendar_event::RRuleOptions;
use crate::calendar_event::valid_rrule;
use crate::event_instance::EventInstance;

verus! {

/// The grid period of a rule, in milliseconds.
pub open spec fn rule_step_ms(rule: RRuleOptions) -> int {
    match rule.freq {
        RRuleFrequency::Daily => rule.interval * (1000 * 60 * 60 * 24),
        RRuleFrequency::Weekly => rule.interval * (1000 * 60 * 60 * 24 * 7),
        RRuleFrequency::Monthly => rule.interval * (1000 * 60 * 60 * 24 * 30),
        RRuleFrequency::Yearly => rule.interval * (1000 * 60 * 60 * 24 * 365),
    }
}

/// The occurrences from grid point `cursor` on: the scan stops at the
/// window end, when the remaining count is used up, or past `until`; an
/// occurrence is emitted unless its start is an exception date or it ends
/// at or before the window start.
pub open spec fn expand_from(
    cursor: int,
    step: int,
    duration: int,
    busy: bool,
    exdates: Seq<i64>,
    remaining: Option<int>,
    until: Option<int>,
    from: int,
    to: int,
) -> Seq<EventInstance>
    decreases to + step - cursor,
        when step >= 1
{
    if cursor >= to {
        Seq::<EventInstance>::empty()
    } else if remaining matches Some(c) && c <= 0 {
        Seq::<EventInstance>::empty()
    } else if until matches Some(u) && cursor > u {
        Seq::<EventInstance>::empty()
    } else {
        let rest = expand_from(
            cursor + step,
            step,
            duration,
            busy,
            exdates,
            match remaining {
                Some(c) => Some(c - 1),
                None => None,
            },
            until,
            from,
            to,
        );
        if exdates.contains(#[verifier::truncate] (cursor as i64)) || cursor + duration <= from {
            rest
        } else {
            seq![
                EventInstance {
                    start_ts: #[verifier::truncate] (cursor as i64),
                    end_ts: #[verifier::truncate] ((cursor + duration) as i64),
                    busy: busy,
                },
            ] + rest
        }
    }
}

/// Whether `x` occurs in `v`.
fn contains_ts(v: &Vec<i64>, x: i64) -> (r: bool)
    ensures
        r == v@.contains(x),
{
    let mut j: usize = 0;
    while j < v.len()
        invariant
            j <= v@.len(),
            forall|i: int| 0 <= i < j ==> #[trigger] v@[i] != x,
        decreases v@.len() - j,
    {
        if v[j] == x {
            return true;
        }
        j += 1;
    }
    false
}

/// The grid period of a rule, in milliseconds.
pub fn rule_step_ms_exec(rule: &RRuleOptions) -> (r: i64)
    requires
        rule.interval >= 1,
        rule_step_ms(*rule) <= i64::MAX,
    ensures
        r as int == rule_step_ms(*rule),
        r >= 1,
{
    let period: i64 = match rule.freq {
        RRuleFrequency::Daily => 1000 * 60 * 60 * 24,
        RRuleFrequency::Weekly => 1000 * 60 * 60 * 24 * 7,
        RRuleFrequency::Monthly => 1000 * 60 * 60 * 24 * 30,
        RRuleFrequency::Yearly => 1000 * 60 * 60 * 24 * 365,
    };
    proof {
        assert(rule.interval * period >= 1 * period) by (nonlinear_arith)
            requires
                rule.interval >= 1,
                period >= 1,
        ;
    }
    rule.interval * period
}

/// Expands an event into the occurrences that intersect `[from, to)`,
/// sorted by start.  A non-recurring event yields its single occurrence
/// iff that occurrence intersects the window; a recurring one yields every
/// grid occurrence from the anchor on that the rule's `count` and `until`
/// admit, skipping exception dates, each `[start, start + duration)` with
/// the event's tag.
pub fn expand_event(event: &CalendarEvent, from: i64, to: i64) -> (r: Vec<EventInstance>)
    requires
        event.duration >= 0,
        event.start_ts + event.duration <= i64::MAX,
        to + event.duration <= i64::MAX,
        event.recurrence matches Some(rule) ==> valid_rrule(rule, event.start_ts)
            && rule_step_ms(rule) <= i64::MAX && to + rule_step_ms(rule) <= i64::MAX,
    ensures
        event.recurrence is None && event.start_ts < to && event.start_ts + event.duration > from
            ==> r@ == seq![
            EventInstance {
                start_ts: event.start_ts,
                end_ts: (event.start_ts + event.duration) as i64,
                busy: event.busy,
            },
        ],
        event.recurrence is None && !(event.start_ts < to && event.start_ts + event.duration
            > from) ==> r@ == Seq::<EventInstance>::empty(),
        event.recurrence matches Some(rule) ==> r@ == expand_from(
            event.start_ts as int,
            rule_step_ms(rule),
            event.duration as int,
            event.busy,
            event.exdates@,
            match rule.count {
                Some(c) => Some(c as int),
                None => None,
            },
            match rule.until {
                Some(u) => Some(u as int),
                None => None,
            },
            from as int,
            to as int,
        ),
{
    let mut occurrences: Vec<EventInstance> = Vec::new();
    let rule = match &event.recurrence {
        None => {
            if event.start_ts < to && event.start_ts + event.duration > from {
                occurrences.push(
                    EventInstance {
                        start_ts: event.start_ts,
                        end_ts: event.start_ts + event.duration,
                        busy: event.busy,
                    },
                );
            }
            return occurrences;
        },
        Some(rule) => rule,
    };
    let step = rule_step_ms_exec(rule);
    let duration = event.duration;
    let ghost remaining0: Option<int> = match rule.count {
        Some(c) => Some(c as int),
        None => None,
    };
    let ghost until_g: Option<int> = match rule.until {
        Some(u) => Some(u as int),
        None => None,
    };
    let ghost full = expand_from(
        event.start_ts as int,
        step as int,
        duration as int,
        event.busy,
        event.exdates@,
        remaining0,
        until_g,
        from as int,
        to as int,
    );
    let mut cursor: i64 = event.start_ts;
    let has_count = rule.count.is_some();
    let mut remaining: i64 = match rule.count {
        Some(c) => c as i64,
        None => 0,
    };
    let has_until = rule.until.is_some();
    let until: i64 = match rule.until {
        Some(u) => u,
        None => 0,
    };
    while cursor < to && !(has_count && remaining <= 0) && !(has_until && cursor > until)
        invariant
            step >= 1,
            duration >= 0,
            to + step <= i64::MAX,
            to + duration <= i64::MAX,
            until_g == (if has_until {
                Some(until as int)
            } else {
                Option::<int>::None
            }),
            full == occurrences@ + expand_from(
                cursor as int,
                step as int,
                duration as int,
                event.busy,
                event.exdates@,
                (if has_count {
                    Some(remaining as int)
                } else {
                    None
                }),
                until_g,
                from as int,
                to as int,
            ),
        decreases to + step - cursor,
    {
        let excluded = contains_ts(&event.exdates, cursor);
        if !excluded && cursor + duration > from {
            let inst = EventInstance {
                start_ts: cursor,
                end_ts: cursor + duration,
                busy: event.busy,
            };
            proof {
                assert(occurrences@.push(inst) + expand_from(
                    cursor + step,
                    step as int,
                    duration as int,
                    event.busy,
                    event.exdates@,
                    (if has_count {
                        Some(remaining - 1 as int)
                    } else {
                        None
                    }),
                    until_g,
                    from as int,
                    to as int,
                ) =~= occurrences@ + (seq![inst] + expand_from(
                    cursor + step,
                    step as int,
                    duration as int,
                    event.busy,
                    event.exdates@,
                    (if has_count {
                        Some(remaining - 1 as int)
                    } else {
                        None
                    }),
                    until_g,
                    from as int,
                    to as int,
                )));
            }
            occurrences.push(inst);
        }
        cursor += step;
        if has_count {
            remaining -= 1;
        }
    }
    proof {
        assert(expand_from(
            cursor as int,
            step as int,
            duration as int,
            event.busy,
            event.exdates@,
            (if has_count {
                Some(remaining as int)
            } else {
                None
            }),
            until_g,
            from as int,
            to as int,
        ) =~= Seq::<EventInstance>::empty());
        assert(full =~= occurrences@);
    }
    occurrences
}

/// How many of the first `n` grid occurrences start on an exception date.
pub open spec fn excluded_count(cursor: int, step: int, exdates: Seq<i64>, n: int) -> int
    decreases n,
{
    if n <= 0 {
        0
    } else {
        (if exdates.contains(#[verifier::truncate] (cursor as i64)) {
            1int
        } else {
            0int
        }) + excluded_count(cursor + step, step, exdates, n - 1)
    }
}

/// Law: a rule bounded by `count = n` alone, expanded over a window that
/// starts before the anchor and reaches past the whole series, yields
/// exactly `n` occurrences minus those whose start is an exception date.
pub proof fn lemma_expand_count(
    cursor: int,
    step: int,
    duration: int,
    busy: bool,
    exdates: Seq<i64>,
    n: int,
    from: int,
    to: int,
)
    requires
        step >= 1,
        duration >= 0,
        n >= 0,
        from < cursor,
        to > cursor + (n - 1) * step,
    ensures
        expand_from(cursor, step, duration, busy, exdates, Some(n), None, from, to).len() == n
            - excluded_count(cursor, step, exdates, n),
        0 <= excluded_count(cursor, step, exdates, n) <= n,
    decreases n,
{
    if n <= 0 {
    } else {
        assert((n - 1) * step >= 0) by (nonlinear_arith)
            requires
                n >= 1,
                step >= 1,
        ;
        assert(cursor < to);
        assert((n - 2) * step == (n - 1) * step - step) by (nonlinear_arith);
        lemma_expand_count(cursor + step, step, duration, busy, exdates, n - 1, from, to);
        assert(cursor + duration > from);
    }
}

/// Law: expansion emits its occurrences sorted strictly ascending by
/// start, each at its own grid point at or after `cursor`.
pub proof fn lemma_expand_sorted(
    cursor: int,
    step: int,
    duration: int,
    busy: bool,
    exdates: Seq<i64>,
    remaining: Option<int>,
    until: Option<int>,
    from: int,
    to: int,
)
    requires
        step >= 1,
        i64::MIN <= cursor,
        to <= i64::MAX,
    ensures
        forall|i: int|
            0 <= i < expand_from(cursor, step, duration, busy, exdates, remaining, until, from, to).len()
                ==> (#[trigger] expand_from(
                cursor,
                step,
                duration,
                busy,
                exdates,
                remaining,
                until,
                from,
                to,
            )[i]).start_ts >= cursor,
        forall|i: int|
            0 <= i < expand_from(cursor, step, duration, busy, exdates, remaining, until, from, to).len()
                - 1 ==> (#[trigger] expand_from(
                cursor,
                step,
                duration,
                busy,
                exdates,
                remaining,
                until,
                from,
                to,
            )[i]).start_ts < expand_from(
                cursor,
                step,
                duration,
                busy,
                exdates,
                remaining,
                until,
                from,
                to,
            )[i + 1].start_ts,
    decreases to + step - cursor,
{
    let r = expand_from(cursor, step, duration, busy, exdates, remaining, until, from, to);
    if cursor >= to {
    } else if remaining matches Some(c) && c <= 0 {
    } else if until matches Some(u) && cursor > u {
    } else {
        let rem2 = match remaining {
            Some(c) => Some(c - 1),
            None => None,
        };
        lemma_expand_sorted(cursor + step, step, duration, busy, exdates, rem2, until, from, to);
        let rest = expand_from(cursor + step, step, duration, busy, exdates, rem2, until, from, to);
        if exdates.contains(#[verifier::truncate] (cursor as i64)) || cursor + duration <= from {
            assert(r == rest);
            assert forall|i: int| 0 <= i < r.len() implies (#[trigger] r[i]).start_ts
                >= cursor by {
                assert(r[i] == rest[i]);
            }
            assert forall|i: int| 0 <= i < r.len() - 1 implies (#[trigger] r[i]).start_ts < r[i
                + 1].start_ts by {
                assert(r[i] == rest[i] && r[i + 1] == rest[i + 1]);
            }
        } else {
            let inst = EventInstance {
                start_ts: #[verifier::truncate] (cursor as i64),
                end_ts: #[verifier::truncate] ((cursor + duration) as i64),
                busy: busy,
            };
            assert(r == seq![inst] + rest);
            assert(inst.start_ts == cursor);
            assert forall|i: int| 0 <= i < r.len() implies (#[trigger] r[i]).start_ts
                >= cursor by {
                if i > 0 {
                    assert(r[i] == rest[i - 1]);
                    assert(rest[i - 1].start_ts >= cursor + step);
                }
            }
            assert forall|i: int| 0 <= i < r.len() - 1 implies (#[trigger] r[i]).start_ts < r[i
                + 1].start_ts by {
                if i == 0 {
                    assert(r[1] == rest[0]);
                    assert(rest[0].start_ts >= cursor + step);
                } else {
                    assert(r[i] == rest[i - 1] && r[i + 1] == rest[i]);
                }
            }
        }
    }
}

} // verus!
