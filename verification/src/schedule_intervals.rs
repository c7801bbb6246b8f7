//! Evaluation of a schedule's weekly availability pattern into a free
//! interval set within a window: for every local calendar day of the
//! window, in the schedule's timezone, each matching rule contributes its
//! availability windows of that day, clipped to the query window, and the
//! result is normalized into a sorted, coalesced interval set.

use vstd::prelude::*;

use crate::date::next_civil_day;
use crate::date::next_civil_day_exec;
use crate::date::weekday_of;
use crate::date::weekday_of_exec;
use crate::event_instance::CompatibleInstances;
use crate::event_instance::EventInstance;
use crate::event_instance::normalized;
use crate::schedule::Schedule;
use crate::schedule::ScheduleRule;
use crate::schedule::ScheduleRuleInterval;
use crate::schedule::ScheduleRuleVariant;
use crate::timezone::local_civil_date;
use crate::timezone::local_midnight_millis;
use crate::timezone::resolve_local_date;
use crate::timezone::resolve_local_midnight;

verus! {

/// Every availability window of the schedule names a wall-clock time of
/// day: hours within 0..=23 and minutes within 0..=59.
pub open spec fn valid_schedule_times(rules: Seq<ScheduleRule>) -> bool {
    forall|i: int, j: int|
        #![trigger rules[i].intervals[j]]
        0 <= i < rules.len() && 0 <= j < rules[i].intervals@.len() ==> {
            let iv = rules[i].intervals@[j];
            &&& 0 <= iv.start.hours <= 23
            &&& 0 <= iv.start.minutes <= 59
            &&& 0 <= iv.end.hours <= 23
            &&& 0 <= iv.end.minutes <= 59
        }
}

/// Whether a rule applies on a day with the given weekday (0 = Monday)
/// and day of month.
pub open spec fn rule_matches_day(v: ScheduleRuleVariant, weekday: int, day_of_month: int) -> bool {
    match v {
        ScheduleRuleVariant::WDay(w) => w == weekday,
        ScheduleRuleVariant::Date(dom) => dom == day_of_month,
    }
}

/// The free instance one availability window contributes on the day that
/// starts at `midnight`, clipped to `[from, to)`; nothing when the clipped
/// range is empty.
pub open spec fn clipped_interval(
    midnight: i64,
    iv: ScheduleRuleInterval,
    from: i64,
    to: i64,
) -> Option<EventInstance> {
    let s0 = midnight + iv.start.hours * (1000 * 60 * 60) + iv.start.minutes * (1000 * 60);
    let e0 = midnight + iv.end.hours * (1000 * 60 * 60) + iv.end.minutes * (1000 * 60);
    let s = if s0 >= from {
        s0
    } else {
        from as int
    };
    let e = if e0 <= to {
        e0
    } else {
        to as int
    };
    if s < e {
        Some(
            EventInstance {
                start_ts: #[verifier::truncate] (s as i64),
                end_ts: #[verifier::truncate] (e as i64),
                busy: false,
            },
        )
    } else {
        None
    }
}

/// The instances all windows of one rule contribute on one day, in order.
pub open spec fn rule_day_instances(
    midnight: i64,
    ivs: Seq<ScheduleRuleInterval>,
    from: i64,
    to: i64,
) -> Seq<EventInstance>
    decreases ivs.len(),
{
    if ivs.len() == 0 {
        Seq::<EventInstance>::empty()
    } else {
        rule_day_instances(midnight, ivs.drop_last(), from, to) + (match clipped_interval(
            midnight,
            ivs.last(),
            from,
            to,
        ) {
            Some(e) => seq![e],
            None => Seq::<EventInstance>::empty(),
        })
    }
}

/// The instances all matching rules contribute on one day, in rule order.
pub open spec fn day_instances(
    rules: Seq<ScheduleRule>,
    weekday: int,
    day_of_month: int,
    midnight: i64,
    from: i64,
    to: i64,
) -> Seq<EventInstance>
    decreases rules.len(),
{
    if rules.len() == 0 {
        Seq::<EventInstance>::empty()
    } else {
        day_instances(rules.drop_last(), weekday, day_of_month, midnight, from, to) + (
        if rule_matches_day(rules.last().variant, weekday, day_of_month) {
            rule_day_instances(midnight, rules.last().intervals@, from, to)
        } else {
            Seq::<EventInstance>::empty()
        })
    }
}

/// The raw instances of up to `budget` consecutive local days starting at
/// the civil date `(y, m, d)`: each day whose local midnight resolves,
/// lies before the window end and leaves room for a whole day of
/// milliseconds contributes its matching rules' windows; an unresolvable
/// or out-of-range day ends the scan.
pub open spec fn schedule_days(
    rules: Seq<ScheduleRule>,
    tz: Seq<char>,
    y: int,
    m: int,
    d: int,
    budget: nat,
    from: i64,
    to: i64,
) -> Seq<EventInstance>
    decreases budget,
{
    if budget == 0 {
        Seq::<EventInstance>::empty()
    } else if !(1 <= y < 0x7fffffff && 1 <= m <= 12 && 1 <= d <= 31) {
        Seq::<EventInstance>::empty()
    } else {
        match local_midnight_millis(tz, y, m, d) {
            None => Seq::<EventInstance>::empty(),
            Some(midnight) => {
                if midnight >= to || midnight > i64::MAX - (1000 * 60 * 60 * 24) {
                    Seq::<EventInstance>::empty()
                } else {
                    let next = next_civil_day(y, m, d);
                    day_instances(rules, weekday_of(y, m, d), d, midnight, from, to)
                        + schedule_days(
                        rules,
                        tz,
                        next.0,
                        next.1,
                        next.2,
                        (budget - 1) as nat,
                        from,
                        to,
                    )
                }
            },
        }
    }
}

/// How many local days the scan may visit: the window's length in whole
/// days plus two for the partial days at its ends — or, for a window
/// longer than the time type can measure, enough days to cross the whole
/// representable range.
pub open spec fn day_budget(from: i64, to: i64) -> nat {
    if from <= to {
        if to - from <= i64::MAX {
            (((to - from) / (1000int * 60 * 60 * 24)) + 2) as nat
        } else {
            220_000_000_000nat
        }
    } else {
        0
    }
}

/// The raw free instances a schedule contributes within `[from, to)`: the
/// scan starts on the local day of `from` in the schedule's timezone.
pub open spec fn schedule_free_model(
    rules: Seq<ScheduleRule>,
    tz: Seq<char>,
    from: i64,
    to: i64,
) -> Seq<EventInstance> {
    match local_civil_date(tz, from) {
        None => Seq::<EventInstance>::empty(),
        Some(t) => schedule_days(
            rules,
            tz,
            t.0 as int,
            t.1 as int,
            t.2 as int,
            day_budget(from, to),
            from,
            to,
        ),
    }
}

impl Schedule {
    /// The free interval set this schedule grants within `[from, to)`:
    /// every local day of the window, evaluated in the schedule's
    /// timezone, contributes the availability windows of its matching
    /// rules, clipped to the window; overlapping and touching windows are
    /// coalesced.
    pub fn free_intervals(&self, from: i64, to: i64) -> (r: CompatibleInstances)
        requires
            valid_schedule_times(self.rules@),
        ensures
            r@ == normalized(schedule_free_model(self.rules@, self.timezone@, from, to)),
    {
        let ghost model = schedule_free_model(self.rules@, self.timezone@, from, to);
        let mut raw: Vec<EventInstance> = Vec::new();
        let start_date = match resolve_local_date(self.timezone.as_str(), from) {
            Some(t) => t,
            None => {
                return CompatibleInstances::new(raw);
            },
        };
        if from > to {
            proof {
                assert(model =~= Seq::<EventInstance>::empty());
            }
            return CompatibleInstances::new(raw);
        }
        let mut y: i32 = start_date.0;
        let mut m: u32 = start_date.1;
        let mut d: u32 = start_date.2;
        let mut budget: i64 = match to.checked_sub(from) {
            Some(span) => {
                proof {
                    assert(span >= 0);
                    assert(0 <= (span as int) / 86400000 <= span) by (nonlinear_arith)
                        requires
                            span >= 0,
                    ;
                }
                span / 86400000 + 2
            },
            None => 220_000_000_000,
        };
        proof {
            assert(budget as nat == day_budget(from, to));
        }
        loop
            invariant_except_break
                valid_schedule_times(self.rules@),
                0 <= budget,
                model == raw@ + schedule_days(
                    self.rules@,
                    self.timezone@,
                    y as int,
                    m as int,
                    d as int,
                    budget as nat,
                    from,
                    to,
                ),
            ensures
                model == raw@,
            decreases budget,
        {
            let ghost rest = schedule_days(
                self.rules@,
                self.timezone@,
                y as int,
                m as int,
                d as int,
                budget as nat,
                from,
                to,
            );
            if budget == 0 {
                proof {
                    assert(raw@ + rest =~= raw@);
                }
                break;
            }
            if !(y >= 1 && y < i32::MAX && m >= 1 && m <= 12 && d >= 1 && d <= 31) {
                proof {
                    assert(raw@ + rest =~= raw@);
                }
                break;
            }
            let midnight = match resolve_local_midnight(self.timezone.as_str(), y, m, d) {
                Some(ms) => ms,
                None => {
                    proof {
                        assert(raw@ + rest =~= raw@);
                    }
                    break;
                },
            };
            if midnight >= to || midnight > i64::MAX - 1000 * 60 * 60 * 24 {
                proof {
                    assert(raw@ + rest =~= raw@);
                }
                break;
            }
            let weekday = weekday_of_exec(y, m, d);
            let ghost day_model = day_instances(
                self.rules@,
                weekday as int,
                d as int,
                midnight,
                from,
                to,
            );
            let ghost rules_view = self.rules@;
            let mut ri: usize = 0;
            let ghost raw_before_day = raw@;
            while ri < self.rules.len()
                invariant
                    ri <= rules_view.len(),
                    self.rules@ == rules_view,
                    valid_schedule_times(rules_view),
                    weekday as int == weekday_of(y as int, m as int, d as int),
                    i64::MIN <= midnight <= i64::MAX - (1000 * 60 * 60 * 24),
                    raw@ == raw_before_day + day_instances(
                        rules_view.take(ri as int),
                        weekday as int,
                        d as int,
                        midnight,
                        from,
                        to,
                    ),
                decreases rules_view.len() - ri,
            {
                proof {
                    assert(rules_view.take(ri + 1).drop_last() =~= rules_view.take(ri as int));
                    assert(rules_view.take(ri + 1).last() == rules_view[ri as int]);
                }
                let rule = &self.rules[ri];
                let applies = match rule.variant {
                    ScheduleRuleVariant::WDay(w) => w == weekday as i64,
                    ScheduleRuleVariant::Date(dom) => dom == d as i64,
                };
                if applies {
                    let ghost ivs_view = rule.intervals@;
                    let ghost raw_before_rule = raw@;
                    let mut k: usize = 0;
                    while k < rule.intervals.len()
                        invariant
                            k <= ivs_view.len(),
                            rule.intervals@ == ivs_view,
                            forall|j: int|
                                #![trigger ivs_view[j]]
                                0 <= j < ivs_view.len() ==> 0 <= ivs_view[j].start.hours <= 23
                                    && 0 <= ivs_view[j].start.minutes <= 59 && 0
                                    <= ivs_view[j].end.hours <= 23 && 0
                                    <= ivs_view[j].end.minutes <= 59,
                            i64::MIN <= midnight <= i64::MAX - (1000 * 60 * 60 * 24),
                            raw@ == raw_before_rule + rule_day_instances(
                                midnight,
                                ivs_view.take(k as int),
                                from,
                                to,
                            ),
                        decreases ivs_view.len() - k,
                    {
                        proof {
                            assert(ivs_view.take(k + 1).drop_last() =~= ivs_view.take(k as int));
                            assert(ivs_view.take(k + 1).last() == ivs_view[k as int]);
                        }
                        let iv = rule.intervals[k];
                        proof {
                            assert(0 <= ivs_view[k as int].start.hours <= 23);
                            assert(0 <= ivs_view[k as int].start.minutes <= 59);
                            assert(0 <= ivs_view[k as int].end.hours <= 23);
                            assert(0 <= ivs_view[k as int].end.minutes <= 59);
                        }
                        let sh: i64 = iv.start.hours * 3600000;
                        let sm: i64 = iv.start.minutes * 60000;
                        let eh: i64 = iv.end.hours * 3600000;
                        let em: i64 = iv.end.minutes * 60000;
                        let s0 = midnight + sh + sm;
                        let e0 = midnight + eh + em;
                        let s = if s0 >= from {
                            s0
                        } else {
                            from
                        };
                        let e = if e0 <= to {
                            e0
                        } else {
                            to
                        };
                        if s < e {
                            raw.push(EventInstance { start_ts: s, end_ts: e, busy: false });
                        }
                        k += 1;
                    }
                    proof {
                        assert(ivs_view.take(ivs_view.len() as int) =~= ivs_view);
                    }
                }
                ri += 1;
            }
            proof {
                assert(rules_view.take(rules_view.len() as int) =~= rules_view);
                assert(raw@ == raw_before_day + day_model);
                let next = next_civil_day(y as int, m as int, d as int);
                assert(rest == day_model + schedule_days(
                    rules_view,
                    self.timezone@,
                    next.0,
                    next.1,
                    next.2,
                    (budget - 1) as nat,
                    from,
                    to,
                ));
                assert(raw_before_day + (day_model + schedule_days(
                    rules_view,
                    self.timezone@,
                    next.0,
                    next.1,
                    next.2,
                    (budget - 1) as nat,
                    from,
                    to,
                )) =~= raw@ + schedule_days(
                    rules_view,
                    self.timezone@,
                    next.0,
                    next.1,
                    next.2,
                    (budget - 1) as nat,
                    from,
                    to,
                ));
            }
            let next = next_civil_day_exec(y, m, d);
            y = next.0;
            m = next.1;
            d = next.2;
            budget -= 1;
        }
        CompatibleInstances::new(raw)
    }
}

} // verus!
