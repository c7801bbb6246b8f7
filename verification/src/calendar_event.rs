//! Calendar events, their recurrence rules, and the validation that every
//! rule change goes through.

use vstd::prelude::*;

use crate::calendar::CalendarSettings;
use crate::id::ID;

verus! {

/// How often a recurring event repeats.
#[derive(Clone, Copy, Debug, PartialEq, Eq, Structural)]
pub enum RRuleFrequency {
    Daily,
    Weekly,
    Monthly,
    Yearly,
}

/// A recurrence rule: repeat with the given frequency every `interval`
/// periods, bounded by at most one of `count` and `until`, optionally
/// restricted by weekday, day of month and set position, with `wkst` as
/// the first day of the week.
#[derive(Clone, Debug, PartialEq)]
pub struct RRuleOptions {
    pub freq: RRuleFrequency,
    pub interval: i64,
    pub count: Option<i32>,
    pub until: Option<i64>,
    pub byweekday: Option<Vec<i64>>,
    pub bymonthday: Option<Vec<i64>>,
    pub bysetpos: Option<Vec<i64>>,
    pub wkst: i64,
}

/// A reminder setting: fire this many minutes before each occurrence.
#[derive(Clone, Copy, Debug, PartialEq, Eq, Structural)]
pub struct CalendarEventReminder {
    pub minutes_before: i64,
}

/// The offset of a valid reminder is non-negative and at most 31 days.
pub open spec fn reminder_valid(r: CalendarEventReminder) -> bool {
    0 <= r.minutes_before <= 60 * 24 * 31
}

impl CalendarEventReminder {
    pub fn is_valid(&self) -> (r: bool)
        ensures
            r == reminder_valid(*self),
    {
        self.minutes_before >= 0 && self.minutes_before <= 60 * 24 * 31
    }
}

/// Free-form key/value pairs attached to an event.
#[derive(Clone, Debug, PartialEq)]
pub struct Metadata {
    pub entries: Vec<(String, String)>,
}

impl Default for Metadata {
    fn default() -> (r: Self)
        ensures
            r.entries@.len() == 0,
    {
        Metadata { entries: Vec::new() }
    }
}

/// A recurrence rule is valid for an event anchored at `anchor`: the
/// interval is at least one, `count` (at least one when given) and `until`
/// are not both set, `until` does not precede the anchor, and no field
/// incompatible with the frequency is set: day-of-month and set-position
/// restrictions need a monthly or yearly rule, weekday restrictions at
/// least a weekly one.
pub open spec fn valid_rrule(opts: RRuleOptions, anchor: i64) -> bool {
    &&& opts.interval >= 1
    &&& !(opts.count is Some && opts.until is Some)
    &&& (opts.count is Some ==> opts.count->0 >= 1)
    &&& (opts.until is Some ==> opts.until->0 >= anchor)
    &&& (opts.byweekday is Some ==> opts.freq != RRuleFrequency::Daily)
    &&& (opts.bymonthday is Some ==> opts.freq == RRuleFrequency::Monthly || opts.freq
        == RRuleFrequency::Yearly)
    &&& (opts.bysetpos is Some ==> opts.freq == RRuleFrequency::Monthly || opts.freq
        == RRuleFrequency::Yearly)
    &&& 0 <= opts.wkst <= 6
}

/// A stored calendar event: the anchor occurrence `[start_ts, start_ts +
/// duration)`, its tag, the optional recurrence rule with its exception
/// dates, and the optional reminder offset.
#[derive(Clone, Debug, PartialEq)]
pub struct CalendarEvent {
    pub id: ID,
    pub start_ts: i64,
    pub duration: i64,
    pub end_ts: i64,
    pub busy: bool,
    pub user_id: ID,
    pub account_id: ID,
    pub calendar_id: ID,
    pub recurrence: Option<RRuleOptions>,
    pub exdates: Vec<i64>,
    pub reminder: Option<CalendarEventReminder>,
    pub is_service: bool,
    pub metadata: Metadata,
    pub created: i64,
    pub updated: i64,
}

/// Whether `opts` is a valid recurrence rule for an event anchored at
/// `anchor`.
pub fn is_valid_recurrence(opts: &RRuleOptions, anchor: i64) -> (r: bool)
    ensures
        r == valid_rrule(*opts, anchor),
{
    let freq_ok_weekday = match opts.freq {
        RRuleFrequency::Daily => opts.byweekday.is_none(),
        _ => true,
    };
    let monthly_or_yearly = match opts.freq {
        RRuleFrequency::Monthly => true,
        RRuleFrequency::Yearly => true,
        _ => false,
    };
    let count_ok = match opts.count {
        Some(c) => c >= 1,
        None => true,
    };
    let until_ok = match opts.until {
        Some(u) => u >= anchor,
        None => true,
    };
    opts.interval >= 1 && !(opts.count.is_some() && opts.until.is_some()) && count_ok && until_ok
        && freq_ok_weekday && (opts.bymonthday.is_none() || monthly_or_yearly) && (
    opts.bysetpos.is_none() || monthly_or_yearly) && opts.wkst >= 0 && opts.wkst <= 6
}

impl CalendarEvent {
    /// Installs a recurrence rule after validating it against this event's
    /// anchor; an invalid rule changes nothing and reports failure.  The
    /// calendar settings travel with every rule change; validity does not
    /// depend on them.
    pub fn set_recurrence(
        &mut self,
        opts: RRuleOptions,
        _settings: &CalendarSettings,
        _update_synced: bool,
    ) -> (r: bool)
        ensures
            r == valid_rrule(opts, old(self).start_ts),
            r ==> *final(self) == (CalendarEvent { recurrence: Some(opts), ..*old(self) }),
            !r ==> *final(self) == *old(self),
    {
        if is_valid_recurrence(&opts, self.start_ts) {
            self.recurrence = Some(opts);
            true
        } else {
            false
        }
    }
}

} // verus!
