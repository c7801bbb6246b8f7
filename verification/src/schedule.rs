//! Schedules: weekly recurring availability patterns, and the use case
//! that updates a schedule's timezone and rules.

use vstd::prelude::*;

use crate::id::ID;
use crate::timezone::is_iana_timezone;
use crate::timezone::timezone_exists;

verus! {

/// A wall-clock time of day.
#[derive(Clone, Copy, Debug, PartialEq, Eq, Structural)]
pub struct Time {
    pub hours: i64,
    pub minutes: i64,
}

/// What days a schedule rule applies to: a weekday (0 = Monday ..
/// 6 = Sunday), or a day of the month.
#[derive(Clone, Copy, Debug, PartialEq, Eq, Structural)]
pub enum ScheduleRuleVariant {
    WDay(i64),
    Date(i64),
}

/// One availability window within a matching day.
#[derive(Clone, Copy, Debug, PartialEq, Eq, Structural)]
pub struct ScheduleRuleInterval {
    pub start: Time,
    pub end: Time,
}

/// One rule of a schedule: the matching days and the availability windows
/// they carry.
#[derive(Clone, Debug, PartialEq)]
pub struct ScheduleRule {
    pub variant: ScheduleRuleVariant,
    pub intervals: Vec<ScheduleRuleInterval>,
}

/// A user's weekly availability pattern, evaluated in its own timezone.
#[derive(Clone, Debug)]
pub struct Schedule {
    pub id: ID,
    pub user_id: ID,
    pub account_id: ID,
    pub timezone: String,
    pub rules: Vec<ScheduleRule>,
}

impl Schedule {
    /// Replaces the schedule's rules.
    pub fn set_rules(&mut self, rules: Vec<ScheduleRule>)
        ensures
            final(self).rules == rules,
            final(self).id == old(self).id,
            final(self).user_id == old(self).user_id,
            final(self).account_id == old(self).account_id,
            final(self).timezone == old(self).timezone,
    {
        self.rules = rules;
    }
}

/// Path parameter of the schedule-settings update route.
pub struct UpdateScheduleSettigsPathParams {
    pub schedule_id: String,
}

/// Body of the schedule-settings update route: each absent field leaves
/// the stored value alone.
pub struct UpdateScheduleBody {
    pub timezone: Option<String>,
    pub rules: Option<Vec<ScheduleRule>>,
}

/// Why a schedule update was rejected; the invalid-settings variant
/// carries the offending timezone name.
#[derive(Debug)]
pub enum UseCaseErrors {
    ScheduleNotFoundError,
    StorageError,
    InvalidSettings(String),
}

/// The changes one schedule update carries.
pub struct UpdateScheduleUseCase {
    pub user_id: ID,
    pub schedule_id: ID,
    pub timezone: Option<String>,
    pub rules: Option<Vec<ScheduleRule>>,
}

impl UpdateScheduleUseCase {
    /// Applies this update to the looked-up schedule: the schedule must
    /// exist and belong to the requesting user, and a given timezone must
    /// be a known IANA name (the invalid-settings error carries the name
    /// back).  A given rule list replaces the stored one.
    pub fn apply(self, schedule: Option<Schedule>) -> (r: Result<Schedule, UseCaseErrors>)
        ensures
            schedule is None || schedule->0.user_id != self.user_id ==> r matches Err(
                UseCaseErrors::ScheduleNotFoundError,
            ),
            schedule is Some && schedule->0.user_id == self.user_id && self.timezone is Some
                && !is_iana_timezone(self.timezone->0@) ==> (r matches Err(
            UseCaseErrors::InvalidSettings(s)) && s == self.timezone->0),
            schedule is Some && schedule->0.user_id == self.user_id && (self.timezone is Some
                ==> is_iana_timezone(self.timezone->0@)) ==> (r matches Ok(s) && {
                &&& s.id == schedule->0.id
                &&& s.user_id == schedule->0.user_id
                &&& s.account_id == schedule->0.account_id
                &&& s.timezone == (if self.timezone is Some {
                    self.timezone->0
                } else {
                    schedule->0.timezone
                })
                &&& s.rules == (if self.rules is Some {
                    self.rules->0
                } else {
                    schedule->0.rules
                })
            }),
    {
        let mut schedule = match schedule {
            Some(s) if s.user_id == self.user_id => s,
            _ => {
                return Err(UseCaseErrors::ScheduleNotFoundError);
            },
        };

        if let Some(tz) = self.timezone {
            if timezone_exists(tz.as_str()) {
                schedule.timezone = tz;
            } else {
                return Err(UseCaseErrors::InvalidSettings(tz));
            }
        }
        if let Some(rules) = self.rules {
            schedule.set_rules(rules);
        }

        Ok(schedule)
    }
}

} // verus!
