//! Calendars: an identity owned by a user, with mutable settings.

use vstd::prelude::*;

use crate::id::ID;

verus! {

/// Per-calendar settings: the weekday the week starts on (0 = Monday ..
/// 6 = Sunday) and the IANA timezone the calendar's days are evaluated in.
#[derive(Clone, Debug)]
pub struct CalendarSettings {
    pub week_start: i64,
    pub timezone: String,
}

/// A calendar owned by one user of one account.
#[derive(Clone, Debug)]
pub struct Calendar {
    pub id: ID,
    pub user_id: ID,
    pub account_id: ID,
    pub settings: CalendarSettings,
}

} // verus!
