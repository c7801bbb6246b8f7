//! Wire shapes of calendar events and their expanded instances.

use vstd::prelude::*;

use crate::calendar_event::CalendarEvent;
use crate::calendar_event::CalendarEventReminder;
use crate::calendar_event::Metadata;
use crate::calendar_event::RRuleOptions;
use crate::event_instance::EventInstance;
use crate::id::ID;

verus! {

/// The wire shape of a stored calendar event.
#[derive(Debug)]
pub struct CalendarEventDTO {
    pub id: ID,
    pub start_ts: i64,
    pub duration: i64,
    pub busy: bool,
    pub updated: i64,
    pub created: i64,
    pub recurrence: Option<RRuleOptions>,
    pub exdates: Vec<i64>,
    pub calendar_id: ID,
    pub user_id: ID,
    pub reminder: Option<CalendarEventReminder>,
    pub metadata: Metadata,
}

impl CalendarEventDTO {
    /// The wire shape of the given event, field for field.
    pub fn new(event: CalendarEvent) -> (r: Self)
        ensures
            r.id == event.id,
            r.start_ts == event.start_ts,
            r.duration == event.duration,
            r.busy == event.busy,
            r.updated == event.updated,
            r.created == event.created,
            r.recurrence == event.recurrence,
            r.exdates == event.exdates,
            r.calendar_id == event.calendar_id,
            r.user_id == event.user_id,
            r.reminder == event.reminder,
            r.metadata == event.metadata,
    {
        Self {
            id: event.id,
            start_ts: event.start_ts,
            duration: event.duration,
            busy: event.busy,
            updated: event.updated,
            created: event.created,
            recurrence: event.recurrence,
            exdates: event.exdates,
            calendar_id: event.calendar_id,
            user_id: event.user_id,
            reminder: event.reminder,
            metadata: event.metadata,
        }
    }
}

/// The wire shape of an event together with its expanded occurrences.
#[derive(Debug)]
pub struct EventWithInstancesDTO {
    pub event: CalendarEventDTO,
    pub instances: Vec<EventInstance>,
}

} // verus!
