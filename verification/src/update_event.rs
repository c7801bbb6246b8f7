//! The event-update use case: which changes a caller may apply to a stored
//! event, in what order they take effect, and when the update is rejected.

use vstd::prelude::*;

use crate::calendar::Calendar;
use crate::calendar_event::CalendarEvent;
use crate::calendar_event::CalendarEventReminder;
use crate::calendar_event::Metadata;
use crate::calendar_event::RRuleOptions;
use crate::calendar_event::reminder_valid;
use crate::calendar_event::valid_rrule;
use crate::id::ID;

verus! {

/// The changes one update request carries; an absent field leaves the
/// stored value alone (except the reminder, which is always replaced).
#[derive(Debug)]
pub struct UpdateEventUseCase {
    pub user_id: ID,
    pub event_id: ID,
    pub start_ts: Option<i64>,
    pub busy: Option<bool>,
    pub duration: Option<i64>,
    pub reminder: Option<CalendarEventReminder>,
    pub recurrence: Option<RRuleOptions>,
    pub is_service: Option<bool>,
    pub exdates: Option<Vec<i64>>,
    pub metadata: Option<Metadata>,
}

/// Why an event update was rejected.
#[derive(Debug)]
pub enum UseCaseErrors {
    NotFound(String, ID),
    InvalidReminder,
    StorageError,
    InvalidRecurrenceRule,
}

/// The anchor the event will have after the update.
pub open spec fn updated_start_ts(u: &UpdateEventUseCase, e: CalendarEvent) -> i64 {
    if u.start_ts is Some {
        u.start_ts->0
    } else {
        e.start_ts
    }
}

/// Whether the update moves the anchor or changes the duration, which
/// forces the stored recurrence rule to be revalidated.
pub open spec fn start_or_duration_changes(u: &UpdateEventUseCase, e: CalendarEvent) -> bool {
    (u.start_ts is Some && u.start_ts->0 != e.start_ts) || (u.duration is Some && u.duration->0
        != e.duration)
}

/// Whether the recurrence rule in force after the update is valid for the
/// updated anchor: a newly given rule is validated, a kept rule is
/// revalidated when the anchor or duration moved, and no rule needs none.
pub open spec fn update_recurrence_ok(u: &UpdateEventUseCase, e: CalendarEvent) -> bool {
    if u.recurrence is Some {
        valid_rrule(u.recurrence->0, updated_start_ts(u, e))
    } else if start_or_duration_changes(u, e) && e.recurrence is Some {
        valid_rrule(e.recurrence->0, updated_start_ts(u, e))
    } else {
        true
    }
}

impl UpdateEventUseCase {
    /// Applies this update to the looked-up event and calendar, deciding
    /// the outcome: the event must exist and belong to the requesting
    /// user; a stored invalid reminder is rejected before anything else;
    /// the event's calendar must exist; moving the anchor clears the
    /// exception dates; the reminder is always replaced; and the
    /// recurrence rule in force must be valid for the updated anchor.
    pub fn apply(
        self,
        event: Option<CalendarEvent>,
        calendar: Option<Calendar>,
        now: i64,
    ) -> (r: Result<CalendarEvent, UseCaseErrors>)
        ensures
            (event is None || event->0.user_id != self.user_id) ==> (r matches Err(
            UseCaseErrors::NotFound(entity, id)) && entity@ == "Calendar Event"@ && id
                == self.event_id),
            event is Some && event->0.user_id == self.user_id ==> ({
                let e = event->0;
                if e.reminder is Some && !reminder_valid(e.reminder->0) {
                    r matches Err(UseCaseErrors::InvalidReminder)
                } else if calendar is None {
                    r matches Err(UseCaseErrors::NotFound(entity, id)) && entity@ == "Calendar"@
                        && id == e.calendar_id
                } else if !update_recurrence_ok(&self, e) {
                    r matches Err(UseCaseErrors::InvalidRecurrenceRule)
                } else {
                    r matches Ok(ev) && {
                        &&& ev.id == e.id
                        &&& ev.user_id == e.user_id
                        &&& ev.account_id == e.account_id
                        &&& ev.calendar_id == e.calendar_id
                        &&& ev.end_ts == e.end_ts
                        &&& ev.created == e.created
                        &&& ev.updated == now
                        &&& ev.start_ts == updated_start_ts(&self, e)
                        &&& ev.duration == (if self.duration is Some {
                            self.duration->0
                        } else {
                            e.duration
                        })
                        &&& ev.busy == (if self.busy is Some {
                            self.busy->0
                        } else {
                            e.busy
                        })
                        &&& ev.is_service == (if self.is_service is Some {
                            self.is_service->0
                        } else {
                            e.is_service
                        })
                        &&& ev.exdates@ == (if self.start_ts is Some && self.start_ts->0
                            != e.start_ts {
                            Seq::<i64>::empty()
                        } else if self.exdates is Some {
                            self.exdates->0@
                        } else {
                            e.exdates@
                        })
                        &&& ev.metadata == (if self.metadata is Some {
                            self.metadata->0
                        } else {
                            e.metadata
                        })
                        &&& ev.reminder == self.reminder
                        &&& ev.recurrence == (if self.recurrence is Some {
                            self.recurrence
                        } else {
                            e.recurrence
                        })
                    }
                }
            }),
    {
        let UpdateEventUseCase {
            user_id,
            event_id,
            start_ts,
            busy,
            duration,
            recurrence,
            exdates,
            reminder,
            is_service,
            metadata,
        } = self;

        let mut e = match event {
            Some(event) if event.user_id == user_id => event,
            _ => {
                return Err(UseCaseErrors::NotFound("Calendar Event".to_owned(), event_id));
            },
        };

        if let Some(is_service) = is_service {
            e.is_service = is_service;
        }
        if let Some(exdates) = exdates {
            e.exdates = exdates;
        }
        if let Some(metadata) = metadata {
            e.metadata = metadata;
        }

        if let Some(current_reminder) = &e.reminder {
            if !current_reminder.is_valid() {
                return Err(UseCaseErrors::InvalidReminder);
            }
        }
        e.reminder = reminder;

        let calendar = match calendar {
            Some(cal) => cal,
            None => {
                return Err(UseCaseErrors::NotFound("Calendar".to_owned(), e.calendar_id));
            },
        };

        let mut start_or_duration_change = false;
        if let Some(start_ts) = start_ts {
            if e.start_ts != start_ts {
                e.start_ts = start_ts;
                e.exdates = Vec::new();
                start_or_duration_change = true;
            }
        }
        if let Some(duration) = duration {
            if e.duration != duration {
                e.duration = duration;
                start_or_duration_change = true;
            }
        }
        if let Some(busy) = busy {
            e.busy = busy;
        }

        let valid_recurrence = if let Some(rrule_opts) = recurrence {
            e.set_recurrence(rrule_opts, &calendar.settings, true)
        } else if start_or_duration_change && e.recurrence.is_some() {
            // Revalidate the kept rule against the moved anchor without
            // rewriting it.
            crate::calendar_event::is_valid_recurrence(e.recurrence.as_ref().unwrap(), e.start_ts)
        } else {
            true
        };
        if !valid_recurrence {
            return Err(UseCaseErrors::InvalidRecurrenceRule);
        }

        e.updated = now;

        Ok(e)
    }
}

} // verus!
