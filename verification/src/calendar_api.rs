//! Request and response shapes of the calendar routes.

pub mod create_calendar;
pub mod delete_calendar;
pub mod get_calendar;
pub mod get_calendar_events;
pub mod get_user_freebusy;
pub mod update_calendar_settings;
