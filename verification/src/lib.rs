//! Temporal availability engine for a multi-tenant calendar scheduling
//! service: sorted, coalesced interval sets, free/busy computation, booking
//! slot enumeration, service-wide slot grouping, booking-query validation,
//! and the minute alignment used by the reminder dispatcher.

pub mod account;
pub mod booking_api;
pub mod booking_laws;
pub mod booking_slots;
pub mod calendar;
pub mod calendar_api;
pub mod calendar_event;
pub mod date;
pub mod delete_schedule;
pub mod event_dtos;
pub mod event_instance;
pub mod expansion;
pub mod free_busy;
pub mod id;
pub mod interval_laws;
pub mod job_schedulers;
pub mod schedule;
pub mod schedule_intervals;
pub mod sdk;
pub mod service;
pub mod service_api;
pub mod service_user;
pub mod timezone;
pub mod update_event;

pub use event_instance::CompatibleInstances;
pub use event_instance::EventInstance;
pub use id::ID;
