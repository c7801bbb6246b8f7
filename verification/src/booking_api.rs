//! The service booking-slot lookup: its request shapes and the decisions
//! it makes around the availability engine.

use vstd::prelude::*;

use crate::booking_slots::BookingSlotsQuery;
use crate::booking_slots::BookingTimespan;
use crate::booking_slots::validate_bookingslots_query;
use crate::date::valid_date_string;
use crate::id::ID;
use crate::service::Service;
use crate::timezone::is_iana_timezone;
use crate::timezone::local_midnight_millis;

verus! {

/// Path parameters of the booking-slot route.
#[derive(Debug)]
pub struct PathParams {
    pub service_id: String,
}

/// Query parameters of the booking-slot route.
#[derive(Debug)]
pub struct QueryParams {
    pub iana_tz: Option<String>,
    pub duration: i64,
    pub interval: i64,
    pub date: String,
}

/// Why a booking-slot lookup was rejected; the date and timezone variants
/// carry the offending input back.
#[derive(Debug)]
pub enum UseCaseErrors {
    ServiceNotFoundError,
    InvalidIntervalError,
    InvalidDateError(String),
    InvalidTimezoneError(String),
}

/// One booking-slot lookup: the service and the query its caller asked
/// for.
#[derive(Debug)]
pub struct GetServiceBookingSlotsUseCase {
    pub service_id: ID,
    pub date: String,
    pub iana_tz: Option<String>,
    pub duration: i64,
    pub interval: i64,
}

/// The timezone the lookup asks for: the given one, or UTC when absent.
pub open spec fn requested_timezone(u: &GetServiceBookingSlotsUseCase) -> Seq<char> {
    if u.iana_tz is Some {
        u.iana_tz->0@
    } else {
        "UTC"@
    }
}

/// The requested day has a usable local midnight: it resolves in the
/// requested timezone and leaves room for one day of milliseconds.
pub open spec fn resolvable_window(u: &GetServiceBookingSlotsUseCase) -> bool {
    match local_midnight_millis(
        requested_timezone(u),
        crate::date::date_year(u.date@),
        crate::date::date_month(u.date@),
        crate::date::date_day(u.date@),
    ) {
        Some(start) => start <= i64::MAX - 1000 * 60 * 60 * 24,
        None => false,
    }
}

impl GetServiceBookingSlotsUseCase {
    /// The decisions the lookup makes before any member's availability is
    /// computed: the query must validate (interval bounds, known
    /// timezone, calendar-valid date with a resolvable local midnight)
    /// and the service must exist.  What remains — computing each
    /// member's free set and grouping the slots — runs over the returned
    /// window and members.
    pub fn prepare(&self, service: Option<Service>) -> (r: Result<
        (BookingTimespan, Service),
        UseCaseErrors,
    >)
        ensures
            !(1000 * 60 * 10 <= self.interval && self.interval <= 1000 * 60 * 60) ==> r matches Err(
                UseCaseErrors::InvalidIntervalError,
            ),
            (1000 * 60 * 10 <= self.interval && self.interval <= 1000 * 60 * 60)
                && !is_iana_timezone(requested_timezone(self)) ==> (r matches Err(
            UseCaseErrors::InvalidTimezoneError(s)) && s@ == requested_timezone(self)),
            (1000 * 60 * 10 <= self.interval && self.interval <= 1000 * 60 * 60)
                && is_iana_timezone(requested_timezone(self)) && !valid_date_string(self.date@)
                ==> (r matches Err(UseCaseErrors::InvalidDateError(s)) && s@ == self.date@),
            (1000 * 60 * 10 <= self.interval && self.interval <= 1000 * 60 * 60)
                && is_iana_timezone(requested_timezone(self)) && valid_date_string(self.date@)
                && !resolvable_window(self) ==> (r matches Err(UseCaseErrors::InvalidDateError(s))
                && s@ == self.date@),
            (1000 * 60 * 10 <= self.interval && self.interval <= 1000 * 60 * 60)
                && is_iana_timezone(requested_timezone(self)) && valid_date_string(self.date@)
                && resolvable_window(self) && service is None ==> r matches Err(
                UseCaseErrors::ServiceNotFoundError,
            ),
            (1000 * 60 * 10 <= self.interval && self.interval <= 1000 * 60 * 60)
                && is_iana_timezone(requested_timezone(self)) && valid_date_string(self.date@)
                && resolvable_window(self) && service is Some ==> (r matches Ok(t) && t.1
                == service->0 && t.0.start_ts == local_midnight_millis(
                requested_timezone(self),
                crate::date::date_year(self.date@),
                crate::date::date_month(self.date@),
                crate::date::date_day(self.date@),
            )->0 && t.0.end_ts == t.0.start_ts + 1000 * 60 * 60 * 24),
    {
        let query = BookingSlotsQuery {
            date: self.date.clone(),
            iana_tz: match &self.iana_tz {
                Some(tz) => Some(tz.clone()),
                None => None,
            },
            interval: self.interval,
            duration: self.duration,
        };
        let booking_timespan = match validate_bookingslots_query(&query) {
            Ok(t) => t,
            Err(e) => {
                return Err(
                    match e {
                        crate::booking_slots::BookingQueryError::InvalidInterval => UseCaseErrors::InvalidIntervalError,
                        crate::booking_slots::BookingQueryError::InvalidDate(d) => UseCaseErrors::InvalidDateError(
                            d,
                        ),
                        crate::booking_slots::BookingQueryError::InvalidTimezone(d) => UseCaseErrors::InvalidTimezoneError(
                            d,
                        ),
                    },
                );
            },
        };

        let service = match service {
            Some(s) => s,
            None => {
                return Err(UseCaseErrors::ServiceNotFoundError);
            },
        };

        Ok((booking_timespan, service))
    }
}

} // verus!
