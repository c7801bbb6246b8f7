use nettu_scheduler::booking_slots::BookingQueryError;
use nettu_scheduler::booking_slots::BookingSlotsQuery;
use nettu_scheduler::booking_slots::validate_bookingslots_query;
use nettu_scheduler::booking_slots::validate_slots_interval;
use nettu_scheduler::date::is_valid_date;
use nettu_scheduler::job_schedulers::get_start_delay;
use nettu_scheduler::timezone::timezone_exists;

#[test]
fn start_delay_works() {
    assert_eq!(get_start_delay(50 * 1000, 5), 5);
    assert_eq!(get_start_delay(50 * 1000, 10), 60);
    assert_eq!(get_start_delay(50 * 1000, 15), 55);
    assert_eq!(get_start_delay(60 * 1000, 60), 60);
    assert_eq!(get_start_delay(60 * 1000, 10), 50);
    assert_eq!(get_start_delay(59 * 1000, 0), 1);
    assert_eq!(get_start_delay(59 * 1000, 1), 60);
}

#[test]
fn slots_interval_bounds() {
    assert!(!validate_slots_interval(599_999));
    assert!(validate_slots_interval(600_000));
    assert!(validate_slots_interval(3_600_000));
    assert!(!validate_slots_interval(3_600_001));
}

#[test]
fn date_validation_accepts_calendar_dates() {
    assert_eq!(is_valid_date("2010-1-1"), Ok((2010, 1, 1)));
    assert_eq!(is_valid_date("1970-12-31"), Ok((1970, 12, 31)));
    assert_eq!(is_valid_date("2020-2-29"), Ok((2020, 2, 29)));
    assert_eq!(is_valid_date("2020-02-09"), Ok((2020, 2, 9)));
}

#[test]
fn date_validation_rejects_malformed_strings() {
    assert!(is_valid_date("").is_err());
    assert!(is_valid_date("2020").is_err());
    assert!(is_valid_date("2020-1").is_err());
    assert!(is_valid_date("2020-1-1-1").is_err());
    assert!(is_valid_date("20x0-1-1").is_err());
    assert!(is_valid_date("2021-2-29").is_err());
    assert!(is_valid_date("2020-13-1").is_err());
    assert!(is_valid_date("2020-4-31").is_err());
    assert!(is_valid_date("12345-1-1").is_err());
}

#[test]
fn timezone_lookup_knows_real_zones() {
    assert!(timezone_exists("UTC"));
    assert!(timezone_exists("Europe/Oslo"));
    assert!(!timezone_exists("Nowhere/AtAll"));
}

#[test]
fn query_rejects_bad_interval() {
    let query = BookingSlotsQuery {
        date: "2010-1-1".to_owned(),
        iana_tz: None,
        duration: 1000 * 60 * 30,
        interval: 100,
    };
    assert_eq!(validate_bookingslots_query(&query), Err(BookingQueryError::InvalidInterval));
}

#[test]
fn query_rejects_bad_timezone() {
    let query = BookingSlotsQuery {
        date: "2010-1-1".to_owned(),
        iana_tz: Some("Nowhere/AtAll".to_owned()),
        duration: 1000 * 60 * 30,
        interval: 1000 * 60 * 15,
    };
    assert_eq!(
        validate_bookingslots_query(&query),
        Err(BookingQueryError::InvalidTimezone("Nowhere/AtAll".to_owned()))
    );
}

#[test]
fn query_rejects_bad_date() {
    let query = BookingSlotsQuery {
        date: "january".to_owned(),
        iana_tz: None,
        duration: 1000 * 60 * 30,
        interval: 1000 * 60 * 15,
    };
    assert_eq!(
        validate_bookingslots_query(&query),
        Err(BookingQueryError::InvalidDate("january".to_owned()))
    );
}

#[test]
fn query_resolves_epoch_day_in_utc() {
    let query = BookingSlotsQuery {
        date: "1970-1-1".to_owned(),
        iana_tz: None,
        duration: 1000 * 60 * 30,
        interval: 1000 * 60 * 15,
    };
    let timespan = validate_bookingslots_query(&query).unwrap();
    assert_eq!(timespan.start_ts, 0);
    assert_eq!(timespan.end_ts, 1000 * 60 * 60 * 24);
}

#[test]
fn query_resolves_local_midnight_with_offset() {
    // Midnight in New York lies five hours after midnight UTC on that day.
    let query = BookingSlotsQuery {
        date: "1970-1-1".to_owned(),
        iana_tz: Some("America/New_York".to_owned()),
        duration: 1000 * 60 * 30,
        interval: 1000 * 60 * 15,
    };
    let timespan = validate_bookingslots_query(&query).unwrap();
    assert_eq!(timespan.start_ts, 5 * 1000 * 60 * 60);
    assert_eq!(timespan.end_ts, timespan.start_ts + 1000 * 60 * 60 * 24);
}

#[test]
fn query_resolves_twenty_ten_in_utc() {
    let query = BookingSlotsQuery {
        date: "2010-1-1".to_owned(),
        iana_tz: Some("UTC".to_owned()),
        duration: 1000 * 60 * 60,
        interval: 1000 * 60 * 15,
    };
    let timespan = validate_bookingslots_query(&query).unwrap();
    assert_eq!(timespan.start_ts, 1_262_304_000_000);
    assert_eq!(timespan.end_ts, 1_262_304_000_000 + 1000 * 60 * 60 * 24);
}
