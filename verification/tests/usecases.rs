use nettu_scheduler::account::Account;
use nettu_scheduler::account::account_response;
use nettu_scheduler::calendar::Calendar;
use nettu_scheduler::calendar::CalendarSettings;
use nettu_scheduler::calendar_event::CalendarEvent;
use nettu_scheduler::calendar_event::CalendarEventReminder;
use nettu_scheduler::calendar_event::Metadata;
use nettu_scheduler::calendar_event::RRuleFrequency;
use nettu_scheduler::calendar_event::RRuleOptions;
use nettu_scheduler::delete_schedule::DeleteScheduleUseCase;
use nettu_scheduler::event_dtos::CalendarEventDTO;
use nettu_scheduler::event_instance::EventInstance;
use nettu_scheduler::expansion::expand_event;
use nettu_scheduler::id::ID;
use nettu_scheduler::schedule::Schedule;
use nettu_scheduler::schedule::ScheduleRule;
use nettu_scheduler::schedule::ScheduleRuleInterval;
use nettu_scheduler::schedule::ScheduleRuleVariant;
use nettu_scheduler::schedule::Time;
use nettu_scheduler::schedule::UpdateScheduleUseCase;
use nettu_scheduler::service::DeleteServiceUseCase;
use nettu_scheduler::service::Service;
use nettu_scheduler::service::ServiceResource;
use nettu_scheduler::service_user::UsecaseErrors;
use nettu_scheduler::service_user::update_service_user_usecase;
use nettu_scheduler::update_event::UpdateEventUseCase;
use nettu_scheduler::update_event::UseCaseErrors as UpdateEventErrors;
use nettu_scheduler::booking_api::GetServiceBookingSlotsUseCase;
use nettu_scheduler::booking_api::UseCaseErrors as BookingErrors;

const DAY_MS: i64 = 1000 * 60 * 60 * 24;

fn sample_event() -> CalendarEvent {
    CalendarEvent {
        id: ID(11),
        start_ts: 1000,
        duration: 500,
        end_ts: 1500,
        busy: false,
        user_id: ID(1),
        account_id: ID(2),
        calendar_id: ID(3),
        recurrence: None,
        exdates: vec![],
        reminder: None,
        is_service: false,
        metadata: Metadata { entries: vec![] },
        created: 1,
        updated: 1,
    }
}

fn sample_calendar() -> Calendar {
    Calendar {
        id: ID(3),
        user_id: ID(1),
        account_id: ID(2),
        settings: CalendarSettings { week_start: 0, timezone: "UTC".to_owned() },
    }
}

fn daily_rule(count: Option<i32>, until: Option<i64>) -> RRuleOptions {
    RRuleOptions {
        freq: RRuleFrequency::Daily,
        interval: 1,
        count,
        until,
        byweekday: None,
        bymonthday: None,
        bysetpos: None,
        wkst: 0,
    }
}

#[test]
fn expand_without_recurrence_is_the_single_occurrence() {
    let event = sample_event();
    let instances = expand_event(&event, 0, 10_000);
    assert_eq!(instances, vec![EventInstance { start_ts: 1000, end_ts: 1500, busy: false }]);
    let outside = expand_event(&event, 2000, 10_000);
    assert!(outside.is_empty());
}

#[test]
fn expand_counts_from_the_anchor() {
    let mut event = sample_event();
    event.recurrence = Some(daily_rule(Some(4), None));
    let instances = expand_event(&event, 0, 100 * DAY_MS);
    assert_eq!(instances.len(), 4);
    assert_eq!(instances[0].start_ts, 1000);
    assert_eq!(instances[1].start_ts, 1000 + DAY_MS);
    assert_eq!(instances[2].start_ts, 1000 + 2 * DAY_MS);
    assert_eq!(instances[3].start_ts, 1000 + 3 * DAY_MS);
    assert_eq!(instances[3].end_ts, 1500 + 3 * DAY_MS);
}

#[test]
fn expand_skips_exception_dates_without_refunding_count() {
    let mut event = sample_event();
    event.recurrence = Some(daily_rule(Some(4), None));
    event.exdates = vec![1000 + DAY_MS, 1000 + 2 * DAY_MS];
    let instances = expand_event(&event, 0, 100 * DAY_MS);
    assert_eq!(instances.len(), 2);
    assert_eq!(instances[0].start_ts, 1000);
    assert_eq!(instances[1].start_ts, 1000 + 3 * DAY_MS);
}

#[test]
fn expand_respects_until() {
    let mut event = sample_event();
    event.recurrence = Some(daily_rule(None, Some(1000 + 2 * DAY_MS)));
    let instances = expand_event(&event, 0, 100 * DAY_MS);
    assert_eq!(instances.len(), 3);
    assert_eq!(instances[2].start_ts, 1000 + 2 * DAY_MS);
}

#[test]
fn expand_weekly_steps_by_whole_weeks() {
    let mut event = sample_event();
    let mut rule = daily_rule(Some(2), None);
    rule.freq = RRuleFrequency::Weekly;
    rule.interval = 2;
    event.recurrence = Some(rule);
    let instances = expand_event(&event, 0, 100 * DAY_MS);
    assert_eq!(instances.len(), 2);
    assert_eq!(instances[1].start_ts, 1000 + 14 * DAY_MS);
}

#[test]
fn update_notexisting_event() {
    let usecase = UpdateEventUseCase {
        event_id: ID::default(),
        start_ts: Some(500),
        duration: Some(800),
        reminder: None,
        recurrence: None,
        busy: Some(false),
        user_id: ID::default(),
        is_service: None,
        exdates: None,
        metadata: None,
    };
    let res = usecase.apply(None, None, 99);
    assert!(res.is_err());
}

#[test]
fn update_event_of_another_user_is_not_found() {
    let usecase = UpdateEventUseCase {
        event_id: ID(11),
        start_ts: None,
        duration: None,
        reminder: None,
        recurrence: None,
        busy: None,
        user_id: ID(42),
        is_service: None,
        exdates: None,
        metadata: None,
    };
    let res = usecase.apply(Some(sample_event()), Some(sample_calendar()), 99);
    assert!(matches!(res, Err(UpdateEventErrors::NotFound(_, _))));
}

#[test]
fn update_event_rejects_stored_invalid_reminder() {
    let mut event = sample_event();
    event.reminder = Some(CalendarEventReminder { minutes_before: -5 });
    let usecase = UpdateEventUseCase {
        event_id: ID(11),
        start_ts: None,
        duration: None,
        reminder: Some(CalendarEventReminder { minutes_before: 10 }),
        recurrence: None,
        busy: None,
        user_id: ID(1),
        is_service: None,
        exdates: None,
        metadata: None,
    };
    let res = usecase.apply(Some(event), Some(sample_calendar()), 99);
    assert!(matches!(res, Err(UpdateEventErrors::InvalidReminder)));
}

#[test]
fn update_event_needs_its_calendar() {
    let usecase = UpdateEventUseCase {
        event_id: ID(11),
        start_ts: None,
        duration: None,
        reminder: None,
        recurrence: None,
        busy: None,
        user_id: ID(1),
        is_service: None,
        exdates: None,
        metadata: None,
    };
    let res = usecase.apply(Some(sample_event()), None, 99);
    assert!(matches!(res, Err(UpdateEventErrors::NotFound(_, _))));
}

#[test]
fn update_event_rejects_invalid_recurrence() {
    let mut rule = daily_rule(Some(3), None);
    rule.interval = 0;
    let usecase = UpdateEventUseCase {
        event_id: ID(11),
        start_ts: None,
        duration: None,
        reminder: None,
        recurrence: Some(rule),
        busy: None,
        user_id: ID(1),
        is_service: None,
        exdates: None,
        metadata: None,
    };
    let res = usecase.apply(Some(sample_event()), Some(sample_calendar()), 99);
    assert!(matches!(res, Err(UpdateEventErrors::InvalidRecurrenceRule)));
}

#[test]
fn update_event_rejects_rule_with_count_and_until() {
    let rule = daily_rule(Some(3), Some(5000));
    let usecase = UpdateEventUseCase {
        event_id: ID(11),
        start_ts: None,
        duration: None,
        reminder: None,
        recurrence: Some(rule),
        busy: None,
        user_id: ID(1),
        is_service: None,
        exdates: None,
        metadata: None,
    };
    let res = usecase.apply(Some(sample_event()), Some(sample_calendar()), 99);
    assert!(matches!(res, Err(UpdateEventErrors::InvalidRecurrenceRule)));
}

#[test]
fn update_event_moving_the_anchor_clears_exdates() {
    let mut event = sample_event();
    event.exdates = vec![1000, 2000];
    let usecase = UpdateEventUseCase {
        event_id: ID(11),
        start_ts: Some(4000),
        duration: None,
        reminder: Some(CalendarEventReminder { minutes_before: 15 }),
        recurrence: None,
        busy: Some(true),
        user_id: ID(1),
        is_service: None,
        exdates: None,
        metadata: None,
    };
    let updated = usecase.apply(Some(event), Some(sample_calendar()), 777).unwrap();
    assert_eq!(updated.start_ts, 4000);
    assert!(updated.exdates.is_empty());
    assert_eq!(updated.busy, true);
    assert_eq!(updated.reminder, Some(CalendarEventReminder { minutes_before: 15 }));
    assert_eq!(updated.updated, 777);
    assert_eq!(updated.created, 1);
}

#[test]
fn update_event_keeping_the_anchor_keeps_exdates() {
    let mut event = sample_event();
    event.exdates = vec![1000, 2000];
    let usecase = UpdateEventUseCase {
        event_id: ID(11),
        start_ts: Some(1000),
        duration: None,
        reminder: None,
        recurrence: None,
        busy: None,
        user_id: ID(1),
        is_service: None,
        exdates: None,
        metadata: None,
    };
    let updated = usecase.apply(Some(event), Some(sample_calendar()), 777).unwrap();
    assert_eq!(updated.exdates, vec![1000, 2000]);
}

fn sample_schedule() -> Schedule {
    Schedule {
        id: ID(5),
        user_id: ID(1),
        account_id: ID(2),
        timezone: "UTC".to_owned(),
        rules: vec![],
    }
}

#[test]
fn update_schedule_of_another_user_is_not_found() {
    let usecase = UpdateScheduleUseCase {
        user_id: ID(9),
        schedule_id: ID(5),
        timezone: None,
        rules: None,
    };
    assert!(usecase.apply(Some(sample_schedule())).is_err());
}

#[test]
fn update_schedule_rejects_unknown_timezone() {
    let usecase = UpdateScheduleUseCase {
        user_id: ID(1),
        schedule_id: ID(5),
        timezone: Some("Nowhere/AtAll".to_owned()),
        rules: None,
    };
    assert!(usecase.apply(Some(sample_schedule())).is_err());
}

#[test]
fn update_schedule_replaces_timezone_and_rules() {
    let rule = ScheduleRule {
        variant: ScheduleRuleVariant::WDay(0),
        intervals: vec![ScheduleRuleInterval {
            start: Time { hours: 9, minutes: 0 },
            end: Time { hours: 17, minutes: 0 },
        }],
    };
    let usecase = UpdateScheduleUseCase {
        user_id: ID(1),
        schedule_id: ID(5),
        timezone: Some("Europe/Oslo".to_owned()),
        rules: Some(vec![rule.clone()]),
    };
    let updated = usecase.apply(Some(sample_schedule())).unwrap();
    assert_eq!(updated.timezone, "Europe/Oslo".to_owned());
    assert_eq!(updated.rules, vec![rule]);
}

#[test]
fn delete_schedule_checks_ownership() {
    let usecase = DeleteScheduleUseCase { schedule_id: ID(5), user_id: ID(1) };
    assert!(usecase.decide(Some(sample_schedule())).is_ok());
    let foreign = DeleteScheduleUseCase { schedule_id: ID(5), user_id: ID(9) };
    assert!(foreign.decide(Some(sample_schedule())).is_err());
    assert!(usecase.decide(None).is_err());
}

fn sample_service() -> Service {
    Service {
        id: ID(20),
        account_id: ID(2),
        users: vec![ServiceResource {
            id: ID(21),
            user_id: ID(1),
            calendar_ids: vec![ID(3)],
            schedule_ids: vec![],
        }],
    }
}

#[test]
fn delete_service_checks_account() {
    let usecase = DeleteServiceUseCase { account_id: ID(2), service_id: ID(20) };
    assert!(usecase.decide(Some(sample_service())).is_ok());
    let foreign = DeleteServiceUseCase { account_id: ID(9), service_id: ID(20) };
    assert!(foreign.decide(Some(sample_service())).is_err());
    assert!(usecase.decide(None).is_err());
}

#[test]
fn update_service_user_outcomes() {
    let owned = vec![ID(3), ID(4)];
    // unknown service
    assert!(matches!(
        update_service_user_usecase(None, ID(2), ID(1), vec![ID(3)], &owned),
        Err(UsecaseErrors::ServiceNotFoundError)
    ));
    // wrong account
    assert!(matches!(
        update_service_user_usecase(Some(sample_service()), ID(9), ID(1), vec![ID(3)], &owned),
        Err(UsecaseErrors::ServiceNotFoundError)
    ));
    // user not a member
    assert!(matches!(
        update_service_user_usecase(Some(sample_service()), ID(2), ID(7), vec![ID(3)], &owned),
        Err(UsecaseErrors::UserNotFoundError)
    ));
    // calendar not owned by the user
    assert!(matches!(
        update_service_user_usecase(
            Some(sample_service()),
            ID(2),
            ID(1),
            vec![ID(3), ID(5)],
            &owned
        ),
        Err(UsecaseErrors::CalendarNotOwnedByUser(ID(5)))
    ));
    // success replaces the member's calendars
    let updated = update_service_user_usecase(
        Some(sample_service()),
        ID(2),
        ID(1),
        vec![ID(4), ID(3)],
        &owned,
    )
    .unwrap();
    assert_eq!(updated.users[0].calendar_ids, vec![ID(4), ID(3)]);
    assert_eq!(updated.users[0].user_id, ID(1));
}

#[test]
fn booking_slot_lookup_prepares_window_and_service() {
    let usecase = GetServiceBookingSlotsUseCase {
        service_id: ID(20),
        date: "2010-1-1".to_owned(),
        iana_tz: Some("UTC".to_owned()),
        duration: 1000 * 60 * 60,
        interval: 1000 * 60 * 15,
    };
    let (timespan, service) = usecase.prepare(Some(sample_service())).unwrap();
    assert_eq!(timespan.start_ts, 1_262_304_000_000);
    assert_eq!(timespan.end_ts, 1_262_304_000_000 + 1000 * 60 * 60 * 24);
    assert_eq!(service.id, ID(20));

    assert!(matches!(
        usecase.prepare(None),
        Err(BookingErrors::ServiceNotFoundError)
    ));

    let bad_interval = GetServiceBookingSlotsUseCase {
        service_id: ID(20),
        date: "2010-1-1".to_owned(),
        iana_tz: None,
        duration: 1000 * 60 * 60,
        interval: 1000,
    };
    assert!(matches!(
        bad_interval.prepare(Some(sample_service())),
        Err(BookingErrors::InvalidIntervalError)
    ));
}

#[test]
fn account_response_copies_the_fields() {
    let account = Account { id: "acc".to_owned(), public_key_b64: Some("key".to_owned()) };
    let res = account_response(account);
    assert_eq!(res.id, "acc".to_owned());
    assert_eq!(res.public_key_b64, Some("key".to_owned()));
}

#[test]
fn event_dto_carries_every_field() {
    let mut event = sample_event();
    event.exdates = vec![7];
    let dto = CalendarEventDTO::new(event);
    assert_eq!(dto.id, ID(11));
    assert_eq!(dto.start_ts, 1000);
    assert_eq!(dto.duration, 500);
    assert_eq!(dto.busy, false);
    assert_eq!(dto.exdates, vec![7]);
    assert_eq!(dto.calendar_id, ID(3));
    assert_eq!(dto.user_id, ID(1));
    assert_eq!(dto.created, 1);
    assert_eq!(dto.updated, 1);
}
