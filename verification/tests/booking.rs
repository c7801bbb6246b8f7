use nettu_scheduler::booking_slots::BookingSlot;
use nettu_scheduler::booking_slots::BookingSlotsOptions;
use nettu_scheduler::booking_slots::ServiceBookingSlot;
use nettu_scheduler::booking_slots::UserFreeEvents;
use nettu_scheduler::booking_slots::get_booking_slots;
use nettu_scheduler::booking_slots::get_service_bookingslots;
use nettu_scheduler::event_instance::CompatibleInstances;
use nettu_scheduler::event_instance::EventInstance;
use nettu_scheduler::id::ID;

#[test]
fn booking_slots_get_booking_slots_empty() {
    let slots = get_booking_slots(
        &CompatibleInstances::new(vec![]),
        &BookingSlotsOptions { start_ts: 0, end_ts: 100, duration: 10, interval: 10 },
    );
    assert!(slots.is_empty());
}

#[test]
fn booking_slots_get_booking_slots_from_one_event_1() {
    let e1 = EventInstance { busy: false, start_ts: 2, end_ts: 12 };

    let slots = get_booking_slots(
        &CompatibleInstances::new(vec![e1]),
        &BookingSlotsOptions { start_ts: 0, end_ts: 100, duration: 10, interval: 10 },
    );

    assert!(slots.is_empty());
}

#[test]
fn booking_slots_get_booking_slots_from_one_event_2() {
    let e1 = EventInstance { busy: false, start_ts: 2, end_ts: 22 };

    let slots = get_booking_slots(
        &CompatibleInstances::new(vec![e1]),
        &BookingSlotsOptions { start_ts: 0, end_ts: 100, duration: 10, interval: 10 },
    );

    assert_eq!(slots.len(), 1);
    assert_eq!(slots[0], BookingSlot { available_until: 22, duration: 10, start: 10 });
}

#[test]
fn booking_slots_get_booking_slots_from_one_event_3() {
    let e1 = EventInstance { busy: false, start_ts: 2, end_ts: 42 };

    let slots = get_booking_slots(
        &CompatibleInstances::new(vec![e1]),
        &BookingSlotsOptions { start_ts: 0, end_ts: 100, duration: 10, interval: 10 },
    );

    assert_eq!(slots.len(), 3);
    assert_eq!(slots[0], BookingSlot { available_until: 42, duration: 10, start: 10 });
    assert_eq!(slots[1], BookingSlot { available_until: 42, duration: 10, start: 20 });
    assert_eq!(slots[2], BookingSlot { available_until: 42, duration: 10, start: 30 });
}

#[test]
fn booking_slots_get_booking_slots_from_two_events() {
    let e1 = EventInstance { busy: false, start_ts: 0, end_ts: 22 };

    let e2 = EventInstance { busy: false, start_ts: 30, end_ts: 50 };

    let slots = get_booking_slots(
        &CompatibleInstances::new(vec![e1, e2]),
        &BookingSlotsOptions { start_ts: 0, end_ts: 100, duration: 10, interval: 10 },
    );

    assert_eq!(slots.len(), 4);
    assert_eq!(slots[0], BookingSlot { available_until: 22, duration: 10, start: 0 });
    assert_eq!(slots[1], BookingSlot { available_until: 22, duration: 10, start: 10 });
    assert_eq!(slots[2], BookingSlot { available_until: 50, duration: 10, start: 30 });
    assert_eq!(slots[3], BookingSlot { available_until: 50, duration: 10, start: 40 });
}

#[test]
fn booking_slots_get_booking_slots_from_many_events() {
    let e1 = EventInstance { busy: false, start_ts: 0, end_ts: 2 };

    let e2 = EventInstance { busy: false, start_ts: 33, end_ts: 50 };

    let e3 = EventInstance { busy: false, start_ts: 80, end_ts: 90 };

    let e4 = EventInstance { busy: false, start_ts: 90, end_ts: 100 };

    let e5 = EventInstance { busy: false, start_ts: 99, end_ts: 120 };

    let e6 = EventInstance { busy: false, start_ts: 140, end_ts: 160 };
    let availibility = CompatibleInstances::new(vec![e1, e3, e4, e2, e6, e5]);

    let slots = get_booking_slots(
        &availibility,
        &BookingSlotsOptions { start_ts: 0, end_ts: 99, duration: 10, interval: 10 },
    );

    assert_eq!(slots.len(), 2);
    assert_eq!(slots[0], BookingSlot { available_until: 50, duration: 10, start: 40 });
    assert_eq!(slots[1], BookingSlot { available_until: 120, duration: 10, start: 80 });
}

#[test]
fn booking_slots_slot_that_fits_right_at_end() {
    let e1 = EventInstance { busy: false, start_ts: 81, end_ts: 100 };

    let slots = get_booking_slots(
        &CompatibleInstances::new(vec![e1]),
        &BookingSlotsOptions { start_ts: 0, end_ts: 100, duration: 10, interval: 10 },
    );

    assert_eq!(slots.len(), 1);
    assert_eq!(slots[0], BookingSlot { available_until: 100, duration: 10, start: 90 });
}

#[test]
fn booking_slots_slot_that_crosses_end() {
    let e1 = EventInstance { busy: false, start_ts: 81, end_ts: 120 };

    let slots = get_booking_slots(
        &CompatibleInstances::new(vec![e1]),
        &BookingSlotsOptions { start_ts: 0, end_ts: 100, duration: 10, interval: 10 },
    );

    assert_eq!(slots.len(), 1);
    assert_eq!(slots[0], BookingSlot { available_until: 120, duration: 10, start: 90 });
}

#[test]
fn booking_slots_slot_that_crosses_start() {
    let e1 = EventInstance { busy: false, start_ts: 2, end_ts: 30 };

    let slots = get_booking_slots(
        &CompatibleInstances::new(vec![e1]),
        &BookingSlotsOptions { start_ts: 10, end_ts: 100, duration: 10, interval: 10 },
    );

    assert_eq!(slots.len(), 2);
    assert_eq!(slots[0], BookingSlot { available_until: 30, duration: 10, start: 10 });
    assert_eq!(slots[1], BookingSlot { available_until: 30, duration: 10, start: 20 });
}

#[test]
fn generate_service_bookingslots_with_one_user_in_service() {
    let e1 = EventInstance { busy: false, start_ts: 2, end_ts: 30 };

    let user_id = ID::default();

    let mut users_free = vec![];
    users_free.push(UserFreeEvents {
        free_events: CompatibleInstances::new(vec![e1]),
        user_id: user_id.clone(),
    });

    let slots = get_service_bookingslots(
        users_free,
        &BookingSlotsOptions { start_ts: 10, end_ts: 100, duration: 10, interval: 10 },
    );

    assert_eq!(slots.len(), 2);
    assert_eq!(
        slots[0],
        ServiceBookingSlot { duration: 10, start: 10, user_ids: vec![user_id.clone()] }
    );
    assert_eq!(
        slots[1],
        ServiceBookingSlot { duration: 10, start: 20, user_ids: vec![user_id.clone()] }
    );
}

#[test]
fn generate_service_bookingslots_with_two_users_in_service() {
    let e1 = EventInstance { busy: false, start_ts: 2, end_ts: 30 };

    let e2 = EventInstance { busy: false, start_ts: 33, end_ts: 52 };

    let user_id_1 = ID(1);
    let user_id_2 = ID(2);
    let mut users_free = vec![];
    users_free.push(UserFreeEvents {
        free_events: CompatibleInstances::new(vec![e1.clone()]),
        user_id: user_id_1.clone(),
    });
    users_free.push(UserFreeEvents {
        free_events: CompatibleInstances::new(vec![e1, e2]),
        user_id: user_id_2.clone(),
    });

    let slots = get_service_bookingslots(
        users_free,
        &BookingSlotsOptions { start_ts: 10, end_ts: 100, duration: 10, interval: 10 },
    );
    assert_eq!(slots.len(), 3);
    assert_eq!(
        slots[0],
        ServiceBookingSlot {
            duration: 10,
            start: 10,
            user_ids: vec![user_id_1.clone(), user_id_2.clone()]
        }
    );
    assert_eq!(
        slots[1],
        ServiceBookingSlot {
            duration: 10,
            start: 20,
            user_ids: vec![user_id_1.clone(), user_id_2.clone()]
        }
    );
    assert_eq!(slots[2], ServiceBookingSlot { duration: 10, start: 40, user_ids: vec![user_id_2.clone()] });
}

#[test]
fn zero_duration_yields_no_slots() {
    let e1 = EventInstance { busy: false, start_ts: 0, end_ts: 100 };
    let slots = get_booking_slots(
        &CompatibleInstances::new(vec![e1]),
        &BookingSlotsOptions { start_ts: 0, end_ts: 100, duration: 0, interval: 10 },
    );
    assert!(slots.is_empty());
}

#[test]
fn service_slots_come_sorted_by_start() {
    let early = EventInstance { busy: false, start_ts: 0, end_ts: 25 };
    let late = EventInstance { busy: false, start_ts: 50, end_ts: 75 };
    let users_free = vec![
        UserFreeEvents { free_events: CompatibleInstances::new(vec![late]), user_id: ID(7) },
        UserFreeEvents { free_events: CompatibleInstances::new(vec![early]), user_id: ID(8) },
    ];
    let slots = get_service_bookingslots(
        users_free,
        &BookingSlotsOptions { start_ts: 0, end_ts: 100, duration: 10, interval: 10 },
    );
    assert_eq!(slots.len(), 4);
    assert_eq!(slots[0], ServiceBookingSlot { duration: 10, start: 0, user_ids: vec![ID(8)] });
    assert_eq!(slots[1], ServiceBookingSlot { duration: 10, start: 10, user_ids: vec![ID(8)] });
    assert_eq!(slots[2], ServiceBookingSlot { duration: 10, start: 50, user_ids: vec![ID(7)] });
    assert_eq!(slots[3], ServiceBookingSlot { duration: 10, start: 60, user_ids: vec![ID(7)] });
}
