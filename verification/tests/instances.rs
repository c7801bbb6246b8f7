use nettu_scheduler::event_instance::CompatibleInstances;
use nettu_scheduler::event_instance::EventInstance;
use nettu_scheduler::event_instance::SubtractInstanceResult;
use nettu_scheduler::event_instance::get_free_busy;
use nettu_scheduler::event_instance::seperate_free_busy_events;

#[test]
fn no_overlap() {
    let e1 = EventInstance { start_ts: 0, end_ts: 4, busy: false };

    let e2 = EventInstance { start_ts: 5, end_ts: 10, busy: false };

    let res = EventInstance::merge(&e1, &e2);
    assert!(res.is_none());
}

#[test]
fn overlap_without_extending() {
    let e1 = EventInstance { start_ts: 1, end_ts: 10, busy: false };

    let e2 = EventInstance { start_ts: 5, end_ts: 7, busy: false };

    let res = EventInstance::merge(&e1, &e2);
    assert!(res.is_some());
    assert_eq!(res.unwrap(), e1);
}

#[test]
fn overlap_with_extending() {
    let e1 = EventInstance { start_ts: 1, end_ts: 10, busy: false };

    let e2 = EventInstance { start_ts: 5, end_ts: 15, busy: false };

    let res = EventInstance::merge(&e1, &e2);
    assert!(res.is_some());
    assert_eq!(res.unwrap(), EventInstance { start_ts: 1, end_ts: 15, busy: false });
}

#[test]
fn remove_busy_from_free_no_overlap() {
    let e1 = EventInstance { start_ts: 0, end_ts: 4, busy: false };

    let e2 = EventInstance { start_ts: 5, end_ts: 10, busy: true };

    let res = EventInstance::remove_instance(&e1, &e2);
    assert_eq!(res, SubtractInstanceResult::NoOverlap);
}

#[test]
fn remove_busy_from_free_complete_overlap() {
    let e1 = EventInstance { start_ts: 0, end_ts: 4, busy: false };

    let e2 = EventInstance { start_ts: 0, end_ts: 10, busy: true };

    let res = EventInstance::remove_instance(&e1, &e2);
    assert_eq!(res, SubtractInstanceResult::Empty);
}

#[test]
fn remove_busy_from_free_complete_partial_split_in_1() {
    let mut e1 = EventInstance { start_ts: 0, end_ts: 4, busy: false };

    let mut e2 = EventInstance { start_ts: 3, end_ts: 10, busy: true };

    let res = EventInstance::remove_instance(&e1, &e2);
    let expected_e =
        CompatibleInstances::new(vec![EventInstance { start_ts: 0, end_ts: 3, busy: false }]);
    let expected_res = SubtractInstanceResult::OverlapEnd(expected_e);
    assert_eq!(res, expected_res);

    // Reverse ordering
    e1.busy = true;
    e2.busy = false;

    let res = EventInstance::remove_instance(&e2, &e1);
    let expected_e =
        CompatibleInstances::new(vec![EventInstance { start_ts: 4, end_ts: 10, busy: false }]);
    let expected_res = SubtractInstanceResult::OverlapBeginning(expected_e);
    assert_eq!(res, expected_res);
}

#[test]
fn remove_busy_from_free_complete_partial_split_in_2() {
    let mut e1 = EventInstance { start_ts: 2, end_ts: 14, busy: false };

    let mut e2 = EventInstance { start_ts: 3, end_ts: 10, busy: true };

    let res = EventInstance::remove_instance(&e1, &e2);
    let expected_events = CompatibleInstances::new(vec![
        EventInstance { start_ts: 2, end_ts: 3, busy: false },
        EventInstance { start_ts: 10, end_ts: 14, busy: false },
    ]);
    let expected_res = SubtractInstanceResult::Split(expected_events);
    assert_eq!(res, expected_res);

    // Reverse ordering is complete overlap
    e1.busy = true;
    e2.busy = false;

    let res = EventInstance::remove_instance(&e2, &e1);
    assert_eq!(res, SubtractInstanceResult::Empty);
}

#[test]
fn remove_busy_from_free_test_1() {
    let free1 = EventInstance { start_ts: 5, end_ts: 100, busy: false };
    let mut free = CompatibleInstances::new(vec![free1]);

    let busy1 = EventInstance { start_ts: 2, end_ts: 40, busy: false };
    let busy2 = EventInstance { start_ts: 50, end_ts: 70, busy: false };
    let busy3 = EventInstance { start_ts: 72, end_ts: 75, busy: false };
    let busy = CompatibleInstances::new(vec![busy1, busy2, busy3]);
    free.remove_intances(&busy, 0);
    let res = free.inner();
    assert_eq!(res.len(), 3);
    assert_eq!(res[0], EventInstance { start_ts: 40, end_ts: 50, busy: false });
    assert_eq!(res[1], EventInstance { start_ts: 70, end_ts: 72, busy: false });
    assert_eq!(res[2], EventInstance { start_ts: 75, end_ts: 100, busy: false });
}

#[test]
fn remove_busy_from_free_test_2() {
    let free1 = EventInstance { start_ts: 0, end_ts: 71, busy: false };
    let free2 = EventInstance { start_ts: 72, end_ts: 74, busy: false };
    let free3 = EventInstance { start_ts: 100, end_ts: 140, busy: false };
    let mut free = CompatibleInstances::new(vec![free1, free2, free3]);

    let busy1 = EventInstance { start_ts: 2, end_ts: 40, busy: false };
    let busy2 = EventInstance { start_ts: 50, end_ts: 70, busy: false };
    let busy3 = EventInstance { start_ts: 72, end_ts: 75, busy: false };
    let busy = CompatibleInstances::new(vec![busy1, busy2, busy3]);
    free.remove_intances(&busy, 0);

    let res = free.inner();
    assert_eq!(res.len(), 4);
    assert_eq!(res[0], EventInstance { start_ts: 0, end_ts: 2, busy: false });
    assert_eq!(res[1], EventInstance { start_ts: 40, end_ts: 50, busy: false });
    assert_eq!(res[2], EventInstance { start_ts: 70, end_ts: 71, busy: false });
    assert_eq!(res[3], EventInstance { start_ts: 100, end_ts: 140, busy: false });
}

#[test]
fn compatible_events_test_1() {
    let c_events = CompatibleInstances::new(vec![]);
    assert_eq!(c_events.len(), 0);
}

#[test]
fn compatible_events_test_2() {
    let e1 = EventInstance { start_ts: 0, end_ts: 2, busy: false };
    let c_events = CompatibleInstances::new(vec![e1.clone()]);
    let c_events = c_events.inner();
    assert_eq!(c_events.len(), 1);
    assert_eq!(c_events[0], e1);
}

#[test]
fn compatible_events_test_3() {
    let e1 = EventInstance { start_ts: 0, end_ts: 2, busy: false };
    let e2 = EventInstance { start_ts: 0, end_ts: 2, busy: false };
    let c_events = CompatibleInstances::new(vec![e1.clone(), e2.clone()]);
    let c_events = c_events.inner();
    assert_eq!(c_events.len(), 1);
    assert_eq!(c_events[0], e1);
}

#[test]
fn compatible_events_test_4() {
    let e1 = EventInstance { start_ts: 0, end_ts: 2, busy: false };
    let e2 = EventInstance { start_ts: 5, end_ts: 10, busy: false };
    let c_events = CompatibleInstances::new(vec![e1.clone(), e2.clone()]);
    let c_events = c_events.inner();
    assert_eq!(c_events.len(), 2);
    assert_eq!(c_events[0], e1);
    assert_eq!(c_events[1], e2);
}

#[test]
fn compatible_events_test_5() {
    let e1 = EventInstance { start_ts: 5, end_ts: 10, busy: false };
    let e2 = EventInstance { start_ts: 1, end_ts: 7, busy: false };
    let e3 = EventInstance { start_ts: 6, end_ts: 14, busy: false };
    let e4 = EventInstance { start_ts: 20, end_ts: 30, busy: false };
    let e5 = EventInstance { start_ts: 24, end_ts: 40, busy: false };
    let e6 = EventInstance { start_ts: 44, end_ts: 50, busy: false };
    let c_events = CompatibleInstances::new(vec![
        e1.clone(),
        e2.clone(),
        e3.clone(),
        e4.clone(),
        e5.clone(),
        e6.clone(),
    ]);
    let c_events = c_events.inner();
    assert_eq!(c_events.len(), 3);
    assert_eq!(c_events[0], EventInstance { start_ts: 1, end_ts: 14, busy: false });
    assert_eq!(c_events[1], EventInstance { start_ts: 20, end_ts: 40, busy: false });
    assert_eq!(c_events[2], e6);
}

#[test]
fn compatible_events_test_6() {
    let e1 = EventInstance { start_ts: 5, end_ts: 10, busy: false };
    let e2 = EventInstance { start_ts: 1, end_ts: 7, busy: false };
    let e3 = EventInstance { start_ts: 6, end_ts: 14, busy: false };
    let e4 = EventInstance { start_ts: 20, end_ts: 30, busy: false };
    let e5 = EventInstance { start_ts: 24, end_ts: 40, busy: false };
    let c_events =
        CompatibleInstances::new(vec![e1.clone(), e2.clone(), e3.clone(), e4.clone(), e5.clone()]);
    let c_events = c_events.inner();
    assert_eq!(c_events.len(), 2);
    assert_eq!(c_events[0], EventInstance { start_ts: 1, end_ts: 14, busy: false });
    assert_eq!(c_events[1], EventInstance { start_ts: 20, end_ts: 40, busy: false });
}

#[test]
fn another_free_busy() {
    let mut free = CompatibleInstances::new(
        (0..100)
            .map(|i| EventInstance { start_ts: i * 10 + 5, end_ts: i * 10 + 8, busy: false })
            .collect(),
    );
    let busy = CompatibleInstances::new(
        (0..200)
            .map(|i| EventInstance { start_ts: i * 10 + 6, end_ts: i * 10 + 7, busy: false })
            .collect(),
    );
    free.remove_intances(&busy, 0);
    assert_eq!(free.len(), 200);
}

#[test]
fn single_event() {
    let e1 = EventInstance { start_ts: 0, end_ts: 10, busy: false };

    let instances = vec![e1.clone()];
    let freebusy = get_free_busy(instances);
    assert_eq!(freebusy.free.len(), 1);
    assert_eq!(freebusy.free, CompatibleInstances::new(vec![e1]));
}

#[test]
fn no_free_event() {
    let e1 = EventInstance { start_ts: 0, end_ts: 10, busy: true };

    let instances = vec![e1];
    let freebusy = get_free_busy(instances).free;
    assert_eq!(freebusy.len(), 0);
}

#[test]
fn simple_freebusy() {
    let e1 = EventInstance { start_ts: 0, end_ts: 10, busy: false };

    let e2 = EventInstance { start_ts: 3, end_ts: 5, busy: true };

    let instances = vec![e1, e2];
    let freebusy = get_free_busy(instances).free.inner();
    assert_eq!(freebusy.len(), 2);
    assert_eq!(
        freebusy,
        vec![
            EventInstance { start_ts: 0, end_ts: 3, busy: false },
            EventInstance { start_ts: 5, end_ts: 10, busy: false }
        ]
    )
}

#[test]
fn separate_free_busy_keeps_order() {
    let free_a = EventInstance { start_ts: 0, end_ts: 5, busy: false };
    let busy_a = EventInstance { start_ts: 1, end_ts: 2, busy: true };
    let free_b = EventInstance { start_ts: 7, end_ts: 9, busy: false };
    let busy_b = EventInstance { start_ts: 8, end_ts: 10, busy: true };
    let (free, busy) = seperate_free_busy_events(vec![free_a, busy_a, free_b, busy_b]);
    assert_eq!(free, vec![free_a, free_b]);
    assert_eq!(busy, vec![busy_a, busy_b]);
}

#[test]
fn normalization_is_idempotent() {
    let xs = vec![
        EventInstance { start_ts: 5, end_ts: 10, busy: false },
        EventInstance { start_ts: 1, end_ts: 7, busy: false },
        EventInstance { start_ts: 20, end_ts: 30, busy: false },
        EventInstance { start_ts: 30, end_ts: 35, busy: false },
    ];
    let once = CompatibleInstances::new(xs.clone());
    let again = CompatibleInstances::new(once.inner().into_iter().collect());
    assert_eq!(again, CompatibleInstances::new(xs));
}

#[test]
fn subtract_empty_busy_changes_nothing() {
    let xs = vec![
        EventInstance { start_ts: 0, end_ts: 4, busy: false },
        EventInstance { start_ts: 6, end_ts: 9, busy: false },
    ];
    let mut free = CompatibleInstances::new(xs.clone());
    let busy = CompatibleInstances::new(vec![]);
    free.remove_intances(&busy, 0);
    assert_eq!(free, CompatibleInstances::new(xs));
}

#[test]
fn subtract_twice_equals_subtract_once() {
    let mut once = CompatibleInstances::new(vec![EventInstance {
        start_ts: 5,
        end_ts: 100,
        busy: false,
    }]);
    let busy = CompatibleInstances::new(vec![
        EventInstance { start_ts: 2, end_ts: 40, busy: true },
        EventInstance { start_ts: 50, end_ts: 70, busy: true },
    ]);
    once.remove_intances(&busy, 0);
    let mut twice = CompatibleInstances::new(vec![EventInstance {
        start_ts: 5,
        end_ts: 100,
        busy: false,
    }]);
    twice.remove_intances(&busy, 0);
    twice.remove_intances(&busy, 0);
    assert_eq!(once, twice);
}

#[test]
fn touching_same_tag_intervals_coalesce() {
    let joined = CompatibleInstances::new(vec![
        EventInstance { start_ts: 3, end_ts: 8, busy: true },
        EventInstance { start_ts: 8, end_ts: 12, busy: true },
    ]);
    let res = joined.inner();
    assert_eq!(res.len(), 1);
    assert_eq!(res[0], EventInstance { start_ts: 3, end_ts: 12, busy: true });
}

#[test]
fn busy_equal_to_free_empties_it() {
    let e1 = EventInstance { start_ts: 4, end_ts: 9, busy: false };
    let e2 = EventInstance { start_ts: 4, end_ts: 9, busy: true };
    let freebusy = get_free_busy(vec![e1, e2]);
    assert!(freebusy.free.is_empty());
    assert_eq!(freebusy.busy.len(), 1);
}

#[test]
fn push_front_and_push_back_respect_order() {
    let mut set = CompatibleInstances::new(vec![EventInstance {
        start_ts: 10,
        end_ts: 20,
        busy: false,
    }]);
    assert!(!set.push_front(EventInstance { start_ts: 5, end_ts: 11, busy: false }));
    assert!(set.push_front(EventInstance { start_ts: 2, end_ts: 10, busy: false }));
    assert!(!set.push_back(EventInstance { start_ts: 19, end_ts: 25, busy: false }));
    assert!(set.push_back(EventInstance { start_ts: 20, end_ts: 25, busy: false }));
    let res = set.inner();
    assert_eq!(res.len(), 3);
    assert_eq!(res[0], EventInstance { start_ts: 2, end_ts: 10, busy: false });
    assert_eq!(res[2], EventInstance { start_ts: 20, end_ts: 25, busy: false });
}

#[test]
fn extend_appends_and_drops_overlapping() {
    let mut set = CompatibleInstances::new(vec![EventInstance {
        start_ts: 0,
        end_ts: 10,
        busy: false,
    }]);
    let tail = CompatibleInstances::new(vec![
        EventInstance { start_ts: 5, end_ts: 12, busy: false },
        EventInstance { start_ts: 20, end_ts: 30, busy: false },
    ]);
    set.extend(tail);
    let res = set.inner();
    assert_eq!(res.len(), 2);
    assert_eq!(res[0], EventInstance { start_ts: 0, end_ts: 10, busy: false });
    assert_eq!(res[1], EventInstance { start_ts: 20, end_ts: 30, busy: false });
}

#[test]
fn get_and_is_empty_report_contents() {
    let set = CompatibleInstances::new(vec![EventInstance {
        start_ts: 1,
        end_ts: 3,
        busy: false,
    }]);
    assert!(!set.is_empty());
    assert_eq!(set.get(0), Some(&EventInstance { start_ts: 1, end_ts: 3, busy: false }));
    assert_eq!(set.get(1), None);
    let empty = CompatibleInstances::new(vec![]);
    assert!(empty.is_empty());
}
