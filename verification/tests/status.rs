use crossbeam_channel::after;
use srvzio::ServiceStatus;
use srvzio::ServiceStatusFlag;
use std::time::Duration;
use threadpool::ThreadPool;

const ALL: [ServiceStatus; 4] = [
    ServiceStatus::Starting,
    ServiceStatus::Started,
    ServiceStatus::Stopping,
    ServiceStatus::Stopped,
];

/// The four predicates of `flag`, in the order starting, started, stopping,
/// stopped.
fn predicates(flag: &ServiceStatusFlag) -> [bool; 4] {
    [flag.is_starting(), flag.is_started(), flag.is_stopping(), flag.is_stopped()]
}

#[test]
fn each_status_has_its_own_raw_code() {
    assert_eq!(usize::from(ServiceStatus::Starting), 0x01);
    assert_eq!(usize::from(ServiceStatus::Started), 0x02);
    assert_eq!(usize::from(ServiceStatus::Stopping), 0x04);
    assert_eq!(usize::from(ServiceStatus::Stopped), 0x08);
}

#[test]
fn into_gives_the_raw_code_too() {
    let raw: usize = ServiceStatus::Stopping.into();
    assert_eq!(raw, 4);
}

#[test]
fn each_raw_code_stands_for_its_status() {
    assert_eq!(ServiceStatus::from(0x01), ServiceStatus::Starting);
    assert_eq!(ServiceStatus::from(0x02), ServiceStatus::Started);
    assert_eq!(ServiceStatus::from(0x04), ServiceStatus::Stopping);
    assert_eq!(ServiceStatus::from(0x08), ServiceStatus::Stopped);
}

#[test]
fn checked_from_decodes_the_four_codes() {
    assert_eq!(ServiceStatus::checked_from(1), Some(ServiceStatus::Starting));
    assert_eq!(ServiceStatus::checked_from(2), Some(ServiceStatus::Started));
    assert_eq!(ServiceStatus::checked_from(4), Some(ServiceStatus::Stopping));
    assert_eq!(ServiceStatus::checked_from(8), Some(ServiceStatus::Stopped));
}

#[test]
fn checked_from_refuses_every_other_value() {
    assert_eq!(ServiceStatus::checked_from(0), None);
    assert_eq!(ServiceStatus::checked_from(3), None);
    assert_eq!(ServiceStatus::checked_from(5), None);
    assert_eq!(ServiceStatus::checked_from(6), None);
    assert_eq!(ServiceStatus::checked_from(7), None);
    assert_eq!(ServiceStatus::checked_from(9), None);
    assert_eq!(ServiceStatus::checked_from(16), None);
    assert_eq!(ServiceStatus::checked_from(usize::MAX), None);
    for raw in 0..=255usize {
        let known = raw == 1 || raw == 2 || raw == 4 || raw == 8;
        assert_eq!(ServiceStatus::checked_from(raw).is_some(), known);
    }
}

#[test]
fn decoding_inverts_encoding() {
    for status in ALL {
        let raw = usize::from(status);
        assert_eq!(ServiceStatus::from(raw), status);
        assert_eq!(ServiceStatus::checked_from(raw), Some(status));
    }
}

#[test]
fn no_two_statuses_share_a_code() {
    for a in ALL {
        for b in ALL {
            assert_eq!(usize::from(a) == usize::from(b), a == b);
        }
    }
}

#[test]
fn default_flag_is_stopped_and_nothing_else() {
    let flag = ServiceStatusFlag::default();
    assert!(flag.is_stopped());
    assert!(!flag.is_starting());
    assert!(!flag.is_started());
    assert!(!flag.is_stopping());
    assert_eq!(flag.get_status(), Some(ServiceStatus::Stopped));
}

#[test]
fn new_flag_holds_the_status_it_was_given() {
    assert_eq!(predicates(&ServiceStatusFlag::new(ServiceStatus::Starting)), [true, false, false, false]);
    assert_eq!(predicates(&ServiceStatusFlag::new(ServiceStatus::Started)), [false, true, false, false]);
    assert_eq!(predicates(&ServiceStatusFlag::new(ServiceStatus::Stopping)), [false, false, true, false]);
    assert_eq!(predicates(&ServiceStatusFlag::new(ServiceStatus::Stopped)), [false, false, false, true]);
    for status in ALL {
        assert_eq!(ServiceStatusFlag::new(status).get_status(), Some(status));
    }
}

#[test]
fn stopped_is_accepted_while_starting() {
    let flag = ServiceStatusFlag::new(ServiceStatus::Starting);
    assert!(flag.is_starting());
    flag.stopped();
    assert!(flag.is_stopped());
    assert!(!flag.is_starting());
}

#[test]
fn every_status_may_follow_every_other() {
    for before in ALL {
        for after in ALL {
            let flag = ServiceStatusFlag::new(before);
            flag.set_status(after);
            assert_eq!(flag.get_status(), Some(after));
        }
    }
}

#[test]
fn each_setter_sets_its_own_status() {
    let flag = ServiceStatusFlag::default();
    flag.starting();
    assert_eq!(predicates(&flag), [true, false, false, false]);
    assert_eq!(flag.get_status(), Some(ServiceStatus::Starting));
    flag.started();
    assert_eq!(predicates(&flag), [false, true, false, false]);
    assert_eq!(flag.get_status(), Some(ServiceStatus::Started));
    flag.stopping();
    assert_eq!(predicates(&flag), [false, false, true, false]);
    assert_eq!(flag.get_status(), Some(ServiceStatus::Stopping));
    flag.stopped();
    assert_eq!(predicates(&flag), [false, false, false, true]);
    assert_eq!(flag.get_status(), Some(ServiceStatus::Stopped));
}

#[test]
fn setting_the_same_status_twice_changes_nothing() {
    let flag = ServiceStatusFlag::default();
    flag.started();
    flag.started();
    assert_eq!(predicates(&flag), [false, true, false, false]);
}

#[test]
fn clones_share_one_cell() {
    let flag = ServiceStatusFlag::default();
    let other = flag.clone();
    other.starting();
    assert!(flag.is_starting());
    flag.started();
    assert!(other.is_started());
    assert_eq!(other.get_status(), Some(ServiceStatus::Started));
}

#[test]
fn flags_made_apart_do_not_share() {
    let one = ServiceStatusFlag::default();
    let other = ServiceStatusFlag::default();
    one.started();
    assert!(one.is_started());
    assert!(other.is_stopped());
}

#[test]
fn a_status_set_on_another_thread_is_seen_by_the_poller() {
    let flag = ServiceStatusFlag::default();
    let worker = ThreadPool::new(1);
    let shared = flag.clone();
    flag.starting();
    worker.execute(move || {
        after(Duration::from_millis(100)).recv().unwrap();
        shared.started();
    });
    assert!(!flag.is_stopped());
    while !flag.is_started() {}
    assert_eq!(flag.get_status(), Some(ServiceStatus::Started));

    let shared = flag.clone();
    flag.stopping();
    worker.execute(move || {
        after(Duration::from_millis(100)).recv().unwrap();
        shared.stopped();
    });
    while !flag.is_stopped() {}
    assert_eq!(predicates(&flag), [false, false, false, true]);
}

#[test]
fn a_status_is_found_in_a_read_of_itself_only() {
    for wanted in ALL {
        for held in ALL {
            assert_eq!(wanted.found_in(Some(held)), wanted == held);
        }
        assert!(!wanted.found_in(None));
    }
    assert!(ServiceStatus::Started.found_in(Some(ServiceStatus::Started)));
    assert!(!ServiceStatus::Started.found_in(Some(ServiceStatus::Starting)));
    assert!(!ServiceStatus::Stopped.found_in(None));
}

#[test]
fn one_read_finds_at_most_one_status() {
    for held in ALL {
        let found = ALL.iter().filter(|wanted| wanted.found_in(Some(held))).count();
        assert_eq!(found, 1);
    }
    assert_eq!(ALL.iter().filter(|wanted| wanted.found_in(None)).count(), 0);
}

#[test]
fn a_raw_value_that_is_no_code_is_found_as_no_status() {
    for wanted in ALL {
        assert!(!wanted.found_in(ServiceStatus::checked_from(3)));
        assert!(wanted.found_in(ServiceStatus::checked_from(usize::from(wanted))));
    }
}
