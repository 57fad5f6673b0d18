use chutor::reactor::{
    event_kind, interest_mask, Interest, ReactorError, Registration, Registry, MAX_EVENTS,
    ONE_SHOT, READABLE, WAIT_TIMEOUT_MS, WRITABLE,
};

#[test]
fn one_shot_interest_needs_rearm() {
    let mut reg = Registry::new();
    assert_eq!(reg.add_read(7, 42), Ok(()));
    assert_eq!(reg.readiness(7), Some((42, Interest::Read)));
    // new data keeps arriving, but nothing fires until the interest is re-armed
    for _ in 0..5 {
        assert_eq!(reg.readiness(7), None);
    }
    assert_eq!(reg.enable_read(7, 43), Ok(()));
    assert_eq!(reg.readiness(7), Some((43, Interest::Read)));
    assert_eq!(reg.readiness(7), None);
    assert_eq!(reg.enable_write(7, 44), Ok(()));
    assert_eq!(reg.readiness(7), Some((44, Interest::Write)));
}

#[test]
fn add_and_enable_are_distinct() {
    let mut reg = Registry::new();
    assert_eq!(reg.enable_read(3, 1), Err(ReactorError::NotFound));
    assert_eq!(reg.enable_write(3, 1), Err(ReactorError::NotFound));
    assert_eq!(reg.remove(3), Err(ReactorError::NotFound));
    assert!(!reg.contains(3));
    assert_eq!(reg.add_read(3, 1), Ok(()));
    assert_eq!(reg.add_read(3, 2), Err(ReactorError::AlreadyExists));
    assert_eq!(
        reg.get(3),
        Some(Registration { interest: Interest::Read, key: 1, armed: true })
    );
    assert_eq!(reg.enable_write(3, 9), Ok(()));
    assert_eq!(
        reg.get(3),
        Some(Registration { interest: Interest::Write, key: 9, armed: true })
    );
    assert_eq!(reg.remove(3), Ok(()));
    assert_eq!(reg.get(3), None);
    assert_eq!(reg.enable_read(3, 1), Err(ReactorError::NotFound));
    assert_eq!(reg.add_read(3, 5), Ok(()));
}

#[test]
fn quiet_descriptor_gives_empty_batch() {
    let mut reg = Registry::new();
    assert_eq!(reg.add_read(10, 42), Ok(()));
    assert!(reg.readiness_batch(&Vec::new()).is_empty());
    assert_eq!(reg.get(10).map(|r| r.armed), Some(true));
}

#[test]
fn batch_translates_descriptors_to_keys() {
    let mut reg = Registry::new();
    assert_eq!(reg.add_read(4, 100), Ok(()));
    assert_eq!(reg.add_read(5, 200), Ok(()));
    assert_eq!(reg.enable_write(5, 201), Ok(()));
    let out = reg.readiness_batch(&vec![5, 9, 4, 5, 4]);
    assert_eq!(out, vec![(201, Interest::Write), (100, Interest::Read)]);
    assert_eq!(reg.get(4).map(|r| r.armed), Some(false));
}

#[test]
fn masks_and_kinds() {
    assert_eq!(interest_mask(Interest::Read), 0x4000_0001);
    assert_eq!(interest_mask(Interest::Write), 0x4000_0004);
    assert_eq!(ONE_SHOT | READABLE | WRITABLE, 0x4000_0005);
    assert_eq!(event_kind(0x1), Some(Interest::Read));
    assert_eq!(event_kind(0x5), Some(Interest::Read));
    assert_eq!(event_kind(0x4), Some(Interest::Write));
    assert_eq!(event_kind(0x10), None);
    assert_eq!(MAX_EVENTS, 1024);
    assert_eq!(WAIT_TIMEOUT_MS, 1000);
}
