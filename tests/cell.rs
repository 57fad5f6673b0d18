use chutor::{spawn, Executor, ResultCell};

#[test]
fn output_is_collected_once() {
    let mut cell: ResultCell<u64> = ResultCell::new();
    assert!(!cell.is_ready());
    assert_eq!(cell.take(), None);
    assert_eq!(cell.fill(10), Ok(()));
    assert!(cell.is_ready());
    assert_eq!(cell.fill(11), Err(11));
    assert_eq!(cell.take(), Some(10));
    assert_eq!(cell.take(), None);
    assert_eq!(cell.fill(12), Err(12));
    assert_eq!(cell.take(), None);
}

#[test]
fn register_keeps_the_first_scheduler() {
    let mut current: Option<Executor> = None;
    let mut first = Executor::new();
    first.spawn();
    assert!(first.register(&mut current).is_ok());
    assert!(Executor::new().register(&mut current).is_err());
    assert_eq!(spawn(&mut current), Ok(1));
}
