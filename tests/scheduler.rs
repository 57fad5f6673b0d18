use chutor::{resolve_seed, spawn, Executor, SpawnError};

/// Runs tasks that each finish at their first poll, root included, and
/// returns the order in which they were polled.
fn poll_order(seed: u64, tasks: u64) -> Vec<u64> {
    let mut ex = Executor::new();
    for _ in 0..tasks {
        ex.spawn();
    }
    let root = ex.begin_run(seed);
    let mut order = Vec::new();
    while let Some((task, _signal)) = ex.next_task() {
        order.push(task);
        let over = ex.finish_poll(true);
        assert_eq!(over, task == root);
    }
    order
}

#[test]
fn same_seed_gives_same_poll_order() {
    for seed in [0u64, 1, 666, u64::MAX] {
        let first = poll_order(seed, 12);
        let second = poll_order(seed, 12);
        assert_eq!(first, second);
        let mut sorted = first.clone();
        sorted.sort();
        assert_eq!(sorted, (0..13).collect::<Vec<u64>>());
    }
}

#[test]
fn reorder_changes_the_spawn_order() {
    let identity: Vec<u64> = (0..13).collect();
    let reordered = (0..20u64).filter(|seed| poll_order(*seed, 12) != identity).count();
    assert!(reordered > 0);
}

/// Ten tasks that each add one to a counter and finish; the root waits for
/// the counter to reach ten and then yields ten.
fn counting_run(seed: u64) -> (u64, u64) {
    let mut ex = Executor::new();
    let mut counter = 0u64;
    let mut root_signal: Option<usize> = None;
    let root = ex.begin_run(seed);
    let mut current = Some(ex);
    let mut workers = Vec::new();
    for _ in 0..10 {
        workers.push(spawn(&mut current).unwrap());
    }
    let mut ex = current.take().unwrap();
    loop {
        let (task, signal) = ex.next_task().expect("a task is ready");
        if task == root {
            if counter == 10 {
                assert!(ex.finish_poll(true));
                return (10, counter);
            }
            root_signal = Some(signal);
            assert!(!ex.finish_poll(false));
        } else {
            assert!(workers.contains(&task));
            counter += 1;
            assert!(!ex.finish_poll(true));
            if counter == 10 {
                if let Some(s) = root_signal {
                    ex.wake(s);
                }
            }
        }
    }
}

#[test]
fn ten_tasks_increment_counter_then_root_returns_ten() {
    assert_eq!(counting_run(666), (10, 10));
    for seed in [0u64, 7, 42, 1 << 40] {
        assert_eq!(counting_run(seed), (10, 10));
    }
}

#[test]
fn finished_task_is_never_polled_again() {
    let mut ex = Executor::new();
    for _ in 0..6 {
        ex.spawn();
    }
    let mut polls_after_ready = vec![0u32; 6];
    let mut done = vec![false; 6];
    let mut signals = Vec::new();
    let mut step = 0u32;
    while let Some((task, signal)) = ex.next_task() {
        let t = task as usize;
        if done[t] {
            polls_after_ready[t] += 1;
        }
        // every other poll suspends; suspended tasks are woken twice at once
        if step % 2 == 0 {
            ex.finish_poll(false);
            signals.push(signal);
        } else {
            ex.finish_poll(true);
            done[t] = true;
        }
        step += 1;
        if step % 3 == 0 {
            for s in signals.drain(..) {
                ex.wake(s);
                ex.wake(s);
            }
        }
        if step > 100 {
            for s in signals.drain(..) {
                ex.wake(s);
            }
        }
    }
    for s in signals.drain(..) {
        ex.wake(s);
    }
    while let Some(_) = ex.next_task() {
        ex.finish_poll(true);
    }
    assert!(polls_after_ready.iter().all(|n| *n == 0));
}

#[test]
fn repeated_wake_queues_task_once() {
    let mut ex = Executor::new();
    ex.spawn();
    ex.spawn();
    let (task, signal) = ex.next_task().unwrap();
    assert!(!ex.finish_poll(false));
    assert!(!ex.queued().contains(&task));
    ex.wake(signal);
    ex.wake(signal);
    ex.wake(signal);
    let queued = ex.queued();
    assert_eq!(queued.len(), 2);
    assert_eq!(queued.iter().filter(|t| **t == task).count(), 1);
    assert_eq!(queued[1], task);
}

#[test]
fn wake_of_empty_signal_is_noop() {
    let mut ex = Executor::new();
    ex.spawn();
    ex.spawn();
    let (_task, signal) = ex.next_task().unwrap();
    // woken while its task is still being polled: holds nothing yet
    ex.wake(signal);
    assert_eq!(ex.queued().len(), 1);
    assert!(ex.finish_poll(false) == false);
    ex.wake(signal + 10);
    ex.wake(usize::MAX);
    assert_eq!(ex.queued().len(), 1);
    // after its task finished, the signal holds nothing
    ex.wake(signal);
    let before = ex.queued();
    ex.wake(signal);
    assert_eq!(ex.queued(), before);
    let (task, _) = ex.next_task().unwrap();
    assert!(!ex.finish_poll(true));
    let mut seen = vec![task];
    while let Some((t, _)) = ex.next_task() {
        seen.push(t);
        ex.finish_poll(true);
    }
    ex.wake(signal);
    assert!(ex.queued().is_empty());
    assert!(ex.next_task().is_none());
}

#[test]
fn spawn_without_scheduler_fails() {
    let mut none: Option<Executor> = None;
    assert_eq!(spawn(&mut none), Err(SpawnError::NoActiveScheduler));
    let mut current = Some(Executor::new());
    assert_eq!(spawn(&mut current), Ok(0));
    assert_eq!(spawn(&mut current), Ok(1));
    assert_eq!(current.unwrap().queued(), vec![0, 1]);
}

#[test]
fn spawn_appends_to_back_of_queue() {
    let mut ex = Executor::new();
    assert_eq!(ex.spawn(), 0);
    assert_eq!(ex.spawn(), 1);
    assert_eq!(ex.begin_run(3), 2);
    assert_eq!(ex.queued(), vec![0, 1, 2]);
    assert!(!ex.is_polling());
    ex.next_task().unwrap();
    assert!(ex.is_polling());
}

#[test]
fn explicit_seed_is_kept() {
    assert_eq!(resolve_seed(Some(666)), 666);
    assert_eq!(resolve_seed(Some(0)), 0);
    let _fresh = resolve_seed(None);
}
