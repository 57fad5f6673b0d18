use vstd::prelude::*;

use crate::executor::RunState;
use crate::reactor::{
    add_outcome, after_add, after_enable, after_readiness, after_remove, change_outcome,
    notification, Interest, ReactorError, Registration,
};

verus! {

/// The tasks taken in `n` turns from state `s`, when each one finishes at
/// its poll: the poll order of a run of tasks that are ready when spawned.
pub open spec fn poll_order(s: RunState, n: nat) -> Seq<u64>
    decreases n,
{
    if n == 0 || s.queue.len() == 0 {
        Seq::empty()
    } else {
        let picked = s.after_pick();
        seq![picked.running_task()] + poll_order(picked.after_poll(true), (n - 1) as nat)
    }
}

/// The poll order is fixed by the ready queue, the seed and the round alone:
/// two runs with the same seed over the same ready tasks poll them in the
/// same order, whatever else their states hold.
pub proof fn lemma_poll_order_determined_by_seed(a: RunState, b: RunState, n: nat)
    requires
        a.queue == b.queue,
        a.seed == b.seed,
        a.round == b.round,
    ensures
        poll_order(a, n) == poll_order(b, n),
    decreases n,
{
    if n > 0 && a.queue.len() > 0 {
        let pa = a.after_pick();
        let pb = b.after_pick();
        assert(a.reordered() == b.reordered());
        lemma_poll_order_determined_by_seed(pa.after_poll(true), pb.after_poll(true), (n - 1) as nat);
    }
}

/// A task whose poll reported completion is finished, stays finished
/// whatever happens next, and is never taken for a poll again.
pub proof fn lemma_completed_task_never_polled_again(s: RunState, t: u64, i: int, seed: u64, ready: bool)
    requires
        s.wf(),
        s.finished.contains(t),
    ensures
        s.after_spawn().finished.contains(t),
        s.after_begin(seed).finished.contains(t),
        s.after_wake(i).finished.contains(t),
        s.after_poll(ready).finished.contains(t),
        s.after_pick().finished.contains(t),
        s.running is None && s.reorder_keeps_tasks() ==> !s.after_pick().is_running(t),
{
    if s.running is None && s.reorder_keeps_tasks() && s.queue.len() > 0 {
        s.lemma_reordered_same_tasks();
        let q = s.reordered();
        assert(q.contains(q[0]));
        let k = choose|k: int| 0 <= k < s.queue.len() && s.queue[k] == q[0];
        assert(s.queue[k] == q[0]);
    }
}

/// Reporting completion of the poll in progress finishes its task.
pub proof fn lemma_completion_finishes_task(s: RunState)
    requires
        s.running is Some,
    ensures
        s.after_poll(true).finished.contains(s.running_task()),
        s.after_poll(true).running is None,
{
}

/// However often one wake signal is invoked, its task enters the ready queue
/// once, and no task is ever in the queue twice.
pub proof fn lemma_repeated_wake_no_duplicates(s: RunState, i: int)
    requires
        s.wf(),
    ensures
        s.after_wake(i).after_wake(i) == s.after_wake(i),
        s.after_wake(i).wf(),
        s.after_wake(i).queue.no_duplicates(),
{
    s.lemma_wake_wf(i);
}

/// Invoking a wake signal that holds nothing changes nothing.
pub proof fn lemma_wake_of_empty_signal_is_noop(s: RunState, i: int)
    requires
        !(0 <= i < s.signals.len() && s.signals[i] is Some),
    ensures
        s.after_wake(i) == s,
{
}

/// How many notifications `n` reports of readiness of `fd` give in turn,
/// with no re-arm between them.
pub open spec fn notifications(m: Map<i32, Registration>, fd: i32, n: nat) -> nat
    decreases n,
{
    if n == 0 {
        0
    } else {
        (if notification(m, fd) is Some { 1nat } else { 0nat }) + notifications(
            after_readiness(m, fd),
            fd,
            (n - 1) as nat,
        )
    }
}

/// A descriptor whose interest is not armed gives no notification, however
/// often it becomes ready.
pub proof fn lemma_disarmed_stays_silent(m: Map<i32, Registration>, fd: i32, n: nat)
    requires
        !(m.contains_key(fd) && m[fd].armed),
    ensures
        notifications(m, fd, n) == 0,
    decreases n,
{
    if n > 0 {
        assert(after_readiness(m, fd) == m);
        lemma_disarmed_stays_silent(m, fd, (n - 1) as nat);
    }
}

/// One-shot interest fires once: of any number of readiness reports of an
/// armed descriptor without a re-arm, exactly one gives a notification, and
/// only a re-arm makes the next one fire, with the new key and interest.
pub proof fn lemma_one_shot_needs_rearm(
    m: Map<i32, Registration>,
    fd: i32,
    n: nat,
    key: u64,
    interest: Interest,
)
    requires
        m.contains_key(fd),
        m[fd].armed,
        n >= 1,
    ensures
        notification(m, fd) == Some((m[fd].key, m[fd].interest)),
        notifications(m, fd, n) == 1,
        notification(after_readiness(m, fd), fd) is None,
        notification(after_enable(after_readiness(m, fd), fd, key, interest), fd) == Some(
            (key, interest),
        ),
{
    let fired = after_readiness(m, fd);
    assert(fired.contains_key(fd) && !fired[fd].armed);
    lemma_disarmed_stays_silent(fired, fd, (n - 1) as nat);
}

/// Adding and re-arming are distinct: adding a registered descriptor fails
/// with `AlreadyExists` and changes nothing, re-arming or removing an
/// unregistered one fails with `NotFound` and changes nothing.
pub proof fn lemma_add_and_enable_are_distinct(
    m: Map<i32, Registration>,
    fd: i32,
    key: u64,
    other: u64,
    interest: Interest,
)
    ensures
        add_outcome(after_add(m, fd, key), fd) == Err::<(), ReactorError>(
            ReactorError::AlreadyExists,
        ),
        after_add(after_add(m, fd, key), fd, other) == after_add(m, fd, key),
        change_outcome(after_remove(m, fd), fd) == Err::<(), ReactorError>(ReactorError::NotFound),
        after_enable(after_remove(m, fd), fd, other, interest) == after_remove(m, fd),
        !m.contains_key(fd) ==> change_outcome(m, fd) == Err::<(), ReactorError>(
            ReactorError::NotFound,
        ),
        m.contains_key(fd) ==> add_outcome(m, fd) == Err::<(), ReactorError>(
            ReactorError::AlreadyExists,
        ),
{
}

} // verus!
