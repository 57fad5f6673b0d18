use vstd::prelude::*;

use crate::rng::{fresh_seed, shuffle_seeded, shuffled};

verus! {

broadcast use vstd::seq_lib::group_to_multiset_ensures;

/// The abstract state of a scheduler.
///
/// Tasks are named by the order in which they were spawned. A task lives in
/// exactly one place: the ready `queue`, one wake signal of `signals`, the
/// poll in progress (`running`), or among the `finished` tasks.
pub struct RunState {
    /// Ready tasks; the front is polled next, after the reorder of the round.
    pub queue: Seq<u64>,
    /// One slot per wake signal minted so far; `Some(t)` while it holds `t`.
    pub signals: Seq<Option<u64>>,
    /// The task being polled and the wake signal minted for that poll.
    pub running: Option<(u64, usize)>,
    /// Tasks whose poll reported completion.
    pub finished: Set<u64>,
    /// How many tasks were spawned; the next one gets this number.
    pub spawned: nat,
    /// The seed of the run.
    pub seed: u64,
    /// How many tasks were taken from the queue in this run.
    pub round: u64,
    /// The root task, whose completion ends the run.
    pub root: Option<u64>,
}

/// The seed of the reorder made before the `round`-th task is taken.
pub open spec fn round_seed(seed: u64, round: u64) -> u64 {
    seed.wrapping_add(round)
}

impl RunState {
    pub open spec fn empty() -> RunState {
        RunState {
            queue: Seq::empty(),
            signals: Seq::empty(),
            running: None,
            finished: Set::empty(),
            spawned: 0,
            seed: 0,
            round: 0,
            root: None,
        }
    }

    pub open spec fn is_running(self, t: u64) -> bool {
        self.running matches Some((r, _)) && r == t
    }

    /// The task being polled, if any.
    pub open spec fn running_task(self) -> u64 {
        match self.running {
            Some((t, _)) => t,
            None => 0,
        }
    }

    /// Wake signal `i` holds task `t`.
    pub open spec fn holds(self, i: int, t: u64) -> bool {
        0 <= i < self.signals.len() && self.signals[i] == Some(t)
    }

    /// Every task is in at most one place, and finished tasks in none.
    pub open spec fn wf(self) -> bool {
        &&& self.queue.no_duplicates()
        &&& forall|i: int|
            0 <= i < self.queue.len() ==> {
                &&& (#[trigger] self.queue[i] as nat) < self.spawned
                &&& !self.finished.contains(self.queue[i])
                &&& !self.is_running(self.queue[i])
            }
        &&& forall|i: int, t: u64|
            #[trigger] self.holds(i, t) ==> {
                &&& (t as nat) < self.spawned
                &&& !self.queue.contains(t)
                &&& !self.finished.contains(t)
                &&& !self.is_running(t)
            }
        &&& forall|i: int, j: int, t: u64|
            #[trigger] self.holds(i, t) && #[trigger] self.holds(j, t) ==> i == j
        &&& self.running matches Some((t, s)) ==> {
            &&& (t as nat) < self.spawned
            &&& !self.finished.contains(t)
            &&& (s as int) < self.signals.len()
            &&& self.signals[s as int] is None
        }
        &&& forall|t: u64| #[trigger] self.finished.contains(t) ==> (t as nat) < self.spawned
        &&& self.root matches Some(r) ==> (r as nat) < self.spawned
    }

    /// A new task, numbered `spawned`, joins the back of the queue.
    pub open spec fn after_spawn(self) -> RunState {
        RunState { queue: self.queue.push(self.spawned as u64), spawned: self.spawned + 1, ..self }
    }

    /// Invoking wake signal `i`: the task it holds, if any, goes to the back
    /// of the queue and the signal holds nothing; otherwise nothing changes.
    pub open spec fn after_wake(self, i: int) -> RunState {
        if 0 <= i < self.signals.len() && self.signals[i] is Some {
            RunState {
                queue: self.queue.push(self.signals[i]->0),
                signals: self.signals.update(i, None),
                ..self
            }
        } else {
            self
        }
    }

    /// A run starts: the root task is spawned and the seed recorded.
    pub open spec fn after_begin(self, seed: u64) -> RunState {
        RunState { root: Some(self.spawned as u64), seed, round: 0, ..self.after_spawn() }
    }

    /// The queue reordered for the current round.
    pub open spec fn reordered(self) -> Seq<u64> {
        shuffled(round_seed(self.seed, self.round), self.queue)
    }

    /// The reorder of the current round holds the queue's tasks, each as
    /// often as the queue does (what the shuffle guarantees of each call).
    pub open spec fn reorder_keeps_tasks(self) -> bool {
        self.reordered().to_multiset() == self.queue.to_multiset()
    }

    /// Taking the next task: the queue is reordered, its front is taken and
    /// a fresh wake signal, holding nothing, is minted for the poll. An empty
    /// queue changes nothing.
    pub open spec fn after_pick(self) -> RunState {
        if self.queue.len() == 0 {
            self
        } else {
            RunState {
                queue: self.reordered().remove(0),
                signals: self.signals.push(None),
                running: Some((self.reordered()[0], self.signals.len() as usize)),
                round: self.round.wrapping_add(1),
                ..self
            }
        }
    }

    /// The poll in progress reports: a finished task is dropped, a suspended
    /// one is handed to the wake signal minted for its poll.
    pub open spec fn after_poll(self, ready: bool) -> RunState {
        match self.running {
            Some((t, s)) => if ready {
                RunState { running: None, finished: self.finished.insert(t), ..self }
            } else {
                RunState { running: None, signals: self.signals.update(s as int, Some(t)), ..self }
            },
            None => self,
        }
    }

    /// The report of the poll in progress ends the run: the root finished.
    pub open spec fn ends_run(self, ready: bool) -> bool {
        ready && (self.running matches Some((t, _)) && self.root == Some(t))
    }

    /// Spawning keeps every task in at most one place.
    pub proof fn lemma_spawn_wf(self)
        requires
            self.wf(),
            self.spawned < u64::MAX,
        ensures
            self.after_spawn().wf(),
    {
        let n = self.after_spawn();
        let id = self.spawned as u64;
        assert(!self.queue.contains(id));
        assert forall|i: int, j: int| 0 <= i < n.queue.len() && 0 <= j < n.queue.len() && i != j
            implies n.queue[i] != n.queue[j] by {
            if i < self.queue.len() {
                assert(n.queue[i] == self.queue[i]);
            }
            if j < self.queue.len() {
                assert(n.queue[j] == self.queue[j]);
            }
        }
        assert forall|i: int, j: int, t: u64| #[trigger] n.holds(i, t) && #[trigger] n.holds(j, t)
            implies i == j by {
            assert(self.holds(i, t) && self.holds(j, t));
        }
        assert forall|i: int, t: u64| #[trigger] n.holds(i, t) implies !n.queue.contains(t)
            && (t as nat) < n.spawned && !n.finished.contains(t) && !n.is_running(t) by {
            assert(self.holds(i, t));
            if n.queue.contains(t) {
                let k = choose|k: int| 0 <= k < n.queue.len() && n.queue[k] == t;
                if k < self.queue.len() {
                    assert(self.queue[k] == t);
                }
            }
        }
        assert forall|i: int| 0 <= i < n.queue.len() implies !n.is_running(#[trigger] n.queue[i])
            && !n.finished.contains(n.queue[i]) && (n.queue[i] as nat) < n.spawned by {
            if i < self.queue.len() {
                assert(n.queue[i] == self.queue[i]);
            }
        }
    }

    /// A wake signal invoked once or more keeps every task in at most one place.
    pub proof fn lemma_wake_wf(self, i: int)
        requires
            self.wf(),
        ensures
            self.after_wake(i).wf(),
    {
        let n = self.after_wake(i);
        if 0 <= i < self.signals.len() && self.signals[i] is Some {
            let t = self.signals[i]->0;
            assert(self.holds(i, t));
            assert forall|a: int, b: int| 0 <= a < n.queue.len() && 0 <= b < n.queue.len() && a != b
                implies n.queue[a] != n.queue[b] by {
                if a < self.queue.len() {
                    assert(n.queue[a] == self.queue[a]);
                }
                if b < self.queue.len() {
                    assert(n.queue[b] == self.queue[b]);
                }
            }
            assert forall|a: int| 0 <= a < n.queue.len() implies !n.is_running(#[trigger] n.queue[a])
                && !n.finished.contains(n.queue[a]) && (n.queue[a] as nat) < n.spawned by {
                if a < self.queue.len() {
                    assert(n.queue[a] == self.queue[a]);
                }
            }
            assert forall|a: int, b: int, u: u64| #[trigger] n.holds(a, u) && #[trigger] n.holds(b, u)
                implies a == b by {
                assert(self.holds(a, u) && self.holds(b, u));
            }
            assert forall|a: int, u: u64| #[trigger] n.holds(a, u) implies !n.queue.contains(u)
                && (u as nat) < n.spawned && !n.finished.contains(u) && !n.is_running(u) by {
                assert(self.holds(a, u));
                assert(u != t);
                if n.queue.contains(u) {
                    let k = choose|k: int| 0 <= k < n.queue.len() && n.queue[k] == u;
                    assert(self.queue[k] == u);
                }
            }
        }
    }

    /// Taking the next task keeps every task in at most one place.
    pub proof fn lemma_pick_wf(self)
        requires
            self.wf(),
            self.running is None,
            self.reorder_keeps_tasks(),
            self.signals.len() <= usize::MAX,
        ensures
            self.after_pick().wf(),
    {
        if self.queue.len() > 0 {
            let n = self.after_pick();
            let q = self.reordered();
            self.lemma_reordered_same_tasks();
            assert forall|a: int, b: int| 0 <= a < n.queue.len() && 0 <= b < n.queue.len() && a != b
                implies n.queue[a] != n.queue[b] by {
                assert(n.queue[a] == q[a + 1] && n.queue[b] == q[b + 1]);
            }
            assert forall|a: int| 0 <= a < n.queue.len() implies !n.is_running(#[trigger] n.queue[a])
                && !n.finished.contains(n.queue[a]) && (n.queue[a] as nat) < n.spawned by {
                assert(n.queue[a] == q[a + 1]);
                assert(q.contains(q[a + 1]));
                let k = choose|k: int| 0 <= k < self.queue.len() && self.queue[k] == q[a + 1];
            }
            assert(q.contains(q[0]));
            let k0 = choose|k: int| 0 <= k < self.queue.len() && self.queue[k] == q[0];
            assert(self.queue[k0] == q[0]);
            assert forall|a: int, b: int, u: u64| #[trigger] n.holds(a, u) && #[trigger] n.holds(b, u)
                implies a == b by {
                assert(self.holds(a, u) && self.holds(b, u));
            }
            assert forall|a: int, u: u64| #[trigger] n.holds(a, u) implies !n.queue.contains(u)
                && (u as nat) < n.spawned && !n.finished.contains(u) && !n.is_running(u) by {
                assert(self.holds(a, u));
                assert(!q.contains(u));
                if n.queue.contains(u) {
                    let k = choose|k: int| 0 <= k < n.queue.len() && n.queue[k] == u;
                    assert(q[k + 1] == u);
                }
            }
        }
    }

    /// The reorder of a round keeps the same tasks, each once.
    pub proof fn lemma_reordered_same_tasks(self)
        requires
            self.queue.no_duplicates(),
            self.reorder_keeps_tasks(),
        ensures
            self.reordered().no_duplicates(),
            self.reordered().len() == self.queue.len(),
            forall|t: u64| #[trigger] self.reordered().contains(t) <==> self.queue.contains(t),
    {
        let q = self.reordered();
        assert(q.len() == q.to_multiset().len());
        assert(self.queue.len() == self.queue.to_multiset().len());
        assert forall|t: u64| #[trigger] q.contains(t) <==> self.queue.contains(t) by {
            assert(q.to_multiset().count(t) == self.queue.to_multiset().count(t));
        }
        self.queue.lemma_multiset_has_no_duplicates();
        q.lemma_multiset_has_no_duplicates_conv();
    }

    /// Reporting the poll in progress keeps every task in at most one place.
    pub proof fn lemma_poll_wf(self, ready: bool)
        requires
            self.wf(),
            self.running is Some,
        ensures
            self.after_poll(ready).wf(),
    {
        let n = self.after_poll(ready);
        let (t, sg) = self.running->0;
        assert forall|a: int| 0 <= a < n.queue.len() implies !n.is_running(#[trigger] n.queue[a])
            && !n.finished.contains(n.queue[a]) && (n.queue[a] as nat) < n.spawned by {
            assert(self.queue[a] != t);
        }
        assert forall|a: int, b: int, u: u64| #[trigger] n.holds(a, u) && #[trigger] n.holds(b, u)
            implies a == b by {
            if a != sg as int && b != sg as int {
                assert(self.holds(a, u) && self.holds(b, u));
            } else if a != sg as int {
                assert(self.holds(a, u));
            } else if b != sg as int {
                assert(self.holds(b, u));
            }
        }
        assert forall|a: int, u: u64| #[trigger] n.holds(a, u) implies !n.queue.contains(u)
            && (u as nat) < n.spawned && !n.finished.contains(u) && !n.is_running(u) by {
            if ready || a != sg as int {
                assert(self.holds(a, u));
            }
            if n.queue.contains(u) {
                let k = choose|k: int| 0 <= k < n.queue.len() && n.queue[k] == u;
                assert(self.queue[k] == u);
            }
        }
    }

    /// Starting a run keeps every task in at most one place.
    pub proof fn lemma_begin_wf(self, seed: u64)
        requires
            self.wf(),
            self.spawned < u64::MAX,
        ensures
            self.after_begin(seed).wf(),
    {
        self.lemma_spawn_wf();
        let a = self.after_spawn();
        let b = self.after_begin(seed);
        assert forall|i: int, t: u64| #[trigger] b.holds(i, t) implies a.holds(i, t) by {}
        assert forall|i: int| 0 <= i < b.queue.len() implies (#[trigger] b.queue[i] as nat) < b.spawned
            && !b.finished.contains(b.queue[i]) && !b.is_running(b.queue[i]) by {
            assert(b.queue[i] == a.queue[i]);
        }
    }
}

/// A single-threaded scheduler of cooperative tasks.
///
/// The computations themselves live with the caller, under the numbers that
/// `spawn` hands out; the scheduler decides which of them is polled next and
/// where each one waits.
pub struct Executor {
    queue: Vec<u64>,
    signals: Vec<Option<u64>>,
    running: Option<(u64, usize)>,
    finished: Ghost<Set<u64>>,
    spawned: u64,
    seed: u64,
    round: u64,
    root: Option<u64>,
}

impl View for Executor {
    type V = RunState;

    closed spec fn view(&self) -> RunState {
        RunState {
            queue: self.queue@,
            signals: self.signals@,
            running: self.running,
            finished: self.finished@,
            spawned: self.spawned as nat,
            seed: self.seed,
            round: self.round,
            root: self.root,
        }
    }
}

impl Executor {
    /// An empty scheduler: no tasks, no wake signals.
    pub fn new() -> (r: Executor)
        ensures
            r@ == RunState::empty(),
            r@.wf(),
    {
        Executor {
            queue: Vec::new(),
            signals: Vec::new(),
            running: None,
            finished: Ghost(Set::empty()),
            spawned: 0,
            seed: 0,
            round: 0,
            root: None,
        }
    }

    /// Appends a new task to the back of the ready queue and returns its number.
    pub fn spawn(&mut self) -> (id: u64)
        requires
            old(self)@.wf(),
            old(self)@.spawned < u64::MAX,
        ensures
            id == old(self)@.spawned,
            final(self)@ == old(self)@.after_spawn(),
            final(self)@.wf(),
    {
        let id = self.spawned;
        self.queue.push(id);
        self.spawned = self.spawned + 1;
        proof {
            old(self)@.lemma_spawn_wf();
            assert(self@.queue == old(self)@.queue.push(id));
        }
        id
    }

    /// Invokes wake signal `signal`: the task it holds, if any, goes to the
    /// back of the ready queue and the signal holds nothing from then on. A
    /// signal that holds nothing (already invoked, minted for a task that then
    /// finished, or never minted) is a no-op.
    pub fn wake(&mut self, signal: usize)
        requires
            old(self)@.wf(),
        ensures
            final(self)@ == old(self)@.after_wake(signal as int),
            final(self)@.wf(),
    {
        proof {
            old(self)@.lemma_wake_wf(signal as int);
        }
        if signal < self.signals.len() {
            if let Some(t) = self.signals[signal] {
                self.signals.set(signal, None);
                self.queue.push(t);
                proof {
                    assert(self@.signals =~= old(self)@.signals.update(signal as int, None));
                    assert(self@.queue =~= old(self)@.queue.push(t));
                }
            }
        }
    }

    /// Starts a run with `seed`: spawns the root task, whose completion ends
    /// the run, and returns its number. Reorders start again from round 0.
    pub fn begin_run(&mut self, seed: u64) -> (root: u64)
        requires
            old(self)@.wf(),
            old(self)@.spawned < u64::MAX,
        ensures
            root == old(self)@.spawned,
            final(self)@ == old(self)@.after_begin(seed),
            final(self)@.wf(),
    {
        let root = self.spawn();
        self.root = Some(root);
        self.seed = seed;
        self.round = 0;
        proof {
            old(self)@.lemma_begin_wf(seed);
        }
        root
    }

    /// Takes the next task to poll: reorders the ready queue with the seed of
    /// the current round, takes its front and mints a wake signal for the
    /// poll. Returns the task and the signal, or `None` if the queue is empty.
    pub fn next_task(&mut self) -> (r: Option<(u64, usize)>)
        requires
            old(self)@.wf(),
            old(self)@.running is None,
        ensures
            final(self)@ == old(self)@.after_pick(),
            r == final(self)@.running,
            final(self)@.wf(),
    {
        if self.queue.len() == 0 {
            return None;
        }
        let round_seed = self.seed.wrapping_add(self.round);
        let sig = self.signals.len();
        shuffle_seeded(round_seed, &mut self.queue);
        proof {
            assert(old(self)@.reorder_keeps_tasks());
            old(self)@.lemma_pick_wf();
            old(self)@.lemma_reordered_same_tasks();
        }
        let t = self.queue.remove(0);
        self.signals.push(None);
        self.round = self.round.wrapping_add(1);
        self.running = Some((t, sig));
        Some((t, sig))
    }

    /// Reports the outcome of the poll in progress: `ready` when the task
    /// finished, which drops it; otherwise the wake signal minted for the poll
    /// holds it from then on. Returns whether the run is over, that is whether
    /// the task was the root.
    pub fn finish_poll(&mut self, ready: bool) -> (over: bool)
        requires
            old(self)@.wf(),
            old(self)@.running is Some,
        ensures
            final(self)@ == old(self)@.after_poll(ready),
            over == old(self)@.ends_run(ready),
            final(self)@.wf(),
    {
        proof {
            old(self)@.lemma_poll_wf(ready);
        }
        let (t, sig) = self.running.unwrap();
        self.running = None;
        if ready {
            self.finished = Ghost(self.finished@.insert(t));
            match self.root {
                Some(r) => r == t,
                None => false,
            }
        } else {
            self.signals.set(sig, Some(t));
            proof {
                assert(self@.signals =~= old(self)@.signals.update(sig as int, Some(t)));
            }
            false
        }
    }

    /// The ready queue, front first.
    pub fn queued(&self) -> (r: Vec<u64>)
        ensures
            r@ == self@.queue,
    {
        let mut r: Vec<u64> = Vec::new();
        let mut i: usize = 0;
        while i < self.queue.len()
            invariant
                i <= self.queue.len(),
                r@ == self.queue@.subrange(0, i as int),
            decreases self.queue.len() - i,
        {
            r.push(self.queue[i]);
            i = i + 1;
            proof {
                assert(r@ =~= self.queue@.subrange(0, i as int));
            }
        }
        proof {
            assert(self.queue@.subrange(0, i as int) =~= self.queue@);
        }
        r
    }

    /// Whether another task can be numbered.
    pub fn can_spawn(&self) -> (r: bool)
        ensures
            r == (self@.spawned < u64::MAX),
    {
        self.spawned < u64::MAX
    }

    /// Whether a poll is in progress.
    pub fn is_polling(&self) -> (r: bool)
        ensures
            r == self@.running is Some,
    {
        self.running.is_some()
    }

    /// Registers this scheduler as the current one in `current`, the slot that
    /// lives as long as a run. A slot that already holds a scheduler keeps
    /// it, and this one is handed back.
    pub fn register(self, current: &mut Option<Executor>) -> (r: Result<(), Executor>)
        ensures
            *old(current) is None ==> r is Ok && *final(current) == Some(self),
            *old(current) is Some ==> r == Err::<(), Executor>(self) && *final(current)
                == *old(current),
    {
        if current.is_none() {
            *current = Some(self);
            Ok(())
        } else {
            Err(self)
        }
    }
}

/// Why a task could not be spawned.
#[derive(Debug, Clone, Copy, PartialEq, Eq, Structural)]
pub enum SpawnError {
    /// No scheduler is registered as the current one.
    NoActiveScheduler,
}

/// Spawns a task on the scheduler registered as the current one, if any.
///
/// `current` is the lifecycle-scoped registration: set when a run starts and
/// cleared when it ends.
pub fn spawn(current: &mut Option<Executor>) -> (r: Result<u64, SpawnError>)
    requires
        *old(current) matches Some(ex) ==> ex@.wf() && ex@.spawned < u64::MAX,
    ensures
        *old(current) is None ==> r == Err::<u64, SpawnError>(SpawnError::NoActiveScheduler)
            && *final(current) is None,
        *old(current) matches Some(ex) ==> r == Ok::<u64, SpawnError>(ex@.spawned as u64) && (
        *final(current) matches Some(after) && after@ == ex@.after_spawn() && after@.wf()),
{
    match current {
        Some(ex) => Ok(ex.spawn()),
        None => Err(SpawnError::NoActiveScheduler),
    }
}

/// The seed of a run: the one given, or else a fresh random one.
pub fn resolve_seed(seed: Option<u64>) -> (r: u64)
    ensures
        seed matches Some(s) ==> r == s,
{
    match seed {
        Some(s) => s,
        None => fresh_seed(),
    }
}

} // verus!
