use vstd::prelude::*;

use std::collections::HashMap;

verus! {

broadcast use vstd::std_specs::hash::group_hash_axioms;

/// Readiness to read, in the kernel's event mask.
pub const READABLE: u32 = 0x1;

/// Readiness to write, in the kernel's event mask.
pub const WRITABLE: u32 = 0x4;

/// Disarm the interest once it has fired, in the kernel's event mask.
pub const ONE_SHOT: u32 = 0x4000_0000;

/// Most events taken from the kernel in one wait.
pub const MAX_EVENTS: i32 = 1024;

/// How long one wait blocks at most, in milliseconds.
pub const WAIT_TIMEOUT_MS: i32 = 1000;

/// What a descriptor is watched for.
#[derive(Debug, Clone, Copy, PartialEq, Eq, Structural)]
pub enum Interest {
    Read,
    Write,
}

/// The one-shot interest registered for a descriptor.
#[derive(Debug, Clone, Copy, PartialEq, Eq, Structural)]
pub struct Registration {
    pub interest: Interest,
    /// The caller's correlation key, reported with each notification.
    pub key: u64,
    /// Whether a notification can still fire before the next re-arm.
    pub armed: bool,
}

/// Why a reactor operation failed.
#[derive(Debug, Clone, Copy, PartialEq, Eq, Structural)]
pub enum ReactorError {
    /// `add_read` on a descriptor that is already registered.
    AlreadyExists,
    /// A re-arm or removal of a descriptor that is not registered.
    NotFound,
    /// The kernel refused the operation, with this error number.
    Os(i32),
}

/// The event mask of a one-shot interest.
pub open spec fn mask_of(interest: Interest) -> u32 {
    match interest {
        Interest::Read => ONE_SHOT | READABLE,
        Interest::Write => ONE_SHOT | WRITABLE,
    }
}

/// The kind of readiness that an event mask reports; readable first.
pub open spec fn kind_of(mask: u32) -> Option<Interest> {
    if mask & READABLE != 0 {
        Some(Interest::Read)
    } else if mask & WRITABLE != 0 {
        Some(Interest::Write)
    } else {
        None
    }
}

/// A fresh, armed one-shot interest.
pub open spec fn armed(interest: Interest, key: u64) -> Registration {
    Registration { interest, key, armed: true }
}

/// What `add_read` reports on table `m`.
pub open spec fn add_outcome(m: Map<i32, Registration>, fd: i32) -> Result<(), ReactorError> {
    if m.contains_key(fd) {
        Err(ReactorError::AlreadyExists)
    } else {
        Ok(())
    }
}

/// What a re-arm or a removal reports on table `m`.
pub open spec fn change_outcome(m: Map<i32, Registration>, fd: i32) -> Result<(), ReactorError> {
    if m.contains_key(fd) {
        Ok(())
    } else {
        Err(ReactorError::NotFound)
    }
}

/// The table after `add_read(fd, key)`: unchanged if `fd` is registered.
pub open spec fn after_add(m: Map<i32, Registration>, fd: i32, key: u64) -> Map<i32, Registration> {
    if m.contains_key(fd) {
        m
    } else {
        m.insert(fd, armed(Interest::Read, key))
    }
}

/// The table after a re-arm of `fd`: its interest replaced by a fresh one,
/// unchanged if `fd` is not registered.
pub open spec fn after_enable(
    m: Map<i32, Registration>,
    fd: i32,
    key: u64,
    interest: Interest,
) -> Map<i32, Registration> {
    if m.contains_key(fd) {
        m.insert(fd, armed(interest, key))
    } else {
        m
    }
}

/// The table after the removal of `fd`.
pub open spec fn after_remove(m: Map<i32, Registration>, fd: i32) -> Map<i32, Registration> {
    m.remove(fd)
}

/// The notification that readiness of `fd` gives: its key and interest, if
/// it is registered and armed; nothing otherwise.
pub open spec fn notification(m: Map<i32, Registration>, fd: i32) -> Option<(u64, Interest)> {
    if m.contains_key(fd) && m[fd].armed {
        Some((m[fd].key, m[fd].interest))
    } else {
        None
    }
}

/// The table after readiness of `fd`: a notification disarms the interest.
pub open spec fn after_readiness(m: Map<i32, Registration>, fd: i32) -> Map<i32, Registration> {
    if m.contains_key(fd) && m[fd].armed {
        m.insert(fd, Registration { armed: false, ..m[fd] })
    } else {
        m
    }
}

/// The table and the notifications after readiness of each of `fds` in turn.
pub open spec fn after_batch(m: Map<i32, Registration>, fds: Seq<i32>) -> (
    Map<i32, Registration>,
    Seq<(u64, Interest)>,
)
    decreases fds.len(),
{
    if fds.len() == 0 {
        (m, Seq::empty())
    } else {
        let (before, out) = after_batch(m, fds.drop_last());
        let fd = fds.last();
        let next = after_readiness(before, fd);
        match notification(before, fd) {
            Some(n) => (next, out.push(n)),
            None => (next, out),
        }
    }
}

/// The interest table of a readiness reactor: for each registered descriptor
/// its one-shot interest, its correlation key, and whether it is armed.
///
/// The kernel keeps the same table; the reactor asks this one first, so that
/// adding and re-arming stay distinct, and translates the kernel's reports
/// (which carry the descriptor) into the caller's keys.
pub struct Registry {
    table: HashMap<i32, Registration>,
}

impl View for Registry {
    type V = Map<i32, Registration>;

    closed spec fn view(&self) -> Map<i32, Registration> {
        self.table@
    }
}

/// The event mask that registers `interest` as a one-shot interest.
pub fn interest_mask(interest: Interest) -> (r: u32)
    ensures
        r == mask_of(interest),
{
    match interest {
        Interest::Read => ONE_SHOT | READABLE,
        Interest::Write => ONE_SHOT | WRITABLE,
    }
}

/// The kind of readiness that a reported event mask carries, readable first.
pub fn event_kind(mask: u32) -> (r: Option<Interest>)
    ensures
        r == kind_of(mask),
{
    if mask & READABLE != 0 {
        Some(Interest::Read)
    } else if mask & WRITABLE != 0 {
        Some(Interest::Write)
    } else {
        None
    }
}

impl Registry {
    /// An empty table.
    pub fn new() -> (r: Registry)
        ensures
            r@ == Map::<i32, Registration>::empty(),
    {
        Registry { table: HashMap::new() }
    }

    /// Whether `fd` is registered.
    pub fn contains(&self, fd: i32) -> (r: bool)
        ensures
            r == self@.contains_key(fd),
    {
        self.table.contains_key(&fd)
    }

    /// The registration of `fd`, if any.
    pub fn get(&self, fd: i32) -> (r: Option<Registration>)
        ensures
            r == (if self@.contains_key(fd) { Some(self@[fd]) } else { None::<Registration> }),
    {
        match self.table.get(&fd) {
            Some(reg) => Some(*reg),
            None => None,
        }
    }

    /// Registers one-shot read interest for a descriptor that is not yet
    /// registered; fails with `AlreadyExists`, changing nothing, if it is.
    pub fn add_read(&mut self, fd: i32, key: u64) -> (r: Result<(), ReactorError>)
        ensures
            r == add_outcome(old(self)@, fd),
            final(self)@ == after_add(old(self)@, fd, key),
    {
        if self.table.contains_key(&fd) {
            return Err(ReactorError::AlreadyExists);
        }
        self.table.insert(fd, Registration { interest: Interest::Read, key, armed: true });
        Ok(())
    }

    fn enable(&mut self, fd: i32, key: u64, interest: Interest) -> (r: Result<(), ReactorError>)
        ensures
            r == change_outcome(old(self)@, fd),
            final(self)@ == after_enable(old(self)@, fd, key, interest),
    {
        if !self.table.contains_key(&fd) {
            return Err(ReactorError::NotFound);
        }
        self.table.insert(fd, Registration { interest, key, armed: true });
        Ok(())
    }

    /// Re-arms a registered descriptor with one-shot read interest, replacing
    /// its interest and key; fails with `NotFound` if it is not registered.
    pub fn enable_read(&mut self, fd: i32, key: u64) -> (r: Result<(), ReactorError>)
        ensures
            r == change_outcome(old(self)@, fd),
            final(self)@ == after_enable(old(self)@, fd, key, Interest::Read),
    {
        self.enable(fd, key, Interest::Read)
    }

    /// Re-arms a registered descriptor with one-shot write interest, replacing
    /// its interest and key; fails with `NotFound` if it is not registered.
    pub fn enable_write(&mut self, fd: i32, key: u64) -> (r: Result<(), ReactorError>)
        ensures
            r == change_outcome(old(self)@, fd),
            final(self)@ == after_enable(old(self)@, fd, key, Interest::Write),
    {
        self.enable(fd, key, Interest::Write)
    }

    /// Deregisters a descriptor; fails with `NotFound` if it is not registered.
    pub fn remove(&mut self, fd: i32) -> (r: Result<(), ReactorError>)
        ensures
            r == change_outcome(old(self)@, fd),
            final(self)@ == after_remove(old(self)@, fd),
    {
        match self.table.remove(&fd) {
            Some(_) => Ok(()),
            None => {
                proof {
                    assert(self.table@ =~= old(self)@.remove(fd));
                }
                Err(ReactorError::NotFound)
            },
        }
    }

    /// Readiness of `fd` was reported: if its interest is armed, it fires
    /// once, giving the key and interest, and is disarmed until re-armed.
    pub fn readiness(&mut self, fd: i32) -> (r: Option<(u64, Interest)>)
        ensures
            r == notification(old(self)@, fd),
            final(self)@ == after_readiness(old(self)@, fd),
    {
        match self.table.get(&fd) {
            Some(reg) => {
                if reg.armed {
                    let fired = Registration { armed: false, ..*reg };
                    let out = (fired.key, fired.interest);
                    self.table.insert(fd, fired);
                    Some(out)
                } else {
                    None
                }
            },
            None => None,
        }
    }

    /// Readiness of each of `fds` was reported, in this order: the
    /// notifications that fire, in the same order.
    pub fn readiness_batch(&mut self, fds: &Vec<i32>) -> (r: Vec<(u64, Interest)>)
        ensures
            (final(self)@, r@) == after_batch(old(self)@, fds@),
    {
        let mut out: Vec<(u64, Interest)> = Vec::new();
        let mut i: usize = 0;
        while i < fds.len()
            invariant
                i <= fds.len(),
                (self@, out@) == after_batch(old(self)@, fds@.subrange(0, i as int)),
            decreases fds.len() - i,
        {
            proof {
                let next = fds@.subrange(0, i as int + 1);
                assert(next.drop_last() =~= fds@.subrange(0, i as int));
                assert(next.last() == fds@[i as int]);
            }
            match self.readiness(fds[i]) {
                Some(n) => out.push(n),
                None => {},
            }
            i = i + 1;
        }
        proof {
            assert(fds@.subrange(0, i as int) =~= fds@);
        }
        out
    }
}

} // verus!
