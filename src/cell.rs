use vstd::prelude::*;

verus! {

/// The states of a write-once result slot.
pub enum Slot<T> {
    /// No output was produced yet.
    Empty,
    /// The output, not yet collected.
    Full(T),
    /// The output was collected.
    Taken,
}

/// A single-slot, write-once container for the output of a task: it is
/// filled once and its output is collected once.
pub struct ResultCell<T> {
    value: Option<T>,
    collected: bool,
}

impl<T> View for ResultCell<T> {
    type V = Slot<T>;

    closed spec fn view(&self) -> Slot<T> {
        match self.value {
            Some(v) => Slot::Full(v),
            None => if self.collected {
                Slot::Taken
            } else {
                Slot::Empty
            },
        }
    }
}

impl<T> ResultCell<T> {
    /// An empty slot.
    pub fn new() -> (r: ResultCell<T>)
        ensures
            r@ == Slot::<T>::Empty,
    {
        ResultCell { value: None, collected: false }
    }

    /// Stores the output. A slot that was filled before keeps its state, and
    /// the value is handed back.
    pub fn fill(&mut self, value: T) -> (r: Result<(), T>)
        ensures
            old(self)@ is Empty ==> r is Ok && final(self)@ == Slot::Full(value),
            !(old(self)@ is Empty) ==> r == Err::<(), T>(value) && final(self)@ == old(self)@,
    {
        if self.value.is_none() && !self.collected {
            self.value = Some(value);
            Ok(())
        } else {
            Err(value)
        }
    }

    /// Whether the output is there to be collected.
    pub fn is_ready(&self) -> (r: bool)
        ensures
            r == self@ is Full,
    {
        self.value.is_some()
    }

    /// Collects the output: `Some` exactly once, at the first call after the
    /// slot was filled; `None` before that and ever after.
    pub fn take(&mut self) -> (r: Option<T>)
        ensures
            old(self)@ matches Slot::Full(v) ==> r == Some(v) && final(self)@ == Slot::<T>::Taken,
            !(old(self)@ is Full) ==> r is None && final(self)@ == old(self)@,
    {
        let r = self.value.take();
        if r.is_some() {
            self.collected = true;
        }
        r
    }
}

} // verus!
