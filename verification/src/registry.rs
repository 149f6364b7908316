//! Handles for owned instances.
//!
//! A host that cannot hold a value of the library holds a handle to it: a
//! small number that the registry gave out when it took the value in. A
//! handle is good until it is released; after that, and for any number the
//! registry never gave out, every operation says so instead of touching
//! anything. Zero is never a handle.

use vstd::prelude::*;

verus! {

/// The values that are held for a host, each under its handle.
pub struct Registry<T> {
    slots: Vec<Option<T>>,
}

impl<T> View for Registry<T> {
    type V = Seq<Option<T>>;

    /// One entry for every handle ever given out, the first for handle one:
    /// the value, or nothing once the handle was released.
    closed spec fn view(&self) -> Seq<Option<T>> {
        self.slots@
    }
}

/// Whether `handle` was given out and not released since.
pub open spec fn is_live<T>(entries: Seq<Option<T>>, handle: int) -> bool {
    1 <= handle <= entries.len() && entries[handle - 1] is Some
}

/// The entries after `handle` was released: its entry is empty, all others
/// are as they were.
pub open spec fn released<T>(entries: Seq<Option<T>>, handle: int) -> Seq<Option<T>> {
    if 1 <= handle <= entries.len() {
        entries.update(handle - 1, None)
    } else {
        entries
    }
}

impl<T> Registry<T> {
    /// A registry that has given out no handle.
    pub fn new() -> (registry: Registry<T>)
        ensures
            registry@.len() == 0,
    {
        Registry { slots: Vec::new() }
    }

    /// Takes `value` in and gives out a handle that was never given out
    /// before, or gives the value back when the handles have run out.
    pub fn create(&mut self, value: T) -> (outcome: Result<usize, T>)
        ensures
            (match outcome {
                Ok(handle) => {
                    &&& handle == old(self)@.len() + 1
                    &&& final(self)@ == old(self)@.push(Some(value))
                    &&& is_live(final(self)@, handle as int)
                    &&& !is_live(old(self)@, handle as int)
                },
                Err(back) => {
                    &&& old(self)@.len() == usize::MAX
                    &&& back == value
                    &&& final(self)@ == old(self)@
                },
            }),
    {
        if self.slots.len() == usize::MAX {
            return Err(value);
        }
        self.slots.push(Some(value));
        Ok(self.slots.len())
    }

    /// The value under `handle`, if the handle is live.
    pub fn get(&self, handle: usize) -> (value: Option<&T>)
        ensures
            (match value {
                Some(v) => is_live(self@, handle as int) && self@[handle - 1] == Some(*v),
                None => !is_live(self@, handle as int),
            }),
    {
        if handle == 0 || handle > self.slots.len() {
            return None;
        }
        self.slots[handle - 1].as_ref()
    }

    /// Releases `handle` and hands out the value that was under it, if the
    /// handle was live. Releasing a handle that is not live changes
    /// nothing.
    pub fn destroy(&mut self, handle: usize) -> (value: Option<T>)
        ensures
            final(self)@ == released(old(self)@, handle as int),
            !is_live(final(self)@, handle as int),
            (match value {
                Some(v) => is_live(old(self)@, handle as int) && old(self)@[handle - 1] == Some(v),
                None => !is_live(old(self)@, handle as int) && final(self)@ == old(self)@,
            }),
    {
        if handle == 0 || handle > self.slots.len() {
            return None;
        }
        let taken: Option<T> = self.slots[handle - 1].take();
        assert(self.slots@ =~= released(old(self).slots@, handle as int));
        taken
    }
}

/// A released handle stays released: neither releasing other handles nor
/// taking in new values makes it live again.
pub proof fn lemma_released_for_good<T>(entries: Seq<Option<T>>, handle: int, other: int, value: T)
    requires
        !is_live(entries, handle),
        1 <= handle <= entries.len(),
    ensures
        !is_live(released(entries, other), handle),
        !is_live(entries.push(Some(value)), handle),
{
}

/// Releasing one handle leaves every other handle as it was.
pub proof fn lemma_release_spares_others<T>(entries: Seq<Option<T>>, handle: int, other: int)
    requires
        handle != other,
    ensures
        is_live(released(entries, handle), other) == is_live(entries, other),
        is_live(entries, other) ==> released(entries, handle)[other - 1] == entries[other - 1],
{
}

/// Releasing a handle twice is the same as releasing it once.
pub proof fn lemma_release_twice<T>(entries: Seq<Option<T>>, handle: int)
    ensures
        released(released(entries, handle), handle) == released(entries, handle),
{
    assert(released(released(entries, handle), handle) =~= released(entries, handle));
}

} // verus!
