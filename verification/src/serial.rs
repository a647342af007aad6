//! Serial numbers for the engines of one process.

use vstd::prelude::*;

verus! {

/// The source of the serial numbers of a process. It counts up from 0, and
/// starts over only after every number has been given out.
pub struct PhazerIds {
    next: usize,
}

impl View for PhazerIds {
    type V = usize;

    /// The number that is given out next.
    closed spec fn view(&self) -> usize {
        self.next
    }
}

/// The number that follows `id`.
pub open spec fn following(id: usize) -> usize {
    if id == usize::MAX {
        0
    } else {
        (id + 1) as usize
    }
}

/// The number that follows is another number, and the larger one until
/// every number has been given out: two engines made one after the other
/// never share a serial number, and the later one has the larger.
pub proof fn lemma_following_differs(id: usize)
    ensures
        following(id) != id,
        id < usize::MAX ==> following(id) == id + 1,
{
}

/// The number that is given out `calls` calls after `id` was.
pub open spec fn later(id: usize, calls: nat) -> usize
    decreases calls,
{
    if calls == 0 {
        id
    } else {
        following(later(id, (calls - 1) as nat))
    }
}

/// Until every number has been given out, each call gives out a larger one:
/// the number given out `calls` calls after `id` is `id + calls`, so that no
/// two engines of a process share a serial number and the engine that is
/// made later has the larger one.
pub proof fn lemma_later_is_larger(id: usize, calls: nat)
    requires
        id + calls <= usize::MAX,
    ensures
        later(id, calls) == id + calls,
    decreases calls,
{
    if calls > 0 {
        lemma_later_is_larger(id, (calls - 1) as nat);
    }
}

impl PhazerIds {
    /// A source that gives out 0 first.
    pub fn new() -> (ids: Self)
        ensures
            ids@ == 0,
    {
        PhazerIds { next: 0 }
    }

    /// Gives out the serial number for the next engine.
    pub fn current_phazer_id(&mut self) -> (id: usize)
        ensures
            id == old(self)@,
            final(self)@ == following(id),
    {
        let id = self.next;
        self.next = if id == usize::MAX {
            0
        } else {
            id + 1
        };
        id
    }
}

} // verus!
