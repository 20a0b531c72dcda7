use vstd::prelude::*;

verus! {

/// A model of the reader-writer lock discipline that guards the shared
/// cache: at any instant either any number of shared (read) holders and no
/// exclusive holder, or exactly one exclusive (write) holder and no shared
/// holders. A holder that fails while holding exclusive access leaves the
/// lock poisoned, and a poisoned lock grants no further access.
///
/// `new` establishes the mutual exclusion invariant `wf` and every
/// transition preserves it, so the invariant holds in every reachable state.
pub struct RwLockState {
    /// How many tasks currently hold shared (read) access.
    pub readers: usize,
    /// Whether a task currently holds exclusive (write) access.
    pub writer: bool,
    /// Whether a holder failed while holding the lock, breaking it for good.
    pub poisoned: bool,
}

impl RwLockState {
    /// The mutual exclusion invariant: an exclusive holder excludes every
    /// shared holder, so readers and a writer are never active together.
    pub open spec fn wf(&self) -> bool {
        self.writer ==> self.readers == 0
    }

    /// A fresh lock: unheld and healthy.
    pub fn new() -> (s: Self)
        ensures
            s.wf(),
            s.readers == 0,
            !s.writer,
            !s.poisoned,
    {
        RwLockState { readers: 0, writer: false, poisoned: false }
    }

    /// One step of a task asking for shared access: granted exactly when no
    /// exclusive holder is active and the lock is healthy. A refused task
    /// observes no change and may ask again (modelling a blocked waiter).
    pub fn try_acquire_read(&mut self) -> (granted: bool)
        requires
            old(self).wf(),
            old(self).readers < usize::MAX,
        ensures
            final(self).wf(),
            granted == (!old(self).writer && !old(self).poisoned),
            granted ==> *final(self) == (RwLockState {
                readers: (old(self).readers + 1) as usize,
                ..*old(self)
            }),
            !granted ==> *final(self) == *old(self),
    {
        if !self.writer && !self.poisoned {
            self.readers = self.readers + 1;
            true
        } else {
            false
        }
    }

    /// A shared holder lets go; the lock is otherwise untouched.
    pub fn release_read(&mut self)
        requires
            old(self).wf(),
            old(self).readers > 0,
        ensures
            final(self).wf(),
            *final(self) == (RwLockState { readers: (old(self).readers - 1) as usize, ..*old(self) }),
    {
        self.readers = self.readers - 1;
    }

    /// One step of a task asking for exclusive access: granted exactly when
    /// every shared holder has drained, no other exclusive holder is active,
    /// and the lock is healthy. A refused task observes no change and may
    /// ask again (modelling a blocked waiter).
    pub fn try_acquire_write(&mut self) -> (granted: bool)
        requires
            old(self).wf(),
        ensures
            final(self).wf(),
            granted == (old(self).readers == 0 && !old(self).writer && !old(self).poisoned),
            granted ==> *final(self) == (RwLockState { writer: true, ..*old(self) }),
            !granted ==> *final(self) == *old(self),
    {
        if self.readers == 0 && !self.writer && !self.poisoned {
            self.writer = true;
            true
        } else {
            false
        }
    }

    /// The exclusive holder lets go; the lock is otherwise untouched.
    pub fn release_write(&mut self)
        requires
            old(self).wf(),
            old(self).writer,
        ensures
            final(self).wf(),
            *final(self) == (RwLockState { writer: false, ..*old(self) }),
    {
        self.writer = false;
    }

    /// The exclusive holder fails while holding the lock: its access ends,
    /// but the lock is left broken and surfaces that to every later
    /// acquirer, which is refused rather than handed possibly torn data.
    pub fn poison_write(&mut self)
        requires
            old(self).wf(),
            old(self).writer,
        ensures
            final(self).wf(),
            *final(self) == (RwLockState { writer: false, poisoned: true, ..*old(self) }),
    {
        self.writer = false;
        self.poisoned = true;
    }
}

/// Mutual exclusion invariant: in any well-formed lock state the set of
/// active accessors is either zero or more readers, or exactly one writer —
/// never both nonempty at once. Since `new` establishes `wf` and every
/// transition preserves it, this holds of every reachable state.
pub proof fn lemma_mutual_exclusion(s: RwLockState)
    requires
        s.wf(),
    ensures
        !(s.writer && s.readers > 0),
{
}

} // verus!
