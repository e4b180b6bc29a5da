//! A lock against re-entry: while a call runs under the lock, the lock is
//! closed.

use vstd::prelude::*;

verus! {

/// The lock. It is open while `unlocked` is set.
pub struct LockContract {
    /// Whether the lock is open.
    pub unlocked: bool,
}

impl Default for LockContract {
    fn default() -> (r: LockContract)
        ensures
            !r.unlocked,
    {
        LockContract { unlocked: false }
    }
}

impl LockContract {
    /// Runs `f` with the lock closed, and opens the lock again. The lock
    /// must be open.
    pub fn lock<F: FnOnce()>(&mut self, f: F)
        requires
            old(self).unlocked,
            f.requires(()),
        ensures
            final(self).unlocked,
            f.ensures((), ()),
    {
        self.unlocked = false;
        f();
        self.unlocked = true;
    }

    /// Runs `f` with the lock closed and opens the lock again, if the lock is
    /// open; says whether it was. With the lock closed, `f` is not run and
    /// the lock stays closed.
    pub fn try_lock<F: FnOnce()>(&mut self, f: F) -> (ran: bool)
        requires
            f.requires(()),
        ensures
            ran == old(self).unlocked,
            final(self).unlocked == old(self).unlocked,
            ran ==> f.ensures((), ()),
    {
        if !self.unlocked {
            return false;
        }
        self.lock(f);
        true
    }

    /// Runs nothing under the lock. The lock must be open.
    pub fn some_thing(&mut self)
        requires
            old(self).unlocked,
        ensures
            final(self).unlocked,
    {
        self.lock(|| {});
    }
}

} // verus!
