use vstd::prelude::*;

verus! {

/// The value of the owner field when nobody holds the lock.
pub const NO_OWNER: usize = usize::MAX;

/// A spinlock that the core holding it can take again. The core is named by its id.
pub struct RawReentrantSpinlock {
    user: usize,
    lock: bool,
}

impl RawReentrantSpinlock {
    /// A core owns the lock only while the lock flag is set. The flag may be set with no owner
    /// yet: a core has set it and not yet written its id.
    #[verifier::type_invariant]
    spec fn owner_holds_flag(self) -> bool {
        self.user != NO_OWNER ==> self.lock
    }

    /// The core that holds the lock, if any.
    pub closed spec fn holder(&self) -> Option<usize> {
        if self.user == NO_OWNER {
            None
        } else {
            Some(self.user)
        }
    }

    /// The lock flag is set.
    pub closed spec fn locked(&self) -> bool {
        self.lock
    }

    /// A lock nobody holds.
    pub fn new() -> (l: Self)
        ensures
            l.holder() is None,
            !l.locked(),
    {
        RawReentrantSpinlock { user: NO_OWNER, lock: false }
    }

    /// Tries to take the lock for core `my_id`: succeeds when that core already holds it, or
    /// when the lock is free (no owner, flag clear). Otherwise nothing changes.
    pub fn try_lock(&mut self, my_id: usize) -> (b: bool)
        requires
            my_id != NO_OWNER,
        ensures
            b == (old(self).holder() == Some(my_id) || (old(self).holder() is None && !old(self).locked())),
            b ==> final(self).holder() == Some(my_id) && final(self).locked(),
            !b ==> final(self).holder() == old(self).holder() && final(self).locked() == old(self).locked(),
    {
        proof {
            use_type_invariant(&*self);
        }
        if self.user == my_id {
            // Already locked by this core: reenter the spinlock.
            return true;
        }
        if !self.lock {
            self.lock = true;
            if self.user == NO_OWNER {
                self.user = my_id;
                return true;
            }
            return false;
        }
        false
    }

    /// Releases the lock.
    pub fn unlock(&mut self)
        ensures
            final(self).holder() is None,
            !final(self).locked(),
    {
        self.user = NO_OWNER;
        self.lock = false;
    }
}

} // verus!
