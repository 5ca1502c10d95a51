//! The locked state of a wallet.

use vstd::prelude::*;

verus! {

/// An observer of the locked state.
pub trait LockCallback: Send + Sync {
    /// Whether the observer may be told that the state is now `is_locked`.
    spec fn accepts(&self, is_locked: bool) -> bool;

    /// Tells the observer that the state is now `is_locked`.
    fn notify(&self, is_locked: bool)
        requires
            self.accepts(is_locked),
    ;
}

impl<F: Fn(bool) + Send + Sync> LockCallback for F {
    open spec fn accepts(&self, is_locked: bool) -> bool {
        call_requires(*self, (is_locked,))
    }

    fn notify(&self, is_locked: bool) {
        self(is_locked)
    }
}

/// The locked state of a wallet. It changes only through [`Self::lock`] and
/// [`Self::unlock`]. An observer can be set; it is told of every change, and
/// of nothing else.
pub struct WalletLock {
    is_locked: bool,
    update_callback: Option<Box<dyn LockCallback>>,
}

impl WalletLock {
    /// The observer, if there is one, may be told of either state.
    #[verifier::type_invariant]
    spec fn observer_accepts_all(&self) -> bool {
        match self.update_callback {
            Some(callback) => forall|is_locked: bool| callback.accepts(is_locked),
            None => true,
        }
    }

    /// Whether the wallet is locked.
    pub closed spec fn locked(&self) -> bool {
        self.is_locked
    }

    /// Whether an observer is set.
    pub closed spec fn observed(&self) -> bool {
        self.update_callback is Some
    }

    /// A lock in the given state, without an observer.
    pub fn new(is_locked: bool) -> (lock: Self)
        ensures
            lock.locked() == is_locked,
            !lock.observed(),
    {
        WalletLock { is_locked, update_callback: None }
    }

    /// Tells the observer, if there is one, what the state is.
    fn call_update_callback(&self) {
        proof {
            use_type_invariant(self);
        }
        if let Some(update_callback) = &self.update_callback {
            update_callback.notify(self.is_locked)
        }
    }

    pub fn is_locked(&self) -> (locked: bool)
        ensures
            locked == self.locked(),
    {
        self.is_locked
    }

    /// Locks the wallet. The observer is told if the wallet was unlocked.
    pub fn lock(&mut self)
        ensures
            final(self).locked(),
            final(self).observed() == old(self).observed(),
    {
        if self.is_locked {
            return ;
        }
        proof {
            use_type_invariant(&*self);
        }
        self.is_locked = true;
        self.call_update_callback();
    }

    /// Unlocks the wallet. The observer is told if the wallet was locked.
    pub fn unlock(&mut self)
        ensures
            !final(self).locked(),
            final(self).observed() == old(self).observed(),
    {
        if !self.is_locked {
            return ;
        }
        proof {
            use_type_invariant(&*self);
        }
        self.is_locked = false;
        self.call_update_callback();
    }

    /// Sets the observer, in place of the one that was set before. The
    /// observer must be one that can be called with either state.
    pub fn set_lock_callback<F>(&mut self, callback: F) where F: Fn(bool) + Send + Sync + 'static
        requires
            forall|is_locked: bool| call_requires(callback, (is_locked,)),
        ensures
            final(self).locked() == old(self).locked(),
            final(self).observed(),
    {
        self.update_callback = Some(Box::new(callback));
    }

    /// Takes the observer away.
    pub fn clear_lock_callback(&mut self)
        ensures
            final(self).locked() == old(self).locked(),
            !final(self).observed(),
    {
        self.update_callback = None;
    }
}

} // verus!
