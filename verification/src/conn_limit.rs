//! Admission control of the threaded file server: at most a given number
//! of connections are handled at once.
use vstd::prelude::*;

verus! {

/// The number of connections being handled.
pub struct ConnectionLimit {
    active_connections: usize,
}

impl ConnectionLimit {
    pub closed spec fn active(&self) -> nat {
        self.active_connections as nat
    }

    /// No connection is active.
    pub fn new() -> (res: Self)
        ensures
            res.active() == 0,
    {
        Self { active_connections: 0 }
    }

    pub fn active_connections(&self) -> (res: usize)
        ensures
            res == self.active(),
    {
        self.active_connections
    }

    /// Admits one more connection when fewer than `limit` are active; a
    /// caller that is refused waits for a release and tries again.
    pub fn acquire(&mut self, limit: usize) -> (res: bool)
        ensures
            res == (old(self).active() < limit),
            res ==> final(self).active() == old(self).active() + 1,
            !res ==> final(self).active() == old(self).active(),
            old(self).active() <= limit ==> final(self).active() <= limit,
    {
        if self.active_connections >= limit {
            false
        } else {
            self.active_connections = self.active_connections + 1;
            true
        }
    }

    /// A connection is done.
    pub fn release(&mut self)
        requires
            old(self).active() > 0,
        ensures
            final(self).active() == old(self).active() - 1,
    {
        self.active_connections = self.active_connections - 1;
    }
}

} // verus!
