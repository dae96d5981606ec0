//! Admission of new connections: a cap on concurrent connections and on new
//! connections per wall-clock second, with the connection counters.
use vstd::prelude::*;

verus! {

/// `a + 1`, saturated at the largest `u64`.
pub open spec fn inc(a: u64) -> u64 {
    if a == u64::MAX {
        a
    } else {
        (a + 1) as u64
    }
}

/// The admission limits and the connection counters.
pub struct Admission {
    /// 0 means unlimited.
    pub max_connections: usize,
    /// New connections per second; 0 means unlimited.
    pub rate_limit: u64,
    pub active: usize,
    pub total: u64,
    pub rejected: u64,
    /// The second that `this_second` counts.
    pub last_check: u64,
    pub this_second: u64,
}

impl Admission {
    /// No connection yet, under these limits.
    pub fn new(max_connections: usize, rate_limit: u64) -> (r: Self)
        ensures
            r.max_connections == max_connections,
            r.rate_limit == rate_limit,
            r.active == 0,
            r.total == 0,
            r.rejected == 0,
            r.last_check == 0,
            r.this_second == 0,
    {
        Admission {
            max_connections,
            rate_limit,
            active: 0,
            total: 0,
            rejected: 0,
            last_check: 0,
            this_second: 0,
        }
    }

    /// The rate check for a connection at second `now`: a later second than
    /// the last one seen starts a new count at 1 and admits; within the same
    /// second the count grows and the connection is admitted while the count
    /// before it was under the limit. Without a limit every connection is
    /// admitted.
    pub fn check_rate_limit(&mut self, now: u64) -> (r: bool)
        ensures
            final(self).max_connections == old(self).max_connections,
            final(self).rate_limit == old(self).rate_limit,
            final(self).active == old(self).active,
            final(self).total == old(self).total,
            final(self).rejected == old(self).rejected,
            old(self).rate_limit == 0 ==> r && *final(self) == *old(self),
            old(self).rate_limit > 0 && now > old(self).last_check ==> r && final(self).last_check
                == now && final(self).this_second == 1,
            old(self).rate_limit > 0 && now <= old(self).last_check ==> final(self).last_check == old(
                self,
            ).last_check && final(self).this_second == inc(old(self).this_second) && r == (old(
                self,
            ).this_second < old(self).rate_limit),
    {
        if self.rate_limit == 0 {
            return true;
        }
        if now > self.last_check {
            self.last_check = now;
            self.this_second = 1;
            return true;
        }
        let count = self.this_second;
        self.this_second = self.this_second.saturating_add(1);
        count < self.rate_limit
    }

    /// Decides on a new connection at second `now`: refused (and counted as
    /// refused) when the concurrent cap is reached or the rate check fails.
    pub fn try_admit(&mut self, now: u64) -> (r: bool)
        ensures
            final(self).max_connections == old(self).max_connections,
            final(self).rate_limit == old(self).rate_limit,
            final(self).active == old(self).active,
            final(self).total == old(self).total,
            old(self).max_connections > 0 && old(self).active >= old(self).max_connections ==> !r
                && final(self).rejected == inc(old(self).rejected) && final(self).last_check == old(
                self,
            ).last_check && final(self).this_second == old(self).this_second,
            !(old(self).max_connections > 0 && old(self).active >= old(self).max_connections) ==> (
            r == (old(self).rate_limit == 0 || now > old(self).last_check || old(self).this_second
                < old(self).rate_limit)) && final(self).rejected == (if r {
                old(self).rejected
            } else {
                inc(old(self).rejected)
            }) && final(self).last_check == (if old(self).rate_limit > 0 && now > old(
                self,
            ).last_check {
                now
            } else {
                old(self).last_check
            }) && final(self).this_second == (if old(self).rate_limit == 0 {
                old(self).this_second
            } else if now > old(self).last_check {
                1
            } else {
                inc(old(self).this_second)
            }),
    {
        if self.max_connections > 0 && self.active >= self.max_connections {
            self.rejected = self.rejected.saturating_add(1);
            return false;
        }
        if !self.check_rate_limit(now) {
            self.rejected = self.rejected.saturating_add(1);
            return false;
        }
        true
    }

    /// Counts a connection that starts being served.
    pub fn connection_opened(&mut self)
        ensures
            final(self).total == inc(old(self).total),
            final(self).active == (if old(self).active == usize::MAX {
                old(self).active
            } else {
                (old(self).active + 1) as usize
            }),
            final(self).rejected == old(self).rejected,
    {
        self.total = self.total.saturating_add(1);
        self.active = self.active.saturating_add(1);
    }

    /// Counts a connection that ended.
    pub fn connection_closed(&mut self)
        ensures
            final(self).active == (if old(self).active == 0 {
                0
            } else {
                (old(self).active - 1) as usize
            }),
            final(self).total == old(self).total,
            final(self).rejected == old(self).rejected,
    {
        self.active = self.active.saturating_sub(1);
    }
}

} // verus!
