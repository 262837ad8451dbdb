use vstd::prelude::*;

verus! {

/// The drain barrier's bookkeeping: a counter that starts at one unit per
/// pipeline stage and reaches zero when both stages have exited. Blocking on
/// it is the embedding program's affair; the counter itself is the model the
/// shutdown law speaks of.
pub struct FastLogWaitGroup {
    pub count: u64,
}

impl FastLogWaitGroup {
    /// One unit for the ingest stage and one for the sink stage.
    pub fn new() -> (r: FastLogWaitGroup)
        ensures
            r.count == 2,
    {
        FastLogWaitGroup { count: 2 }
    }

    /// Takes more stages into account before they start.
    pub fn add(&mut self, n: u64)
        requires
            old(self).count + n <= u64::MAX,
        ensures
            final(self).count == old(self).count + n,
    {
        self.count = self.count + n;
    }

    /// A stage reports that it has exited.
    pub fn done(&mut self)
        requires
            old(self).count > 0,
        ensures
            final(self).count == old(self).count - 1,
    {
        self.count = self.count - 1;
    }

    /// Whether every stage has exited; a blocking `wait` returns exactly when
    /// this holds.
    pub fn is_done(&self) -> (r: bool)
        ensures
            r == (self.count == 0),
    {
        self.count == 0
    }
}

} // verus!
