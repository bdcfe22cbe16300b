//! The admission rule for connections: at most `ceiling` are handled at once.
//! A caller holds one `WorkerLimit` behind a lock and asks it, under that one
//! lock, whether a new connection may start; the check and the count move
//! together, so the ceiling is never passed.
use vstd::prelude::*;

verus! {

/// The count after one more connection arrives, and whether it was admitted.
pub open spec fn admit_spec(live: nat, ceiling: nat) -> (nat, bool) {
    if live < ceiling {
        ((live + 1) as nat, true)
    } else {
        (live, false)
    }
}

/// `n` connections arrive while none ends: the count after them, and how many
/// were admitted.
pub open spec fn admit_many(live: nat, ceiling: nat, n: nat) -> (nat, nat)
    decreases n,
{
    if n == 0 {
        (live, 0)
    } else {
        let before = admit_many(live, ceiling, (n - 1) as nat);
        let step = admit_spec(before.0, ceiling);
        (step.0, before.1 + if step.1 {
            1nat
        } else {
            0nat
        })
    }
}

pub open spec fn min_nat(a: nat, b: nat) -> nat {
    if a < b {
        a
    } else {
        b
    }
}

#[derive(Debug)]
pub struct WorkerLimit {
    live: usize,
    ceiling: usize,
}

impl WorkerLimit {
    pub closed spec fn live_count(&self) -> nat {
        self.live as nat
    }

    pub closed spec fn max_live(&self) -> nat {
        self.ceiling as nat
    }

    pub closed spec fn wf(&self) -> bool {
        self.live <= self.ceiling
    }

    pub fn new(ceiling: usize) -> (r: WorkerLimit)
        ensures
            r.wf(),
            r.live_count() == 0,
            r.max_live() == ceiling,
    {
        WorkerLimit { live: 0, ceiling }
    }

    /// How many connections are being handled.
    pub fn live(&self) -> (r: usize)
        ensures
            r == self.live_count(),
    {
        self.live
    }

    /// A connection arrived: admit it, counting it, if fewer than the
    /// ceiling are live; else refuse it and count nothing.
    pub fn try_admit(&mut self) -> (admitted: bool)
        requires
            old(self).wf(),
        ensures
            final(self).wf(),
            final(self).max_live() == old(self).max_live(),
            (final(self).live_count(), admitted) == admit_spec(old(self).live_count(), old(self).max_live()),
    {
        if self.live < self.ceiling {
            self.live = self.live + 1;
            true
        } else {
            false
        }
    }

    /// An admitted connection ended, however its handling went.
    pub fn release(&mut self)
        requires
            old(self).wf(),
            old(self).live_count() > 0,
        ensures
            final(self).wf(),
            final(self).max_live() == old(self).max_live(),
            final(self).live_count() == old(self).live_count() - 1,
    {
        self.live = self.live - 1;
    }
}

/// When `n` connections arrive at once with none live, exactly
/// `min(n, ceiling)` are admitted and the rest are refused.
pub proof fn lemma_admissions(ceiling: nat, n: nat)
    ensures
        admit_many(0, ceiling, n) == (min_nat(n, ceiling), min_nat(n, ceiling)),
    decreases n,
{
    if n > 0 {
        lemma_admissions(ceiling, (n - 1) as nat);
    }
}

/// A run of events from a live count of `live`: `true` is an arrival, which
/// `try_admit` answers, `false` the end of a live connection, which `release`
/// records (ignored when none is live). The result is the live count, how
/// many were admitted and how many ended.
pub open spec fn run(live: nat, ceiling: nat, events: Seq<bool>) -> (nat, nat, nat)
    decreases events.len(),
{
    if events.len() == 0 {
        (live, 0, 0)
    } else {
        let before = run(live, ceiling, events.drop_last());
        if events.last() {
            let step = admit_spec(before.0, ceiling);
            (step.0, before.1 + if step.1 {
                1nat
            } else {
                0nat
            }, before.2)
        } else if before.0 > 0 {
            ((before.0 - 1) as nat, before.1, (before.2 + 1) as nat)
        } else {
            before
        }
    }
}

/// Whatever the order of arrivals and ends, starting with none live, the
/// live count is what was admitted less what ended, it never passes the
/// ceiling, and it is zero once every admitted connection has ended.
pub proof fn lemma_run_balance(events: Seq<bool>, ceiling: nat)
    ensures
        run(0, ceiling, events).0 + run(0, ceiling, events).2 == run(0, ceiling, events).1,
        run(0, ceiling, events).0 <= ceiling,
        run(0, ceiling, events).2 == run(0, ceiling, events).1 ==> run(0, ceiling, events).0 == 0,
    decreases events.len(),
{
    if events.len() > 0 {
        lemma_run_balance(events.drop_last(), ceiling);
    }
}

impl WorkerLimit {
    /// Feeds a run of events through `try_admit` and `release`, in order:
    /// `true` is an arrival, `false` the end of a live connection (ignored
    /// when none is live). Returns how many were admitted and how many ended.
    pub fn apply_events(&mut self, events: &Vec<bool>) -> (r: (usize, usize))
        requires
            old(self).wf(),
        ensures
            final(self).wf(),
            final(self).max_live() == old(self).max_live(),
            (final(self).live_count(), r.0 as nat, r.1 as nat) == run(
                old(self).live_count(),
                old(self).max_live(),
                events@,
            ),
    {
        let ghost live0 = self.live_count();
        let mut admitted: usize = 0;
        let mut ended: usize = 0;
        let mut i: usize = 0;
        assert(events@.subrange(0, 0) =~= Seq::<bool>::empty());
        while i < events.len()
            invariant
                0 <= i <= events@.len(),
                self.wf(),
                self.max_live() == old(self).max_live(),
                live0 == old(self).live_count(),
                admitted <= i,
                ended <= i,
                (self.live_count(), admitted as nat, ended as nat) == run(
                    live0,
                    self.max_live(),
                    events@.subrange(0, i as int),
                ),
            decreases events@.len() - i,
        {
            assert(events@.subrange(0, i + 1).drop_last() =~= events@.subrange(0, i as int));
            if events[i] {
                if self.try_admit() {
                    admitted = admitted + 1;
                }
            } else if self.live() > 0 {
                self.release();
                ended = ended + 1;
            }
            i = i + 1;
        }
        assert(events@.subrange(0, events@.len() as int) =~= events@);
        (admitted, ended)
    }
}

} // verus!
