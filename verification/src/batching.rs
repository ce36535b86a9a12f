//! How interactive search hands commands to the finder: the first one alone,
//! so that something shows at once, then in batches of [`BATCH_SIZE`].

use vstd::prelude::*;

verus! {

/// How many commands a batch holds once the first has been sent.
pub const BATCH_SIZE: usize = 256;

/// The state of the batching: how many commands wait in the current batch,
/// and how many make it full.
pub struct Batching {
    pending: usize,
    threshold: usize,
    pushed: Ghost<nat>,
}

impl Batching {
    #[verifier::type_invariant]
    spec fn well_formed(self) -> bool {
        &&& self.threshold == if self.pushed@ == 0 {
            1
        } else {
            BATCH_SIZE
        }
        &&& self.pending == if self.pushed@ == 0 {
            0
        } else {
            (self.pushed@ - 1) as nat % (BATCH_SIZE as nat)
        }
    }

    /// How many commands wait in the current batch.
    pub closed spec fn pending(self) -> nat {
        self.pending as nat
    }

    /// How many commands have joined a batch so far.
    pub closed spec fn pushed(self) -> nat {
        self.pushed@
    }

    /// How many commands make the current batch full.
    pub closed spec fn threshold(self) -> nat {
        self.threshold as nat
    }

    /// No command yet; the first batch is full with one.
    pub fn new() -> (b: Batching)
        ensures
            b.pending() == 0,
            b.threshold() == 1,
            b.pushed() == 0,
    {
        Batching { pending: 0, threshold: 1, pushed: Ghost(0) }
    }

    /// A command joins the current batch. Returns whether the batch is full
    /// and goes to the finder now; a new batch then begins, full at
    /// [`BATCH_SIZE`]. So every batch sent holds one command (the first) or
    /// [`BATCH_SIZE`] of them.
    pub fn push(&mut self) -> (send: bool)
        ensures
            send <==> old(self).pending() + 1 == old(self).threshold(),
            old(self).threshold() == 1 || old(self).threshold() == BATCH_SIZE,
            final(self).pushed() == old(self).pushed() + 1,
            send <==> old(self).pushed() % (BATCH_SIZE as nat) == 0,
            send ==> final(self).pending() == 0 && final(self).threshold() == BATCH_SIZE,
            !send ==> final(self).pending() == old(self).pending() + 1 && final(self).threshold()
                == old(self).threshold(),
    {
        proof {
            use_type_invariant(&*self);
        }
        let ghost k = self.pushed@;
        if self.pending + 1 < self.threshold {
            proof {
                lemma_next_pending(k);
            }
            *self = Batching {
                pending: self.pending + 1,
                threshold: self.threshold,
                pushed: Ghost(k + 1),
            };
            false
        } else {
            proof {
                lemma_next_pending(k);
            }
            *self = Batching { pending: 0, threshold: BATCH_SIZE, pushed: Ghost(k + 1) };
            true
        }
    }

    /// Whether commands wait that were not sent yet.
    pub fn has_pending(&self) -> (r: bool)
        ensures
            r <==> self.pending() > 0,
    {
        self.pending > 0
    }
}

/// The `k + 1`-th command fills a batch exactly when `k` is a multiple of
/// [`BATCH_SIZE`]: the first command alone, then every [`BATCH_SIZE`] more.
proof fn lemma_next_pending(k: nat)
    ensures
        k > 0 ==> ((k - 1) as nat % 256 + 1 == 256 <==> k % 256 == 0),
        k > 0 && k % 256 != 0 ==> k % 256 == (k - 1) as nat % 256 + 1,
{
}

} // verus!
