//! Pacing of the sampling loop: after every burst of back-to-back reads the
//! sampler owes the rest of the system a short pause.

use vstd::prelude::*;

verus! {

/// Number of reads taken back to back before the sampler pauses.
pub const NUM_CONTIGUOUS_READS: usize = 20000;

/// Length of the pause between two bursts, in milliseconds.
pub const DELAY_BETWEEN_CONTIGUOUS_READS: u32 = 10;

/// The read counter of the sampling loop. Its view is the number of reads
/// taken since the last pause.
pub struct Sampler {
    reads: usize,
}

impl View for Sampler {
    type V = nat;

    closed spec fn view(&self) -> nat {
        self.reads as nat
    }
}

/// The counter after one more read, and the pause that read brings due.
pub open spec fn paced(reads: nat) -> (nat, Option<u32>) {
    if reads + 1 >= NUM_CONTIGUOUS_READS {
        (0, Some(DELAY_BETWEEN_CONTIGUOUS_READS))
    } else {
        (reads + 1, None)
    }
}

/// The counter after `n` reads of a sampler that starts at `reads`.
pub open spec fn paced_times(reads: nat, n: nat) -> nat
    decreases n,
{
    if n == 0 {
        reads
    } else {
        paced(paced_times(reads, (n - 1) as nat)).0
    }
}

/// A new sampler has counted `n % NUM_CONTIGUOUS_READS` reads after `n` of
/// them, so a pause falls due at every read whose number is a multiple of the
/// burst length, and at no other.
pub proof fn lemma_pause_every_burst(n: nat)
    ensures
        paced_times(0, n) == n % (NUM_CONTIGUOUS_READS as nat),
        paced(paced_times(0, n)).1 is Some <==> (n + 1) % (NUM_CONTIGUOUS_READS as nat) == 0,
    decreases n,
{
    if n > 0 {
        lemma_pause_every_burst((n - 1) as nat);
    }
}

impl Sampler {
    #[verifier::type_invariant]
    spec fn well_formed(self) -> bool {
        self.reads < NUM_CONTIGUOUS_READS
    }

    /// A sampler that has taken no read yet.
    pub fn new() -> (sampler: Sampler)
        ensures
            sampler@ == 0,
    {
        Sampler { reads: 0 }
    }

    /// Number of reads taken since the last pause.
    pub fn reads(&self) -> (reads: usize)
        ensures
            reads == self@,
            reads < NUM_CONTIGUOUS_READS,
    {
        proof {
            use_type_invariant(self);
        }
        self.reads
    }

    /// Counts one read. Returns the pause, in milliseconds, that the caller
    /// owes before the next read, if this read completed a burst.
    pub fn record_read(&mut self) -> (pause: Option<u32>)
        ensures
            (final(self)@, pause) == paced(old(self)@),
    {
        proof {
            use_type_invariant(&*self);
        }
        let reads: usize = self.reads + 1;
        if reads >= NUM_CONTIGUOUS_READS {
            self.reads = 0;
            Some(DELAY_BETWEEN_CONTIGUOUS_READS)
        } else {
            self.reads = reads;
            None
        }
    }
}

} // verus!
