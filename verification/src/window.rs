//! The window: the noise metrics gathered since the last report, kept in a
//! max-heap so that the loudest can be taken out without sorting the rest.

use vstd::prelude::*;
use vstd::multiset::Multiset;
use crate::heap::{insert, is_max_heap, remove_root};
use crate::percentile::{
    lemma_reduction_extracts_count,
    lemma_top_sum_bound,
    lemma_without_top_len,
    max_of,
    percentile_count,
    top_average,
    top_count,
    top_sum,
    window_result,
    without_top,
};

verus! {

/// Number of slots a new window reserves. A window may grow beyond it; doing
/// so costs a reallocation and is worth a warning, nothing more.
pub const HEAP_CAPACITY: usize = 18000;

/// The metrics of one window. Its view is the multiset of metrics it holds.
pub struct Window {
    heap: Vec<u8>,
}

impl View for Window {
    type V = Multiset<u8>;

    closed spec fn view(&self) -> Multiset<u8> {
        self.heap@.to_multiset()
    }
}

impl Window {
    #[verifier::type_invariant]
    spec fn well_formed(self) -> bool {
        is_max_heap(self.heap@)
    }

    /// An empty window with `HEAP_CAPACITY` slots reserved.
    pub fn new() -> (window: Window)
        ensures
            window@ == Multiset::<u8>::empty(),
    {
        let heap: Vec<u8> = Vec::with_capacity(HEAP_CAPACITY);
        assert(heap@.to_multiset() =~= Multiset::<u8>::empty()) by {
            vstd::seq_lib::to_multiset_len(heap@);
        }
        Window { heap }
    }

    /// Number of metrics held.
    pub fn len(&self) -> (len: usize)
        ensures
            len == self@.len(),
    {
        proof {
            vstd::seq_lib::to_multiset_len(self.heap@);
        }
        self.heap.len()
    }

    /// Whether the window holds no metric.
    pub fn is_empty(&self) -> (empty: bool)
        ensures
            empty == (self@.len() == 0),
    {
        self.len() == 0
    }

    /// Whether the window has outgrown the slots it reserved.
    pub fn exceeds_capacity(&self) -> (exceeded: bool)
        ensures
            exceeded == (self@.len() > HEAP_CAPACITY),
    {
        self.len() > HEAP_CAPACITY
    }

    /// Adds one metric. Nothing is ever dropped to make room.
    pub fn push(&mut self, metric: u8)
        ensures
            final(self)@ == old(self)@.insert(metric),
    {
        proof {
            use_type_invariant(&*self);
        }
        // The vector is moved out while the heap is repaired, so that the
        // window never holds a heap half repaired.
        let mut heap: Vec<u8> = Vec::new();
        core::mem::swap(&mut self.heap, &mut heap);
        insert(&mut heap, metric);
        self.heap = heap;
    }

    /// Takes out the greatest metric, if there is any.
    pub fn pop(&mut self) -> (top: Option<u8>)
        ensures
            old(self)@.len() == 0 ==> top is None && final(self)@ == old(self)@,
            old(self)@.len() > 0 ==> top == Some(max_of(old(self)@)) && final(self)@ == old(
                self,
            )@.remove(max_of(old(self)@)),
    {
        proof {
            use_type_invariant(&*self);
            vstd::seq_lib::to_multiset_len(self.heap@);
        }
        let mut heap: Vec<u8> = Vec::new();
        core::mem::swap(&mut self.heap, &mut heap);
        let top: Option<u8> = remove_root(&mut heap);
        self.heap = heap;
        top
    }

    /// Empties the window.
    pub fn clear(&mut self)
        ensures
            final(self)@ == Multiset::<u8>::empty(),
    {
        let mut heap: Vec<u8> = Vec::new();
        core::mem::swap(&mut self.heap, &mut heap);
        heap.clear();
        assert(heap@.to_multiset() =~= Multiset::<u8>::empty()) by {
            vstd::seq_lib::to_multiset_len(heap@);
        }
        self.heap = heap;
    }

    /// Takes out the `count` greatest metrics, or all of them where the window
    /// holds fewer, and returns their sum.
    pub fn drain_top(&mut self, count: usize) -> (sum: u128)
        ensures
            sum == top_sum(old(self)@, count as nat),
            final(self)@ == without_top(old(self)@, count as nat),
            final(self)@.len() == old(self)@.len() - (if count <= old(self)@.len() {
                count as nat
            } else {
                old(self)@.len()
            }),
    {
        proof {
            lemma_without_top_len(self@, count as nat);
        }
        let mut sum: u128 = 0;
        let mut taken: usize = 0;
        while taken < count
            invariant
                taken <= count,
                sum <= 255 * taken,
                sum + top_sum(self@, (count - taken) as nat) == top_sum(old(self)@, count as nat),
                without_top(self@, (count - taken) as nat) == without_top(
                    old(self)@,
                    count as nat,
                ),
            ensures
                sum == top_sum(old(self)@, count as nat),
                self@ == without_top(old(self)@, count as nat),
            decreases count - taken,
        {
            match self.pop() {
                None => {
                    break ;
                },
                Some(metric) => {
                    sum = sum + metric as u128;
                    taken = taken + 1;
                },
            }
        }
        sum
    }

    /// Takes out the `count` greatest metrics and returns their average,
    /// rounded down. The divisor is `count` even where the window ran out
    /// first. With a `count` of zero nothing is taken and there is no average.
    pub fn average_top(&mut self, count: usize) -> (average: Option<u8>)
        ensures
            average == top_average(old(self)@, count as nat),
            final(self)@ == without_top(old(self)@, count as nat),
    {
        if count == 0 {
            return None;
        }
        let sum: u128 = self.drain_top(count);
        proof {
            lemma_top_sum_bound(old(self)@, count as nat);
        }
        Some((sum / (count as u128)) as u8)
    }

    /// Takes out the loudest five percent of the window and returns their
    /// average. A window of fewer than twenty metrics has no result and is
    /// left as it is.
    pub fn reduce(&mut self) -> (result: Option<u8>)
        ensures
            result == window_result(old(self)@),
            final(self)@ == without_top(old(self)@, top_count(old(self)@.len())),
            final(self)@.len() == old(self)@.len() - top_count(old(self)@.len()),
    {
        proof {
            lemma_reduction_extracts_count(self@);
        }
        let count: usize = percentile_count(self.len());
        self.average_top(count)
    }
}

} // verus!
