//! An array-backed binary max-heap of bytes: the layout, and the two
//! repairs that restore it after an element is added or the root replaced.

use vstd::prelude::*;
use vstd::multiset::Multiset;
use crate::percentile::{is_max, lemma_max_is, max_of};

verus! {

/// Index of the parent of slot `i`.
pub open spec fn parent(i: int) -> int {
    (i - 1) / 2
}

/// The element in slot `i` does not exceed the one in its parent slot.
pub open spec fn dominated(s: Seq<u8>, i: int) -> bool {
    s[parent(i)] >= s[i]
}

/// The element in slot `i` does not exceed the one in slot `above`.
pub open spec fn capped(s: Seq<u8>, i: int, above: int) -> bool {
    s[above] >= s[i]
}

/// Every element but the root is dominated by its parent.
pub open spec fn is_max_heap(s: Seq<u8>) -> bool {
    forall|i: int| 1 <= i < s.len() ==> #[trigger] dominated(s, i)
}

/// A heap but for the element in slot `hole`, which may exceed its parent;
/// the elements below `hole` do not exceed that parent.
pub open spec fn heap_but_above(s: Seq<u8>, hole: int) -> bool {
    &&& forall|i: int| 1 <= i < s.len() && i != hole ==> #[trigger] dominated(s, i)
    &&& forall|i: int|
        1 <= i < s.len() && parent(i) == hole && hole >= 1 ==> #[trigger] capped(
            s,
            i,
            parent(hole),
        )
}

/// A heap but for the element in slot `hole`, which may be exceeded by the
/// elements just below it; those do not exceed the parent of `hole`.
pub open spec fn heap_but_below(s: Seq<u8>, hole: int) -> bool {
    &&& forall|i: int| 1 <= i < s.len() && parent(i) != hole ==> #[trigger] dominated(s, i)
    &&& forall|i: int|
        1 <= i < s.len() && parent(i) == hole && hole >= 1 ==> #[trigger] capped(
            s,
            i,
            parent(hole),
        )
}

/// The sequence `s` with the elements in slots `i` and `j` exchanged.
pub open spec fn exchanged(s: Seq<u8>, i: int, j: int) -> Seq<u8> {
    s.update(i, s[j]).update(j, s[i])
}

/// Exchanging two elements keeps the multiset of elements.
pub proof fn lemma_exchange_keeps_elements(s: Seq<u8>, i: int, j: int)
    requires
        0 <= i < s.len(),
        0 <= j < s.len(),
    ensures
        exchanged(s, i, j).to_multiset() == s.to_multiset(),
{
    let m: Multiset<u8> = s.to_multiset();
    let half: Seq<u8> = s.update(i, s[j]);
    vstd::seq_lib::to_multiset_update(s, i, s[j]);
    vstd::seq_lib::to_multiset_update(half, j, s[i]);
    vstd::seq_lib::to_multiset_contains(s, s[i]);
    vstd::seq_lib::to_multiset_contains(s, s[j]);
    assert(s.contains(s[i]));
    assert(s.contains(s[j]));
    assert(half[j] == s[j]);
    assert(m.insert(s[j]).remove(s[i]).insert(s[i]).remove(s[j]) =~= m);
}

/// The root of a heap is a maximum of its elements.
pub proof fn lemma_root_dominates(s: Seq<u8>, i: int)
    requires
        is_max_heap(s),
        0 <= i < s.len(),
    ensures
        s[0] >= s[i],
    decreases i,
{
    if i > 0 {
        assert(dominated(s, i));
        lemma_root_dominates(s, parent(i));
    }
}

/// The root of a non-empty heap is the maximum of the multiset it holds.
pub proof fn lemma_root_is_max(s: Seq<u8>)
    requires
        is_max_heap(s),
        s.len() > 0,
    ensures
        is_max(s.to_multiset(), s[0]),
{
    let m: Multiset<u8> = s.to_multiset();
    vstd::seq_lib::to_multiset_contains(s, s[0]);
    assert(s.contains(s[0]));
    assert forall|y: u8| m.contains(y) implies y <= s[0] by {
        vstd::seq_lib::to_multiset_contains(s, y);
        let at: int = choose|at: int| 0 <= at < s.len() && s[at] == y;
        lemma_root_dominates(s, at);
    }
}

/// Exchanges the elements in slots `i` and `j`.
fn exchange(v: &mut Vec<u8>, i: usize, j: usize)
    requires
        i < old(v).len(),
        j < old(v).len(),
    ensures
        final(v)@ == exchanged(old(v)@, i as int, j as int),
        final(v)@.to_multiset() == old(v)@.to_multiset(),
{
    let a: u8 = v[i];
    let b: u8 = v[j];
    v.set(i, b);
    v.set(j, a);
    proof {
        lemma_exchange_keeps_elements(old(v)@, i as int, j as int);
    }
}

/// Moves the element in slot `hole` towards the root until its parent
/// dominates it.
fn sift_up(v: &mut Vec<u8>, hole: usize)
    requires
        hole < old(v).len(),
        heap_but_above(old(v)@, hole as int),
    ensures
        is_max_heap(final(v)@),
        final(v)@.to_multiset() == old(v)@.to_multiset(),
        final(v)@.len() == old(v)@.len(),
{
    let mut at: usize = hole;
    while at > 0
        invariant
            at < v.len(),
            v@.len() == old(v)@.len(),
            v@.to_multiset() == old(v)@.to_multiset(),
            heap_but_above(v@, at as int),
        ensures
            is_max_heap(v@),
            v@.len() == old(v)@.len(),
            v@.to_multiset() == old(v)@.to_multiset(),
        decreases at,
    {
        let up: usize = (at - 1) / 2;
        if v[up] >= v[at] {
            proof {
                assert(dominated(v@, at as int));
            }
            break ;
        }
        let ghost before: Seq<u8> = v@;
        exchange(v, up, at);
        proof {
            lemma_lifted(before, at as int);
        }
        at = up;
    }
}

/// One step of `sift_up`: exchanging a too-great element with its parent
/// moves the only possible flaw one level up.
proof fn lemma_lifted(s: Seq<u8>, hole: int)
    requires
        1 <= hole < s.len(),
        heap_but_above(s, hole),
        s[parent(hole)] < s[hole],
    ensures
        heap_but_above(exchanged(s, parent(hole), hole), parent(hole)),
{
    let up: int = parent(hole);
    let t: Seq<u8> = exchanged(s, up, hole);
    assert forall|i: int| 1 <= i < t.len() && i != up implies #[trigger] dominated(t, i) by {
        if i != hole {
            assert(dominated(s, i));
            if parent(i) == hole {
                assert(capped(s, i, parent(hole)));
            }
        }
    }
    assert forall|i: int| 1 <= i < t.len() && parent(i) == up && up >= 1 implies #[trigger] capped(
        t,
        i,
        parent(up),
    ) by {
        assert(dominated(s, up));
        if i != hole {
            assert(dominated(s, i));
        }
    }
}

/// Moves the element in slot `hole` away from the root until it dominates
/// the elements just below it.
fn sift_down(v: &mut Vec<u8>, hole: usize)
    requires
        hole < old(v).len(),
        heap_but_below(old(v)@, hole as int),
    ensures
        is_max_heap(final(v)@),
        final(v)@.to_multiset() == old(v)@.to_multiset(),
        final(v)@.len() == old(v)@.len(),
{
    let len: usize = v.len();
    let mut at: usize = hole;
    while at < len / 2
        invariant
            at < len,
            len == v@.len(),
            v@.len() == old(v)@.len(),
            v@.to_multiset() == old(v)@.to_multiset(),
            heap_but_below(v@, at as int),
        ensures
            is_max_heap(v@),
            v@.len() == old(v)@.len(),
            v@.to_multiset() == old(v)@.to_multiset(),
        decreases len - at,
    {
        let left: usize = 2 * at + 1;
        let right: usize = left + 1;
        let mut child: usize = left;
        if right < len && v[right] > v[left] {
            child = right;
        }
        if v[at] >= v[child] {
            proof {
                lemma_settled(v@, at as int);
            }
            break ;
        }
        let ghost before: Seq<u8> = v@;
        exchange(v, at, child);
        proof {
            lemma_lowered(before, at as int, child as int);
        }
        at = child;
    }
}

/// The end of `sift_down`: an element that dominates the greater of the
/// elements just below it leaves no flaw.
proof fn lemma_settled(s: Seq<u8>, hole: int)
    requires
        0 <= hole,
        2 * hole + 1 < s.len(),
        heap_but_below(s, hole),
        s[hole] >= s[2 * hole + 1],
        2 * hole + 2 < s.len() ==> s[hole] >= s[2 * hole + 2],
    ensures
        is_max_heap(s),
{
    assert forall|i: int| 1 <= i < s.len() implies #[trigger] dominated(s, i) by {
        if parent(i) == hole {
            assert(i == 2 * hole + 1 || i == 2 * hole + 2);
        }
    }
}

/// One step of `sift_down`: exchanging a too-small element with the greater
/// of the elements just below it moves the only possible flaw one level down.
proof fn lemma_lowered(s: Seq<u8>, hole: int, child: int)
    requires
        0 <= hole,
        2 * hole + 1 < s.len(),
        child == 2 * hole + 1 || (child == 2 * hole + 2 && child < s.len()),
        heap_but_below(s, hole),
        s[child] >= s[2 * hole + 1],
        2 * hole + 2 < s.len() ==> s[child] >= s[2 * hole + 2],
        s[hole] < s[child],
    ensures
        heap_but_below(exchanged(s, hole, child), child),
{
    let t: Seq<u8> = exchanged(s, hole, child);
    assert(parent(child) == hole);
    assert forall|i: int| 1 <= i < t.len() && parent(i) != child implies #[trigger] dominated(
        t,
        i,
    ) by {
        if parent(i) == hole {
            assert(i == 2 * hole + 1 || i == 2 * hole + 2);
        } else if i == hole {
            assert(capped(s, child, parent(hole)));
        } else {
            assert(dominated(s, i));
        }
    }
    assert forall|i: int| 1 <= i < t.len() && parent(i) == child && child >= 1 implies #[trigger] capped(
        t,
        i,
        parent(child),
    ) by {
        assert(dominated(s, i));
    }
}

/// Dropping the root of a heap by moving the last element into its place
/// removes one occurrence of the root and leaves a flaw at the root only.
proof fn lemma_root_removed(s: Seq<u8>)
    requires
        s.len() > 0,
        is_max_heap(s),
    ensures
        s.update(0, s.last()).drop_last().to_multiset() == s.to_multiset().remove(s[0]),
        s.len() > 1 ==> heap_but_below(s.update(0, s.last()).drop_last(), 0),
{
    let m: Multiset<u8> = s.to_multiset();
    let moved: Seq<u8> = s.update(0, s.last());
    let rest: Seq<u8> = moved.drop_last();
    let end: int = s.len() - 1;
    vstd::seq_lib::to_multiset_update(s, 0, s.last());
    vstd::seq_lib::to_multiset_remove(moved, end);
    vstd::seq_lib::to_multiset_contains(s, s[0]);
    vstd::seq_lib::to_multiset_contains(s, s.last());
    assert(s.contains(s[0]));
    assert(s.contains(s.last()));
    assert(rest =~= moved.remove(end));
    assert(moved[end] == s.last());
    assert(m.insert(s.last()).remove(s[0]).remove(s.last()) =~= m.remove(s[0]));
    if s.len() > 1 {
        assert forall|i: int| 1 <= i < rest.len() && parent(i) != 0 implies #[trigger] dominated(
            rest,
            i,
        ) by {
            assert(dominated(s, i));
        }
    }
}

/// Adds `value` to the heap.
pub fn insert(v: &mut Vec<u8>, value: u8)
    requires
        is_max_heap(old(v)@),
    ensures
        is_max_heap(final(v)@),
        final(v)@.to_multiset() == old(v)@.to_multiset().insert(value),
        final(v)@.len() == old(v)@.len() + 1,
{
    v.push(value);
    let last: usize = v.len() - 1;
    proof {
        let before: Seq<u8> = old(v)@;
        let grown: Seq<u8> = before.push(value);
        vstd::seq_lib::to_multiset_build(before, value);
        assert forall|i: int| 1 <= i < grown.len() && i != last implies #[trigger] dominated(
            grown,
            i,
        ) by {
            assert(dominated(before, i));
        }
        assert(heap_but_above(grown, last as int));
    }
    sift_up(v, last);
}

/// Takes the greatest element out of the heap, if there is any.
pub fn remove_root(v: &mut Vec<u8>) -> (top: Option<u8>)
    requires
        is_max_heap(old(v)@),
    ensures
        is_max_heap(final(v)@),
        old(v)@.len() == 0 ==> top is None && final(v)@ == old(v)@,
        old(v)@.len() > 0 ==> top == Some(max_of(old(v)@.to_multiset()))
            && final(v)@.to_multiset() == old(v)@.to_multiset().remove(
            max_of(old(v)@.to_multiset()),
        ) && final(v)@.len() == old(v)@.len() - 1,
{
    if v.len() == 0 {
        return None;
    }
    let top: u8 = v.swap_remove(0);
    proof {
        lemma_root_is_max(old(v)@);
        lemma_max_is(old(v)@.to_multiset(), top);
        lemma_root_removed(old(v)@);
    }
    if v.len() > 0 {
        sift_down(v, 0);
    }
    Some(top)
}

} // verus!
