//! Writing the segments of one file in order, whatever order they arrive
//! in.
use crate::stream::segment_tracker::first_gap;
use crate::stream::segment_tracker::lemma_first_gap_is_gap;
use crate::stream::segment_tracker::lemma_first_gap_past;
use crate::stream::segment_tracker::lemma_first_gap_run;
use crate::stream::segment_tracker::registered;
use std::collections::BTreeMap;
use vstd::prelude::*;

verus! {

broadcast use vstd::std_specs::btree::group_btree_axioms;

/// The index of the first segment that a writer waits for: the segment
/// before it is written when the file is made.
pub const FIRST_EXPECTED: usize = 1;

/// The segments of one file that arrived before their turn, and the index
/// of the segment whose turn it is.
#[derive(Debug, Clone, PartialEq, Eq)]
pub struct OrderedWriter {
    expected: usize,
    pending: BTreeMap<usize, Vec<u8>>,
}

/// The index behind the run of pending segments that begins at `from`:
/// the first index from `from` on for which no segment is pending.
pub open spec fn run_end(pending: Map<usize, Vec<u8>>, from: int) -> int {
    first_gap(pending.dom(), from, pending.dom().len())
}

/// The indices from `from` up to `to`, `to` not included.
pub open spec fn indices_between(from: int, to: int) -> Set<usize> {
    Set::new(|k: usize| from <= k < to)
}

/// The bytes of the pending segments with the indices from `from` up to
/// `to`, in order.
pub open spec fn drained(pending: Map<usize, Vec<u8>>, from: int, to: int) -> Seq<Vec<u8>>
    decreases to - from,
{
    if to <= from {
        Seq::empty()
    } else {
        drained(pending, from, to - 1).push(pending[(to - 1) as usize])
    }
}

impl OrderedWriter {
    /// The index of the segment whose turn it is.
    pub closed spec fn spec_expected(&self) -> usize {
        self.expected
    }

    /// The segments that wait for their turn, by their indices.
    pub closed spec fn spec_pending(&self) -> Map<usize, Vec<u8>> {
        self.pending@
    }

    /// A writer that waits for segment 1 and holds nothing.
    pub fn new() -> (w: OrderedWriter)
        ensures
            w.spec_expected() == FIRST_EXPECTED,
            w.spec_pending() == Map::<usize, Vec<u8>>::empty(),
    {
        OrderedWriter { expected: FIRST_EXPECTED, pending: BTreeMap::new() }
    }

    /// The index of the segment whose turn it is.
    pub fn expected(&self) -> (n: usize)
        ensures
            n == self.spec_expected(),
    {
        self.expected
    }

    /// Number of segments that wait for their turn.
    pub fn pending_len(&self) -> (n: usize)
        ensures
            n == self.spec_pending().len(),
    {
        self.pending.len()
    }

    /// Takes segment `index` with its bytes and hands out what can be
    /// written now, in order.
    ///
    /// The segment whose turn it is comes out at once, followed by the
    /// pending segments whose turn comes after it without a gap. Any
    /// other segment is kept until its turn, in the place of a segment of
    /// the same index that was kept before.
    pub fn accept(&mut self, index: usize, data: Vec<u8>) -> (ready: Vec<Vec<u8>>)
        requires
            old(self).spec_expected() + old(self).spec_pending().len() < usize::MAX,
        ensures
            index != old(self).spec_expected() ==> ready@.len() == 0 && final(self).spec_expected()
                == old(self).spec_expected() && final(self).spec_pending() == old(
                self,
            ).spec_pending().insert(index, data),
            index == old(self).spec_expected() ==> ready@ == seq![data] + drained(
                old(self).spec_pending(),
                index + 1,
                final(self).spec_expected() as int,
            ) && final(self).spec_expected() == run_end(old(self).spec_pending(), index + 1)
                && final(self).spec_pending() == old(self).spec_pending().remove_keys(
                indices_between(index + 1, final(self).spec_expected() as int),
            ),
    {
        let mut ready: Vec<Vec<u8>> = Vec::new();
        if index != self.expected {
            self.pending.insert(index, data);
            return ready;
        }
        ready.push(data);
        self.expected = self.expected + 1;
        let ghost start = old(self).pending@;
        let ghost first = index + 1;
        assert(start.remove_keys(indices_between(first, first)) =~= start);
        assert(ready@ =~= seq![data] + drained(start, first, first));
        loop
            invariant
                index == old(self).expected,
                start == old(self).pending@,
                first == index + 1,
                first <= self.expected,
                self.expected + self.pending@.len() == first + start.len(),
                first + start.len() <= usize::MAX,
                self.pending@ == start.remove_keys(indices_between(first, self.expected as int)),
                ready@ == seq![data] + drained(start, first, self.expected as int),
                run_end(start, first) == first_gap(
                    self.pending@.dom(),
                    self.expected as int,
                    self.pending@.len(),
                ),
            ensures
                self.expected == run_end(start, first),
            decreases self.pending@.len(),
        {
            let ghost before = ready@;
            let ghost held = self.pending@;
            let turn: usize = self.expected;
            match self.pending.remove(&turn) {
                Some(bytes) => {
                    ready.push(bytes);
                    self.expected = turn + 1;
                    proof {
                        assert(held.contains_key(turn) && held[turn] == bytes);
                        assert(start[turn] == bytes);
                        assert(self.pending@ =~= start.remove_keys(
                            indices_between(first, turn + 1),
                        ));
                        lemma_first_gap_after(held.dom(), turn, held.len());
                        assert(self.pending@.dom() =~= held.dom().remove(turn));
                    }
                },
                None => {
                    assert(!held.contains_key(turn));
                    assert(self.pending@ == held);
                    break ;
                },
            }
        }
        ready
    }
}

/// Past a registered index the search for a gap goes on as if the index
/// had been taken out.
proof fn lemma_first_gap_after(indices: Set<usize>, turn: usize, steps: nat)
    requires
        indices.finite(),
        indices.contains(turn),
        steps == indices.len(),
    ensures
        steps > 0,
        first_gap(indices, turn as int, steps) == first_gap(
            indices.remove(turn),
            turn + 1,
            (steps - 1) as nat,
        ),
        indices.remove(turn).len() == steps - 1,
{
    lemma_first_gap_past(indices, turn, turn + 1, (steps - 1) as nat);
}

/// What is handed out at the turn of a segment are that segment and the
/// pending segments of the indices behind it, as many as follow without
/// a gap: every index of the run was pending, and the index behind the
/// run was not.
pub proof fn lemma_run_was_pending(pending: Map<usize, Vec<u8>>, from: int)
    requires
        pending.dom().finite(),
    ensures
        from <= run_end(pending, from),
        forall|k: int| from <= k < run_end(pending, from) ==> #[trigger] registered(pending.dom(), k),
        !registered(pending.dom(), run_end(pending, from)),
{
    lemma_first_gap_run(pending.dom(), from, pending.dom().len());
    lemma_first_gap_is_gap(pending.dom(), from, pending.dom().len());
}

} // verus!
