//! Keeping track of which segments are there, counted over the whole
//! stream.
pub use crate::stream::orchestrator::BufferHealth;
use dashmap::DashMap;
use std::collections::hash_map::RandomState;
use vstd::prelude::*;

verus! {

/// The concurrent map of the `dashmap` crate, as the verifier sees it: a
/// value that is handed on, of which nothing but the trusted functions
/// below say anything.
#[verifier::external_type_specification]
#[verifier::external_body]
#[verifier::reject_recursive_types(K)]
#[verifier::reject_recursive_types(V)]
#[verifier::reject_recursive_types(S)]
pub struct ExDashMap<K, V, S>(DashMap<K, V, S>);

/// Where a segment lies: its file, and its index in that file.
#[derive(Debug, Clone, PartialEq, Eq)]
pub struct SegmentPlace {
    pub path: String,
    pub segment_in_file: usize,
}

/// Whether `n` is the number of `indices`, which are finitely many.
pub open spec fn counts(indices: Set<usize>, n: usize) -> bool {
    indices.finite() && n == indices.len()
}

/// What a map of segments holds: for every registered index over the
/// whole stream, the file of the segment and its index in that file.
pub uninterp spec fn registered_segments(
    map: DashMap<usize, SegmentPlace, RandomState>,
) -> Map<usize, (Seq<char>, usize)>;

/// A map of segments that holds nothing. Wraps `DashMap::new`, which
/// creates an empty map.
#[verifier::external_body]
fn no_segments() -> (map: DashMap<usize, SegmentPlace, RandomState>)
    ensures
        registered_segments(map) == (Map::<usize, (Seq<char>, usize)>::empty()),
{
    DashMap::new()
}

/// Puts a segment into the map. Wraps `DashMap::insert`, which stores the
/// value under the key, in the place of a value that the key had before,
/// and leaves all other keys as they are.
#[verifier::external_body]
fn insert_segment(
    map: &mut DashMap<usize, SegmentPlace, RandomState>,
    index: usize,
    path: String,
    segment_in_file: usize,
)
    ensures
        registered_segments(*final(map)) == registered_segments(*old(map)).insert(
            index,
            (path@, segment_in_file),
        ),
{
    map.insert(index, SegmentPlace { path, segment_in_file });
}

/// Whether the map holds a segment of that index. Wraps
/// `DashMap::contains_key`.
#[verifier::external_body]
fn holds_segment(map: &DashMap<usize, SegmentPlace, RandomState>, index: usize) -> (b: bool)
    ensures
        b == registered_segments(*map).dom().contains(index),
{
    map.contains_key(&index)
}

/// How many segments the map holds. Wraps `DashMap::len`, the number of
/// the pairs of key and value in the map, which is finite.
#[verifier::external_body]
fn count_segments(map: &DashMap<usize, SegmentPlace, RandomState>) -> (n: usize)
    ensures
        counts(registered_segments(*map).dom(), n),
{
    map.len()
}

/// Which segments are there.
pub struct SegmentTracker {
    segments: DashMap<usize, SegmentPlace, RandomState>,
    playback_segment: usize,
    available_segment: usize,
    total_segments: usize,
}

/// Counts of segments.
#[derive(Debug, Clone, Copy, PartialEq, Eq, Structural)]
pub struct SegmentStats {
    pub playback_segment: usize,
    pub available_segment: usize,
    pub total_segments: usize,
    pub buffer_segments: usize,
}

/// Whether a segment with index `index` is registered.
pub open spec fn registered(indices: Set<usize>, index: int) -> bool {
    0 <= index <= usize::MAX && indices.contains(index as usize)
}

/// The first index from `from` on that is not registered, looking at most
/// `steps` indices ahead.
pub open spec fn first_gap(indices: Set<usize>, from: int, steps: nat) -> int
    decreases steps,
{
    if steps == 0 || !registered(indices, from) {
        from
    } else {
        first_gap(indices, from + 1, (steps - 1) as nat)
    }
}

/// The search for a gap goes forward, and passes registered indices
/// only.
pub proof fn lemma_first_gap_run(indices: Set<usize>, from: int, steps: nat)
    ensures
        from <= first_gap(indices, from, steps) <= from + steps,
        forall|k: int|
            from <= k < first_gap(indices, from, steps) ==> #[trigger] registered(indices, k),
    decreases steps,
{
    if steps > 0 && registered(indices, from) {
        lemma_first_gap_run(indices, from + 1, (steps - 1) as nat);
    }
}

/// An index that was taken out before the place where the search begins
/// makes no difference to it.
pub proof fn lemma_first_gap_past(indices: Set<usize>, gone: usize, from: int, steps: nat)
    requires
        gone < from,
    ensures
        first_gap(indices.remove(gone), from, steps) == first_gap(indices, from, steps),
    decreases steps,
{
    if steps > 0 && registered(indices, from) {
        lemma_first_gap_past(indices, gone, from + 1, (steps - 1) as nat);
    }
}

/// A search that looks as many indices ahead as are registered ends at
/// an index that is not registered: it is the first gap from `from` on.
pub proof fn lemma_first_gap_is_gap(indices: Set<usize>, from: int, steps: nat)
    requires
        indices.finite(),
        indices.len() <= steps,
    ensures
        !registered(indices, first_gap(indices, from, steps)),
    decreases steps,
{
    if steps == 0 {
        assert(indices.len() == 0);
        assert(indices =~= Set::<usize>::empty());
    } else if registered(indices, from) {
        let gone = from as usize;
        let rest = indices.remove(gone);
        lemma_first_gap_past(indices, gone, from + 1, (steps - 1) as nat);
        lemma_first_gap_is_gap(rest, from + 1, (steps - 1) as nat);
        lemma_first_gap_run(indices, from + 1, (steps - 1) as nat);
    }
}

/// The health that goes with a lead of `buffer` segments: up to 10
/// critical, up to 50 poor, up to 200 good, more excellent.
pub open spec fn health_of_lead(buffer: int) -> BufferHealth {
    if buffer <= 10 {
        BufferHealth::Critical
    } else if buffer <= 50 {
        BufferHealth::Poor
    } else if buffer <= 200 {
        BufferHealth::Good
    } else {
        BufferHealth::Excellent
    }
}

impl SegmentTracker {
    /// The registered segments: for every index, the file of the segment
    /// and its index in that file.
    pub closed spec fn spec_segments(&self) -> Map<usize, (Seq<char>, usize)> {
        registered_segments(self.segments)
    }

    pub closed spec fn spec_playback(&self) -> usize {
        self.playback_segment
    }

    pub closed spec fn spec_available(&self) -> usize {
        self.available_segment
    }

    pub closed spec fn spec_total(&self) -> usize {
        self.total_segments
    }

    /// The segments by which the download leads playback.
    pub open spec fn lead(&self) -> int {
        if self.spec_available() > self.spec_playback() {
            self.spec_available() - self.spec_playback()
        } else {
            0
        }
    }

    /// A tracker without segments.
    pub fn new() -> (t: SegmentTracker)
        ensures
            t.spec_segments() == Map::<usize, (Seq<char>, usize)>::empty(),
            t.spec_playback() == 0,
            t.spec_available() == 0,
            t.spec_total() == 0,
    {
        SegmentTracker {
            segments: no_segments(),
            playback_segment: 0,
            available_segment: 0,
            total_segments: 0,
        }
    }

    /// Registers a segment, in the place of one that had the same index;
    /// the total grows to hold its index.
    pub fn register_segment(&mut self, global_index: usize, path: String, segment_in_file: usize)
        requires
            global_index < usize::MAX,
        ensures
            final(self).spec_segments() == old(self).spec_segments().insert(
                global_index,
                (path@, segment_in_file),
            ),
            final(self).spec_total() == if old(self).spec_total() > global_index {
                old(self).spec_total()
            } else {
                (global_index + 1) as usize
            },
            final(self).spec_playback() == old(self).spec_playback(),
            final(self).spec_available() == old(self).spec_available(),
    {
        insert_segment(&mut self.segments, global_index, path, segment_in_file);
        if self.total_segments <= global_index {
            self.total_segments = global_index + 1;
        }
    }

    /// Moves playback to the segment that holds byte `byte_position`,
    /// when every segment holds `bytes_per_segment` bytes.
    pub fn update_playback_position(&mut self, byte_position: u64, bytes_per_segment: u64)
        requires
            bytes_per_segment > 0,
            byte_position / bytes_per_segment <= usize::MAX,
        ensures
            final(self).spec_playback() == byte_position / bytes_per_segment,
            final(self).spec_segments() == old(self).spec_segments(),
            final(self).spec_available() == old(self).spec_available(),
            final(self).spec_total() == old(self).spec_total(),
    {
        self.playback_segment = (byte_position / bytes_per_segment) as usize;
    }

    /// Marks a segment as there. Where it is the first that was missing,
    /// the run of segments that are there grows past it, and on past the
    /// registered segments that follow without a gap.
    pub fn mark_segment_complete(&mut self, global_index: usize)
        requires
            old(self).spec_segments().dom().finite() ==> global_index + old(
                self,
            ).spec_segments().dom().len() < usize::MAX,
        ensures
            final(self).spec_available() == if global_index == old(self).spec_available() {
                first_gap(
                    old(self).spec_segments().dom(),
                    global_index + 1,
                    old(self).spec_segments().dom().len(),
                )
            } else {
                old(self).spec_available() as int
            },
            final(self).spec_segments() == old(self).spec_segments(),
            final(self).spec_playback() == old(self).spec_playback(),
            final(self).spec_total() == old(self).spec_total(),
    {
        if global_index != self.available_segment {
            return ;
        }
        let count: usize = count_segments(&self.segments);
        let ghost indices = registered_segments(self.segments).dom();
        let mut new_available: usize = global_index + 1;
        let mut steps: usize = count;
        while steps > 0 && holds_segment(&self.segments, new_available)
            invariant
                *self == *old(self),
                indices == registered_segments(self.segments).dom(),
                new_available + steps == global_index + 1 + count,
                global_index + count < usize::MAX,
                first_gap(indices, global_index + 1, count as nat) == first_gap(
                    indices,
                    new_available as int,
                    steps as nat,
                ),
            decreases steps,
        {
            new_available += 1;
            steps -= 1;
        }
        self.available_segment = new_available;
    }

    /// The health of the buffer, by the segments that are there ahead of
    /// playback.
    pub fn get_buffer_health(&self) -> (h: BufferHealth)
        ensures
            h == health_of_lead(self.lead()),
    {
        let buffer: usize = if self.available_segment > self.playback_segment {
            self.available_segment - self.playback_segment
        } else {
            0
        };
        if buffer <= 10 {
            BufferHealth::Critical
        } else if buffer <= 50 {
            BufferHealth::Poor
        } else if buffer <= 200 {
            BufferHealth::Good
        } else {
            BufferHealth::Excellent
        }
    }

    /// The next `count` segments to fetch: those behind the run of
    /// segments that are there.
    pub fn get_priority_segments(&self, count: usize) -> (r: Vec<usize>)
        requires
            self.spec_available() + count <= usize::MAX,
        ensures
            r@.len() == count,
            forall|i: int| 0 <= i < count ==> r@[i] == self.spec_available() + i,
    {
        let mut r: Vec<usize> = Vec::new();
        let mut i: usize = 0;
        while i < count
            invariant
                i <= count,
                self.available_segment + count <= usize::MAX,
                r@.len() == i,
                forall|k: int| 0 <= k < i ==> r@[k] == self.available_segment + k,
            decreases count - i,
        {
            r.push(self.available_segment + i);
            i += 1;
        }
        r
    }

    /// The counts of the tracker.
    pub fn get_stats(&self) -> (s: SegmentStats)
        ensures
            s.playback_segment == self.spec_playback(),
            s.available_segment == self.spec_available(),
            s.total_segments == self.spec_total(),
            s.buffer_segments == self.lead(),
    {
        SegmentStats {
            playback_segment: self.playback_segment,
            available_segment: self.available_segment,
            total_segments: self.total_segments,
            buffer_segments: if self.available_segment > self.playback_segment {
                self.available_segment - self.playback_segment
            } else {
                0
            },
        }
    }
}

} // verus!
