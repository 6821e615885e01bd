//! The segments of one file that are still to be fetched, in order.
use crate::nzb::file::PostedFile;
use crate::nzb::file::Segment;
use crate::nzb::file::SegmentView;
use vstd::prelude::*;

verus! {

/// One segment to fetch: the segment, the file it goes to, its index in
/// the file and the number of segments of the queue.
#[derive(Debug, Clone, PartialEq, Eq)]
pub struct SegmentJob {
    pub segment: Segment,
    pub path: String,
    pub index: usize,
    pub total: usize,
}

/// What a segment job holds.
pub ghost struct SegmentJobView {
    pub segment: SegmentView,
    pub path: Seq<char>,
    pub index: usize,
    pub total: usize,
}

impl View for SegmentJob {
    type V = SegmentJobView;

    open spec fn view(&self) -> SegmentJobView {
        SegmentJobView {
            segment: self.segment@,
            path: self.path@,
            index: self.index,
            total: self.total,
        }
    }
}

/// The segments of one file from `start_index` on, in order.
#[derive(Debug, Clone, PartialEq, Eq)]
pub struct FileQueue {
    path: String,
    segments: Vec<SegmentJob>,
    total: usize,
    start_index: usize,
}

/// The views of segment jobs.
pub open spec fn jobs_view(jobs: Seq<SegmentJob>) -> Seq<SegmentJobView> {
    jobs.map_values(|j: SegmentJob| j@)
}

impl FileQueue {
    /// The jobs that wait, in order.
    pub closed spec fn waiting(&self) -> Seq<SegmentJobView> {
        jobs_view(self.segments@)
    }

    pub closed spec fn spec_path(&self) -> Seq<char> {
        self.path@
    }

    pub closed spec fn spec_total(&self) -> usize {
        self.total
    }

    pub closed spec fn spec_start_index(&self) -> usize {
        self.start_index
    }

    /// The queue of the segments of `nzb` from `start_index` on, for the
    /// file at `path`. `start_index` is at most the number of segments.
    pub fn new(path: String, nzb: PostedFile, start_index: usize) -> (q: FileQueue)
        requires
            start_index <= nzb.segments@.len(),
        ensures
            q.spec_path() == path@,
            q.spec_start_index() == start_index,
            q.spec_total() == nzb.segments@.len() - start_index,
            q.waiting().len() == nzb.segments@.len() - start_index,
            forall|k: int|
                0 <= k < q.waiting().len() ==> #[trigger] q.waiting()[k] == (SegmentJobView {
                    segment: nzb.segments@[start_index + k]@,
                    path: path@,
                    index: (start_index + k) as usize,
                    total: (nzb.segments@.len() - start_index) as usize,
                }),
    {
        let total: usize = nzb.segments.len() - start_index;
        let mut segments: Vec<SegmentJob> = Vec::new();
        let mut i: usize = start_index;
        while i < nzb.segments.len()
            invariant
                start_index <= i <= nzb.segments@.len(),
                total == nzb.segments@.len() - start_index,
                segments@.len() == i - start_index,
                forall|k: int|
                    0 <= k < segments@.len() ==> (#[trigger] segments@[k])@ == (SegmentJobView {
                        segment: nzb.segments@[start_index + k]@,
                        path: path@,
                        index: (start_index + k) as usize,
                        total,
                    }),
            decreases nzb.segments@.len() - i,
        {
            segments.push(
                SegmentJob {
                    segment: nzb.segments[i].duplicate(),
                    path: path.clone(),
                    index: i,
                    total,
                },
            );
            i += 1;
        }
        FileQueue { path, segments, total, start_index }
    }

    /// Whether no job waits.
    pub fn is_empty(&self) -> (b: bool)
        ensures
            b == (self.waiting().len() == 0),
    {
        self.segments.len() == 0
    }

    /// Takes the first `count` jobs out of the queue, or all where fewer
    /// wait.
    pub fn take(&mut self, count: usize) -> (taken: Vec<SegmentJob>)
        ensures
            jobs_view(taken@) + final(self).waiting() == old(self).waiting(),
            taken@.len() == if count <= old(self).waiting().len() {
                count as int
            } else {
                old(self).waiting().len() as int
            },
            final(self).spec_path() == old(self).spec_path(),
            final(self).spec_total() == old(self).spec_total(),
            final(self).spec_start_index() == old(self).spec_start_index(),
    {
        let n: usize = if count <= self.segments.len() {
            count
        } else {
            self.segments.len()
        };
        let rest = self.segments.split_off(n);
        let mut taken = rest;
        std::mem::swap(&mut taken, &mut self.segments);
        assert(jobs_view(taken@) + jobs_view(self.segments@) =~= jobs_view(old(self).segments@));
        taken
    }

    /// The file that the segments go to.
    pub fn path(&self) -> (p: &String)
        ensures
            p@ == self.spec_path(),
    {
        &self.path
    }

    /// The number of segments that the queue held at first.
    pub fn total_segments(&self) -> (n: usize)
        ensures
            n == self.spec_total(),
    {
        self.total
    }

    /// The index of the first segment of the queue in its file.
    pub fn start_index(&self) -> (n: usize)
        ensures
            n == self.spec_start_index(),
    {
        self.start_index
    }
}

} // verus!
