//! The work of one job: which segments are fetched and where their bytes
//! go.
use crate::nzb::file::PostedFile;
use crate::nzb::file::Segment;
use crate::scheduler::batch::Job;
use vstd::prelude::*;

verus! {

/// Where the decoded segments of one job go: one behind the other from
/// the job's offset on, and never at or behind its end.
#[derive(Debug, Clone, Copy, PartialEq, Eq, Structural)]
pub struct JobCursor {
    /// Where the next segment goes.
    pub write_offset: u64,
    /// Where the job's volume ends in the stream, not included.
    pub end: u64,
    /// Whether a segment of the job could not be fetched.
    pub failed: bool,
}

/// What to do with the outcome of one download.
#[derive(Debug, Clone, Copy, PartialEq, Eq, Structural)]
pub enum SegmentAction {
    /// Copy the first `length` bytes of the segment to `offset`.
    Write { offset: u64, length: usize },
    /// Nothing of the segment is written.
    Skip,
}

/// The number of bytes of a segment of `len` bytes that are written at
/// `offset` of a volume that ends at `end`.
pub open spec fn written_length(offset: u64, end: u64, len: usize) -> int {
    if offset >= end {
        0
    } else if len <= end - offset {
        len as int
    } else {
        end - offset
    }
}

impl JobCursor {
    /// The cursor lies within its job: at or behind the first byte that
    /// was missing, and not behind the end of the volume.
    pub open spec fn within(&self, job: Job) -> bool {
        job.offset <= self.write_offset <= self.end && self.end == job.end
    }

    /// The cursor at the start of a job.
    pub fn new(job: &Job) -> (c: JobCursor)
        ensures
            c == (JobCursor { write_offset: job.offset, end: job.end, failed: false }),
    {
        JobCursor { write_offset: job.offset, end: job.end, failed: false }
    }

    /// Takes the next segment of the job in order: `downloaded` is the
    /// length of its decoded bytes, or nothing where it could not be
    /// fetched.
    ///
    /// A fetched segment is written at the cursor, as far as it fits into
    /// the volume, and the cursor moves on by what was written. A segment
    /// that could not be fetched fails the job: nothing is written for it
    /// or for any segment behind it, so that the hole stays where it is.
    pub fn on_segment(&mut self, downloaded: Option<usize>) -> (action: SegmentAction)
        ensures
            final(self).end == old(self).end,
            match downloaded {
                None => action == SegmentAction::Skip && final(self).failed && final(self).write_offset == old(self).write_offset,
                Some(len) => {
                    let n = written_length(old(self).write_offset, old(self).end, len);
                    &&& final(self).failed == old(self).failed
                    &&& if old(self).failed || n == 0 {
                        action == SegmentAction::Skip && final(self).write_offset == old(self).write_offset
                    } else {
                        action == (SegmentAction::Write {
                            offset: old(self).write_offset,
                            length: n as usize,
                        }) && final(self).write_offset == old(self).write_offset + n
                    }
                },
            },
    {
        match downloaded {
            None => {
                self.failed = true;
                SegmentAction::Skip
            },
            Some(len) => {
                if self.failed || self.write_offset >= self.end {
                    return SegmentAction::Skip;
                }
                let room: u64 = self.end - self.write_offset;
                let length: usize = if len as u64 <= room {
                    len
                } else {
                    room as usize
                };
                if length == 0 {
                    return SegmentAction::Skip;
                }
                let offset: u64 = self.write_offset;
                self.write_offset = offset + length as u64;
                SegmentAction::Write { offset, length }
            },
        }
    }
}

/// Whatever segment arrives, a job writes only into the part of its
/// volume that is still missing, and its cursor stays within the job.
pub proof fn lemma_write_within_job(job: Job, cursor: JobCursor, len: usize)
    requires
        job.start <= job.offset <= job.end,
        cursor.within(job),
    ensures
        ({
            let n = written_length(cursor.write_offset, cursor.end, len);
            &&& 0 <= n <= len
            &&& job.start <= cursor.write_offset
            &&& cursor.write_offset + n <= job.end
            &&& (JobCursor { write_offset: (cursor.write_offset + n) as u64, ..cursor }).within(
                job,
            )
        }),
{
}

/// The segments that a job fetches: all but the first, in order.
pub fn remaining_segments(file: &PostedFile) -> (r: Vec<Segment>)
    ensures
        r@.map_values(|s: Segment| s@) == if file.segments@.len() == 0 {
            Seq::empty()
        } else {
            file@.segments.subrange(1, file.segments@.len() as int)
        },
{
    let mut r: Vec<Segment> = Vec::new();
    let n: usize = file.segments.len();
    if n == 0 {
        assert(r@.map_values(|s: Segment| s@) =~= Seq::empty());
        return r;
    }
    let mut i: usize = 1;
    while i < n
        invariant
            1 <= i <= n,
            n == file.segments@.len(),
            r@.len() == i - 1,
            forall|k: int| 0 <= k < r@.len() ==> (#[trigger] r@[k])@ == file.segments@[k + 1]@,
        decreases n - i,
    {
        r.push(file.segments[i].duplicate());
        i += 1;
    }
    assert(r@.map_values(|s: Segment| s@) =~= file@.segments.subrange(1, n as int));
    r
}

/// The part of a write at `offset` of `len` bytes that lies in a buffer
/// of `size` bytes: the index of its first byte and of the byte behind
/// its last, or nothing where no byte of it lies in the buffer.
pub fn clamp_write(offset: u64, len: usize, size: usize) -> (r: Option<(usize, usize)>)
    ensures
        match r {
            Some((start, end)) => start == offset && start < end <= size && end == if offset + len
                <= size {
                offset + len
            } else {
                size as int
            },
            None => len == 0 || offset >= size,
        },
{
    if len == 0 || offset >= size as u64 {
        return None;
    }
    let start: usize = offset as usize;
    let end: usize = if len <= size - start {
        start + len
    } else {
        size
    };
    Some((start, end))
}

} // verus!
