//! The stream as a row of volume files: which part of which file holds
//! which bytes of the stream.
use crate::stream::error::StreamError;
use crate::text::str_eq;
use vstd::prelude::*;

verus! {

/// The largest piece read from a file at once.
pub const VIDEO_CHUNK_SIZE: usize = 8388608;

/// The payload of one volume file and its place in the stream.
#[derive(Debug, Clone, PartialEq, Eq)]
pub struct VolumeSegment {
    pub path: String,
    /// Where the payload starts in the file.
    pub start: u64,
    /// Length of the payload.
    pub length: u64,
    /// Where the payload starts in the stream.
    pub virtual_start: u64,
    /// Whether the file is downloaded.
    pub is_complete: bool,
}

/// The end in the stream of the last volume of the leading run of
/// complete volumes that begins at `from`; `so_far` where the run is
/// empty.
pub open spec fn available_from(segments: Seq<VolumeSegment>, from: int, so_far: int) -> int
    decreases segments.len() - from,
{
    if from < 0 || from >= segments.len() || !segments[from].is_complete {
        so_far
    } else {
        available_from(
            segments,
            from + 1,
            segments[from].virtual_start + segments[from].length,
        )
    }
}

/// The places in the stream of `segments` from `from` on, when the
/// volumes before them end at `next` and `gap` tells whether one of them
/// is incomplete: a volume starts where the complete volumes before it
/// end; behind an incomplete volume the place no longer moves.
pub open spec fn placed_from(segments: Seq<VolumeSegment>, from: int, next: int, gap: bool) -> Seq<
    int,
>
    decreases segments.len() - from,
{
    if from < 0 || from >= segments.len() {
        Seq::empty()
    } else {
        let s = segments[from];
        seq![next] + placed_from(
            segments,
            from + 1,
            if !gap && s.is_complete {
                next + s.length
            } else {
                next
            },
            gap || !s.is_complete,
        )
    }
}

/// Index of the first volume at or after `from` whose file is `path`.
pub open spec fn volume_at_path(segments: Seq<VolumeSegment>, path: Seq<char>, from: int) -> Option<
    int,
>
    decreases segments.len() - from,
{
    if from < 0 || from >= segments.len() {
        None
    } else if segments[from].path@ == path {
        Some(from)
    } else {
        volume_at_path(segments, path, from + 1)
    }
}

/// Index of the first volume at or after `from` that holds byte `offset`
/// of the stream.
pub open spec fn volume_holding(segments: Seq<VolumeSegment>, offset: u64, from: int) -> Option<int>
    decreases segments.len() - from,
{
    if from < 0 || from >= segments.len() {
        None
    } else if segments[from].virtual_start <= offset && offset < segments[from].virtual_start
        + segments[from].length {
        Some(from)
    } else {
        volume_holding(segments, offset, from + 1)
    }
}

/// A read from one file: which volume, where in its file, how many bytes.
#[derive(Debug, Clone, Copy, PartialEq, Eq, Structural)]
pub struct FileRead {
    pub volume: usize,
    pub position: u64,
    pub length: u64,
}

/// The read of the bytes of the stream from `offset` on: from the first
/// volume that holds `offset`, at the place of that byte in its file,
/// for as many of the `length` bytes asked for as the volume holds from
/// there. Nothing where no volume holds `offset`, or where the place
/// lies beyond 64 bits.
pub open spec fn read_of(segments: Seq<VolumeSegment>, offset: u64, length: u64) -> Option<
    FileRead,
> {
    match volume_holding(segments, offset, 0) {
        None => None,
        Some(i) => {
            let s = segments[i];
            let room = s.virtual_start + s.length - offset;
            if s.start + (offset - s.virtual_start) <= u64::MAX {
                Some(
                    FileRead {
                        volume: i as usize,
                        position: (s.start + (offset - s.virtual_start)) as u64,
                        length: if length < room {
                            length
                        } else {
                            room as u64
                        },
                    },
                )
            } else {
                None
            }
        },
    }
}

/// Index of the first volume at or after `from` that ends behind byte
/// `offset` of the stream.
pub open spec fn volume_ending_after(segments: Seq<VolumeSegment>, offset: u64, from: int) -> Option<
    int,
>
    decreases segments.len() - from,
{
    if from < 0 || from >= segments.len() {
        None
    } else if segments[from].virtual_start + segments[from].length > offset {
        Some(from)
    } else {
        volume_ending_after(segments, offset, from + 1)
    }
}

/// The read of at most `chunk_size` of the `length` bytes of the stream
/// from `start` on, as far as they can be read from the start of the
/// stream: from the first volume that ends behind `start`, if it is
/// complete and begins before the end of what is asked for, up to its
/// end and to the end of what is available. Nothing where nothing is
/// left to read, or where the place lies beyond 64 bits.
pub open spec fn complete_read_of(
    segments: Seq<VolumeSegment>,
    start: u64,
    length: u64,
    chunk_size: usize,
) -> Option<FileRead> {
    let available = available_from(segments, 0, 0);
    let end = start + length;
    let limit = if end < available {
        end
    } else {
        available
    };
    match volume_ending_after(segments, start, 0) {
        None => None,
        Some(i) => {
            let s = segments[i];
            let volume_end = s.virtual_start + s.length;
            let read_end = if volume_end < limit {
                volume_end
            } else {
                limit
            };
            let within = if start > s.virtual_start {
                start - s.virtual_start
            } else {
                0
            };
            if s.virtual_start >= end || !s.is_complete || read_end <= start || chunk_size == 0
                || s.start + within > u64::MAX {
                None
            } else {
                Some(
                    FileRead {
                        volume: i as usize,
                        position: (s.start + within) as u64,
                        length: if chunk_size < read_end - start {
                            chunk_size as u64
                        } else {
                            (read_end - start) as u64
                        },
                    },
                )
            }
        },
    }
}

/// The volumes of a stream, in order.
#[derive(Debug, Clone, PartialEq, Eq)]
pub struct MkvStreamer {
    pub segments: Vec<VolumeSegment>,
}

impl MkvStreamer {
    /// The stream of the given files, none of them downloaded yet.
    pub fn new(sorted_files: &[String]) -> (s: MkvStreamer)
        ensures
            s.segments@.len() == sorted_files@.len(),
            forall|i: int|
                0 <= i < s.segments@.len() ==> (#[trigger] s.segments@[i]).path@
                    == sorted_files@[i]@ && s.segments@[i].start == 0 && s.segments@[i].length
                    == 0 && s.segments@[i].virtual_start == 0 && !s.segments@[i].is_complete,
    {
        let mut segments: Vec<VolumeSegment> = Vec::new();
        let mut i: usize = 0;
        while i < sorted_files.len()
            invariant
                i <= sorted_files@.len(),
                segments@.len() == i,
                forall|k: int|
                    0 <= k < i ==> (#[trigger] segments@[k]).path@ == sorted_files@[k]@
                        && segments@[k].start == 0 && segments@[k].length == 0
                        && segments@[k].virtual_start == 0 && !segments@[k].is_complete,
            decreases sorted_files@.len() - i,
        {
            segments.push(
                VolumeSegment {
                    path: sorted_files[i].clone(),
                    start: 0,
                    length: 0,
                    virtual_start: 0,
                    is_complete: false,
                },
            );
            i += 1;
        }
        MkvStreamer { segments }
    }

    /// The stream is laid out soundly: no volume ends behind the largest
    /// offset of 64 bits.
    pub open spec fn wf(&self) -> bool {
        forall|i: int|
            0 <= i < self.segments@.len() ==> (#[trigger] self.segments@[i]).virtual_start
                + self.segments@[i].length <= u64::MAX
    }

    /// How many bytes of the stream can be read from its start: up to the
    /// end of the last volume before the first incomplete one.
    pub fn get_available_bytes(&self) -> (n: u64)
        requires
            self.wf(),
        ensures
            n == available_from(self.segments@, 0, 0),
    {
        let mut available: u64 = 0;
        let mut i: usize = 0;
        while i < self.segments.len()
            invariant
                i <= self.segments@.len(),
                self.wf(),
                available_from(self.segments@, 0, 0) == available_from(
                    self.segments@,
                    i as int,
                    available as int,
                ),
            decreases self.segments@.len() - i,
        {
            let s = &self.segments[i];
            if !s.is_complete {
                return available;
            }
            available = s.virtual_start + s.length;
            i += 1;
        }
        available
    }

    /// Index of the volume whose file is `path`.
    pub fn position(&self, path: &str) -> (r: Option<usize>)
        ensures
            match r {
                Some(i) => volume_at_path(self.segments@, path@, 0) == Some(i as int) && i
                    < self.segments@.len(),
                None => volume_at_path(self.segments@, path@, 0) is None,
            },
    {
        let mut i: usize = 0;
        while i < self.segments.len()
            invariant
                i <= self.segments@.len(),
                volume_at_path(self.segments@, path@, 0) == volume_at_path(
                    self.segments@,
                    path@,
                    i as int,
                ),
            decreases self.segments@.len() - i,
        {
            if str_eq(self.segments[i].path.as_str(), path) {
                return Some(i);
            }
            i += 1;
        }
        None
    }

    /// Marks the volume at `path` as downloaded, with the place and the
    /// length of its payload, and places all volumes in the stream anew.
    /// Fails where no volume has that path, or where the stream would
    /// grow beyond 64 bits; the stream is then left as it was.
    pub fn mark_segment_downloaded(&mut self, path: &str, start: u64, length: u64) -> (r: Result<
        (),
        StreamError,
    >)
        ensures
            final(self).segments@.len() == old(self).segments@.len(),
            match volume_at_path(old(self).segments@, path@, 0) {
                None => r matches Err(StreamError::FileNotFound(p)) && p@ == path@ && *final(self)
                    == *old(self),
                Some(at) => {
                    let marked = old(self).segments@.update(
                        at,
                        VolumeSegment {
                            start,
                            length,
                            is_complete: true,
                            ..old(self).segments@[at]
                        },
                    );
                    let places = placed_from(marked, 0, 0, false);
                    &&& r is Ok ==> forall|i: int|
                        0 <= i < marked.len() ==> #[trigger] final(self).segments@[i] == (
                        VolumeSegment { virtual_start: places[i] as u64, ..marked[i] }) && 0
                            <= places[i] && places[i] + marked[i].length <= u64::MAX
                    &&& r is Err ==> exists|i: int|
                        0 <= i < marked.len() && #[trigger] places[i] + marked[i].length
                            > u64::MAX
                },
            },
            r is Err ==> *final(self) == *old(self),
            r is Ok ==> final(self).wf(),
            volume_at_path(old(self).segments@, path@, 0) is Some ==> (r matches Err(
                StreamError::Read(m),
            ) ==> m@ == "the stream is too long"@),
    {
        let at = match self.position(path) {
            Some(i) => i,
            None => {
                return Err(StreamError::FileNotFound(path.to_owned()));
            },
        };
        let mut placed: Vec<VolumeSegment> = Vec::new();
        let mut next: u64 = 0;
        let mut gap: bool = false;
        let mut i: usize = 0;
        let ghost marked = self.segments@.update(
            at as int,
            VolumeSegment { start, length, is_complete: true, ..self.segments@[at as int] },
        );
        let ghost places = placed_from(marked, 0, 0, false);
        proof {
            lemma_placed_len(marked, 0, 0, false);
        }
        while i < self.segments.len()
            invariant
                i <= self.segments@.len(),
                *self == *old(self),
                at < self.segments@.len(),
                volume_at_path(old(self).segments@, path@, 0) == Some(at as int),
                marked == self.segments@.update(
                    at as int,
                    VolumeSegment { start, length, is_complete: true, ..self.segments@[at as int] },
                ),
                places == placed_from(marked, 0, 0, false),
                places.len() == marked.len(),
                placed@.len() == i,
                forall|k: int| i <= k < marked.len() ==> places[k] == placed_from(
                    marked,
                    i as int,
                    next as int,
                    gap,
                )[k - i],
                placed_from(marked, i as int, next as int, gap).len() == marked.len() - i,
                forall|k: int|
                    0 <= k < i ==> #[trigger] placed@[k] == (VolumeSegment {
                        virtual_start: places[k] as u64,
                        ..marked[k]
                    }) && 0 <= places[k] && places[k] + marked[k].length <= u64::MAX,
            decreases self.segments@.len() - i,
        {
            let s = &self.segments[i];
            let complete: bool = i == at || s.is_complete;
            let len: u64 = if i == at {
                length
            } else {
                s.length
            };
            proof {
                lemma_placed_len(marked, i + 1, next as int, gap);
                lemma_placed_len(marked, i + 1, next + len, gap);
                lemma_placed_len(marked, i + 1, next as int, true);
                assert(places[i as int] == next);
            }
            let end: u64 = match next.checked_add(len) {
                Some(e) => e,
                None => {
                    assert(marked[i as int].length == len);
                    assert(places[i as int] + marked[i as int].length > u64::MAX);
                    return Err(StreamError::Read("the stream is too long".to_owned()));
                },
            };
            placed.push(
                VolumeSegment {
                    path: s.path.clone(),
                    start: if i == at {
                        start
                    } else {
                        s.start
                    },
                    length: len,
                    virtual_start: next,
                    is_complete: complete,
                },
            );
            let ghost rest = placed_from(marked, i as int, next as int, gap);
            if !gap && complete {
                next = end;
            } else if !complete {
                gap = true;
            }
            proof {
                let after = placed_from(marked, i + 1, next as int, gap);
                assert forall|k: int| i + 1 <= k < marked.len() implies places[k] == after[k - (i
                    + 1)] by {
                    assert(rest[k - i] == after[k - i - 1]);
                }
            }
            i += 1;
        }
        self.segments = placed;
        Ok(())
    }

    /// Where to read the bytes of the stream from `offset` on: the volume
    /// that holds `offset`, the place in its file, and as many of the
    /// `length` bytes asked for as the volume holds from there.
    pub fn read_at(&self, offset: u64, length: u64) -> (r: Option<FileRead>)
        requires
            self.wf(),
        ensures
            r == read_of(self.segments@, offset, length),
    {
        let mut i: usize = 0;
        while i < self.segments.len()
            invariant
                i <= self.segments@.len(),
                self.wf(),
                volume_holding(self.segments@, offset, 0) == volume_holding(
                    self.segments@,
                    offset,
                    i as int,
                ),
            decreases self.segments@.len() - i,
        {
            let s = &self.segments[i];
            if s.virtual_start <= offset && offset - s.virtual_start < s.length {
                let within: u64 = offset - s.virtual_start;
                let room: u64 = s.length - within;
                return match s.start.checked_add(within) {
                    Some(position) => Some(
                        FileRead {
                            volume: i,
                            position,
                            length: if length < room {
                                length
                            } else {
                                room
                            },
                        },
                    ),
                    None => None,
                };
            }
            i += 1;
        }
        None
    }

    /// The next read of a range of the stream, of which `length` bytes
    /// from `start` on are left: at most 8 MiB from the volume that
    /// holds `start`. The caller reads, and goes on behind what it has
    /// read until nothing is left or no read is given.
    pub fn read_range(&self, start: u64, length: u64) -> (r: Option<FileRead>)
        requires
            self.wf(),
        ensures
            r == if length == 0 {
                None
            } else if length < VIDEO_CHUNK_SIZE {
                read_of(self.segments@, start, length)
            } else {
                read_of(self.segments@, start, VIDEO_CHUNK_SIZE as u64)
            },
    {
        if length == 0 {
            None
        } else if length < VIDEO_CHUNK_SIZE as u64 {
            self.read_at(start, length)
        } else {
            self.read_at(start, VIDEO_CHUNK_SIZE as u64)
        }
    }

    /// The next read of a range of the stream that goes no further than
    /// the stream is available from its start, in pieces of
    /// `chunk_size`: `length` bytes from `start` on are left. The caller
    /// reads, and goes on behind what it has read until no read is
    /// given.
    pub fn read_range_with_chunk_size(&self, start: u64, length: u64, chunk_size: usize) -> (r:
        Option<FileRead>)
        requires
            self.wf(),
        ensures
            r == complete_read_of(self.segments@, start, length, chunk_size),
    {
        let available: u64 = self.get_available_bytes();
        let mut i: usize = 0;
        while i < self.segments.len()
            invariant
                i <= self.segments@.len(),
                self.wf(),
                available == available_from(self.segments@, 0, 0),
                volume_ending_after(self.segments@, start, 0) == volume_ending_after(
                    self.segments@,
                    start,
                    i as int,
                ),
            decreases self.segments@.len() - i,
        {
            let s = &self.segments[i];
            let volume_end: u64 = s.virtual_start + s.length;
            if volume_end > start {
                let begins_behind: bool = s.virtual_start >= start && s.virtual_start - start
                    >= length;
                if begins_behind || !s.is_complete || chunk_size == 0 || available <= start {
                    return None;
                }
                let left: u64 = if length < available - start {
                    length
                } else {
                    available - start
                };
                let room: u64 = volume_end - start;
                let count: u64 = if room < left {
                    room
                } else {
                    left
                };
                if count == 0 {
                    return None;
                }
                let within: u64 = if start > s.virtual_start {
                    start - s.virtual_start
                } else {
                    0
                };
                return match s.start.checked_add(within) {
                    Some(position) => Some(
                        FileRead {
                            volume: i,
                            position,
                            length: if (chunk_size as u64) < count {
                                chunk_size as u64
                            } else {
                                count
                            },
                        },
                    ),
                    None => None,
                };
            }
            i += 1;
        }
        None
    }
}

/// `placed_from` gives one place for every volume from `from` on.
pub proof fn lemma_placed_len(segments: Seq<VolumeSegment>, from: int, next: int, gap: bool)
    requires
        0 <= from <= segments.len(),
    ensures
        placed_from(segments, from, next, gap).len() == segments.len() - from,
    decreases segments.len() - from,
{
    if from < segments.len() {
        let s = segments[from];
        lemma_placed_len(
            segments,
            from + 1,
            if !gap && s.is_complete {
                next + s.length
            } else {
                next
            },
            gap || !s.is_complete,
        );
    }
}

} // verus!
