//! The stream as its reader sees it: how long it is, how much of it is
//! there, how well the download keeps ahead of playback, and in what
//! pieces a range is handed out.
use crate::archive::par2::DownloadTask;
use crate::archive::par2::DownloadTaskView;
use vstd::prelude::*;

verus! {

/// How well the download keeps ahead of playback.
#[derive(Debug, Clone, Copy, PartialEq, Eq, Hash, Structural)]
pub enum BufferHealth {
    Critical,
    Poor,
    Good,
    Excellent,
}

impl BufferHealth {
    /// The place of the level among the four, from worst to best.
    pub open spec fn level(self) -> nat {
        match self {
            BufferHealth::Critical => 0,
            BufferHealth::Poor => 1,
            BufferHealth::Good => 2,
            BufferHealth::Excellent => 3,
        }
    }

    /// How many volumes are advanced at once at this level, of
    /// `total_jobs` that are left.
    pub open spec fn spec_concurrent_jobs(self, total_jobs: nat) -> nat {
        match self {
            BufferHealth::Critical => 1,
            BufferHealth::Poor => 2,
            BufferHealth::Good => 4,
            BufferHealth::Excellent => total_jobs,
        }
    }

    /// How many segments of one volume are fetched at once at this level.
    pub open spec fn spec_segment_parallelism(self, max_workers: nat, concurrent_parts: nat) -> nat {
        match self {
            BufferHealth::Critical => max_workers,
            _ => if concurrent_parts == 0 {
                max_workers
            } else {
                max_workers / concurrent_parts
            },
        }
    }

    /// How many volumes to advance at once.
    pub fn concurrent_jobs(&self, total_jobs: usize) -> (n: usize)
        ensures
            n == self.spec_concurrent_jobs(total_jobs as nat),
    {
        match self {
            BufferHealth::Critical => 1,
            BufferHealth::Poor => 2,
            BufferHealth::Good => 4,
            BufferHealth::Excellent => total_jobs,
        }
    }

    /// How many segments of one volume to fetch at once: all workers for
    /// the one volume of the critical level, an even share otherwise.
    pub fn segment_parallelism(&self, max_workers: usize, concurrent_parts: usize) -> (n: usize)
        ensures
            n == self.spec_segment_parallelism(max_workers as nat, concurrent_parts as nat),
    {
        let parts: usize = if concurrent_parts == 0 {
            1
        } else {
            concurrent_parts
        };
        let workers_per_job: usize = max_workers / parts;
        match self {
            BufferHealth::Critical => max_workers,
            _ => workers_per_job,
        }
    }
}

/// Bytes that are there ahead of the playback position.
pub open spec fn bytes_ahead(available: u64, position: u64) -> nat {
    if available > position {
        (available - position) as nat
    } else {
        0
    }
}

/// Bytes of the stream from the playback position to its end.
pub open spec fn bytes_remaining(total: u64, position: u64) -> nat {
    if total > position {
        (total - position) as nat
    } else {
        0
    }
}

/// The health that goes with `ahead` bytes before a stream of which
/// `remaining` bytes are left: critical up to 5 % of what is left, poor
/// up to 15 %, good up to 35 %, excellent beyond that. At the end of the
/// stream, where nothing is left, nothing can lie beyond any share of
/// it.
pub open spec fn health_at(ahead: nat, remaining: nat) -> BufferHealth {
    if 100 * ahead <= 5 * remaining {
        BufferHealth::Critical
    } else if 100 * ahead <= 15 * remaining {
        BufferHealth::Poor
    } else if 100 * ahead <= 35 * remaining {
        BufferHealth::Good
    } else {
        BufferHealth::Excellent
    }
}

/// The health of the buffer: by the share of the remaining stream that
/// is there ahead of playback.
pub open spec fn health_of(available: u64, position: u64, total: u64) -> BufferHealth {
    health_at(bytes_ahead(available, position), bytes_remaining(total, position))
}

/// Works out the health of the buffer from the number of bytes that are
/// there from the start of the stream, the playback position and the
/// length of the stream.
pub fn buffer_health(available: u64, position: u64, total: u64) -> (h: BufferHealth)
    ensures
        h == health_of(available, position, total),
{
    let ahead: u128 = if available > position {
        (available - position) as u128
    } else {
        0
    };
    let remaining: u128 = if total > position {
        (total - position) as u128
    } else {
        0
    };
    if 100 * ahead <= 5 * remaining {
        BufferHealth::Critical
    } else if 100 * ahead <= 15 * remaining {
        BufferHealth::Poor
    } else if 100 * ahead <= 35 * remaining {
        BufferHealth::Good
    } else {
        BufferHealth::Excellent
    }
}

/// What the levels say of the bytes: a critical buffer holds at most
/// 5 % of what remains of the stream ahead of playback, an excellent one
/// more than 35 %, and the other way round.
pub proof fn lemma_health_bounds(available: u64, position: u64, total: u64)
    ensures
        health_of(available, position, total) == BufferHealth::Critical <==> 100 * bytes_ahead(
            available,
            position,
        ) <= 5 * bytes_remaining(total, position),
        health_of(available, position, total) == BufferHealth::Excellent <==> 100 * bytes_ahead(
            available,
            position,
        ) > 35 * bytes_remaining(total, position),
{
}

/// At the end of the stream, where nothing remains and nothing can be
/// ahead, the buffer counts as critical.
pub proof fn lemma_health_at_the_end(available: u64, position: u64, total: u64)
    requires
        position >= total,
        available <= total,
    ensures
        health_of(available, position, total) == BufferHealth::Critical,
{
}

/// With the playback position fixed, more data never makes the health
/// worse.
pub proof fn lemma_health_monotone(less: u64, more: u64, position: u64, total: u64)
    requires
        less <= more,
    ensures
        health_of(less, position, total).level() <= health_of(more, position, total).level(),
{
}

/// Sum of the payload lengths of `tasks`.
pub open spec fn lengths_sum(tasks: Seq<DownloadTaskView>) -> nat
    decreases tasks.len(),
{
    if tasks.len() == 0 {
        0
    } else {
        lengths_sum(tasks.drop_last()) + tasks.last().length as nat
    }
}

/// Where volume `k` starts in the stream: behind the payloads of the
/// volumes before it.
pub open spec fn volume_start(tasks: Seq<DownloadTaskView>, k: int) -> nat {
    lengths_sum(tasks.subrange(0, k))
}

pub proof fn lemma_lengths_sum_step(tasks: Seq<DownloadTaskView>, k: int)
    requires
        0 <= k < tasks.len(),
    ensures
        volume_start(tasks, k + 1) == volume_start(tasks, k) + tasks[k].length,
{
    assert(tasks.subrange(0, k + 1).drop_last() =~= tasks.subrange(0, k));
}

pub proof fn lemma_lengths_sum_monotone(tasks: Seq<DownloadTaskView>, i: int, j: int)
    requires
        0 <= i <= j <= tasks.len(),
    ensures
        volume_start(tasks, i) <= volume_start(tasks, j),
        volume_start(tasks, tasks.len() as int) == lengths_sum(tasks),
    decreases j - i,
{
    assert(tasks.subrange(0, tasks.len() as int) =~= tasks);
    if i < j {
        lemma_lengths_sum_step(tasks, j - 1);
        lemma_lengths_sum_monotone(tasks, i, j - 1);
    }
}

/// The bytes of a first segment that are written into the stream when it
/// is laid out: `length` bytes of the task's payload at `offset`.
#[derive(Debug, Clone, Copy, PartialEq, Eq, Structural)]
pub struct InitialWrite {
    /// Index of the task among the tasks of the stream.
    pub task: usize,
    /// Where the bytes go in the stream.
    pub offset: u64,
    /// How many of the task's first bytes go there.
    pub length: usize,
}

/// The first-segment bytes of task `k` that fit into its volume.
pub open spec fn head_length(task: DownloadTaskView) -> nat {
    if task.bytes.len() <= task.length {
        task.bytes.len()
    } else {
        task.length as nat
    }
}

/// The state of one stream: its length and where playback stands.
#[derive(Debug, Clone, Copy, PartialEq, Eq, Structural)]
pub struct StreamOrchestrator {
    total_size: u64,
    playback_position: u64,
}

impl StreamOrchestrator {
    /// Length of the stream in bytes.
    pub closed spec fn spec_total_size(&self) -> u64 {
        self.total_size
    }

    /// Where playback stands.
    pub closed spec fn spec_playback_position(&self) -> u64 {
        self.playback_position
    }

    /// Lays out the stream of the given tasks, which are in the order of
    /// their volumes.
    ///
    /// The stream is as long as the payloads of all tasks together, and
    /// playback stands at its start. Of every task the bytes of its first
    /// segment are to be written where its volume starts. Gives nothing
    /// where the length of the stream does not fit in 64 bits.
    pub fn new(tasks: &[DownloadTask]) -> (r: Option<(StreamOrchestrator, Vec<InitialWrite>)>)
        ensures
            r.is_some() == (lengths_sum(tasks@.map_values(|t: DownloadTask| t@)) <= u64::MAX),
            r matches Some((stream, writes)) ==> {
                let views = tasks@.map_values(|t: DownloadTask| t@);
                &&& stream.spec_total_size() == lengths_sum(views)
                &&& stream.spec_playback_position() == 0
                &&& writes@.len() == tasks@.len()
                &&& forall|k: int|
                    0 <= k < writes@.len() ==> (#[trigger] writes@[k]).task == k && writes@[k].offset
                        == volume_start(views, k) && writes@[k].length == head_length(views[k])
            },
    {
        let ghost views = tasks@.map_values(|t: DownloadTask| t@);
        let mut writes: Vec<InitialWrite> = Vec::new();
        let mut offset: u64 = 0;
        let mut k: usize = 0;
        assert(views.subrange(0, 0) =~= Seq::<DownloadTaskView>::empty());
        while k < tasks.len()
            invariant
                k <= tasks@.len(),
                views == tasks@.map_values(|t: DownloadTask| t@),
                offset == volume_start(views, k as int),
                writes@.len() == k,
                forall|i: int|
                    0 <= i < k ==> (#[trigger] writes@[i]).task == i && writes@[i].offset
                        == volume_start(views, i) && writes@[i].length == head_length(views[i]),
            decreases tasks@.len() - k,
        {
            let task = &tasks[k];
            proof {
                lemma_lengths_sum_step(views, k as int);
                lemma_lengths_sum_monotone(views, k + 1, views.len() as int);
            }
            let length: u64 = *task.length();
            let held: usize = task.bytes().len();
            let head: usize = if held as u64 <= length {
                held
            } else {
                length as usize
            };
            writes.push(InitialWrite { task: k, offset, length: head });
            offset = match offset.checked_add(length) {
                Some(next) => next,
                None => {
                    return None;
                },
            };
            k += 1;
        }
        proof {
            lemma_lengths_sum_monotone(views, 0, views.len() as int);
        }
        Some((StreamOrchestrator { total_size: offset, playback_position: 0 }, writes))
    }

    /// Length of the stream in bytes.
    pub fn total_size(&self) -> (n: u64)
        ensures
            n == self.spec_total_size(),
    {
        self.total_size
    }

    /// Where playback stands.
    pub fn playback_position(&self) -> (n: u64)
        ensures
            n == self.spec_playback_position(),
    {
        self.playback_position
    }

    /// Moves playback to `position`, the first byte of the range that the
    /// reader asked for last.
    pub fn update_playback_position(&mut self, position: u64)
        ensures
            final(self).spec_playback_position() == position,
            final(self).spec_total_size() == old(self).spec_total_size(),
    {
        self.playback_position = position;
    }

    /// The health of the buffer when `available` bytes are there from the
    /// start of the stream.
    pub fn update_health(&self, available: u64) -> (h: BufferHealth)
        ensures
            h == health_of(available, self.spec_playback_position(), self.spec_total_size()),
    {
        buffer_health(available, self.playback_position, self.total_size)
    }

    /// How many bytes are there from the start of the stream without a
    /// hole, as the file system tells it: `data_start` is the first
    /// offset at or after 0 that holds data, `hole_start` the first offset
    /// at or after 0 that is a hole, each nothing where the file system
    /// finds none.
    ///
    /// Where the data does not start at 0, nothing is there. Where no hole
    /// is found, the whole stream is there.
    pub fn get_available_bytes(&self, data_start: Option<u64>, hole_start: Option<u64>) -> (n: u64)
        ensures
            n == available_from(data_start, hole_start, self.spec_total_size()),
    {
        match data_start {
            Some(d) => {
                if d > 0 {
                    0
                } else {
                    match hole_start {
                        Some(h) => h,
                        None => self.total_size,
                    }
                }
            },
            None => 0,
        }
    }

    /// Begins to hand out the bytes `[start, start + length)` in pieces of
    /// at most `chunk_size` bytes, and moves playback to `start`.
    pub fn get_stream(&mut self, start: u64, length: u64, chunk_size: usize) -> (cursor:
        StreamCursor)
        ensures
            final(self).spec_playback_position() == start,
            final(self).spec_total_size() == old(self).spec_total_size(),
            cursor.pos == start,
            cursor.end == if start + length <= u64::MAX {
                (start + length) as u64
            } else {
                u64::MAX
            },
            cursor.chunk_size == chunk_size,
    {
        self.update_playback_position(start);
        StreamCursor { pos: start, end: start.saturating_add(length), chunk_size }
    }
}

/// The number of bytes that are there from the start of a stream of
/// `total` bytes, given where its data and its first hole start.
pub open spec fn available_from(data_start: Option<u64>, hole_start: Option<u64>, total: u64) -> u64 {
    match data_start {
        Some(d) => if d > 0 {
            0
        } else {
            match hole_start {
                Some(h) => h,
                None => total,
            }
        },
        None => 0,
    }
}

/// Whether the bytes `[start, start + length)` are all there, given the
/// first offset at or after `start` that holds data and the first at or
/// after `start` that is a hole.
pub open spec fn range_available(
    start: u64,
    length: u64,
    data_pos: Option<u64>,
    hole_pos: Option<u64>,
) -> bool {
    if length == 0 {
        true
    } else {
        match data_pos {
            None => false,
            Some(d) => if d > start {
                false
            } else {
                match hole_pos {
                    Some(h) => h >= start + length,
                    None => true,
                }
            },
        }
    }
}

/// Whether a range of the stream is there without a hole.
pub fn is_range_available(
    start: u64,
    length: u64,
    data_pos: Option<u64>,
    hole_pos: Option<u64>,
) -> (r: bool)
    ensures
        r == range_available(start, length, data_pos, hole_pos),
{
    if length == 0 {
        return true;
    }
    match data_pos {
        None => false,
        Some(d) => {
            if d > start {
                false
            } else {
                match hole_pos {
                    Some(h) => h as u128 >= start as u128 + length as u128,
                    None => true,
                }
            }
        },
    }
}

/// The part of a range that is still to be handed out.
#[derive(Debug, Clone, Copy, PartialEq, Eq, Structural)]
pub struct StreamCursor {
    /// The next byte to hand out.
    pub pos: u64,
    /// The end of the range, not included.
    pub end: u64,
    /// The largest piece handed out at once.
    pub chunk_size: usize,
}

/// The end of the piece that starts at `pos`: at most `chunk_size` bytes
/// on, and neither behind the end of the range nor behind what is there.
pub open spec fn chunk_end(pos: u64, end: u64, chunk_size: usize, available: u64) -> int {
    let by_size = pos + chunk_size;
    let by_range = if by_size < end {
        by_size
    } else {
        end as int
    };
    if by_range < available {
        by_range
    } else {
        available as int
    }
}

impl StreamCursor {
    /// The next piece to hand out when `available` bytes are there from
    /// the start of the stream: its first byte and its length. Nothing
    /// once the range is done, or where the next byte is not there yet,
    /// which ends the stream early.
    pub fn next_chunk(&mut self, available: u64) -> (r: Option<(u64, usize)>)
        ensures
            match r {
                Some((start, len)) => {
                    &&& start == old(self).pos
                    &&& len > 0
                    &&& start + len == chunk_end(
                        old(self).pos,
                        old(self).end,
                        old(self).chunk_size,
                        available,
                    )
                    &&& final(self).pos == start + len
                },
                None => chunk_end(old(self).pos, old(self).end, old(self).chunk_size, available)
                    <= old(self).pos && final(self).pos == old(self).pos,
            },
            final(self).end == old(self).end,
            final(self).chunk_size == old(self).chunk_size,
    {
        let by_size: u128 = self.pos as u128 + self.chunk_size as u128;
        let by_range: u128 = if by_size < self.end as u128 {
            by_size
        } else {
            self.end as u128
        };
        let stop: u128 = if by_range < available as u128 {
            by_range
        } else {
            available as u128
        };
        if stop <= self.pos as u128 {
            return None;
        }
        let start: u64 = self.pos;
        let len: usize = (stop - start as u128) as usize;
        self.pos = stop as u64;
        Some((start, len))
    }
}

} // verus!
