//! First segments: what is fetched of every volume before the stream is
//! laid out.
use crate::nntp::yenc::compute_hash16k;
use crate::nntp::yenc::head16k;
use crate::nntp::yenc::md5_digest;
use crate::nzb::file::PostedFile;
use crate::nzb::file::PostedFileView;
use crate::nzb::file::Segment;
use crate::nntp::config::NntpConfig;
use crate::scheduler::error::SchedulerError;
use crate::stream::orchestrator::BufferHealth;
use crate::text::chars_of;
use crate::text::contains_str;
use crate::text::ends_with_str;
use crate::text::has_sub;
use crate::text::has_suffix;
use vstd::prelude::*;

verus! {

/// Upper bound on the number of first segments fetched at once.
pub const FIRST_SEGMENT_WORKERS: usize = 20;

/// The decoded first segment of a posted file, with its fingerprint.
#[derive(Debug, Clone, PartialEq, Eq)]
pub struct FirstSegment {
    pub nzb: PostedFile,
    pub hash16k: Vec<u8>,
    pub bytes: Vec<u8>,
}

/// What a first segment holds.
pub ghost struct FirstSegmentView {
    pub nzb: PostedFileView,
    pub hash16k: Seq<u8>,
    pub bytes: Seq<u8>,
}

impl View for FirstSegment {
    type V = FirstSegmentView;

    open spec fn view(&self) -> FirstSegmentView {
        FirstSegmentView { nzb: self.nzb@, hash16k: self.hash16k@, bytes: self.bytes@ }
    }
}

impl FirstSegment {
    /// The first segment of `file`, whose decoded bytes are `data`: the
    /// fingerprint is the MD5 of the first 16 KiB of `data`.
    pub fn new(file: PostedFile, data: Vec<u8>) -> (s: FirstSegment)
        ensures
            s.nzb == file,
            s.bytes == data,
            s.hash16k@ == md5_digest(head16k(data@)),
    {
        let hash16k = compute_hash16k(data.as_slice());
        FirstSegment { nzb: file, hash16k, bytes: data }
    }
}

/// The segment to fetch first of `file`, or `EmptyFile` where the file
/// lists none.
pub fn first_segment_of(file: &PostedFile) -> (r: Result<&Segment, SchedulerError>)
    ensures
        match r {
            Ok(s) => file.segments@.len() > 0 && *s == file.segments@[0],
            Err(e) => file.segments@.len() == 0 && e == SchedulerError::EmptyFile(file.subject),
        },
{
    if file.segments.len() > 0 {
        Ok(&file.segments[0])
    } else {
        Err(SchedulerError::EmptyFile(file.subject.clone()))
    }
}

/// How many first segments are fetched at once with `max_workers`
/// connections.
pub fn first_segment_parallelism(max_workers: usize) -> (n: usize)
    ensures
        n == if max_workers < FIRST_SEGMENT_WORKERS {
            max_workers
        } else {
            FIRST_SEGMENT_WORKERS
        },
{
    if max_workers < FIRST_SEGMENT_WORKERS {
        max_workers
    } else {
        FIRST_SEGMENT_WORKERS
    }
}

/// The largest piece of the stream handed out at once for a ranged
/// request.
pub const IDEAL_CHUNK_SIZE: usize = 8388608;

/// The largest piece of the stream handed out at once in chunked
/// transfer.
pub const MAX_CHUNK_SIZE: usize = 16777216;

/// What the scheduler works with: the number of connections of the
/// article retriever.
#[derive(Debug, Clone, Copy, PartialEq, Eq, Structural)]
pub struct AdaptiveScheduler {
    max_workers: usize,
}

impl AdaptiveScheduler {
    /// The number of downloads that run at once at most.
    pub closed spec fn spec_max_workers(&self) -> usize {
        self.max_workers
    }

    /// The scheduler for the given settings: as many workers as the
    /// settings allow connections.
    pub fn new(config: &NntpConfig) -> (s: AdaptiveScheduler)
        ensures
            s.spec_max_workers() == config.max_connections.0,
    {
        AdaptiveScheduler { max_workers: config.max_connections.get() }
    }

    /// The number of downloads that run at once at most.
    pub fn max_workers(&self) -> (n: usize)
        ensures
            n == self.spec_max_workers(),
    {
        self.max_workers
    }

    /// How the workers are shared out in a round that `health` chose,
    /// when the stream has `total_tasks` volumes: the number of volumes
    /// advanced at once, and the number of segments fetched at once of
    /// each.
    pub fn parallelism(&self, health: BufferHealth, total_tasks: usize) -> (r: (usize, usize))
        ensures
            r.0 == health.spec_concurrent_jobs(total_tasks as nat),
            r.1 == health.spec_segment_parallelism(
                self.spec_max_workers() as nat,
                health.spec_concurrent_jobs(total_tasks as nat),
            ),
    {
        let job_parallelism = health.concurrent_jobs(total_tasks);
        let segment_parallelism = health.segment_parallelism(self.max_workers, job_parallelism);
        (job_parallelism, segment_parallelism)
    }
}

/// Whether a name is that of the main recovery file of a set: it ends in
/// `.par2` and names no volume of the set.
pub open spec fn main_par2_name(name: Seq<char>) -> bool {
    !has_sub(name, ".vol"@) && has_suffix(name, ".par2"@)
}

/// Index of the first file at or after `from` that is the main recovery
/// file.
pub open spec fn main_par2_from(files: Seq<(String, String)>, from: int) -> Option<int>
    decreases files.len() - from,
{
    if from < 0 || from >= files.len() {
        None
    } else if main_par2_name(files[from].0@) {
        Some(from)
    } else {
        main_par2_from(files, from + 1)
    }
}

/// The path of the main recovery file among `par2_files`, which are
/// pairs of name and path: that of the first whose name ends in `.par2`
/// and names no volume.
pub fn find_main_par2(par2_files: &[(String, String)]) -> (r: Option<&String>)
    ensures
        match r {
            Some(path) => main_par2_from(par2_files@, 0) matches Some(i) && *path
                == par2_files@[i].1,
            None => main_par2_from(par2_files@, 0) is None,
        },
{
    let mut i: usize = 0;
    while i < par2_files.len()
        invariant
            i <= par2_files@.len(),
            main_par2_from(par2_files@, 0) == main_par2_from(par2_files@, i as int),
        decreases par2_files@.len() - i,
    {
        let name = chars_of(par2_files[i].0.as_str());
        if !contains_str(name.as_slice(), ".vol") && ends_with_str(name.as_slice(), ".par2") {
            return Some(&par2_files[i].1);
        }
        i += 1;
    }
    None
}

} // verus!
