//! The decisions of the downloader of a session.
//!
//! The downloader takes one download after the other from the queue and
//! fetches it. What it does after a fetch is decided here, from the
//! download, from what the fetch came to and from what the session
//! holds; the fetching itself is done by the caller.
use crate::nzb::file::PostedFile;
use crate::nzb::file::Segment;
use crate::session::DownloadTask;
use crate::session::DownloadTaskView;
use crate::text::str_eq;
use vstd::prelude::*;

verus! {

/// How long the downloader waits before it looks again into an empty
/// queue, in milliseconds.
pub const IDLE_WAIT_MS: u64 = 1000;

/// Priority of a segment that is queued again after a failed fetch.
pub const RETRY_PRIORITY: u32 = 1000;

/// What a fetch came to.
#[derive(Debug, Clone, Copy, PartialEq, Eq)]
pub enum Fetch {
    /// The bytes are there and were stored under the message id.
    Stored,
    /// The fetch failed; `retryable` says whether a second attempt may
    /// succeed.
    Failed { retryable: bool },
}

/// What the downloader does next.
#[derive(Debug, Clone, PartialEq, Eq)]
pub enum NextStep {
    /// Wait for so many milliseconds, then look into the queue again.
    Idle { wait_ms: u64 },
    /// Take the next download from the queue.
    Continue,
    /// Every recovery file is there: read them, then queue the volumes.
    ProcessPar2,
    /// Put this download at the end of the queue.
    Requeue(DownloadTask),
}

/// What a step holds.
pub ghost enum NextStepView {
    Idle { wait_ms: u64 },
    Continue,
    ProcessPar2,
    Requeue(DownloadTaskView),
}

impl View for NextStep {
    type V = NextStepView;

    open spec fn view(&self) -> NextStepView {
        match self {
            NextStep::Idle { wait_ms } => NextStepView::Idle { wait_ms: *wait_ms },
            NextStep::Continue => NextStepView::Continue,
            NextStep::ProcessPar2 => NextStepView::ProcessPar2,
            NextStep::Requeue(task) => NextStepView::Requeue(task@),
        }
    }
}

/// Whether `id` is among the stored message ids.
pub open spec fn is_stored(stored: Seq<String>, id: Seq<char>) -> bool {
    exists|i: int| 0 <= i < stored.len() && (#[trigger] stored[i])@ == id
}

/// Whether the first segment of every recovery file is stored.
pub open spec fn par2_complete(par2_files: Seq<PostedFile>, stored: Seq<String>) -> bool {
    forall|k: int|
        0 <= k < par2_files.len() ==> is_stored(
            stored,
            (#[trigger] par2_files[k]).segments@[0].message_id@,
        )
}

/// The second attempt at a segment: at the retry priority, for as many
/// bytes as the segment has, counted from the start of its volume.
pub open spec fn retry_of(
    segment: Segment,
    file_index: usize,
    segment_index: usize,
) -> DownloadTaskView {
    DownloadTaskView::RarSegment {
        segment: segment@,
        file_index,
        segment_index,
        priority: RETRY_PRIORITY,
        start: 0,
        end: segment.size as u64,
    }
}

/// The step after a fetch. After a recovery file, whatever the fetch
/// came to, the recovery files are read once all of them are stored.
/// After a segment, only a failure that may pass makes a difference: the
/// segment is queued again.
pub open spec fn step_after(task: DownloadTask, fetch: Fetch, complete: bool) -> NextStepView {
    match task {
        DownloadTask::Par2 { .. } => if complete {
            NextStepView::ProcessPar2
        } else {
            NextStepView::Continue
        },
        DownloadTask::RarSegment { segment, file_index, segment_index, .. } => match fetch {
            Fetch::Failed { retryable: true } => NextStepView::Requeue(
                retry_of(segment, file_index, segment_index),
            ),
            _ => NextStepView::Continue,
        },
    }
}

/// The step of the downloader that looks into the queue: with nothing
/// in it, nothing happens for a while.
pub open spec fn step_before(queued: Option<int>) -> NextStepView {
    match queued {
        Some(_) => NextStepView::Continue,
        None => NextStepView::Idle { wait_ms: IDLE_WAIT_MS },
    }
}

fn holds_id(stored: &[String], id: &str) -> (r: bool)
    ensures
        r == is_stored(stored@, id@),
{
    let mut i: usize = 0;
    while i < stored.len()
        invariant
            i <= stored@.len(),
            forall|k: int| 0 <= k < i ==> (#[trigger] stored@[k])@ != id@,
        decreases stored@.len() - i,
    {
        if str_eq(stored[i].as_str(), id) {
            return true;
        }
        i += 1;
    }
    false
}

/// Whether every recovery file is stored, under the message id of its
/// first segment. Each of the files must have a segment.
pub fn all_par2_downloaded(par2_files: &[PostedFile], stored: &[String]) -> (r: bool)
    requires
        forall|k: int|
            0 <= k < par2_files@.len() ==> (#[trigger] par2_files@[k]).segments@.len() > 0,
    ensures
        r == par2_complete(par2_files@, stored@),
{
    let mut i: usize = 0;
    while i < par2_files.len()
        invariant
            i <= par2_files@.len(),
            forall|k: int|
                0 <= k < par2_files@.len() ==> (#[trigger] par2_files@[k]).segments@.len() > 0,
            forall|k: int|
                0 <= k < i ==> is_stored(
                    stored@,
                    (#[trigger] par2_files@[k]).segments@[0].message_id@,
                ),
        decreases par2_files@.len() - i,
    {
        let file = &par2_files[i];
        if !holds_id(stored, file.segments[0].message_id.as_str()) {
            return false;
        }
        i += 1;
    }
    true
}

/// The download that asks for a segment a second time.
pub fn retry_task(segment: &Segment, file_index: usize, segment_index: usize) -> (task:
    DownloadTask)
    ensures
        task@ == retry_of(*segment, file_index, segment_index),
{
    DownloadTask::RarSegment {
        segment: segment.duplicate(),
        file_index,
        segment_index,
        priority: RETRY_PRIORITY,
        start: 0,
        end: segment.size as u64,
    }
}

/// What the downloader does when it has looked into the queue and found
/// the download at `queued`, or none.
pub fn before_fetch(queued: Option<usize>) -> (step: NextStep)
    ensures
        step@ == step_before(
            match queued {
                Some(i) => Some(i as int),
                None => None,
            },
        ),
{
    match queued {
        Some(_) => NextStep::Continue,
        None => NextStep::Idle { wait_ms: IDLE_WAIT_MS },
    }
}

/// What the downloader does after the fetch of `task`. `stored` holds
/// the message ids under which bytes are stored, that of this fetch
/// among them if it succeeded. Each recovery file must have a segment.
pub fn after_fetch(
    task: &DownloadTask,
    fetch: Fetch,
    par2_files: &[PostedFile],
    stored: &[String],
) -> (step: NextStep)
    requires
        forall|k: int|
            0 <= k < par2_files@.len() ==> (#[trigger] par2_files@[k]).segments@.len() > 0,
    ensures
        step@ == step_after(*task, fetch, par2_complete(par2_files@, stored@)),
{
    match task {
        DownloadTask::Par2 { .. } => {
            if all_par2_downloaded(par2_files, stored) {
                NextStep::ProcessPar2
            } else {
                NextStep::Continue
            }
        },
        DownloadTask::RarSegment { segment, file_index, segment_index, .. } => {
            match fetch {
                Fetch::Failed { retryable: true } => NextStep::Requeue(
                    retry_task(segment, *file_index, *segment_index),
                ),
                _ => NextStep::Continue,
            }
        },
    }
}

/// A segment is asked for again only after a failure that may pass, and
/// a recovery file never: whatever its fetch came to, the downloader
/// goes on, or reads the recovery files.
pub proof fn lemma_requeue_only_after_retryable(task: DownloadTask, fetch: Fetch, complete: bool)
    ensures
        step_after(task, fetch, complete) is Requeue <==> (task is RarSegment && fetch
            == Fetch::Failed { retryable: true }),
        !(step_after(task, fetch, complete) is Idle),
{
}

} // verus!
