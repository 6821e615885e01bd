//! Jobs and batches: which volumes are advanced next, chosen by the health
//! of the buffer.
use crate::archive::par2::DownloadTask;
use crate::archive::par2::DownloadTaskView;
use crate::stream::orchestrator::head_length;
use crate::stream::orchestrator::lemma_lengths_sum_monotone;
use crate::stream::orchestrator::lemma_lengths_sum_step;
use crate::stream::orchestrator::lengths_sum;
use crate::stream::orchestrator::volume_start;
use crate::stream::orchestrator::BufferHealth;
use vstd::prelude::*;

verus! {

/// How the scheduler weighs playback against throughput.
#[derive(Debug, Clone, Copy, PartialEq, Eq, Structural)]
pub enum Priority {
    /// Everything for the bytes that playback needs next.
    Critical,
    /// Two volumes at once.
    Balanced,
    /// As much at once as the workers allow.
    Parallel,
}

impl Priority {
    /// The priority that goes with a level of buffer health.
    pub open spec fn of(health: BufferHealth) -> Priority {
        match health {
            BufferHealth::Critical => Priority::Critical,
            BufferHealth::Poor => Priority::Balanced,
            _ => Priority::Parallel,
        }
    }
}

impl From<BufferHealth> for Priority {
    fn from(health: BufferHealth) -> (p: Priority) {
        match health {
            BufferHealth::Critical => Priority::Critical,
            BufferHealth::Poor => Priority::Balanced,
            _ => Priority::Parallel,
        }
    }
}

impl vstd::std_specs::convert::FromSpecImpl<BufferHealth> for Priority {
    open spec fn obeys_from_spec() -> bool {
        true
    }

    open spec fn from_spec(health: BufferHealth) -> Priority {
        Priority::of(health)
    }
}

/// The download of what is left of one volume: the segments behind the
/// first are fetched in order and written from `offset` on; nothing is
/// written at or behind `end`.
#[derive(Debug, Clone, Copy, PartialEq, Eq, Structural)]
pub struct Job {
    /// Index of the volume's task among the tasks of the stream.
    pub task: usize,
    /// Where the volume starts in the stream.
    pub start: u64,
    /// Where the first byte that is still missing goes.
    pub offset: u64,
    /// Where the volume ends in the stream, not included.
    pub end: u64,
}

impl Job {
    pub fn new(task: usize, start: u64, offset: u64, end: u64) -> (j: Job)
        ensures
            j == (Job { task, start, offset, end }),
    {
        Job { task, start, offset, end }
    }
}

/// The jobs to run in one round, and the health that chose them.
#[derive(Debug, Clone, PartialEq, Eq)]
pub struct Batch {
    pub jobs: Vec<Job>,
    pub health: BufferHealth,
}

/// The job of volume `k` of `tasks`: it covers the volume's place in the
/// stream and starts behind the bytes that the first segment gave.
pub open spec fn job_of(tasks: Seq<DownloadTaskView>, k: int) -> Job {
    Job {
        task: k as usize,
        start: volume_start(tasks, k) as u64,
        offset: (volume_start(tasks, k) + head_length(tasks[k])) as u64,
        end: volume_start(tasks, k + 1) as u64,
    }
}

/// The indices below `consumed.len()` that are not yet consumed,
/// ascending.
pub open spec fn unclaimed(consumed: Seq<bool>) -> Seq<int>
    decreases consumed.len(),
{
    if consumed.len() == 0 {
        Seq::empty()
    } else if consumed.last() {
        unclaimed(consumed.drop_last())
    } else {
        unclaimed(consumed.drop_last()).push(consumed.len() - 1)
    }
}

/// The stride of an evenly spaced choice of `count` out of `len`.
pub open spec fn stride(len: int, count: int) -> int {
    if count <= 0 {
        len
    } else {
        len / count
    }
}

/// The jobs chosen for a round, out of the unclaimed indices
/// `available`.
///
/// At the two lower levels of health the next jobs in order are taken, as
/// many as are advanced at once. At the two higher levels they are
/// spread evenly over what is left: every `stride`-th unclaimed job,
/// where the stride is more than one.
pub open spec fn chosen(available: Seq<int>, health: BufferHealth) -> Seq<int> {
    let count = health.spec_concurrent_jobs(available.len()) as int;
    let taken = if count < available.len() {
        count
    } else {
        available.len() as int
    };
    let step = stride(available.len() as int, count);
    if (health == BufferHealth::Good || health == BufferHealth::Excellent) && step > 1 {
        Seq::new(count as nat, |i: int| available[i * step])
    } else {
        available.subrange(0, taken)
    }
}

/// The marks after the jobs `picked` are claimed.
pub open spec fn claimed(consumed: Seq<bool>, picked: Seq<int>) -> Seq<bool> {
    Seq::new(consumed.len(), |i: int| consumed[i] || picked.contains(i))
}

/// The indices as integers.
pub open spec fn as_ints(indices: Seq<usize>) -> Seq<int> {
    Seq::new(indices.len(), |i: int| indices[i] as int)
}

pub proof fn lemma_unclaimed(consumed: Seq<bool>)
    ensures
        unclaimed(consumed).len() <= consumed.len(),
        forall|k: int|
            0 <= k < unclaimed(consumed).len() ==> 0 <= (#[trigger] unclaimed(consumed)[k])
                < consumed.len() && !consumed[unclaimed(consumed)[k]],
        forall|k: int, l: int|
            0 <= k < l < unclaimed(consumed).len() ==> unclaimed(consumed)[k] < unclaimed(
                consumed,
            )[l],
        forall|i: int| 0 <= i < consumed.len() && !consumed[i] ==> unclaimed(consumed).contains(i),
    decreases consumed.len(),
{
    if consumed.len() > 0 {
        let head = consumed.drop_last();
        lemma_unclaimed(head);
        let u = unclaimed(consumed);
        let uh = unclaimed(head);
        let last = consumed.len() - 1;
        assert forall|i: int| 0 <= i < head.len() implies head[i] == consumed[i] by {}
        assert forall|k: int| 0 <= k < uh.len() implies u[k] == uh[k] by {}
        assert forall|k: int| 0 <= k < u.len() implies 0 <= (#[trigger] u[k]) < consumed.len()
            && !consumed[u[k]] by {
            if k < uh.len() {
                assert(u[k] == uh[k]);
            }
        }
        assert forall|k: int, l: int| 0 <= k < l < u.len() implies u[k] < u[l] by {
            assert(u[k] == uh[k]);
            if l < uh.len() {
                assert(u[l] == uh[l]);
            }
        }
        assert forall|i: int| 0 <= i < consumed.len() && !consumed[i] implies u.contains(i) by {
            if i < consumed.len() - 1 {
                assert(!head[i]);
                let k = choose|k: int| 0 <= k < uh.len() && uh[k] == i;
                assert(u[k] == i);
            } else {
                assert(u[u.len() - 1] == last);
            }
        }
    }
}

/// The jobs of a stream, and which of them were handed out.
#[derive(Debug, PartialEq, Eq)]
pub struct BatchGenerator {
    jobs: Vec<Job>,
    consumed: Vec<bool>,
}

impl BatchGenerator {
    /// The jobs of the stream, in the order of the volumes.
    pub closed spec fn jobs(&self) -> Seq<Job> {
        self.jobs@
    }

    /// For every job, whether it was handed out.
    pub closed spec fn consumed(&self) -> Seq<bool> {
        self.consumed@
    }

    /// Every job has its mark.
    #[verifier::type_invariant]
    closed spec fn marked(&self) -> bool {
        self.jobs@.len() == self.consumed@.len()
    }

    /// Every job has its mark.
    pub open spec fn wf(&self) -> bool {
        self.jobs().len() == self.consumed().len()
    }

    /// The jobs for the given tasks, which are in the order of their
    /// volumes: one job for every volume, none of them handed out. Gives
    /// nothing where the length of the stream does not fit in 64 bits.
    pub fn new(tasks: &[DownloadTask]) -> (r: Option<BatchGenerator>)
        ensures
            r.is_some() == (lengths_sum(tasks@.map_values(|t: DownloadTask| t@)) <= u64::MAX),
            r matches Some(g) ==> {
                let views = tasks@.map_values(|t: DownloadTask| t@);
                &&& g.wf()
                &&& g.jobs().len() == tasks@.len()
                &&& forall|k: int| 0 <= k < tasks@.len() ==> g.jobs()[k] == job_of(views, k)
                &&& forall|k: int| 0 <= k < tasks@.len() ==> !g.consumed()[k]
            },
    {
        let ghost views = tasks@.map_values(|t: DownloadTask| t@);
        let mut jobs: Vec<Job> = Vec::new();
        let mut consumed: Vec<bool> = Vec::new();
        let mut start: u64 = 0;
        let mut k: usize = 0;
        assert(views.subrange(0, 0) =~= Seq::<DownloadTaskView>::empty());
        while k < tasks.len()
            invariant
                k <= tasks@.len(),
                views == tasks@.map_values(|t: DownloadTask| t@),
                start == volume_start(views, k as int),
                jobs@.len() == k,
                consumed@.len() == k,
                forall|i: int| 0 <= i < k ==> jobs@[i] == job_of(views, i),
                forall|i: int| 0 <= i < k ==> !consumed@[i],
            decreases tasks@.len() - k,
        {
            let task = &tasks[k];
            proof {
                lemma_lengths_sum_step(views, k as int);
                lemma_lengths_sum_monotone(views, k + 1, views.len() as int);
            }
            let length: u64 = *task.length();
            let held: usize = task.bytes().len();
            let head: u64 = if held as u64 <= length {
                held as u64
            } else {
                length
            };
            let end: u64 = match start.checked_add(length) {
                Some(e) => e,
                None => {
                    return None;
                },
            };
            jobs.push(Job { task: k, start, offset: start + head, end });
            consumed.push(false);
            start = end;
            k += 1;
        }
        proof {
            lemma_lengths_sum_monotone(views, 0, views.len() as int);
        }
        Some(BatchGenerator { jobs, consumed })
    }

    /// Number of jobs.
    pub fn len(&self) -> (n: usize)
        ensures
            n == self.jobs().len(),
    {
        self.jobs.len()
    }

    /// The indices of the jobs that were not handed out yet, ascending.
    pub fn available_indices(&self) -> (r: Vec<usize>)
        ensures
            as_ints(r@) == unclaimed(self.consumed()),
    {
        let mut r: Vec<usize> = Vec::new();
        let mut i: usize = 0;
        assert(self.consumed@.subrange(0, 0) =~= Seq::<bool>::empty());
        assert(as_ints(r@) =~= Seq::<int>::empty());
        while i < self.consumed.len()
            invariant
                i <= self.consumed@.len(),
                as_ints(r@) == unclaimed(self.consumed@.subrange(0, i as int)),
            decreases self.consumed@.len() - i,
        {
            let ghost next = self.consumed@.subrange(0, i + 1);
            let ghost before = as_ints(r@);
            assert(next.drop_last() =~= self.consumed@.subrange(0, i as int));
            if !self.consumed[i] {
                r.push(i);
                assert(as_ints(r@) =~= before.push(i as int));
            }
            i += 1;
        }
        assert(self.consumed@.subrange(0, i as int) =~= self.consumed@);
        r
    }

    /// Hands out the jobs of the next round, chosen by the health of the
    /// buffer; nothing once every job was handed out.
    pub fn next(&mut self, health: BufferHealth) -> (r: Option<Batch>)
        ensures
            final(self).wf(),
            old(self).wf(),
            final(self).jobs() == old(self).jobs(),
            match r {
                None => unclaimed(old(self).consumed()).len() == 0 && final(self).consumed()
                    == old(self).consumed(),
                Some(batch) => {
                    let picked = chosen(unclaimed(old(self).consumed()), health);
                    &&& unclaimed(old(self).consumed()).len() > 0
                    &&& batch.health == health
                    &&& batch.jobs@.len() == picked.len()
                    &&& batch.jobs@.len() > 0
                    &&& forall|i: int|
                        0 <= i < picked.len() ==> 0 <= (#[trigger] picked[i]) < old(
                            self,
                        ).jobs().len() && batch.jobs@[i] == old(self).jobs()[picked[i]]
                    &&& final(self).consumed() == claimed(old(self).consumed(), picked)
                },
            },
    {
        proof {
            use_type_invariant(&*self);
        }
        let available = self.available_indices();
        let total: usize = self.consumed.len();
        proof {
            lemma_unclaimed(self.consumed@);
        }
        let len: usize = available.len();
        if len == 0 {
            return None;
        }
        let count: usize = health.concurrent_jobs(len);
        let step: usize = if count == 0 {
            len
        } else {
            len / count
        };
        let spread: bool = match health {
            BufferHealth::Good | BufferHealth::Excellent => step > 1,
            _ => false,
        };
        let taken: usize = if spread || count < len {
            count
        } else {
            len
        };
        let ghost picked = chosen(as_ints(available@), health);
        let ghost before = self.consumed@;
        proof {
            if spread {
                assert(count < len) by (nonlinear_arith)
                    requires
                        count > 0,
                        len / count > 1,
                ;
            }
        }
        let mut jobs: Vec<Job> = Vec::new();
        let mut i: usize = 0;
        while i < taken
            invariant
                i <= taken,
                taken == picked.len(),
                0 < taken <= len,
                len == available@.len(),
                total == before.len(),
                spread ==> stride(len as int, count as int) > 1 && count > 0 && step == stride(
                    len as int,
                    count as int,
                ) && taken == count,
                !spread ==> picked == as_ints(available@).subrange(0, taken as int),
                spread ==> picked == Seq::new(
                    count as nat,
                    |j: int| as_ints(available@)[j * stride(len as int, count as int)],
                ),
                as_ints(available@) == unclaimed(before),
                self.jobs@ == old(self).jobs@,
                self.jobs@.len() == before.len(),
                self.consumed@.len() == before.len(),
                forall|k: int|
                    0 <= k < available@.len() ==> 0 <= (#[trigger] unclaimed(before)[k])
                        < before.len(),
                jobs@.len() == i,
                forall|k: int|
                    0 <= k < i ==> 0 <= (#[trigger] picked[k]) < before.len() && jobs@[k]
                        == self.jobs@[picked[k]],
                forall|x: int|
                    0 <= x < before.len() ==> (#[trigger] self.consumed@[x]) == (before[x]
                        || picked.subrange(0, i as int).contains(x)),
            decreases taken - i,
        {
            proof {
                if spread {
                    lemma_stride_index(len as int, count as int, i as int);
                }
            }
            let at: usize = if spread {
                i * step
            } else {
                i
            };
            let index: usize = available[at];
            assert(as_ints(available@)[at as int] == index);
            assert(picked[i as int] == index);
            let ghost marks = self.consumed@;
            self.consumed[index] = true;
            jobs.push(self.jobs[index]);
            proof {
                let prefix = picked.subrange(0, i as int);
                let grown = picked.subrange(0, i + 1);
                assert(grown =~= prefix.push(index as int));
                assert forall|x: int| 0 <= x < before.len() implies (#[trigger] self.consumed@[x])
                    == (before[x] || grown.contains(x)) by {
                    if x == index {
                        assert(grown[i as int] == index);
                    } else {
                        assert(self.consumed@[x] == marks[x]);
                        if prefix.contains(x) {
                            let k = choose|k: int| 0 <= k < prefix.len() && prefix[k] == x;
                            assert(grown[k] == x);
                        }
                        if grown.contains(x) {
                            let k = choose|k: int| 0 <= k < grown.len() && grown[k] == x;
                            assert(prefix[k] == x);
                        }
                    }
                }
            }
            i += 1;
        }
        proof {
            assert(picked.subrange(0, taken as int) =~= picked);
            assert(self.consumed@ =~= claimed(before, picked));
        }
        Some(Batch { jobs, health })
    }
}

/// A job lies within the place of its volume, and the places of two
/// volumes do not overlap: no two jobs write to the same byte.
pub proof fn lemma_jobs_disjoint(tasks: Seq<DownloadTaskView>, i: int, j: int)
    requires
        0 <= i < j < tasks.len(),
        lengths_sum(tasks) <= u64::MAX,
    ensures
        job_of(tasks, i).start <= job_of(tasks, i).offset <= job_of(tasks, i).end,
        job_of(tasks, i).end <= job_of(tasks, j).start,
        job_of(tasks, i).end - job_of(tasks, i).start == tasks[i].length,
        job_of(tasks, j).end <= lengths_sum(tasks),
{
    lemma_lengths_sum_step(tasks, i);
    lemma_lengths_sum_step(tasks, j);
    lemma_lengths_sum_monotone(tasks, i + 1, j);
    lemma_lengths_sum_monotone(tasks, j + 1, tasks.len() as int);
    lemma_lengths_sum_monotone(tasks, 0, i);
}

/// A round hands out jobs that were not handed out before, and no job
/// twice.
pub proof fn lemma_chosen_fresh(consumed: Seq<bool>, health: BufferHealth)
    ensures
        ({
            let picked = chosen(unclaimed(consumed), health);
            &&& forall|i: int|
                0 <= i < picked.len() ==> 0 <= (#[trigger] picked[i]) < consumed.len()
                    && !consumed[picked[i]]
            &&& forall|i: int, j: int| 0 <= i < j < picked.len() ==> picked[i] != picked[j]
            &&& unclaimed(consumed).len() > 0 ==> picked.len() > 0
        }),
{
    lemma_unclaimed(consumed);
    let available = unclaimed(consumed);
    let picked = chosen(available, health);
    let count = health.spec_concurrent_jobs(available.len()) as int;
    let step = stride(available.len() as int, count);
    if (health == BufferHealth::Good || health == BufferHealth::Excellent) && step > 1 {
        assert(count > 0);
        assert forall|i: int, j: int| 0 <= i < j < picked.len() implies picked[i] != picked[j] by {
            lemma_stride_index(available.len() as int, count, i);
            lemma_stride_index(available.len() as int, count, j);
            assert(i * step < j * step) by (nonlinear_arith)
                requires
                    0 <= i < j,
                    step > 1,
            ;
        }
        assert forall|i: int| 0 <= i < picked.len() implies 0 <= (#[trigger] picked[i])
            < consumed.len() && !consumed[picked[i]] by {
            lemma_stride_index(available.len() as int, count, i);
        }
    }
}

/// The `i`-th of `count` evenly spaced places lies within `len`.
pub proof fn lemma_stride_index(len: int, count: int, i: int)
    requires
        0 <= i < count,
        stride(len, count) > 1,
    ensures
        0 <= i * stride(len, count) < len,
{
    let step = stride(len, count);
    assert(i * step <= (count - 1) * step) by (nonlinear_arith)
        requires
            0 <= i <= count - 1,
            step >= 0,
    ;
    assert((count - 1) * step < len) by (nonlinear_arith)
        requires
            count > 0,
            step == len / count,
            step > 1,
    ;
    assert(0 <= i * step) by (nonlinear_arith)
        requires
            0 <= i,
            step >= 0,
    ;
}

/// Marks that only grow leave no more unclaimed than there were, and
/// fewer where a mark is new.
pub proof fn lemma_fewer_unclaimed(before: Seq<bool>, after: Seq<bool>)
    requires
        before.len() == after.len(),
        forall|i: int| 0 <= i < before.len() && before[i] ==> after[i],
    ensures
        unclaimed(after).len() <= unclaimed(before).len(),
        (exists|j: int| 0 <= j < before.len() && !before[j] && after[j]) ==> unclaimed(
            after,
        ).len() < unclaimed(before).len(),
    decreases before.len(),
{
    if before.len() > 0 {
        let b = before.drop_last();
        let a = after.drop_last();
        assert forall|i: int| 0 <= i < b.len() && b[i] implies a[i] by {
            assert(before[i] && b[i] == before[i] && a[i] == after[i]);
        }
        lemma_fewer_unclaimed(b, a);
        if exists|j: int| 0 <= j < before.len() && !before[j] && after[j] {
            let j = choose|j: int| 0 <= j < before.len() && !before[j] && after[j];
            if j < before.len() - 1 {
                assert(!b[j] && a[j]);
            }
        }
    }
}

/// Every round hands out at least one job that was not handed out
/// before, so that fewer are left: the rounds end once every job was
/// handed out, and no job is handed out twice.
pub proof fn lemma_round_makes_progress(consumed: Seq<bool>, health: BufferHealth)
    requires
        unclaimed(consumed).len() > 0,
    ensures
        unclaimed(claimed(consumed, chosen(unclaimed(consumed), health))).len() < unclaimed(
            consumed,
        ).len(),
{
    lemma_chosen_fresh(consumed, health);
    let picked = chosen(unclaimed(consumed), health);
    let after = claimed(consumed, picked);
    let j = picked[0];
    assert(picked.contains(j));
    assert(!consumed[j] && after[j]);
    lemma_fewer_unclaimed(consumed, after);
}

} // verus!
