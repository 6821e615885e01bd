//! The work of one session as a queue of downloads with priorities, and
//! the matching of posted names against real names.
pub mod downloader;
pub mod manager;
pub mod state;

use crate::archive::par2::is_stable_order;
use crate::archive::par2::stable_order;
use crate::nzb::file::PostedFile;
use crate::nzb::file::PostedFileView;
use crate::nzb::file::Segment;
use crate::nzb::file::SegmentView;
use crate::text::byte_length;
use crate::text::chars_of;
use crate::text::contains;
use crate::text::contains_str;
use crate::text::ends_with_str;
use crate::text::find_char;
use crate::text::first_index;
use crate::text::has_prefix;
use crate::text::has_sub;
use crate::text::has_suffix;
use crate::text::lowercased;
use crate::text::starts_with;
use crate::text::string_of;
use crate::text::to_lowercase;
use crate::text::unsigned_of;
use crate::text::utf8_len;
use vstd::prelude::*;

verus! {

/// Priority of the first recovery file; the others follow upwards.
pub const PAR2_PRIORITY: u32 = 10000;

/// Priority of the first segment of the first volume; the others follow
/// downwards.
pub const RAR_PRIORITY: u32 = 5000;

/// The place in the order of volumes given to a name that names none.
pub const UNKNOWN_SEQUENCE: u32 = 999;

/// A download that waits in the queue of a session.
#[derive(Debug, Clone, PartialEq, Eq)]
pub enum DownloadTask {
    /// A whole recovery file.
    Par2 { file: PostedFile, priority: u32 },
    /// One segment of a volume, for the bytes from `start` to `end` of
    /// the volume, `end` not included.
    RarSegment {
        segment: Segment,
        file_index: usize,
        segment_index: usize,
        priority: u32,
        start: u64,
        end: u64,
    },
}

/// What a download holds.
pub ghost enum DownloadTaskView {
    Par2 { file: PostedFileView, priority: u32 },
    RarSegment {
        segment: SegmentView,
        file_index: usize,
        segment_index: usize,
        priority: u32,
        start: u64,
        end: u64,
    },
}

impl View for DownloadTask {
    type V = DownloadTaskView;

    open spec fn view(&self) -> DownloadTaskView {
        match self {
            DownloadTask::Par2 { file, priority } => DownloadTaskView::Par2 {
                file: file@,
                priority: *priority,
            },
            DownloadTask::RarSegment {
                segment,
                file_index,
                segment_index,
                priority,
                start,
                end,
            } => DownloadTaskView::RarSegment {
                segment: segment@,
                file_index: *file_index,
                segment_index: *segment_index,
                priority: *priority,
                start: *start,
                end: *end,
            },
        }
    }
}

impl DownloadTask {
    pub open spec fn spec_priority(&self) -> u32 {
        match self {
            DownloadTask::Par2 { priority, .. } => *priority,
            DownloadTask::RarSegment { priority, .. } => *priority,
        }
    }

    /// The priority of the download.
    pub fn priority(&self) -> (p: u32)
        ensures
            p == self.spec_priority(),
    {
        match self {
            DownloadTask::Par2 { priority, .. } => *priority,
            DownloadTask::RarSegment { priority, .. } => *priority,
        }
    }

    /// A copy of this download.
    pub fn duplicate(&self) -> (t: DownloadTask)
        ensures
            t@ == self@,
    {
        match self {
            DownloadTask::Par2 { file, priority } => DownloadTask::Par2 {
                file: file.duplicate(),
                priority: *priority,
            },
            DownloadTask::RarSegment {
                segment,
                file_index,
                segment_index,
                priority,
                start,
                end,
            } => DownloadTask::RarSegment {
                segment: segment.duplicate(),
                file_index: *file_index,
                segment_index: *segment_index,
                priority: *priority,
                start: *start,
                end: *end,
            },
        }
    }

    /// The message id to fetch: that of the segment, or that of the first
    /// segment of the recovery file, which must have one.
    pub fn message_id(&self) -> (id: &str)
        requires
            self matches DownloadTask::Par2 { file, .. } ==> file.segments@.len() > 0,
        ensures
            id@ == match self {
                DownloadTask::Par2 { file, .. } => file.segments@[0].message_id@,
                DownloadTask::RarSegment { segment, .. } => segment.message_id@,
            },
    {
        match self {
            DownloadTask::Par2 { file, .. } => file.segments[0].message_id.as_str(),
            DownloadTask::RarSegment { segment, .. } => segment.message_id.as_str(),
        }
    }
}

/// The place of a volume in the order of its archive, by its name: 0 for
/// `.rar`, the number behind the last `.r` and one more for a numbered
/// part, 999 for any other name.
pub open spec fn sequence_of(name: Seq<char>) -> u32 {
    if has_suffix(name, ".rar"@) {
        0
    } else {
        match last_dot_r_from_end(name, name.len() as int) {
            Some(pos) => match unsigned_of(
                name.subrange(pos + 2, name.len() as int),
                (u32::MAX - 1) as nat,
            ) {
                Some(n) => (n + 1) as u32,
                None => UNKNOWN_SEQUENCE,
            },
            None => UNKNOWN_SEQUENCE,
        }
    }
}

/// Index of the last place before `end` at which `.r` begins in `name`.
pub open spec fn last_dot_r_from_end(name: Seq<char>, end: int) -> Option<int>
    decreases end,
{
    if end < 2 || end > name.len() {
        None
    } else if name[end - 2] == '.' && name[end - 1] == 'r' {
        Some(end - 2)
    } else {
        last_dot_r_from_end(name, end - 1)
    }
}

/// Works out the place of a volume in the order of its archive from its
/// name.
pub fn rar_sequence(name: &str) -> (n: u32)
    ensures
        n == sequence_of(name@),
{
    let chars = chars_of(name);
    let s = chars.as_slice();
    if ends_with_str(s, ".rar") {
        return 0;
    }
    let len: usize = s.len();
    let mut end: usize = len;
    while end >= 2
        invariant
            end <= len,
            len == s@.len(),
            s@ == name@,
            !has_suffix(s@, ".rar"@),
            last_dot_r_from_end(s@, len as int) == last_dot_r_from_end(s@, end as int),
        decreases end,
    {
        if s[end - 2] == '.' && s[end - 1] == 'r' {
            let digits = vstd::slice::slice_subrange(s, end, len);
            return match crate::text::parse_decimal(digits, 0xFFFF_FFFE) {
                Some(v) => (v + 1) as u32,
                None => UNKNOWN_SEQUENCE,
            };
        }
        end -= 1;
    }
    UNKNOWN_SEQUENCE
}

/// Whether the priority of segment `segment_index` of volume
/// `file_index` is not below zero.
pub open spec fn priority_fits(file_index: usize, segment_index: usize) -> bool {
    file_index * 100 + segment_index <= RAR_PRIORITY
}

/// The priority of segment `segment_index` of volume `file_index`: it
/// falls by one from segment to segment and by a hundred from volume to
/// volume.
pub open spec fn segment_priority(file_index: usize, segment_index: usize) -> u32 {
    (RAR_PRIORITY - (file_index * 100 + segment_index)) as u32
}

/// Works out the priority of a segment, which must not be below zero.
pub fn priority_of_segment(file_index: usize, segment_index: usize) -> (p: u32)
    requires
        priority_fits(file_index, segment_index),
    ensures
        p == segment_priority(file_index, segment_index),
{
    let drop: u128 = file_index as u128 * 100 + segment_index as u128;
    RAR_PRIORITY - drop as u32
}

/// Whether a volume can be queued as the `file_index`-th: the sizes of
/// its segments together fit in 64 bits, and the priority of none of
/// them is below zero.
pub open spec fn volume_fits(segments: Seq<Segment>, file_index: usize) -> bool {
    crate::nzb::file::sizes_sum(segments) <= u64::MAX && (segments.len() > 0 ==> file_index * 100
        + (segments.len() - 1) <= RAR_PRIORITY)
}

/// Tells whether a volume can be queued as the `file_index`-th.
pub fn can_queue_volume(file: &PostedFile, file_index: usize) -> (b: bool)
    ensures
        b == volume_fits(file.segments@, file_index),
{
    let n: usize = file.segments.len();
    file.size().is_some() && (n == 0 || file_index as u128 * 100 + (n - 1) as u128
        <= RAR_PRIORITY as u128)
}

/// The downloads of the recovery files: one for every file, in order,
/// with priorities from 10000 upwards.
pub fn queue_par2_downloads(par2_files: &[PostedFile]) -> (tasks: Vec<DownloadTask>)
    requires
        par2_files@.len() <= u32::MAX - PAR2_PRIORITY,
    ensures
        tasks@.len() == par2_files@.len(),
        forall|i: int|
            0 <= i < tasks@.len() ==> (#[trigger] tasks@[i])@ == (DownloadTaskView::Par2 {
                file: par2_files@[i]@,
                priority: (PAR2_PRIORITY + i) as u32,
            }),
{
    let mut tasks: Vec<DownloadTask> = Vec::new();
    let mut i: usize = 0;
    while i < par2_files.len()
        invariant
            i <= par2_files@.len(),
            par2_files@.len() <= u32::MAX - PAR2_PRIORITY,
            tasks@.len() == i,
            forall|k: int|
                0 <= k < i ==> (#[trigger] tasks@[k])@ == (DownloadTaskView::Par2 {
                    file: par2_files@[k]@,
                    priority: (PAR2_PRIORITY + k) as u32,
                }),
        decreases par2_files@.len() - i,
    {
        tasks.push(
            DownloadTask::Par2 {
                file: par2_files[i].duplicate(),
                priority: PAR2_PRIORITY + i as u32,
            },
        );
        i += 1;
    }
    tasks
}

/// The places of `files` in the order of volumes, by their subjects.
pub open spec fn sequences_of(files: Seq<PostedFile>) -> Seq<u64> {
    Seq::new(files.len(), |i: int| sequence_of(files[i].subject@) as u64)
}

/// The order in which the volumes `rar_files` are fetched: by their place
/// in the archive, volumes of the same place in their first order.
pub fn volume_order(rar_files: &[PostedFile]) -> (order: Vec<usize>)
    ensures
        is_stable_order(sequences_of(rar_files@), order@),
{
    let mut keys: Vec<u64> = Vec::new();
    let mut i: usize = 0;
    while i < rar_files.len()
        invariant
            i <= rar_files@.len(),
            keys@.len() == i,
            forall|k: int| 0 <= k < i ==> keys@[k] == sequence_of(rar_files@[k].subject@) as u64,
        decreases rar_files@.len() - i,
    {
        keys.push(rar_sequence(rar_files[i].subject.as_str()) as u64);
        i += 1;
    }
    assert(keys@ =~= sequences_of(rar_files@));
    stable_order(&keys)
}

/// The download of segment `i` of a volume that is the `file_index`-th to
/// be fetched: it is for the bytes behind those of the segments before it.
pub open spec fn volume_task(segments: Seq<Segment>, file_index: usize, i: int) -> DownloadTaskView {
    DownloadTaskView::RarSegment {
        segment: segments[i]@,
        file_index,
        segment_index: i as usize,
        priority: segment_priority(file_index, i as usize),
        start: crate::nzb::file::sizes_sum(segments.subrange(0, i)) as u64,
        end: crate::nzb::file::sizes_sum(segments.subrange(0, i + 1)) as u64,
    }
}

/// The downloads of the segments of one volume, which is the
/// `file_index`-th to be fetched: one for every segment, in order, each
/// for the bytes behind those of the segments before it.
pub fn queue_volume(file: &PostedFile, file_index: usize) -> (tasks: Vec<DownloadTask>)
    requires
        volume_fits(file.segments@, file_index),
    ensures
        tasks@.len() == file.segments@.len(),
        forall|i: int|
            0 <= i < tasks@.len() ==> (#[trigger] tasks@[i])@ == volume_task(
                file.segments@,
                file_index,
                i,
            ),
{
    let mut tasks: Vec<DownloadTask> = Vec::new();
    let mut offset: u64 = 0;
    let mut i: usize = 0;
    assert(file.segments@.subrange(0, 0) =~= Seq::<Segment>::empty());
    while i < file.segments.len()
        invariant
            i <= file.segments@.len(),
            offset == crate::nzb::file::sizes_sum(file.segments@.subrange(0, i as int)),
            volume_fits(file.segments@, file_index),
            tasks@.len() == i,
            forall|k: int|
                0 <= k < i ==> (#[trigger] tasks@[k])@ == volume_task(
                    file.segments@,
                    file_index,
                    k,
                ),
        decreases file.segments@.len() - i,
    {
        let s = &file.segments[i];
        let ghost next = file.segments@.subrange(0, i + 1);
        assert(next.drop_last() =~= file.segments@.subrange(0, i as int));
        assert(next.last() == file.segments@[i as int]);
        proof {
            crate::nzb::file::lemma_sizes_sum_monotone(file.segments@, i + 1);
        }
        let end: u64 = offset + s.size as u64;
        tasks.push(
            DownloadTask::RarSegment {
                segment: s.duplicate(),
                file_index,
                segment_index: i,
                priority: priority_of_segment(file_index, i),
                start: offset,
                end,
            },
        );
        offset = end;
        i += 1;
    }
    assert(file.segments@.subrange(0, i as int) =~= file.segments@);
    tasks
}

/// Index of the download that is handed out next: the last of those of
/// the lowest priority.
pub open spec fn next_index(priorities: Seq<u32>) -> Option<int>
    decreases priorities.len(),
{
    if priorities.len() == 0 {
        None
    } else {
        match next_index(priorities.drop_last()) {
            Some(i) => if priorities[i] < priorities.last() {
                Some(i)
            } else {
                Some(priorities.len() - 1)
            },
            None => Some(priorities.len() - 1),
        }
    }
}

/// The priorities of `tasks`, in their order.
pub open spec fn priorities_of(tasks: Seq<DownloadTask>) -> Seq<u32> {
    Seq::new(tasks.len(), |i: int| tasks[i].spec_priority())
}

/// Picks the download that is handed out next from the queue.
pub fn get_next_download_task(queue: &Vec<DownloadTask>) -> (r: Option<usize>)
    ensures
        match r {
            Some(i) => next_index(priorities_of(queue@)) == Some(i as int) && i < queue@.len(),
            None => next_index(priorities_of(queue@)) is None,
        },
{
    let ghost all = priorities_of(queue@);
    let mut best: Option<usize> = None;
    let mut i: usize = 0;
    assert(all.subrange(0, 0) =~= Seq::<u32>::empty());
    while i < queue.len()
        invariant
            i <= queue@.len(),
            all == priorities_of(queue@),
            match best {
                Some(b) => next_index(all.subrange(0, i as int)) == Some(b as int) && b < i,
                None => next_index(all.subrange(0, i as int)) is None,
            },
        decreases queue@.len() - i,
    {
        let ghost next = all.subrange(0, i + 1);
        assert(next.drop_last() =~= all.subrange(0, i as int));
        assert(next.last() == queue@[i as int].spec_priority());
        best = match best {
            Some(b) => {
                assert(next[b as int] == queue@[b as int].spec_priority());
                if queue[b].priority() < queue[i].priority() {
                    Some(b)
                } else {
                    Some(i)
                }
            },
            None => Some(i),
        };
        i += 1;
    }
    assert(all.subrange(0, i as int) =~= all);
    best
}

/// Whether a name, in lowercase, ends like the name of a video file.
pub open spec fn video_name(name: Seq<char>) -> bool {
    has_suffix(name, ".mkv"@) || has_suffix(name, ".mp4"@) || has_suffix(name, ".avi"@)
        || has_suffix(name, ".mov"@) || has_suffix(name, ".wmv"@) || has_suffix(name, ".m4v"@)
}

/// Whether a name, which is in lowercase, names a video file.
pub fn is_video_file(filename: &str) -> (b: bool)
    ensures
        b == video_name(filename@),
{
    let chars = chars_of(filename);
    let s = chars.as_slice();
    ends_with_str(s, ".mkv") || ends_with_str(s, ".mp4") || ends_with_str(s, ".avi")
        || ends_with_str(s, ".mov") || ends_with_str(s, ".wmv") || ends_with_str(s, ".m4v")
}

/// Whether `matches` of `longer` characters make two names alike: more
/// than seven in ten.
pub open spec fn alike(matches: nat, longer: nat) -> bool {
    longer > 0 && 10 * matches > 7 * longer
}

/// Whether the share of matching characters makes two names alike.
pub fn similar_enough(matches: usize, longer: u128) -> (b: bool)
    ensures
        b == alike(matches as nat, longer as nat),
{
    longer > 0 && longer <= u128::MAX / 7 && 10 * (matches as u128) > 7 * longer
}

/// Whether both names hold the same mark of picture quality.
pub open spec fn share_quality(a: Seq<char>, b: Seq<char>) -> bool {
    (has_sub(a, "720p"@) && has_sub(b, "720p"@)) || (has_sub(a, "1080p"@) && has_sub(
        b,
        "1080p"@,
    )) || (has_sub(a, "2160p"@) && has_sub(b, "2160p"@)) || (has_sub(a, "4k"@) && has_sub(
        b,
        "4k"@,
    )) || (has_sub(a, "hdr"@) && has_sub(b, "hdr"@)) || (has_sub(a, "x264"@) && has_sub(
        b,
        "x264"@,
    )) || (has_sub(a, "x265"@) && has_sub(b, "x265"@)) || (has_sub(a, "hevc"@) && has_sub(
        b,
        "hevc"@,
    ))
}

fn both_hold(a: &[char], b: &[char], mark: &str) -> (r: bool)
    ensures
        r == (has_sub(a@, mark@) && has_sub(b@, mark@)),
{
    contains_str(a, mark) && contains_str(b, mark)
}

/// Whether two names, which are in lowercase, hold the same mark of
/// picture quality.
pub fn has_shared_quality(s1: &str, s2: &str) -> (r: bool)
    ensures
        r == share_quality(s1@, s2@),
{
    let c1 = chars_of(s1);
    let c2 = chars_of(s2);
    let a = c1.as_slice();
    let b = c2.as_slice();
    both_hold(a, b, "720p") || both_hold(a, b, "1080p") || both_hold(a, b, "2160p") || both_hold(
        a,
        b,
        "4k",
    ) || both_hold(a, b, "hdr") || both_hold(a, b, "x264") || both_hold(a, b, "x265")
        || both_hold(a, b, "hevc")
}

/// `s` without the copies of `prefix` that it begins with.
pub open spec fn without_leading(s: Seq<char>, prefix: Seq<char>) -> Seq<char>
    decreases s.len(),
{
    if prefix.len() > 0 && has_prefix(s, prefix) {
        without_leading(s.subrange(prefix.len() as int, s.len() as int), prefix)
    } else {
        s
    }
}

/// `base` without a leading mark of a release site: where it begins with
/// `prefix`, all leading copies of it go, and the dots that follow.
pub open spec fn without_site(base: Seq<char>, prefix: Seq<char>) -> Seq<char> {
    if has_prefix(base, prefix) {
        without_leading(without_leading(base, prefix), seq!['.'])
    } else {
        base
    }
}

/// Whether `c` separates words in a file name.
pub open spec fn is_separator(c: char) -> bool {
    c == '-' || c == '_' || c == '.' || c == ' '
}

/// `s` without its separators.
pub open spec fn without_separators(s: Seq<char>) -> Seq<char>
    decreases s.len(),
{
    if s.len() == 0 {
        Seq::empty()
    } else if is_separator(s.last()) {
        without_separators(s.drop_last())
    } else {
        without_separators(s.drop_last()).push(s.last())
    }
}

/// What stands before the first dot of `filename`; all of it where it
/// has none.
pub open spec fn before_first_dot(filename: Seq<char>) -> Seq<char> {
    match first_index(filename, '.') {
        Some(dot) => filename.subrange(0, dot),
        None => filename,
    }
}

/// The base of a file name, by which names are compared: what stands
/// before its first dot, without the marks of release sites at its
/// beginning and without separators.
pub open spec fn base_name_of(filename: Seq<char>) -> Seq<char> {
    without_separators(
        without_site(
            without_site(
                without_site(without_site(before_first_dot(filename), "www."@), "rarbg"@),
                "yts"@,
            ),
            "eztv"@,
        ),
    )
}

fn strip_leading(s: Vec<char>, prefix: &[char]) -> (r: Vec<char>)
    ensures
        r@ == without_leading(s@, prefix@),
{
    if prefix.len() == 0 {
        return s;
    }
    let mut from: usize = 0;
    let len: usize = s.len();
    assert(s@.subrange(0, len as int) =~= s@);
    loop
        invariant
            from <= len,
            len == s@.len(),
            prefix@.len() > 0,
            without_leading(s@, prefix@) == without_leading(
                s@.subrange(from as int, len as int),
                prefix@,
            ),
        decreases len - from,
    {
        let rest = vstd::slice::slice_subrange(s.as_slice(), from, len);
        if !starts_with(rest, prefix) {
            return crate::text::slice_chars(s.as_slice(), from, len);
        }
        assert(rest@.subrange(prefix@.len() as int, rest@.len() as int) =~= s@.subrange(
            from + prefix@.len(),
            len as int,
        ));
        from = from + prefix.len();
    }
}

fn strip_site(base: Vec<char>, prefix: &str) -> (r: Vec<char>)
    ensures
        r@ == without_site(base@, prefix@),
{
    let p = chars_of(prefix);
    if starts_with(base.as_slice(), p.as_slice()) {
        let stripped = strip_leading(base, p.as_slice());
        let mut dot: Vec<char> = Vec::new();
        dot.push('.');
        assert(dot@ =~= seq!['.']);
        strip_leading(stripped, dot.as_slice())
    } else {
        base
    }
}

/// Works out the base of a file name, which is in lowercase.
pub fn extract_base_name(filename: &str) -> (base: String)
    ensures
        base@ == base_name_of(filename@),
{
    let chars = chars_of(filename);
    let len: usize = chars.len();
    let end: usize = match find_char(chars.as_slice(), '.') {
        Some(dot) => {
            proof {
                crate::text::lemma_first_index_from(chars@, '.', 0);
            }
            dot
        },
        None => {
            assert(chars@.subrange(0, len as int) =~= chars@);
            len
        },
    };
    let head = crate::text::slice_chars(chars.as_slice(), 0, end);
    let base = strip_site(strip_site(strip_site(strip_site(head, "www."), "rarbg"), "yts"), "eztv");
    let mut out: Vec<char> = Vec::new();
    let mut i: usize = 0;
    assert(base@.subrange(0, 0) =~= Seq::<char>::empty());
    while i < base.len()
        invariant
            i <= base@.len(),
            out@ == without_separators(base@.subrange(0, i as int)),
        decreases base@.len() - i,
    {
        let ghost next = base@.subrange(0, i + 1);
        assert(next.drop_last() =~= base@.subrange(0, i as int));
        assert(next.last() == base@[i as int]);
        let c = base[i];
        if !(c == '-' || c == '_' || c == '.' || c == ' ') {
            out.push(c);
        }
        i += 1;
    }
    assert(base@.subrange(0, i as int) =~= base@);
    string_of(out.as_slice())
}

/// Whether `c` occurs in `s`.
pub open spec fn holds_char(s: Seq<char>, c: char) -> bool {
    exists|k: int| 0 <= k < s.len() && s[k] == c
}

/// The number of characters of `shorter` that occur in `longer`.
pub open spec fn shared_chars(shorter: Seq<char>, longer: Seq<char>) -> nat
    decreases shorter.len(),
{
    if shorter.len() == 0 {
        0
    } else {
        shared_chars(shorter.drop_last(), longer) + if holds_char(longer, shorter.last()) {
            1nat
        } else {
            0nat
        }
    }
}

/// By what two names are alike: the number of characters of the shorter
/// that occur in the longer, and the length of the longer in bytes. Of
/// two names of the same length the second counts as the longer. Nothing
/// where one of them is empty.
pub open spec fn likeness(s1: Seq<char>, s2: Seq<char>) -> Option<(nat, nat)> {
    if s1.len() == 0 || s2.len() == 0 {
        None
    } else if utf8_len(s1) > utf8_len(s2) {
        Some((shared_chars(s2, s1), utf8_len(s1)))
    } else {
        Some((shared_chars(s1, s2), utf8_len(s2)))
    }
}

fn has_char(s: &[char], c: char) -> (r: bool)
    ensures
        r == holds_char(s@, c),
{
    let mut k: usize = 0;
    while k < s.len()
        invariant
            k <= s@.len(),
            forall|j: int| 0 <= j < k ==> s@[j] != c,
        decreases s@.len() - k,
    {
        if s[k] == c {
            return true;
        }
        k += 1;
    }
    false
}

fn count_shared(shorter: &[char], longer: &[char]) -> (n: usize)
    ensures
        n == shared_chars(shorter@, longer@),
        n <= shorter@.len(),
{
    let mut n: usize = 0;
    let mut i: usize = 0;
    assert(shorter@.subrange(0, 0) =~= Seq::<char>::empty());
    while i < shorter.len()
        invariant
            i <= shorter@.len(),
            n == shared_chars(shorter@.subrange(0, i as int), longer@),
            n <= i,
        decreases shorter@.len() - i,
    {
        let ghost next = shorter@.subrange(0, i + 1);
        assert(next.drop_last() =~= shorter@.subrange(0, i as int));
        assert(next.last() == shorter@[i as int]);
        if has_char(longer, shorter[i]) {
            n += 1;
        }
        i += 1;
    }
    assert(shorter@.subrange(0, i as int) =~= shorter@);
    n
}

/// Counts by what two names are alike.
pub fn calculate_similarity(s1: &str, s2: &str) -> (r: Option<(usize, u128)>)
    ensures
        match likeness(s1@, s2@) {
            Some((shared, longer)) => r matches Some((a, b)) && a == shared && b == longer && b
                <= 4 * usize::MAX,
            None => r is None,
        },
{
    let a = chars_of(s1);
    let b = chars_of(s2);
    if a.len() == 0 || b.len() == 0 {
        return None;
    }
    let la = byte_length(a.as_slice());
    let lb = byte_length(b.as_slice());
    proof {
        crate::text::lemma_utf8_len_bounds(a@);
        crate::text::lemma_utf8_len_bounds(b@);
    }
    if la > lb {
        Some((count_shared(b.as_slice(), a.as_slice()), la))
    } else {
        Some((count_shared(a.as_slice(), b.as_slice()), lb))
    }
}

/// The years by which names are compared, in the order in which they are
/// looked for.
pub open spec fn years() -> Seq<Seq<char>> {
    seq![
        "2020"@,
        "2021"@,
        "2022"@,
        "2023"@,
        "2024"@,
        "2025"@,
        "1990"@,
        "1995"@,
        "2000"@,
        "2005"@,
        "2010"@,
        "2015"@,
    ]
}

/// Index of the last of the first `n` years that occurs in `s`.
pub open spec fn last_year(s: Seq<char>, n: int) -> Option<int>
    decreases n,
{
    if n <= 0 || n > years().len() {
        None
    } else if has_sub(s, years()[n - 1]) {
        Some(n - 1)
    } else {
        last_year(s, n - 1)
    }
}

/// Whether both names hold a year, and the last found in each is the
/// same.
pub open spec fn share_year(a: Seq<char>, b: Seq<char>) -> bool {
    last_year(a, 12) is Some && last_year(a, 12) == last_year(b, 12)
}

fn year_text(i: usize) -> (y: &'static str)
    requires
        i < 12,
    ensures
        y@ == years()[i as int],
{
    if i == 0 {
        "2020"
    } else if i == 1 {
        "2021"
    } else if i == 2 {
        "2022"
    } else if i == 3 {
        "2023"
    } else if i == 4 {
        "2024"
    } else if i == 5 {
        "2025"
    } else if i == 6 {
        "1990"
    } else if i == 7 {
        "1995"
    } else if i == 8 {
        "2000"
    } else if i == 9 {
        "2005"
    } else if i == 10 {
        "2010"
    } else {
        "2015"
    }
}

fn find_year(s: &[char]) -> (r: Option<usize>)
    ensures
        match r {
            Some(i) => last_year(s@, 12) == Some(i as int),
            None => last_year(s@, 12) is None,
        },
{
    let mut n: usize = 12;
    while n > 0
        invariant
            n <= 12,
            last_year(s@, 12) == last_year(s@, n as int),
        decreases n,
    {
        if contains_str(s, year_text(n - 1)) {
            return Some(n - 1);
        }
        n -= 1;
    }
    None
}

/// Whether two names, which are in lowercase, hold the same year or the
/// same mark of picture quality.
pub fn has_similar_patterns(s1: &str, s2: &str) -> (r: bool)
    ensures
        r == (share_year(s1@, s2@) || share_quality(s1@, s2@)),
{
    let a = chars_of(s1);
    let b = chars_of(s2);
    let ya = find_year(a.as_slice());
    let yb = find_year(b.as_slice());
    let same_year: bool = match (ya, yb) {
        (Some(x), Some(y)) => x == y,
        _ => false,
    };
    same_year || has_shared_quality(s1, s2)
}

/// Whether a posted name and a real name, both in lowercase, are taken
/// for names of the same file; `real_base` is the base of the real name.
///
/// They are where one holds the other, where their bases are longer than
/// five bytes and alike, or where they hold the same year or the same
/// mark of picture quality.
pub open spec fn names_match(posted: Seq<char>, actual: Seq<char>, real_base: Seq<char>) -> bool {
    has_sub(posted, actual) || has_sub(actual, posted) || (utf8_len(base_name_of(posted)) > 5
        && utf8_len(real_base) > 5 && (likeness(base_name_of(posted), real_base) matches Some(
        (shared, longer),
    ) && alike(shared, longer))) || share_year(posted, actual) || share_quality(posted, actual)
}

/// Whether a posted name and a real name, both in lowercase, are taken
/// for names of the same file.
pub fn lowercase_names_match(posted: &str, actual: &str, real_base: &str) -> (r: bool)
    ensures
        r == names_match(posted@, actual@, real_base@),
{
    let p = chars_of(posted);
    let q = chars_of(actual);
    if contains(p.as_slice(), q.as_slice()) || contains(q.as_slice(), p.as_slice()) {
        return true;
    }
    let base = extract_base_name(posted);
    let base_chars = chars_of(base.as_str());
    let real_chars = chars_of(real_base);
    if byte_length(base_chars.as_slice()) > 5 && byte_length(real_chars.as_slice()) > 5 {
        match calculate_similarity(base.as_str(), real_base) {
            Some((shared, longer)) => {
                if similar_enough(shared, longer) {
                    return true;
                }
            },
            None => {},
        }
    }
    has_similar_patterns(posted, actual)
}

/// Whether a posted name and a real name are taken for names of the same
/// file, whatever their case; `real_base` is the base of the real name
/// in lowercase.
pub fn filenames_match(obfuscated: &str, real_filename: &str, real_base: &str) -> (r: bool)
    ensures
        r == names_match(lowercased(obfuscated@), lowercased(real_filename@), real_base@),
{
    let posted = to_lowercase(obfuscated);
    let actual = to_lowercase(real_filename);
    lowercase_names_match(posted.as_str(), actual.as_str(), real_base)
}

/// Index of the first of `subjects` at or after `from` that is taken for
/// a name of the file `real_filename`.
pub open spec fn matching_subject(
    subjects: Seq<String>,
    real_filename: Seq<char>,
    real_base: Seq<char>,
    from: int,
) -> Option<int>
    decreases subjects.len() - from,
{
    if from < 0 || from >= subjects.len() {
        None
    } else if names_match(lowercased(subjects[from]@), lowercased(real_filename), real_base) {
        Some(from)
    } else {
        matching_subject(subjects, real_filename, real_base, from + 1)
    }
}

/// The posted file that stands for the video `real_filename`: nothing
/// where the name, in lowercase, names no video; else the first posted
/// file whose subject is taken for a name of it.
pub open spec fn obfuscated_match(subjects: Seq<String>, real_filename: Seq<char>) -> Option<int> {
    if video_name(lowercased(real_filename)) {
        matching_subject(
            subjects,
            real_filename,
            base_name_of(lowercased(real_filename)),
            0,
        )
    } else {
        None
    }
}

/// Finds the first posted file that is taken for a name of the file
/// `real_filename`, whose base in lowercase is `real_base`.
pub fn first_matching_subject(subjects: &[String], real_filename: &str, real_base: &str) -> (r:
    Option<usize>)
    ensures
        match r {
            Some(i) => matching_subject(subjects@, real_filename@, real_base@, 0) == Some(
                i as int,
            ) && i < subjects@.len(),
            None => matching_subject(subjects@, real_filename@, real_base@, 0) is None,
        },
{
    let mut i: usize = 0;
    while i < subjects.len()
        invariant
            i <= subjects@.len(),
            matching_subject(subjects@, real_filename@, real_base@, 0) == matching_subject(
                subjects@,
                real_filename@,
                real_base@,
                i as int,
            ),
        decreases subjects@.len() - i,
    {
        if filenames_match(subjects[i].as_str(), real_filename, real_base) {
            return Some(i);
        }
        i += 1;
    }
    None
}

/// Finds the posted file that stands for a video named in the recovery
/// set.
pub fn match_obfuscated_filename(subjects: &[String], real_filename: &str) -> (r: Option<usize>)
    ensures
        match r {
            Some(i) => obfuscated_match(subjects@, real_filename@) == Some(i as int) && i
                < subjects@.len(),
            None => obfuscated_match(subjects@, real_filename@) is None,
        },
{
    let lower = to_lowercase(real_filename);
    if !is_video_file(lower.as_str()) {
        return None;
    }
    let base = extract_base_name(lower.as_str());
    first_matching_subject(subjects, real_filename, base.as_str())
}

/// Whether enough is queued for the stream to start: the first volume in
/// the order of fetching has at least two segments.
pub open spec fn ready_to_stream(rar_files: Seq<PostedFile>, order: Seq<usize>) -> bool {
    order.len() > 0 && order[0] < rar_files.len() && rar_files[order[0] as int].segments@.len()
        >= 2
}

/// Tells whether enough is queued for the stream to start.
pub fn stream_ready(rar_files: &[PostedFile], order: &Vec<usize>) -> (b: bool)
    ensures
        b == ready_to_stream(rar_files@, order@),
{
    order.len() > 0 && order[0] < rar_files.len() && rar_files[order[0]].segments.len() >= 2
}

/// Whether a subject, whatever its case, belongs to a recovery file: it
/// holds `.par2` or `.vol`.
pub open spec fn recovery_subject(subject: Seq<char>) -> bool {
    has_sub(lowercased(subject), ".par2"@) || has_sub(lowercased(subject), ".vol"@)
}

/// The files of `files` that are recovery files (if `recovery` is asked)
/// or are not, in their order.
pub open spec fn session_files(files: Seq<PostedFileView>, recovery: bool) -> Seq<PostedFileView>
    decreases files.len(),
{
    if files.len() == 0 {
        Seq::empty()
    } else if recovery_subject(files.last().subject) == recovery {
        session_files(files.drop_last(), recovery).push(files.last())
    } else {
        session_files(files.drop_last(), recovery)
    }
}

/// Whether a subject, which is in lowercase, belongs to a recovery file.
pub fn is_recovery_subject(subject_lower: &str) -> (b: bool)
    ensures
        b == (has_sub(subject_lower@, ".par2"@) || has_sub(subject_lower@, ".vol"@)),
{
    let chars = chars_of(subject_lower);
    contains_str(chars.as_slice(), ".par2") || contains_str(chars.as_slice(), ".vol")
}

/// Parts the files of a session into recovery files and all others,
/// which are taken for RAR volumes.
pub fn split_session_files(files: &[PostedFile]) -> (r: (Vec<PostedFile>, Vec<PostedFile>))
    ensures
        r.0@.map_values(|f: PostedFile| f@) == session_files(
            files@.map_values(|f: PostedFile| f@),
            true,
        ),
        r.1@.map_values(|f: PostedFile| f@) == session_files(
            files@.map_values(|f: PostedFile| f@),
            false,
        ),
{
    let ghost all = files@.map_values(|f: PostedFile| f@);
    let mut par2: Vec<PostedFile> = Vec::new();
    let mut rar: Vec<PostedFile> = Vec::new();
    let mut i: usize = 0;
    assert(all.subrange(0, 0) =~= Seq::<PostedFileView>::empty());
    assert(par2@.map_values(|f: PostedFile| f@) =~= Seq::<PostedFileView>::empty());
    assert(rar@.map_values(|f: PostedFile| f@) =~= Seq::<PostedFileView>::empty());
    while i < files.len()
        invariant
            i <= files@.len(),
            all == files@.map_values(|f: PostedFile| f@),
            par2@.map_values(|f: PostedFile| f@) == session_files(all.subrange(0, i as int), true),
            rar@.map_values(|f: PostedFile| f@) == session_files(all.subrange(0, i as int), false),
        decreases files@.len() - i,
    {
        let ghost next = all.subrange(0, i + 1);
        assert(next.drop_last() =~= all.subrange(0, i as int));
        assert(next.last() == files@[i as int]@);
        let file = files[i].duplicate();
        let ghost fv = file@;
        let lower = to_lowercase(file.subject.as_str());
        if is_recovery_subject(lower.as_str()) {
            let ghost before = par2@.map_values(|f: PostedFile| f@);
            par2.push(file);
            assert(par2@.map_values(|f: PostedFile| f@) =~= before.push(fv));
        } else {
            let ghost before = rar@.map_values(|f: PostedFile| f@);
            rar.push(file);
            assert(rar@.map_values(|f: PostedFile| f@) =~= before.push(fv));
        }
        i += 1;
    }
    assert(all.subrange(0, i as int) =~= all);
    (par2, rar)
}

} // verus!
