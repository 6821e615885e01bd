//! What a session holds while its files are fetched: the files of the
//! posting, the queue of downloads, and what is known of the real names.
use crate::archive::par2::is_stable_order;
use crate::archive::par2::stable_order;
use crate::nzb::file::PostedFile;
use crate::nzb::file::PostedFileView;
use crate::session::DownloadTask;
use crate::session::DownloadTaskView;
use crate::session::PAR2_PRIORITY;
use crate::session::can_queue_volume;
use crate::session::downloader::is_stored;
use crate::session::obfuscated_match;
use crate::session::queue_volume;
use crate::session::ready_to_stream;
use crate::session::sequences_of;
use crate::session::session_files;
use crate::session::split_session_files;
use crate::session::stream_ready;
use crate::session::volume_fits;
use crate::session::volume_order;
use crate::session::volume_task;
use crate::streaming::tasks_view;
use crate::text::str_eq;
use vstd::prelude::*;

verus! {

/// The state of one session.
#[derive(Debug, PartialEq, Eq)]
pub struct Session {
    /// The recovery files of the posting.
    pub par2_files: Vec<PostedFile>,
    /// All other files of the posting, which are taken for volumes.
    pub rar_files: Vec<PostedFile>,
    /// Real names of the videos that were found.
    pub video_files: Vec<String>,
    /// Subject and real name of every posted file that was matched.
    pub obfuscated_to_real: Vec<(String, String)>,
    /// The downloads that wait.
    pub download_queue: Vec<DownloadTask>,
    /// Message ids of the articles that are stored.
    pub downloaded: Vec<String>,
    /// Whether enough is queued for the stream to start.
    pub stream_ready: bool,
    /// Whether every recovery file is stored.
    pub par2_complete: bool,
    /// Whether the recovery files were read.
    pub deobfuscation_complete: bool,
}

/// The views of posted files.
pub open spec fn files_view(files: Seq<PostedFile>) -> Seq<PostedFileView> {
    files.map_values(|f: PostedFile| f@)
}

/// The downloads of the recovery files `files`: one for every file, in
/// order, with priorities from 10000 upwards.
pub open spec fn par2_tasks(files: Seq<PostedFile>) -> Seq<DownloadTaskView> {
    Seq::new(
        files.len(),
        |i: int| DownloadTaskView::Par2 { file: files[i]@, priority: (PAR2_PRIORITY + i) as u32 },
    )
}

/// The stored ids with `id` among them.
pub open spec fn stored_with(stored: Seq<String>, id: String) -> Seq<String> {
    if is_stored(stored, id@) {
        stored
    } else {
        stored.push(id)
    }
}

/// Whether the first `n` of the volumes `files`, fetched in the order
/// `order`, can all be queued.
pub open spec fn all_fit(files: Seq<PostedFile>, order: Seq<usize>, n: int) -> bool {
    forall|k: int|
        0 <= k < n && k < order.len() ==> volume_fits(
            files[(#[trigger] order[k]) as int].segments@,
            k as usize,
        )
}

/// The downloads of the first `n` of the volumes `files`, fetched in the
/// order `order`: volume by volume, segment by segment.
pub open spec fn volume_tasks(files: Seq<PostedFile>, order: Seq<usize>, n: int) -> Seq<
    DownloadTaskView,
>
    decreases n,
{
    if n <= 0 || n > order.len() {
        Seq::empty()
    } else {
        let file = files[order[n - 1] as int];
        volume_tasks(files, order, n - 1) + Seq::new(
            file.segments@.len(),
            |i: int| volume_task(file.segments@, (n - 1) as usize, i),
        )
    }
}

/// The keys by which a stable sort puts the highest priority first.
pub open spec fn falling_keys(tasks: Seq<DownloadTask>) -> Seq<u64> {
    Seq::new(tasks.len(), |i: int| (u32::MAX - tasks[i].spec_priority()) as u64)
}

/// The subjects of `files`, in order.
pub open spec fn subjects_of(files: Seq<PostedFile>) -> Seq<String> {
    files.map_values(|f: PostedFile| f.subject)
}

/// What names hold.
pub open spec fn names_view(names: Seq<String>) -> Seq<Seq<char>> {
    names.map_values(|n: String| n@)
}

/// What pairs of names hold.
pub open spec fn pairs_view(pairs: Seq<(String, String)>) -> Seq<(Seq<char>, Seq<char>)> {
    pairs.map_values(|p: (String, String)| (p.0@, p.1@))
}

/// Index of the first pair at or after `from` whose first name is `key`.
pub open spec fn key_index(pairs: Seq<(Seq<char>, Seq<char>)>, key: Seq<char>, from: int) -> Option<
    int,
>
    decreases pairs.len() - from,
{
    if from < 0 || from >= pairs.len() {
        None
    } else if pairs[from].0 == key {
        Some(from)
    } else {
        key_index(pairs, key, from + 1)
    }
}

/// The pairs with `value` for `key`: in the place of the pair that `key`
/// had, or behind all others.
pub open spec fn with_pair(
    pairs: Seq<(Seq<char>, Seq<char>)>,
    key: Seq<char>,
    value: Seq<char>,
) -> Seq<(Seq<char>, Seq<char>)> {
    match key_index(pairs, key, 0) {
        Some(i) => pairs.update(i, (key, value)),
        None => pairs.push((key, value)),
    }
}

/// The names with `name` among them: behind all others, if it was not
/// there.
pub open spec fn with_name(names: Seq<Seq<char>>, name: Seq<char>) -> Seq<Seq<char>> {
    if names.contains(name) {
        names
    } else {
        names.push(name)
    }
}

/// What is known of the real names: the pairs of subject and real name,
/// and the names of the videos.
pub type Known = (Seq<(Seq<char>, Seq<char>)>, Seq<Seq<char>>);

/// What is known once the real name `actual` is looked at: where a
/// posted file stands for it, the two are paired and the name is held
/// as that of a video.
pub open spec fn known_with(files: Seq<PostedFile>, known: Known, actual: Seq<char>) -> Known {
    match obfuscated_match(subjects_of(files), actual) {
        Some(i) => (
            with_pair(known.0, files[i].subject@, actual),
            with_name(known.1, actual),
        ),
        None => known,
    }
}

/// What is known once the real names `names` are looked at, one after
/// the other.
pub open spec fn known_after(files: Seq<PostedFile>, known: Known, names: Seq<String>) -> Known
    decreases names.len(),
{
    if names.len() == 0 {
        known
    } else {
        known_with(files, known_after(files, known, names.drop_last()), names.last()@)
    }
}

/// The files that are picked are no more than the files.
pub proof fn lemma_session_files_len(files: Seq<PostedFileView>, recovery: bool)
    ensures
        session_files(files, recovery).len() <= files.len(),
    decreases files.len(),
{
    if files.len() > 0 {
        lemma_session_files_len(files.drop_last(), recovery);
    }
}

impl Session {
    /// A session for the files of a posting: the recovery files apart
    /// from the others, nothing queued, nothing stored, nothing known.
    pub fn new(files: &[PostedFile]) -> (s: Session)
        ensures
            files_view(s.par2_files@) == session_files(files_view(files@), true),
            files_view(s.rar_files@) == session_files(files_view(files@), false),
            s.video_files@.len() == 0,
            s.obfuscated_to_real@.len() == 0,
            s.download_queue@.len() == 0,
            s.downloaded@.len() == 0,
            !s.stream_ready,
            !s.par2_complete,
            !s.deobfuscation_complete,
    {
        let (par2_files, rar_files) = split_session_files(files);
        Session {
            par2_files,
            rar_files,
            video_files: Vec::new(),
            obfuscated_to_real: Vec::new(),
            download_queue: Vec::new(),
            downloaded: Vec::new(),
            stream_ready: false,
            par2_complete: false,
            deobfuscation_complete: false,
        }
    }

    /// Queues the recovery files behind what waits already: they come
    /// first, with the highest priorities.
    pub fn queue_par2_downloads(&mut self)
        requires
            old(self).par2_files@.len() <= u32::MAX - PAR2_PRIORITY,
        ensures
            tasks_view(final(self).download_queue@) == tasks_view(old(self).download_queue@)
                + par2_tasks(old(self).par2_files@),
            *final(self) == (Session {
                download_queue: final(self).download_queue,
                ..*old(self)
            }),
    {
        let mut tasks = crate::session::queue_par2_downloads(self.par2_files.as_slice());
        assert(tasks_view(tasks@) =~= par2_tasks(self.par2_files@));
        let ghost before = self.download_queue@;
        let ghost added = tasks@;
        self.download_queue.append(&mut tasks);
        assert(tasks_view(before + added) =~= tasks_view(before) + tasks_view(added));
    }

    /// Takes note that the article `message_id` is stored.
    pub fn mark_segment_downloaded(&mut self, message_id: String)
        ensures
            final(self).downloaded@ == stored_with(old(self).downloaded@, message_id),
            *final(self) == (Session { downloaded: final(self).downloaded, ..*old(self) }),
    {
        let mut i: usize = 0;
        while i < self.downloaded.len()
            invariant
                i <= self.downloaded@.len(),
                *self == *old(self),
                forall|k: int| 0 <= k < i ==> (#[trigger] self.downloaded@[k])@ != message_id@,
            decreases self.downloaded@.len() - i,
        {
            if str_eq(self.downloaded[i].as_str(), message_id.as_str()) {
                return ;
            }
            i += 1;
        }
        self.downloaded.push(message_id);
    }

    /// Queues every segment of every volume behind what waits already:
    /// the volumes in the order of their archive, each with its segments
    /// in order and for the bytes behind those of the segments before
    /// it. The stream can start once the first volume has two segments.
    /// Where the size of a volume does not fit in 64 bits, or the
    /// priority of a segment would fall below zero, nothing is queued,
    /// and the answer is `false`.
    pub fn queue_priority_download(&mut self) -> (queued: bool)
        ensures
            exists|order: Seq<usize>|
                {
                    &&& #[trigger] is_stable_order(sequences_of(old(self).rar_files@), order)
                    &&& queued == all_fit(old(self).rar_files@, order, order.len() as int)
                    &&& queued ==> tasks_view(final(self).download_queue@) == tasks_view(
                        old(self).download_queue@,
                    ) + volume_tasks(old(self).rar_files@, order, order.len() as int)
                    &&& queued ==> final(self).stream_ready == (old(self).stream_ready
                        || ready_to_stream(old(self).rar_files@, order))
                },
            !queued ==> *final(self) == *old(self),
            *final(self) == (Session {
                download_queue: final(self).download_queue,
                stream_ready: final(self).stream_ready,
                ..*old(self)
            }),
    {
        let order = volume_order(self.rar_files.as_slice());
        let mut tasks: Vec<DownloadTask> = Vec::new();
        let mut n: usize = 0;
        assert(tasks_view(tasks@) =~= Seq::<DownloadTaskView>::empty());
        while n < order.len()
            invariant
                n <= order@.len(),
                *self == *old(self),
                is_stable_order(sequences_of(self.rar_files@), order@),
                all_fit(self.rar_files@, order@, n as int),
                tasks_view(tasks@) == volume_tasks(self.rar_files@, order@, n as int),
            decreases order@.len() - n,
        {
            let file = &self.rar_files[order[n]];
            if !can_queue_volume(file, n) {
                assert(!volume_fits(self.rar_files@[order@[n as int] as int].segments@, n));
                return false;
            }
            assert(volume_fits(self.rar_files@[order@[n as int] as int].segments@, n));
            let ghost before = tasks_view(tasks@);
            let mut more = queue_volume(file, n);
            let ghost added = more@;
            assert(tasks_view(added) =~= Seq::new(
                file.segments@.len(),
                |i: int| volume_task(file.segments@, n, i),
            ));
            let ghost held = tasks@;
            tasks.append(&mut more);
            assert(tasks_view(held + added) =~= before + tasks_view(added));
            n += 1;
        }
        let ready: bool = stream_ready(self.rar_files.as_slice(), &order);
        let ghost waiting = self.download_queue@;
        let ghost added = tasks@;
        self.download_queue.append(&mut tasks);
        assert(tasks_view(waiting + added) =~= tasks_view(waiting) + tasks_view(added));
        if ready {
            self.stream_ready = true;
        }
        true
    }

    /// What the session knows of the real names.
    pub open spec fn known(&self) -> Known {
        (pairs_view(self.obfuscated_to_real@), names_view(self.video_files@))
    }

    /// Hands out the download that is next: the queue is put in the
    /// order of falling priority, downloads of the same priority in
    /// their first order, and its last download leaves it.
    pub fn get_next_download_task(&mut self) -> (r: Option<DownloadTask>)
        ensures
            *final(self) == (Session {
                download_queue: final(self).download_queue,
                ..*old(self)
            }),
            old(self).download_queue@.len() == 0 ==> r is None && final(self).download_queue@.len()
                == 0,
            old(self).download_queue@.len() > 0 ==> exists|order: Seq<usize>|
                {
                    &&& #[trigger] is_stable_order(falling_keys(old(self).download_queue@), order)
                    &&& r matches Some(t) && t@ == old(self).download_queue@[order.last() as int]@
                    &&& tasks_view(final(self).download_queue@) == Seq::new(
                        (order.len() - 1) as nat,
                        |i: int| old(self).download_queue@[order[i] as int]@,
                    )
                },
    {
        let len: usize = self.download_queue.len();
        if len == 0 {
            return None;
        }
        let mut keys: Vec<u64> = Vec::new();
        let mut i: usize = 0;
        while i < len
            invariant
                i <= len,
                len == self.download_queue@.len(),
                *self == *old(self),
                keys@.len() == i,
                forall|k: int|
                    0 <= k < i ==> keys@[k] == (u32::MAX - self.download_queue@[k].spec_priority())
                        as u64,
            decreases len - i,
        {
            keys.push((u32::MAX - self.download_queue[i].priority()) as u64);
            i += 1;
        }
        assert(keys@ =~= falling_keys(self.download_queue@));
        let order = stable_order(&keys);
        let mut rest: Vec<DownloadTask> = Vec::new();
        let mut n: usize = 0;
        while n < len - 1
            invariant
                n <= len - 1,
                len == self.download_queue@.len(),
                len > 0,
                *self == *old(self),
                is_stable_order(falling_keys(self.download_queue@), order@),
                rest@.len() == n,
                forall|k: int|
                    0 <= k < n ==> (#[trigger] rest@[k])@ == self.download_queue@[order@[k] as int]@,
            decreases len - 1 - n,
        {
            rest.push(self.download_queue[order[n]].duplicate());
            n += 1;
        }
        let next = self.download_queue[order[len - 1]].duplicate();
        assert(order@.last() == order@[len - 1]);
        assert(tasks_view(rest@) =~= Seq::new(
            (order@.len() - 1) as nat,
            |i: int| self.download_queue@[order@[i] as int]@,
        ));
        self.download_queue = rest;
        Some(next)
    }

    /// Index of the pair of the subject `key`.
    fn pair_of(&self, key: &str) -> (found: Option<usize>)
        ensures
            match found {
                Some(j) => key_index(pairs_view(self.obfuscated_to_real@), key@, 0) == Some(
                    j as int,
                ) && j < self.obfuscated_to_real@.len(),
                None => key_index(pairs_view(self.obfuscated_to_real@), key@, 0) is None,
            },
    {
        let ghost pairs = pairs_view(self.obfuscated_to_real@);
        let mut k: usize = 0;
        while k < self.obfuscated_to_real.len()
            invariant
                k <= self.obfuscated_to_real@.len(),
                pairs == pairs_view(self.obfuscated_to_real@),
                key_index(pairs, key@, 0) == key_index(pairs, key@, k as int),
            decreases self.obfuscated_to_real@.len() - k,
        {
            if str_eq(self.obfuscated_to_real[k].0.as_str(), key) {
                return Some(k);
            }
            k += 1;
        }
        None
    }

    /// Looks at a real name from the recovery set: where it names a
    /// video and a posted file stands for it, the two are paired and the
    /// name is held as that of a video.
    pub fn match_obfuscated_filename(&mut self, real_filename: &str)
        ensures
            final(self).known() == known_with(
                old(self).rar_files@,
                old(self).known(),
                real_filename@,
            ),
            *final(self) == (Session {
                obfuscated_to_real: final(self).obfuscated_to_real,
                video_files: final(self).video_files,
                ..*old(self)
            }),
    {
        let mut subjects: Vec<String> = Vec::new();
        let mut i: usize = 0;
        while i < self.rar_files.len()
            invariant
                i <= self.rar_files@.len(),
                *self == *old(self),
                subjects@.len() == i,
                forall|k: int| 0 <= k < i ==> subjects@[k] == self.rar_files@[k].subject,
            decreases self.rar_files@.len() - i,
        {
            subjects.push(self.rar_files[i].subject.clone());
            i += 1;
        }
        assert(subjects@ =~= subjects_of(self.rar_files@));
        let at: usize = match crate::session::match_obfuscated_filename(
            subjects.as_slice(),
            real_filename,
        ) {
            Some(at) => at,
            None => {
                return ;
            },
        };
        let key: &str = self.rar_files[at].subject.as_str();
        let ghost pairs = pairs_view(self.obfuscated_to_real@);
        let found: Option<usize> = self.pair_of(key);
        let pair = (key.to_owned(), real_filename.to_owned());
        match found {
            Some(j) => {
                self.obfuscated_to_real.set(j, pair);
            },
            None => {
                self.obfuscated_to_real.push(pair);
            },
        }
        assert(pairs_view(self.obfuscated_to_real@) =~= with_pair(pairs, key@, real_filename@));
        let ghost names = names_view(self.video_files@);
        let mut v: usize = 0;
        while v < self.video_files.len()
            invariant
                v <= self.video_files@.len(),
                names == names_view(self.video_files@),
                *self == (Session {
                    obfuscated_to_real: self.obfuscated_to_real,
                    ..*old(self)
                }),
                at < self.rar_files@.len(),
                obfuscated_match(subjects_of(self.rar_files@), real_filename@) == Some(at as int),
                pairs_view(self.obfuscated_to_real@) == with_pair(
                    pairs_view(old(self).obfuscated_to_real@),
                    self.rar_files@[at as int].subject@,
                    real_filename@,
                ),
                forall|x: int| 0 <= x < v ==> names[x] != real_filename@,
            decreases self.video_files@.len() - v,
        {
            if str_eq(self.video_files[v].as_str(), real_filename) {
                assert(names[v as int] == real_filename@);
                assert(names.contains(real_filename@));
                return ;
            }
            v += 1;
        }
        self.video_files.push(real_filename.to_owned());
        assert(names_view(self.video_files@) =~= names.push(real_filename@));
    }

    /// Looks at the real names that the recovery files gave, one after
    /// the other, and takes note that the recovery files were read.
    pub fn process_par2_files(&mut self, real_names: &[String])
        ensures
            final(self).known() == known_after(
                old(self).rar_files@,
                old(self).known(),
                real_names@,
            ),
            final(self).deobfuscation_complete,
            *final(self) == (Session {
                obfuscated_to_real: final(self).obfuscated_to_real,
                video_files: final(self).video_files,
                deobfuscation_complete: true,
                ..*old(self)
            }),
    {
        let mut i: usize = 0;
        assert(real_names@.subrange(0, 0) =~= Seq::<String>::empty());
        while i < real_names.len()
            invariant
                i <= real_names@.len(),
                self.known() == known_after(
                    old(self).rar_files@,
                    old(self).known(),
                    real_names@.subrange(0, i as int),
                ),
                *self == (Session {
                    obfuscated_to_real: self.obfuscated_to_real,
                    video_files: self.video_files,
                    ..*old(self)
                }),
            decreases real_names@.len() - i,
        {
            let ghost next = real_names@.subrange(0, i + 1);
            assert(next.drop_last() =~= real_names@.subrange(0, i as int));
            assert(next.last() == real_names@[i as int]);
            self.match_obfuscated_filename(real_names[i].as_str());
            i += 1;
        }
        assert(real_names@.subrange(0, i as int) =~= real_names@);
        self.deobfuscation_complete = true;
    }

    /// Whether the stream of the session can start.
    pub fn is_ready_for_streaming(&self) -> (b: bool)
        ensures
            b == self.stream_ready,
    {
        self.stream_ready
    }
}

} // verus!
