//! The PAR2 manifest: which real file stands behind which fingerprint.
use crate::archive::error::ArchiveError;
use crate::archive::rar::analyse_rar;
use crate::archive::rar::analyse_rar_buffer;
use crate::archive::rar::rar_ext_of;
use crate::archive::rar::RarExt;
use crate::byteseq::bytes_eq;
use crate::byteseq::copy_range;
use crate::nntp::yenc::extract_filename;
use crate::nntp::yenc::filename_of;
use crate::nzb::file::PostedFile;
use crate::nzb::file::PostedFileView;
use crate::scheduler::adaptive::FirstSegment;
use crate::scheduler::adaptive::FirstSegmentView;
use crate::text::chars_of;
use crate::text::str_eq;
use itertools::Itertools;
use vstd::prelude::*;
use vstd::string::StringExecFns;

verus! {

/// One file of the recovery set: its real name, the MD5 of its first
/// 16 KiB, and its size.
#[derive(Debug, Clone, PartialEq, Eq)]
pub struct FileInfo {
    pub real_filename: String,
    pub hash16k: Vec<u8>,
    pub file_size: u64,
}

/// What a manifest entry holds.
pub ghost struct FileInfoView {
    pub real_filename: Seq<char>,
    pub hash16k: Seq<u8>,
    pub file_size: u64,
}

impl View for FileInfo {
    type V = FileInfoView;

    open spec fn view(&self) -> FileInfoView {
        FileInfoView {
            real_filename: self.real_filename@,
            hash16k: self.hash16k@,
            file_size: self.file_size,
        }
    }
}

impl FileInfo {
    pub fn new(real_filename: String, hash16k: Vec<u8>, file_size: u64) -> (f: FileInfo)
        ensures
            f.real_filename == real_filename,
            f.hash16k == hash16k,
            f.file_size == file_size,
    {
        FileInfo { real_filename, hash16k, file_size }
    }
}

/// Index of the first entry at or after `from` that is named `name`.
pub open spec fn name_index_from(entries: Seq<FileInfoView>, name: Seq<char>, from: int) -> Option<
    int,
>
    decreases entries.len() - from,
{
    if from < 0 || from >= entries.len() {
        None
    } else if entries[from].real_filename == name {
        Some(from)
    } else {
        name_index_from(entries, name, from + 1)
    }
}

/// Index of the first entry at or after `from` whose fingerprint is `hash`.
pub open spec fn hash_index_from(entries: Seq<FileInfoView>, hash: Seq<u8>, from: int) -> Option<
    int,
>
    decreases entries.len() - from,
{
    if from < 0 || from >= entries.len() {
        None
    } else if entries[from].hash16k == hash {
        Some(from)
    } else {
        hash_index_from(entries, hash, from + 1)
    }
}

/// The entries with `e` put in: in the place of the entry of the same name
/// where there is one, at the end otherwise.
pub open spec fn insert_entry(entries: Seq<FileInfoView>, e: FileInfoView) -> Seq<FileInfoView> {
    match name_index_from(entries, e.real_filename, 0) {
        Some(i) => entries.update(i, e),
        None => entries.push(e),
    }
}

/// The manifest that the descriptions `items` give when they are put in
/// one after the other: a later description replaces an earlier one of the
/// same name.
pub open spec fn collect_entries(items: Seq<FileInfoView>) -> Seq<FileInfoView>
    decreases items.len(),
{
    if items.len() == 0 {
        Seq::empty()
    } else {
        insert_entry(collect_entries(items.drop_last()), items.last())
    }
}

/// No two entries share a name.
pub open spec fn unique_names(entries: Seq<FileInfoView>) -> bool {
    forall|i: int, j: int|
        0 <= i < entries.len() && 0 <= j < entries.len() && i != j ==> entries[i].real_filename
            != entries[j].real_filename
}

/// Whether `hash` is one of `hashes`.
pub open spec fn hash_listed(hashes: Seq<Seq<u8>>, hash: Seq<u8>) -> bool {
    exists|k: int| 0 <= k < hashes.len() && hashes[k] == hash
}

/// The names of the entries whose fingerprint is not among `hashes`, in
/// the order of the entries.
pub open spec fn missing_names(entries: Seq<FileInfoView>, hashes: Seq<Seq<u8>>) -> Seq<Seq<char>>
    decreases entries.len(),
{
    if entries.len() == 0 {
        Seq::empty()
    } else if hash_listed(hashes, entries.last().hash16k) {
        missing_names(entries.drop_last(), hashes)
    } else {
        missing_names(entries.drop_last(), hashes).push(entries.last().real_filename)
    }
}

pub proof fn lemma_name_index_from(entries: Seq<FileInfoView>, name: Seq<char>, from: int)
    requires
        0 <= from,
    ensures
        match name_index_from(entries, name, from) {
            Some(i) => from <= i < entries.len() && entries[i].real_filename == name
                && forall|k: int| from <= k < i ==> entries[k].real_filename != name,
            None => forall|k: int| from <= k < entries.len() ==> entries[k].real_filename != name,
        },
    decreases entries.len() - from,
{
    if from < entries.len() && entries[from].real_filename != name {
        lemma_name_index_from(entries, name, from + 1);
    }
}

pub proof fn lemma_hash_index_from(entries: Seq<FileInfoView>, hash: Seq<u8>, from: int)
    requires
        0 <= from,
    ensures
        match hash_index_from(entries, hash, from) {
            Some(i) => from <= i < entries.len() && entries[i].hash16k == hash && forall|k: int|
                from <= k < i ==> entries[k].hash16k != hash,
            None => forall|k: int| from <= k < entries.len() ==> entries[k].hash16k != hash,
        },
    decreases entries.len() - from,
{
    if from < entries.len() && entries[from].hash16k != hash {
        lemma_hash_index_from(entries, hash, from + 1);
    }
}

/// Putting an entry in keeps the names unique.
pub proof fn lemma_insert_keeps_unique(entries: Seq<FileInfoView>, e: FileInfoView)
    requires
        unique_names(entries),
    ensures
        unique_names(insert_entry(entries, e)),
{
    lemma_name_index_from(entries, e.real_filename, 0);
}

/// The manifest collected from any descriptions has unique names.
pub proof fn lemma_collect_unique(items: Seq<FileInfoView>)
    ensures
        unique_names(collect_entries(items)),
    decreases items.len(),
{
    if items.len() > 0 {
        lemma_collect_unique(items.drop_last());
        lemma_insert_keeps_unique(collect_entries(items.drop_last()), items.last());
    }
}

/// The files of a recovery set, each under its real name.
#[derive(Debug, Clone, PartialEq, Eq)]
pub struct Par2Manifest {
    pub files: Vec<FileInfo>,
}

impl View for Par2Manifest {
    type V = Seq<FileInfoView>;

    open spec fn view(&self) -> Seq<FileInfoView> {
        self.files@.map_values(|f: FileInfo| f@)
    }
}

impl Par2Manifest {
    /// A manifest is well formed when no two of its entries share a name.
    pub open spec fn wf(&self) -> bool {
        unique_names(self@)
    }

    /// The manifest of the given descriptions; a later description
    /// replaces an earlier one of the same name.
    pub fn new(files: Vec<FileInfo>) -> (m: Par2Manifest)
        ensures
            m@ == collect_entries(files@.map_values(|f: FileInfo| f@)),
            m.wf(),
    {
        let ghost items = files@.map_values(|f: FileInfo| f@);
        let mut m = Par2Manifest { files: Vec::new() };
        let mut files = files;
        let n: usize = files.len();
        let mut rest: Vec<FileInfo> = Vec::new();
        // turn the list round so that its entries can be taken from the end
        while files.len() > 0
            invariant
                files@.len() + rest@.len() == n,
                n == items.len(),
                forall|k: int| 0 <= k < files@.len() ==> (#[trigger] files@[k])@ == items[k],
                forall|k: int|
                    0 <= k < rest@.len() ==> (#[trigger] rest@[k])@ == items[n - 1 - k],
            decreases files@.len(),
        {
            let f = files.pop().unwrap();
            rest.push(f);
        }
        let mut done: usize = 0;
        assert(items.subrange(0, 0) =~= Seq::<FileInfoView>::empty());
        assert(m@ =~= Seq::<FileInfoView>::empty());
        while rest.len() > 0
            invariant
                done + rest@.len() == n,
                n == items.len(),
                forall|k: int|
                    0 <= k < rest@.len() ==> (#[trigger] rest@[k])@ == items[n - 1 - k],
                m@ == collect_entries(items.subrange(0, done as int)),
            decreases rest@.len(),
        {
            let f = rest.pop().unwrap();
            assert(f@ == items[done as int]);
            let ghost next = items.subrange(0, done + 1);
            assert(next.drop_last() =~= items.subrange(0, done as int));
            assert(next.last() == f@);
            m.insert(f);
            done += 1;
        }
        assert(items.subrange(0, done as int) =~= items);
        proof {
            lemma_collect_unique(items);
        }
        m
    }

    /// Index of the entry named `name`.
    pub fn position(&self, name: &str) -> (r: Option<usize>)
        ensures
            match r {
                Some(i) => name_index_from(self@, name@, 0) == Some(i as int),
                None => name_index_from(self@, name@, 0) is None,
            },
    {
        let mut i: usize = 0;
        while i < self.files.len()
            invariant
                i <= self.files@.len(),
                self@.len() == self.files@.len(),
                name_index_from(self@, name@, 0) == name_index_from(self@, name@, i as int),
            decreases self.files@.len() - i,
        {
            assert(self@[i as int] == self.files@[i as int]@);
            if str_eq(self.files[i].real_filename.as_str(), name) {
                return Some(i);
            }
            i += 1;
        }
        None
    }

    /// Puts `info` in: in the place of the entry of the same name where
    /// there is one, at the end otherwise.
    pub fn insert(&mut self, info: FileInfo)
        ensures
            final(self)@ == insert_entry(old(self)@, info@),
    {
        proof {
            lemma_name_index_from(self@, info.real_filename@, 0);
        }
        match self.position(info.real_filename.as_str()) {
            Some(i) => {
                self.files[i] = info;
                assert(self@ =~= insert_entry(old(self)@, info@));
            },
            None => {
                self.files.push(info);
                assert(self@ =~= insert_entry(old(self)@, info@));
            },
        }
    }

    /// Number of entries.
    pub fn len(&self) -> (n: usize)
        ensures
            n == self@.len(),
    {
        self.files.len()
    }

    /// The real name of the first entry whose fingerprint is `hash`.
    pub fn real_name_for(&self, hash: &[u8]) -> (r: Option<&str>)
        ensures
            match r {
                Some(name) => hash_index_from(self@, hash@, 0) matches Some(i) && name@
                    == self@[i].real_filename,
                None => hash_index_from(self@, hash@, 0) is None,
            },
    {
        let mut i: usize = 0;
        while i < self.files.len()
            invariant
                i <= self.files@.len(),
                self@.len() == self.files@.len(),
                hash_index_from(self@, hash@, 0) == hash_index_from(self@, hash@, i as int),
            decreases self.files@.len() - i,
        {
            assert(self@[i as int] == self.files@[i as int]@);
            if bytes_eq(self.files[i].hash16k.as_slice(), hash) {
                return Some(self.files[i].real_filename.as_str());
            }
            i += 1;
        }
        None
    }

    /// The fingerprint and real name of every entry, in the order of the
    /// entries: the manifest read from fingerprint to name.
    pub fn hash_to_filename(&self) -> (r: Vec<(Vec<u8>, String)>)
        ensures
            r@.len() == self@.len(),
            forall|i: int|
                0 <= i < r@.len() ==> (#[trigger] r@[i]).0@ == self@[i].hash16k && r@[i].1@
                    == self@[i].real_filename,
    {
        let mut r: Vec<(Vec<u8>, String)> = Vec::new();
        let mut i: usize = 0;
        while i < self.files.len()
            invariant
                i <= self.files@.len(),
                self@.len() == self.files@.len(),
                r@.len() == i,
                forall|k: int|
                    0 <= k < i ==> (#[trigger] r@[k]).0@ == self@[k].hash16k && r@[k].1@
                        == self@[k].real_filename,
            decreases self.files@.len() - i,
        {
            assert(self@[i as int] == self.files@[i as int]@);
            r.push((self.files[i].hash16k.clone(), self.files[i].real_filename.clone()));
            i += 1;
        }
        r
    }

    /// The real names of the files of which no fingerprint was seen among
    /// `hashes`, in the order of the entries.
    pub fn find_missing_files(&self, hashes: &[Vec<u8>]) -> (r: Vec<String>)
        ensures
            r.deep_view() == missing_names(self@, hashes.deep_view()),
    {
        let mut r: Vec<String> = Vec::new();
        let mut i: usize = 0;
        assert(self@.subrange(0, 0) =~= Seq::<FileInfoView>::empty());
        assert(r.deep_view() =~= Seq::<Seq<char>>::empty());
        while i < self.files.len()
            invariant
                i <= self.files@.len(),
                self@.len() == self.files@.len(),
                r.deep_view() == missing_names(self@.subrange(0, i as int), hashes.deep_view()),
            decreases self.files@.len() - i,
        {
            let ghost next = self@.subrange(0, i + 1);
            assert(next.drop_last() =~= self@.subrange(0, i as int));
            assert(next.last() == self.files@[i as int]@);
            let ghost before = r.deep_view();
            if !contains_hash(hashes, self.files[i].hash16k.as_slice()) {
                r.push(self.files[i].real_filename.clone());
                assert(r.deep_view() =~= before.push(self.files@[i as int].real_filename@));
            }
            i += 1;
        }
        assert(self@.subrange(0, i as int) =~= self@);
        r
    }
}

/// Whether `hash` is one of `hashes`.
pub fn contains_hash(hashes: &[Vec<u8>], hash: &[u8]) -> (r: bool)
    ensures
        r == hash_listed(hashes.deep_view(), hash@),
{
    let mut k: usize = 0;
    while k < hashes.len()
        invariant
            k <= hashes@.len(),
            hashes.deep_view().len() == hashes@.len(),
            forall|j: int| 0 <= j < k ==> hashes.deep_view()[j] != hash@,
        decreases hashes@.len() - k,
    {
        assert(hashes.deep_view()[k as int] == hashes@[k as int]@);
        if bytes_eq(hashes[k].as_slice(), hash) {
            return true;
        }
        k += 1;
    }
    false
}

/// One RAR volume worth of work: where its file goes, the posted file it
/// comes from, the length of its payload, where the payload starts in the
/// first segment, and the payload bytes that the first segment holds.
#[derive(Debug, Clone, PartialEq, Eq)]
pub struct DownloadTask {
    path: String,
    nzb: PostedFile,
    length: u64,
    offset: u64,
    bytes: Vec<u8>,
}

/// What a download task holds.
pub ghost struct DownloadTaskView {
    pub path: Seq<char>,
    pub nzb: PostedFileView,
    pub length: u64,
    pub offset: u64,
    pub bytes: Seq<u8>,
}

impl View for DownloadTask {
    type V = DownloadTaskView;

    closed spec fn view(&self) -> DownloadTaskView {
        DownloadTaskView {
            path: self.path@,
            nzb: self.nzb@,
            length: self.length,
            offset: self.offset,
            bytes: self.bytes@,
        }
    }
}

impl DownloadTask {
    pub fn new(path: String, nzb: PostedFile, length: u64, offset: u64, bytes: Vec<u8>) -> (t:
        DownloadTask)
        ensures
            t@ == (DownloadTaskView { path: path@, nzb: nzb@, length, offset, bytes: bytes@ }),
    {
        DownloadTask { path, nzb, length, offset, bytes }
    }

    /// Where the volume's file goes.
    pub fn path(&self) -> (r: &String)
        ensures
            r@ == self@.path,
    {
        &self.path
    }

    /// The posted file that the volume comes from.
    pub fn nzb(&self) -> (r: &PostedFile)
        ensures
            r@ == self@.nzb,
    {
        &self.nzb
    }

    /// Length of the volume's payload.
    pub fn length(&self) -> (r: &u64)
        ensures
            *r == self@.length,
    {
        &self.length
    }

    /// Where the payload starts in the first segment.
    pub fn offset(&self) -> (r: &u64)
        ensures
            *r == self@.offset,
    {
        &self.offset
    }

    /// The payload bytes that the first segment holds.
    pub fn bytes(&self) -> (r: &Vec<u8>)
        ensures
            r@ == self@.bytes,
    {
        &self.bytes
    }

    /// The integer by which the task is sorted among the volumes.
    pub fn sort_key(&self) -> (k: u64)
        ensures
            k == volume_key(self@.path),
    {
        match RarExt::from_filename(self.path.as_str()) {
            Some(v) => v.sort_key(),
            None => NO_VOLUME_KEY,
        }
    }

    /// The same task once more, for a list of its own.
    pub fn duplicate(&self) -> (t: DownloadTask)
        ensures
            t@ == self@,
    {
        DownloadTask {
            path: self.path.clone(),
            nzb: self.nzb.duplicate(),
            length: self.length,
            offset: self.offset,
            bytes: self.bytes.clone(),
        }
    }
}

/// The sort key of a path that names no RAR volume: behind every volume.
pub const NO_VOLUME_KEY: u64 = 4294967297;

/// The integer by which a path is sorted among the volumes: the rank of
/// its volume key.
pub open spec fn volume_key(path: Seq<char>) -> nat {
    match rar_ext_of(path) {
        Some(v) => v.rank(),
        None => NO_VOLUME_KEY as nat,
    }
}

/// `name` below the directory `dir`: an absolute `name` stands alone, any
/// other follows `dir` and one separator.
pub open spec fn joined(dir: Seq<char>, name: Seq<char>) -> Seq<char> {
    if name.len() > 0 && name[0] == '/' {
        name
    } else if dir.len() == 0 || dir.last() == '/' {
        dir + name
    } else {
        dir + seq!['/'] + name
    }
}

/// Puts a file name below a directory.
pub fn join_path(dir: &str, name: &str) -> (r: String)
    ensures
        r@ == joined(dir@, name@),
{
    let d = chars_of(dir);
    let n = chars_of(name);
    if n.len() > 0 && n[0] == '/' {
        name.to_owned()
    } else if d.len() == 0 || d[d.len() - 1] == '/' {
        let mut r = dir.to_owned();
        r.append(name);
        r
    } else {
        let mut r = dir.to_owned();
        proof {
            reveal_strlit("/");
        }
        r.append("/");
        assert("/"@ =~= seq!['/']);
        r.append(name);
        r
    }
}

/// The payload bytes that a first segment holds: from the payload's start
/// to the end of the segment, and no more than the payload is long.
pub open spec fn payload_head(bytes: Seq<u8>, offset: int, length: int) -> Seq<u8> {
    if offset + length <= bytes.len() {
        bytes.subrange(offset, offset + length)
    } else {
        bytes.subrange(offset, bytes.len() as int)
    }
}

/// The task for the volume whose real name is `name` and whose first
/// segment is `segment`. Fails where the segment is no readable RAR
/// volume, or where the payload starts beyond the segment.
pub open spec fn task_for(dir: Seq<char>, name: Seq<char>, segment: FirstSegmentView) -> Result<
    DownloadTaskView,
    ArchiveError,
> {
    let path = joined(dir, name);
    match analyse_rar(segment.bytes, rar_ext_of(path) == Some(RarExt::Main)) {
        Err(e) => Err(e),
        Ok((offset, length)) => if offset > segment.bytes.len() {
            Err(ArchiveError::MalformedRar)
        } else {
            Ok(
                DownloadTaskView {
                    path,
                    nzb: segment.nzb,
                    length,
                    offset,
                    bytes: payload_head(segment.bytes, offset as int, length as int),
                },
            )
        },
    }
}

/// Builds the task for one volume from its real name and first segment.
pub fn build_task(session_dir: &str, name: &str, segment: &FirstSegment) -> (r: Result<
    DownloadTask,
    ArchiveError,
>)
    ensures
        match task_for(session_dir@, name@, segment@) {
            Ok(t) => r matches Ok(task) && task@ == t,
            Err(e) => r == Err::<DownloadTask, ArchiveError>(e),
        },
{
    let path = join_path(session_dir, name);
    let is_first = match RarExt::from_filename(path.as_str()) {
        Some(RarExt::Main) => true,
        _ => false,
    };
    let (offset, length) = match analyse_rar_buffer(segment.bytes.as_slice(), is_first) {
        Ok(found) => found,
        Err(e) => {
            return Err(e);
        },
    };
    let len: usize = segment.bytes.len();
    if offset > len as u64 {
        return Err(ArchiveError::MalformedRar);
    }
    let from: usize = offset as usize;
    let to: usize = if length <= (len - from) as u64 {
        from + length as usize
    } else {
        len
    };
    let data = copy_range(segment.bytes.as_slice(), from, to);
    Ok(DownloadTask::new(path, segment.nzb.duplicate(), length, offset, data))
}

/// The real name of the file behind `segment`: by its fingerprint in the
/// manifest `entries`, or from its subject.
pub open spec fn real_name(
    entries: Seq<FileInfoView>,
    from_subject: bool,
    segment: FirstSegmentView,
) -> Option<Seq<char>> {
    if from_subject {
        filename_of(segment.nzb.subject)
    } else {
        match hash_index_from(entries, segment.hash16k, 0) {
            Some(i) => Some(entries[i].real_filename),
            None => None,
        }
    }
}

/// What the first segments give: the tasks, the subjects that were
/// skipped for want of a name, and the subjects that were dropped as
/// malformed.
pub ghost struct Planned {
    pub tasks: Seq<DownloadTaskView>,
    pub skipped: Seq<Seq<char>>,
    pub malformed: Seq<Seq<char>>,
}

/// What the first segments `downloads` give, in the order of
/// `downloads`.
///
/// A segment whose real name is not known, or names no RAR volume, gives
/// no task; its subject is listed as skipped. A segment that is no
/// readable RAR volume gives no task either; its subject is listed as
/// malformed. Where that volume is the first of its archive, the `.rar`,
/// the stream cannot start, and the whole fails.
pub open spec fn planned(
    entries: Seq<FileInfoView>,
    from_subject: bool,
    dir: Seq<char>,
    downloads: Seq<FirstSegmentView>,
) -> Result<Planned, ArchiveError>
    decreases downloads.len(),
{
    if downloads.len() == 0 {
        Ok(Planned { tasks: Seq::empty(), skipped: Seq::empty(), malformed: Seq::empty() })
    } else {
        match planned(entries, from_subject, dir, downloads.drop_last()) {
            Err(e) => Err(e),
            Ok(before) => {
                let segment = downloads.last();
                match real_name(entries, from_subject, segment) {
                    None => Ok(
                        Planned { skipped: before.skipped.push(segment.nzb.subject), ..before },
                    ),
                    Some(name) => if rar_ext_of(joined(dir, name)) is None {
                        Ok(Planned { skipped: before.skipped.push(segment.nzb.subject), ..before })
                    } else {
                        match task_for(dir, name, segment) {
                            Err(e) => if rar_ext_of(joined(dir, name)) == Some(RarExt::Main) {
                                Err(e)
                            } else {
                                Ok(
                                    Planned {
                                        malformed: before.malformed.push(segment.nzb.subject),
                                        ..before
                                    },
                                )
                            },
                            Ok(t) => Ok(Planned { tasks: before.tasks.push(t), ..before }),
                        }
                    },
                }
            },
        }
    }
}

/// What planning comes to: the failure of the first volume of the
/// archive; `MalformedRar` where volumes were dropped as malformed and
/// no task is left; else what the first segments give.
pub open spec fn startable(
    entries: Seq<FileInfoView>,
    from_subject: bool,
    dir: Seq<char>,
    downloads: Seq<FirstSegmentView>,
) -> Result<Planned, ArchiveError> {
    match planned(entries, from_subject, dir, downloads) {
        Err(e) => Err(e),
        Ok(p) => if p.tasks.len() == 0 && p.malformed.len() > 0 {
            Err(ArchiveError::MalformedRar)
        } else {
            Ok(p)
        },
    }
}

/// The order visits item `x`.
pub open spec fn visits(order: Seq<usize>, x: int) -> bool {
    exists|i: int| 0 <= i < order.len() && order[i] == x
}

/// `order` is the order in which a stable sort visits the items whose
/// keys are `keys`: every index once, keys ascending, equal keys in their
/// first order.
pub open spec fn is_stable_order(keys: Seq<u64>, order: Seq<usize>) -> bool {
    &&& order.len() == keys.len()
    &&& forall|i: int| 0 <= i < order.len() ==> (#[trigger] order[i]) < keys.len()
    &&& forall|x: int| 0 <= x < keys.len() ==> visits(order, x)
    &&& forall|i: int, j: int| 0 <= i < j < order.len() ==> order[i] != order[j]
    &&& forall|i: int, j: int|
        0 <= i < j < order.len() ==> keys[order[i] as int] <= keys[order[j] as int]
    &&& forall|i: int, j: int|
        0 <= i < j < order.len() && keys[order[i] as int] == keys[order[j] as int] ==> order[i]
            < order[j]
}

/// The sort keys of `tasks`, in their order.
pub open spec fn volume_keys(tasks: Seq<DownloadTaskView>) -> Seq<u64> {
    Seq::new(tasks.len(), |i: int| volume_key(tasks[i].path) as u64)
}

/// `output` holds the tasks of `input` in the order of their volumes,
/// tasks of the same volume in their first order.
pub open spec fn sorted_by_volume(input: Seq<DownloadTaskView>, output: Seq<DownloadTaskView>) -> bool {
    exists|order: Seq<usize>|
        {
            &&& #[trigger] is_stable_order(volume_keys(input), order)
            &&& output.len() == input.len()
            &&& forall|i: int| 0 <= i < output.len() ==> output[i] == input[order[i] as int]
        }
}

/// The order in which a stable sort by key visits `keys`. Wraps
/// `Itertools::sorted_by_key` on the indices of `keys`: it returns every
/// item once, in ascending order of the keys, and does not reorder items
/// of equal keys.
#[verifier::external_body]
pub(crate) fn stable_order(keys: &Vec<u64>) -> (order: Vec<usize>)
    ensures
        is_stable_order(keys@, order@),
{
    (0..keys.len()).sorted_by_key(|i| keys[*i]).collect()
}

/// Sorts tasks by volume: `.rar` first, then `.r00`, `.r01`, … by number;
/// tasks of the same volume keep their order.
pub fn sort_by_volume(tasks: Vec<DownloadTask>) -> (r: Vec<DownloadTask>)
    ensures
        sorted_by_volume(
            tasks@.map_values(|t: DownloadTask| t@),
            r@.map_values(|t: DownloadTask| t@),
        ),
{
    let ghost input = tasks@.map_values(|t: DownloadTask| t@);
    let ghost want = volume_keys(input);
    let mut keys: Vec<u64> = Vec::new();
    let mut i: usize = 0;
    while i < tasks.len()
        invariant
            i <= tasks@.len(),
            input == tasks@.map_values(|t: DownloadTask| t@),
            keys@.len() == i,
            forall|k: int| 0 <= k < i ==> keys@[k] == volume_key(input[k].path) as u64,
        decreases tasks@.len() - i,
    {
        let key = tasks[i].sort_key();
        proof {
            crate::archive::rar::lemma_rank_bound(input[i as int].path);
        }
        keys.push(key);
        i += 1;
    }
    assert(keys@ =~= want) by {
        assert forall|k: int| 0 <= k < keys@.len() implies keys@[k] == want[k] by {
            crate::archive::rar::lemma_rank_bound(input[k].path);
        }
    }
    let order = stable_order(&keys);
    let mut r: Vec<DownloadTask> = Vec::new();
    let mut j: usize = 0;
    while j < order.len()
        invariant
            j <= order@.len(),
            order@.len() == tasks@.len(),
            input == tasks@.map_values(|t: DownloadTask| t@),
            is_stable_order(keys@, order@),
            keys@.len() == tasks@.len(),
            r@.len() == j,
            forall|k: int| 0 <= k < j ==> (#[trigger] r@[k])@ == input[order@[k] as int],
        decreases order@.len() - j,
    {
        let at: usize = order[j];
        r.push(tasks[at].duplicate());
        j += 1;
    }
    proof {
        let output = r@.map_values(|t: DownloadTask| t@);
        assert(is_stable_order(want, order@));
        assert(output.len() == input.len());
        assert forall|k: int| 0 <= k < output.len() implies output[k] == input[order@[k] as int] by {
            assert(r@[k]@ == input[order@[k] as int]);
        }
    }
    r
}

/// The tasks of an upload, sorted by volume, the subjects of the posted
/// files that gave no task for want of a name, and the subjects of the
/// volumes that were dropped as malformed.
#[derive(Debug, Clone, PartialEq, Eq)]
pub struct TaskPlan {
    pub tasks: Vec<DownloadTask>,
    pub skipped: Vec<String>,
    pub malformed: Vec<String>,
}

/// The warnings that go with a plan: one `FilenameNotFound` for every
/// skipped file, then one `MalformedRar` for every dropped volume.
pub open spec fn warnings_of(skipped: Seq<String>, malformed: Seq<String>) -> Seq<ArchiveError> {
    Seq::new(skipped.len(), |i: int| ArchiveError::FilenameNotFound(skipped[i])) + Seq::new(
        malformed.len(),
        |i: int| ArchiveError::MalformedRar,
    )
}

impl TaskPlan {
    /// The warnings of the plan: one `FilenameNotFound` for every
    /// skipped file, in their order, then one `MalformedRar` for every
    /// dropped volume.
    pub fn warnings(&self) -> (w: Vec<ArchiveError>)
        ensures
            w@ == warnings_of(self.skipped@, self.malformed@),
    {
        let mut w: Vec<ArchiveError> = Vec::new();
        let mut i: usize = 0;
        while i < self.skipped.len()
            invariant
                i <= self.skipped@.len(),
                w@.len() == i,
                forall|k: int|
                    0 <= k < i ==> w@[k] == ArchiveError::FilenameNotFound(self.skipped@[k]),
            decreases self.skipped@.len() - i,
        {
            w.push(ArchiveError::FilenameNotFound(self.skipped[i].clone()));
            i += 1;
        }
        let mut j: usize = 0;
        while j < self.malformed.len()
            invariant
                j <= self.malformed@.len(),
                w@.len() == self.skipped@.len() + j,
                forall|k: int|
                    0 <= k < self.skipped@.len() ==> w@[k] == ArchiveError::FilenameNotFound(
                        self.skipped@[k],
                    ),
                forall|k: int|
                    self.skipped@.len() <= k < w@.len() ==> w@[k] == ArchiveError::MalformedRar,
            decreases self.malformed@.len() - j,
        {
            w.push(ArchiveError::MalformedRar);
            j += 1;
        }
        assert(w@ =~= warnings_of(self.skipped@, self.malformed@));
        w
    }
}

/// `r` is what planning the downloads gives: the planned tasks sorted by
/// volume with the skipped and the dropped subjects, or the failure.
pub open spec fn plan_outcome(
    entries: Seq<FileInfoView>,
    from_subject: bool,
    dir: Seq<char>,
    downloads: Seq<FirstSegmentView>,
    r: Result<TaskPlan, ArchiveError>,
) -> bool {
    match startable(entries, from_subject, dir, downloads) {
        Err(e) => r == Err::<TaskPlan, ArchiveError>(e),
        Ok(p) => r matches Ok(plan) && sorted_by_volume(
            p.tasks,
            plan.tasks@.map_values(|t: DownloadTask| t@),
        ) && plan.skipped.deep_view() == p.skipped && plan.malformed.deep_view() == p.malformed,
    }
}

fn plan_downloads(
    manifest: Option<&Par2Manifest>,
    downloads: &[FirstSegment],
    session_dir: &str,
) -> (r: Result<TaskPlan, ArchiveError>)
    ensures
        plan_outcome(
            match manifest {
                Some(m) => m@,
                None => Seq::empty(),
            },
            manifest is None,
            session_dir@,
            downloads@.map_values(|s: FirstSegment| s@),
            r,
        ),
{
    let ghost entries = match manifest {
        Some(m) => m@,
        None => Seq::<FileInfoView>::empty(),
    };
    let ghost from_subject = manifest is None;
    let ghost all = downloads@.map_values(|s: FirstSegment| s@);
    let mut tasks: Vec<DownloadTask> = Vec::new();
    let mut skipped: Vec<String> = Vec::new();
    let mut malformed: Vec<String> = Vec::new();
    let mut i: usize = 0;
    assert(all.subrange(0, 0) =~= Seq::<FirstSegmentView>::empty());
    assert(tasks@.map_values(|t: DownloadTask| t@) =~= Seq::<DownloadTaskView>::empty());
    assert(skipped.deep_view() =~= Seq::<Seq<char>>::empty());
    assert(malformed.deep_view() =~= Seq::<Seq<char>>::empty());
    while i < downloads.len()
        invariant
            i <= downloads@.len(),
            all == downloads@.map_values(|s: FirstSegment| s@),
            entries == match manifest {
                Some(m) => m@,
                None => Seq::<FileInfoView>::empty(),
            },
            from_subject == (manifest is None),
            planned(entries, from_subject, session_dir@, all.subrange(0, i as int)) == Ok::<
                Planned,
                ArchiveError,
            >(
                Planned {
                    tasks: tasks@.map_values(|t: DownloadTask| t@),
                    skipped: skipped.deep_view(),
                    malformed: malformed.deep_view(),
                },
            ),
        decreases downloads@.len() - i,
    {
        let segment = &downloads[i];
        let ghost next = all.subrange(0, i + 1);
        let ghost tasks_before = tasks@.map_values(|t: DownloadTask| t@);
        let ghost skipped_before = skipped.deep_view();
        let ghost malformed_before = malformed.deep_view();
        proof {
            assert(next.drop_last() =~= all.subrange(0, i as int));
            assert(next.last() == segment@);
        }
        let name: Option<&str> = match manifest {
            Some(m) => m.real_name_for(segment.hash16k.as_slice()),
            None => extract_filename(segment.nzb.subject.as_str()),
        };
        let mut is_volume: bool = false;
        let mut is_main: bool = false;
        match name {
            Some(n) => {
                let path = join_path(session_dir, n);
                match RarExt::from_filename(path.as_str()) {
                    Some(RarExt::Main) => {
                        is_volume = true;
                        is_main = true;
                    },
                    Some(_) => {
                        is_volume = true;
                    },
                    None => {},
                }
            },
            None => {},
        }
        if is_volume {
            let n = name.unwrap();
            match build_task(session_dir, n, segment) {
                Ok(task) => {
                    let ghost tv = task@;
                    tasks.push(task);
                    assert(tasks@.map_values(|t: DownloadTask| t@) =~= tasks_before.push(tv));
                },
                Err(e) => {
                    if is_main {
                        proof {
                            lemma_planned_failure(
                                entries,
                                from_subject,
                                session_dir@,
                                all,
                                i + 1,
                            );
                            assert(all.subrange(0, all.len() as int) =~= all);
                        }
                        return Err(e);
                    }
                    malformed.push(segment.nzb.subject.clone());
                    assert(malformed.deep_view() =~= malformed_before.push(segment@.nzb.subject));
                },
            }
        } else {
            skipped.push(segment.nzb.subject.clone());
            assert(skipped.deep_view() =~= skipped_before.push(segment@.nzb.subject));
        }
        i += 1;
    }
    assert(all.subrange(0, i as int) =~= all);
    if tasks.len() == 0 && malformed.len() > 0 {
        return Err(ArchiveError::MalformedRar);
    }
    let sorted = sort_by_volume(tasks);
    Ok(TaskPlan { tasks: sorted, skipped, malformed })
}

/// Once a prefix of the downloads fails, the whole fails in the same way.
pub proof fn lemma_planned_failure(
    entries: Seq<FileInfoView>,
    from_subject: bool,
    dir: Seq<char>,
    downloads: Seq<FirstSegmentView>,
    n: int,
)
    requires
        0 <= n <= downloads.len(),
        planned(entries, from_subject, dir, downloads.subrange(0, n)) is Err,
    ensures
        planned(entries, from_subject, dir, downloads) == planned(
            entries,
            from_subject,
            dir,
            downloads.subrange(0, n),
        ),
    decreases downloads.len() - n,
{
    if n < downloads.len() {
        assert(downloads.subrange(0, n + 1).drop_last() =~= downloads.subrange(0, n));
        lemma_planned_failure(entries, from_subject, dir, downloads, n + 1);
    } else {
        assert(downloads.subrange(0, n) =~= downloads);
    }
}

/// Plans the download of obfuscated volumes.
///
/// Every first segment whose fingerprint the manifest knows under the name
/// of a RAR volume gives one task; the others are listed as skipped. The
/// tasks come sorted by volume, which is the order of the bytes in the
/// stream. A first segment that is no readable RAR volume is dropped
/// with a warning; the whole fails where it is that of the `.rar`
/// volume, or where no task is left.
pub fn create_download_tasks(
    manifest: &Par2Manifest,
    downloads: &[FirstSegment],
    session_dir: &str,
) -> (r: Result<TaskPlan, ArchiveError>)
    ensures
        plan_outcome(
            manifest@,
            false,
            session_dir@,
            downloads@.map_values(|s: FirstSegment| s@),
            r,
        ),
{
    plan_downloads(Some(manifest), downloads, session_dir)
}

/// Plans the download of volumes that are posted under their real names:
/// as `create_download_tasks`, with the name read from the subject.
pub fn create_download_tasks_plain(downloads: &[FirstSegment], session_dir: &str) -> (r: Result<
    TaskPlan,
    ArchiveError,
>)
    ensures
        plan_outcome(
            Seq::empty(),
            true,
            session_dir@,
            downloads@.map_values(|s: FirstSegment| s@),
            r,
        ),
{
    plan_downloads(None, downloads, session_dir)
}

/// Two stable orders of the same keys agree at every place.
pub proof fn lemma_stable_order_agrees(keys: Seq<u64>, first: Seq<usize>, second: Seq<usize>, i: int)
    requires
        is_stable_order(keys, first),
        is_stable_order(keys, second),
        0 <= i < keys.len(),
    ensures
        first[i] == second[i],
    decreases i,
{
    assert forall|k: int| 0 <= k < i implies first[k] == second[k] by {
        lemma_stable_order_agrees(keys, first, second, k);
    }
    let x = first[i];
    let y = second[i];
    if x != y {
        assert(visits(second, x as int));
        let j = choose|j: int| 0 <= j < second.len() && second[j] == x;
        assert(visits(first, y as int));
        let l = choose|l: int| 0 <= l < first.len() && first[l] == y;
        if j < i {
            assert(first[j] == second[j]);
        }
        if l < i {
            assert(first[l] == second[l]);
        }
        assert(i < j && i < l);
        assert(keys[second[i] as int] <= keys[second[j] as int]);
        assert(keys[first[i] as int] <= keys[first[l] as int]);
    }
}

/// A stable sort is total and leaves no choice: every list of keys has
/// at most one stable order, which visits every item once.
pub proof fn lemma_stable_order_unique(keys: Seq<u64>, first: Seq<usize>, second: Seq<usize>)
    requires
        is_stable_order(keys, first),
        is_stable_order(keys, second),
    ensures
        first == second,
{
    assert forall|i: int| 0 <= i < first.len() implies first[i] == second[i] by {
        lemma_stable_order_agrees(keys, first, second, i);
    }
    assert(first =~= second);
}

/// Tasks sorted by volume are what their sorting says and nothing else:
/// two sorted lists of the same tasks are equal.
pub proof fn lemma_sorted_by_volume_unique(
    input: Seq<DownloadTaskView>,
    first: Seq<DownloadTaskView>,
    second: Seq<DownloadTaskView>,
)
    requires
        sorted_by_volume(input, first),
        sorted_by_volume(input, second),
    ensures
        first == second,
{
    let o1 = choose|order: Seq<usize>|
        {
            &&& #[trigger] is_stable_order(volume_keys(input), order)
            &&& first.len() == input.len()
            &&& forall|i: int| 0 <= i < first.len() ==> first[i] == input[order[i] as int]
        };
    let o2 = choose|order: Seq<usize>|
        {
            &&& #[trigger] is_stable_order(volume_keys(input), order)
            &&& second.len() == input.len()
            &&& forall|i: int| 0 <= i < second.len() ==> second[i] == input[order[i] as int]
        };
    lemma_stable_order_unique(volume_keys(input), o1, o2);
    assert(first =~= second);
}

/// In tasks sorted by volume the bare `.rar` comes before every numbered
/// part, and the parts follow their numbers: the keys never fall.
pub proof fn lemma_sorted_volumes_ascend(
    input: Seq<DownloadTaskView>,
    output: Seq<DownloadTaskView>,
    i: int,
    j: int,
)
    requires
        sorted_by_volume(input, output),
        0 <= i < j < output.len(),
    ensures
        volume_key(output[i].path) <= volume_key(output[j].path),
{
    let order = choose|order: Seq<usize>|
        {
            &&& #[trigger] is_stable_order(volume_keys(input), order)
            &&& output.len() == input.len()
            &&& forall|k: int| 0 <= k < output.len() ==> output[k] == input[order[k] as int]
        };
    let keys = volume_keys(input);
    assert(keys[order[i] as int] <= keys[order[j] as int]);
    crate::archive::rar::lemma_rank_bound(input[order[i] as int].path);
    crate::archive::rar::lemma_rank_bound(input[order[j] as int].path);
}

} // verus!
