//! A manifest held as plain values, and what a path tells about a file.
use crate::archive::par2::is_stable_order;
use crate::archive::par2::stable_order;
use crate::text::chars_eq_str;
use crate::text::chars_of;
use crate::text::extension;
use crate::text::extension_of;
use crate::text::lowercased;
use crate::text::parse_decimal;
use crate::text::string_of;
use crate::text::to_lowercase;
use crate::text::unsigned_of;
use vstd::prelude::*;
use vstd::slice::slice_subrange;

verus! {

/// One article of a file.
#[derive(Debug, Clone, PartialEq, Eq)]
pub struct NzbSegment {
    pub message_id: String,
    /// Position of the article in its file, counted from 1.
    pub number: u32,
    /// Size of the article in bytes.
    pub bytes: u64,
}

impl NzbSegment {
    pub fn new(message_id: String, number: u32, bytes: u64) -> (s: NzbSegment)
        ensures
            s.message_id == message_id,
            s.number == number,
            s.bytes == bytes,
    {
        NzbSegment { message_id, number, bytes }
    }
}

/// What a manifest says of itself.
#[derive(Debug, Clone, PartialEq, Eq)]
pub struct NzbMeta {
    pub title: Option<String>,
    pub category: Option<String>,
    pub poster: Option<String>,
    /// When the manifest was made, in seconds since 1970.
    pub date: Option<i64>,
    pub attributes: Vec<(String, String)>,
}

impl Default for NzbMeta {
    fn default() -> (m: NzbMeta)
        ensures
            m.title is None,
            m.category is None,
            m.poster is None,
            m.date is None,
            m.attributes@.len() == 0,
    {
        NzbMeta { title: None, category: None, poster: None, date: None, attributes: Vec::new() }
    }
}

/// One file of a manifest.
#[derive(Debug, Clone, PartialEq, Eq)]
pub struct NzbFile {
    pub subject: String,
    pub poster: String,
    /// When the file was posted, in seconds since 1970.
    pub date: i64,
    pub groups: Vec<String>,
    pub segments: Vec<NzbSegment>,
    /// Path of the file, with forward slashes.
    pub path: String,
    /// Sum of the sizes of the segments.
    pub size: u64,
}

/// The numbers of `segments`, in their order.
pub open spec fn numbers_of(segments: Seq<NzbSegment>) -> Seq<u64> {
    Seq::new(segments.len(), |i: int| segments[i].number as u64)
}

/// The segments are all there and in order: there is at least one, and
/// they are numbered 1, 2, 3, …
pub open spec fn complete(segments: Seq<NzbSegment>) -> bool {
    segments.len() > 0 && forall|i: int|
        0 <= i < segments.len() ==> (#[trigger] segments[i]).number == i + 1
}

impl NzbFile {
    /// A file without groups and segments.
    pub fn new(subject: String, poster: String, date: i64) -> (f: NzbFile)
        ensures
            f.subject == subject,
            f.poster == poster,
            f.date == date,
            f.groups@.len() == 0,
            f.segments@.len() == 0,
            f.path@.len() == 0,
            f.size == 0,
    {
        NzbFile {
            subject,
            poster,
            date,
            groups: Vec::new(),
            segments: Vec::new(),
            path: String::new(),
            size: 0,
        }
    }

    /// Adds a segment at the end and its size to the size of the file.
    pub fn add_segment(&mut self, segment: NzbSegment)
        requires
            old(self).size + segment.bytes <= u64::MAX,
        ensures
            final(self).size == old(self).size + segment.bytes,
            final(self).segments@ == old(self).segments@.push(segment),
            final(self).subject == old(self).subject,
            final(self).poster == old(self).poster,
            final(self).date == old(self).date,
            final(self).groups == old(self).groups,
            final(self).path == old(self).path,
    {
        self.size = self.size + segment.bytes;
        self.segments.push(segment);
    }

    /// Sorts the segments by their numbers; segments of the same number
    /// keep their order.
    pub fn sort_segments(&mut self)
        ensures
            final(self).segments@.len() == old(self).segments@.len(),
            exists|order: Seq<usize>|
                #![trigger is_stable_order(numbers_of(old(self).segments@), order)]
                is_stable_order(numbers_of(old(self).segments@), order) && forall|i: int|
                    0 <= i < order.len() ==> final(self).segments@[i] == old(
                        self,
                    ).segments@[order[i] as int],
            final(self).subject == old(self).subject,
            final(self).poster == old(self).poster,
            final(self).date == old(self).date,
            final(self).groups == old(self).groups,
            final(self).path == old(self).path,
            final(self).size == old(self).size,
    {
        let mut keys: Vec<u64> = Vec::new();
        let mut i: usize = 0;
        while i < self.segments.len()
            invariant
                i <= self.segments@.len(),
                *self == *old(self),
                keys@.len() == i,
                forall|k: int| 0 <= k < i ==> keys@[k] == self.segments@[k].number as u64,
            decreases self.segments@.len() - i,
        {
            keys.push(self.segments[i].number as u64);
            i += 1;
        }
        assert(keys@ =~= numbers_of(self.segments@));
        let order = stable_order(&keys);
        let mut sorted: Vec<NzbSegment> = Vec::new();
        let mut j: usize = 0;
        while j < order.len()
            invariant
                j <= order@.len(),
                *self == *old(self),
                is_stable_order(keys@, order@),
                keys@.len() == self.segments@.len(),
                sorted@.len() == j,
                forall|k: int| 0 <= k < j ==> sorted@[k] == self.segments@[order@[k] as int],
            decreases order@.len() - j,
        {
            let at: usize = order[j];
            let s = &self.segments[at];
            sorted.push(
                NzbSegment { message_id: s.message_id.clone(), number: s.number, bytes: s.bytes },
            );
            j += 1;
        }
        self.segments = sorted;
    }

    /// Whether the segments are all there and in order.
    pub fn is_complete(&self) -> (b: bool)
        ensures
            b == complete(self.segments@),
    {
        if self.segments.len() == 0 {
            return false;
        }
        let mut i: usize = 0;
        while i < self.segments.len()
            invariant
                i <= self.segments@.len(),
                forall|k: int| 0 <= k < i ==> (#[trigger] self.segments@[k]).number == k + 1,
            decreases self.segments@.len() - i,
        {
            if self.segments[i].number as u64 != i as u64 + 1 {
                return false;
            }
            i += 1;
        }
        true
    }

    /// What stands behind the last dot of the path.
    pub fn extension(&self) -> (r: Option<String>)
        ensures
            r matches Some(e) && e@ == extension_of(self.path@),
    {
        let chars = chars_of(self.path.as_str());
        Some(string_of(extension(chars.as_slice())))
    }
}

/// Sum of the sizes of `files`.
pub open spec fn total_of(files: Seq<NzbFile>) -> nat
    decreases files.len(),
{
    if files.len() == 0 {
        0
    } else {
        total_of(files.drop_last()) + files.last().size as nat
    }
}

pub proof fn lemma_total_monotone(files: Seq<NzbFile>, n: int)
    requires
        0 <= n <= files.len(),
    ensures
        total_of(files.subrange(0, n)) <= total_of(files),
    decreases files.len() - n,
{
    if n < files.len() {
        assert(files.subrange(0, n + 1).drop_last() =~= files.subrange(0, n));
        lemma_total_monotone(files, n + 1);
    } else {
        assert(files.subrange(0, n) =~= files);
    }
}

/// The index of the first file at or after `from` whose path is `path`.
pub open spec fn path_index_from(files: Seq<NzbFile>, path: Seq<char>, from: int) -> Option<int>
    decreases files.len() - from,
{
    if from < 0 || from >= files.len() {
        None
    } else if files[from].path@ == path {
        Some(from)
    } else {
        path_index_from(files, path, from + 1)
    }
}

/// The files whose paths name a video, in their order.
pub open spec fn videos_of(files: Seq<NzbFile>) -> Seq<NzbFile>
    decreases files.len(),
{
    if files.len() == 0 {
        Seq::empty()
    } else if video_file(files.last().path@) {
        videos_of(files.drop_last()).push(files.last())
    } else {
        videos_of(files.drop_last())
    }
}

/// The files that the references point to.
pub open spec fn pointed(refs: Seq<&NzbFile>) -> Seq<NzbFile> {
    Seq::new(refs.len(), |i: int| *refs[i])
}

/// A manifest: what it says of itself, and its files.
#[derive(Debug, Clone, PartialEq, Eq)]
pub struct Nzb {
    pub meta: NzbMeta,
    pub files: Vec<NzbFile>,
}

impl Default for Nzb {
    fn default() -> (n: Nzb)
        ensures
            n.files@.len() == 0,
    {
        Nzb::new()
    }
}

impl Nzb {
    /// A manifest without files.
    pub fn new() -> (n: Nzb)
        ensures
            n.files@.len() == 0,
    {
        Nzb { meta: NzbMeta::default(), files: Vec::new() }
    }

    /// Sum of the sizes of the files, or nothing where it does not fit in
    /// 64 bits.
    pub fn total_size(&self) -> (r: Option<u64>)
        ensures
            r == if total_of(self.files@) <= u64::MAX {
                Some(total_of(self.files@) as u64)
            } else {
                None
            },
    {
        let mut total: u64 = 0;
        let mut i: usize = 0;
        while i < self.files.len()
            invariant
                i <= self.files@.len(),
                total as nat == total_of(self.files@.subrange(0, i as int)),
            decreases self.files@.len() - i,
        {
            let ghost next = self.files@.subrange(0, i + 1);
            assert(next.drop_last() =~= self.files@.subrange(0, i as int));
            proof {
                lemma_total_monotone(self.files@, i + 1);
            }
            match total.checked_add(self.files[i].size) {
                Some(t) => {
                    total = t;
                },
                None => {
                    return None;
                },
            }
            i += 1;
        }
        assert(self.files@.subrange(0, i as int) =~= self.files@);
        Some(total)
    }

    /// Number of files.
    pub fn file_count(&self) -> (n: usize)
        ensures
            n == self.files@.len(),
    {
        self.files.len()
    }

    /// The first file whose path is `path`, once `path` is normalized.
    pub fn find_file(&self, path: &str) -> (r: Option<&NzbFile>)
        ensures
            match r {
                Some(f) => path_index_from(self.files@, normalized(path@), 0) matches Some(i)
                    && *f == self.files@[i],
                None => path_index_from(self.files@, normalized(path@), 0) is None,
            },
    {
        let wanted = normalize_path(path);
        let mut i: usize = 0;
        while i < self.files.len()
            invariant
                i <= self.files@.len(),
                wanted@ == normalized(path@),
                path_index_from(self.files@, wanted@, 0) == path_index_from(
                    self.files@,
                    wanted@,
                    i as int,
                ),
            decreases self.files@.len() - i,
        {
            if self.files[i].path == wanted {
                return Some(&self.files[i]);
            }
            i += 1;
        }
        None
    }

    /// The files whose paths name a video, in their order.
    pub fn find_video_files(&self) -> (r: Vec<&NzbFile>)
        ensures
            pointed(r@) == videos_of(self.files@),
    {
        let mut r: Vec<&NzbFile> = Vec::new();
        let mut i: usize = 0;
        assert(self.files@.subrange(0, 0) =~= Seq::<NzbFile>::empty());
        assert(pointed(r@) =~= Seq::<NzbFile>::empty());
        while i < self.files.len()
            invariant
                i <= self.files@.len(),
                pointed(r@) == videos_of(self.files@.subrange(0, i as int)),
            decreases self.files@.len() - i,
        {
            let ghost next = self.files@.subrange(0, i + 1);
            let ghost before = pointed(r@);
            assert(next.drop_last() =~= self.files@.subrange(0, i as int));
            assert(next.last() == self.files@[i as int]);
            if is_video_file(self.files[i].path.as_str()) {
                r.push(&self.files[i]);
                assert(pointed(r@) =~= before.push(self.files@[i as int]));
            }
            i += 1;
        }
        assert(self.files@.subrange(0, i as int) =~= self.files@);
        r
    }
}

/// `path` with every backslash turned into a forward slash.
pub open spec fn with_forward_slashes(path: Seq<char>) -> Seq<char> {
    Seq::new(
        path.len(),
        |i: int|
            if path[i] == '\\' {
                '/'
            } else {
                path[i]
            },
    )
}

/// `path` without the slashes that it begins with.
pub open spec fn without_leading_slashes(path: Seq<char>) -> Seq<char>
    decreases path.len(),
{
    if path.len() > 0 && path[0] == '/' {
        without_leading_slashes(path.skip(1))
    } else {
        path
    }
}

/// The normal form of a path: forward slashes only, and none at the
/// beginning.
pub open spec fn normalized(path: Seq<char>) -> Seq<char> {
    without_leading_slashes(with_forward_slashes(path))
}

/// Brings a path into its normal form.
pub fn normalize_path(path: &str) -> (r: String)
    ensures
        r@ == normalized(path@),
{
    let chars = chars_of(path);
    let mut turned: Vec<char> = Vec::new();
    let mut i: usize = 0;
    while i < chars.len()
        invariant
            i <= chars@.len(),
            turned@.len() == i,
            forall|k: int| 0 <= k < i ==> turned@[k] == with_forward_slashes(chars@)[k],
        decreases chars@.len() - i,
    {
        let c = chars[i];
        turned.push(
            if c == '\\' {
                '/'
            } else {
                c
            },
        );
        i += 1;
    }
    assert(turned@ =~= with_forward_slashes(chars@));
    let mut start: usize = 0;
    assert(turned@.skip(0) =~= turned@);
    while start < turned.len() && turned[start] == '/'
        invariant
            start <= turned@.len(),
            without_leading_slashes(turned@) == without_leading_slashes(
                turned@.skip(start as int),
            ),
        decreases turned@.len() - start,
    {
        assert(turned@.skip(start as int).skip(1) =~= turned@.skip(start + 1));
        start += 1;
    }
    assert(turned@.skip(start as int) =~= turned@.subrange(start as int, turned@.len() as int));
    string_of(slice_subrange(turned.as_slice(), start, turned.len()))
}

/// Whether `ext`, in lowercase, is the extension of a video file.
pub open spec fn video_extension(ext: Seq<char>) -> bool {
    ext == "mp4"@ || ext == "mkv"@ || ext == "avi"@ || ext == "mov"@ || ext == "wmv"@ || ext
        == "flv"@ || ext == "webm"@ || ext == "m4v"@ || ext == "mpg"@ || ext == "mpeg"@
}

/// Whether `ext`, in lowercase, is the extension of a RAR volume: `rar`,
/// or `r` and a number of at least two characters.
pub open spec fn rar_extension(ext: Seq<char>) -> bool {
    ext == "rar"@ || (ext.len() >= 3 && ext[0] == 'r' && unsigned_of(
        ext.subrange(1, ext.len() as int),
        u32::MAX as nat,
    ) is Some)
}

/// Whether a path names a video file, by its extension in lowercase.
pub open spec fn video_file(path: Seq<char>) -> bool {
    video_extension(lowercased(extension_of(path)))
}

/// Whether a path names a RAR volume, by its extension in lowercase.
pub open spec fn rar_file(path: Seq<char>) -> bool {
    rar_extension(lowercased(extension_of(path)))
}

/// Whether `ext`, which is in lowercase, is the extension of a video file.
pub fn is_video_extension(ext: &str) -> (b: bool)
    ensures
        b == video_extension(ext@),
{
    let e = chars_of(ext);
    let s = e.as_slice();
    chars_eq_str(s, "mp4") || chars_eq_str(s, "mkv") || chars_eq_str(s, "avi") || chars_eq_str(
        s,
        "mov",
    ) || chars_eq_str(s, "wmv") || chars_eq_str(s, "flv") || chars_eq_str(s, "webm")
        || chars_eq_str(s, "m4v") || chars_eq_str(s, "mpg") || chars_eq_str(s, "mpeg")
}

/// Whether `ext`, which is in lowercase, is the extension of a RAR volume.
pub fn is_rar_extension(ext: &str) -> (b: bool)
    ensures
        b == rar_extension(ext@),
{
    let e = chars_of(ext);
    let s = e.as_slice();
    if chars_eq_str(s, "rar") {
        return true;
    }
    if s.len() >= 3 && s[0] == 'r' {
        parse_decimal(slice_subrange(s, 1, s.len()), 0xFFFF_FFFF).is_some()
    } else {
        false
    }
}

/// Whether a path names a video file.
pub fn is_video_file(path: &str) -> (b: bool)
    ensures
        b == video_file(path@),
{
    let chars = chars_of(path);
    let ext = string_of(extension(chars.as_slice()));
    let lower = to_lowercase(ext.as_str());
    is_video_extension(lower.as_str())
}

/// Whether a path names a RAR volume.
pub fn is_rar_file(path: &str) -> (b: bool)
    ensures
        b == rar_file(path@),
{
    let chars = chars_of(path);
    let ext = string_of(extension(chars.as_slice()));
    let lower = to_lowercase(ext.as_str());
    is_rar_extension(lower.as_str())
}

} // verus!
