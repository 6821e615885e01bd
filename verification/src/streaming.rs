//! Taking the video out of a RAR volume that is held in memory.
use crate::archive::error::ArchiveError;
use crate::archive::rar::mkv_signature;
use crate::archive::rar::rar_signature;
use crate::byteseq::find_subslice;
use crate::byteseq::first_match;
use crate::byteseq::le_u16;
use crate::byteseq::le_u32;
use crate::byteseq::read_u16_le;
use crate::byteseq::read_u32_le;
use crate::nzb::file::PostedFile;
use crate::nzb::file::Segment;
use crate::nzb::file::sizes_sum;
use crate::session::DownloadTask;
use crate::session::DownloadTaskView;
use crate::session::sequences_of;
use crate::session::volume_order;
use crate::text::byte_cut;
use crate::text::chars_of;
use crate::text::contains;
use crate::text::cut_at_bytes;
use crate::text::find_char;
use crate::text::first_index;
use crate::text::has_prefix;
use crate::text::has_sub;
use crate::text::parse_decimal;
use crate::text::starts_with;
use crate::text::starts_with_str;
use crate::text::unsigned_of;
use std::ops::Range;
use vstd::prelude::*;
use vstd::slice::slice_subrange;

pub mod manager;

verus! {

/// How many of the first bytes of a volume are searched for the RAR
/// signature.
pub const SIGNATURE_WINDOW: usize = 1024;

/// Length of the content that stands in for a video that is not there.
pub const MOCK_SIZE: usize = 10485760;

/// A segment that waits to be streamed.
#[derive(Debug, PartialEq, Eq)]
pub struct StreamSegment {
    pub segment_index: usize,
    pub file_index: usize,
    pub data: Vec<u8>,
    pub byte_range: Range<u64>,
}

/// What a file's payload adds to the video: all of it, or, as long as
/// nothing was taken yet, what stands from the Matroska signature on
/// where the payload holds one.
pub open spec fn video_part(packed: Seq<u8>, taken: Seq<u8>) -> Seq<u8> {
    if taken.len() == 0 {
        match first_match(packed, mkv_signature()) {
            Some(k) => packed.subrange(k, packed.len() as int),
            None => packed,
        }
    } else {
        packed
    }
}

/// The video that the headers of `buf` from `pos` on give, behind what
/// was `taken` before.
///
/// A file header is followed by its payload, which is taken. An
/// end-of-archive header, or the end of the buffer where a header would
/// begin, ends the walk. A file header or a payload that is cut short is
/// malformed, and so is any other header that declares size zero.
pub open spec fn video_from(buf: Seq<u8>, pos: int, taken: Seq<u8>) -> Result<Seq<u8>, ArchiveError>
    decreases buf.len() - pos,
{
    if pos < 0 || pos + 7 > buf.len() {
        Ok(taken)
    } else {
        let kind = buf[pos + 2];
        let size = le_u16(buf.subrange(pos + 5, pos + 7));
        if kind == 0x74 {
            let rest = if size > 7 {
                size - 7
            } else {
                0
            };
            let body = pos + 7 + rest;
            if body > buf.len() {
                Err(ArchiveError::MalformedRar)
            } else if rest < 8 {
                video_from(buf, body, taken)
            } else {
                let pack = le_u32(buf.subrange(pos + 7, pos + 11));
                if body + pack > buf.len() {
                    Err(ArchiveError::MalformedRar)
                } else {
                    video_from(
                        buf,
                        body + pack,
                        taken + video_part(buf.subrange(body, body + pack), taken),
                    )
                }
            }
        } else if kind == 0x7B {
            Ok(taken)
        } else if size <= 0 {
            Err(ArchiveError::MalformedRar)
        } else if pos + size > buf.len() {
            Ok(taken)
        } else {
            video_from(buf, pos + size, taken)
        }
    }
}

/// The video in a RAR volume: the payloads of its files, one behind the
/// other, from the Matroska signature of the first on. The RAR signature
/// must stand in the first 1024 bytes.
pub open spec fn video_of(rar_data: Seq<u8>) -> Result<Seq<u8>, ArchiveError> {
    let window = if rar_data.len() < SIGNATURE_WINDOW {
        rar_data
    } else {
        rar_data.subrange(0, SIGNATURE_WINDOW as int)
    };
    match first_match(window, rar_signature()) {
        None => Err(ArchiveError::MalformedRar),
        Some(i) => video_from(rar_data, i + 7, Seq::empty()),
    }
}

/// Takes the video out of a RAR volume.
pub fn extract_mkv_from_rar(rar_data: &[u8]) -> (r: Result<Vec<u8>, ArchiveError>)
    ensures
        match video_of(rar_data@) {
            Ok(video) => r matches Ok(v) && v@ == video,
            Err(e) => r == Err::<Vec<u8>, ArchiveError>(e),
        },
{
    let len: usize = rar_data.len();
    let window_len: usize = if len < SIGNATURE_WINDOW {
        len
    } else {
        SIGNATURE_WINDOW
    };
    assert(rar_data@.subrange(0, len as int) =~= rar_data@);
    let sig: Vec<u8> = vec![0x52u8, 0x61u8, 0x72u8, 0x21u8, 0x1Au8, 0x07u8, 0x00u8];
    assert(sig@ =~= rar_signature());
    let mkv: Vec<u8> = vec![0x1Au8, 0x45u8, 0xDFu8, 0xA3u8];
    assert(mkv@ =~= mkv_signature());
    let window = slice_subrange(rar_data, 0, window_len);
    let start: usize = match find_subslice(window, sig.as_slice()) {
        Some(i) => {
            proof {
                crate::byteseq::lemma_first_match_from(window@, rar_signature(), 0);
            }
            i + 7
        },
        None => {
            return Err(ArchiveError::MalformedRar);
        },
    };
    let mut out: Vec<u8> = Vec::new();
    let mut pos: usize = start;
    loop
        invariant
            pos <= len,
            len == rar_data@.len(),
            mkv@ == mkv_signature(),
            video_of(rar_data@) == video_from(rar_data@, pos as int, out@),
        decreases len - pos,
    {
        if len - pos < 7 {
            return Ok(out);
        }
        let kind: u8 = rar_data[pos + 2];
        let size: u16 = read_u16_le(slice_subrange(rar_data, pos + 5, pos + 7));
        if kind == 0x74 {
            let rest: usize = if size > 7 {
                (size - 7) as usize
            } else {
                0
            };
            if rest > len - pos - 7 {
                return Err(ArchiveError::MalformedRar);
            }
            let body: usize = pos + 7 + rest;
            if rest < 8 {
                pos = body;
            } else {
                let pack: u32 = read_u32_le(slice_subrange(rar_data, pos + 7, pos + 11));
                if pack as u64 > (len - body) as u64 {
                    return Err(ArchiveError::MalformedRar);
                }
                let end: usize = body + pack as usize;
                let packed = slice_subrange(rar_data, body, end);
                let from: usize = if out.len() == 0 {
                    match find_subslice(packed, mkv.as_slice()) {
                        Some(k) => {
                            proof {
                                crate::byteseq::lemma_first_match_from(
                                    packed@,
                                    mkv_signature(),
                                    0,
                                );
                            }
                            k
                        },
                        None => 0,
                    }
                } else {
                    0
                };
                let part = slice_subrange(packed, from, packed.len());
                let ghost before = out@;
                assert(part@ == video_part(packed@, out@)) by {
                    assert(packed@.subrange(0, packed@.len() as int) =~= packed@);
                }
                out.extend_from_slice(part);
                assert(out@ == before + video_part(packed@, before));
                assert(packed@ == rar_data@.subrange(body as int, body + pack));
                assert(video_from(rar_data@, pos as int, before) == video_from(
                    rar_data@,
                    end as int,
                    out@,
                ));
                pos = end;
            }
        } else if kind == 0x7B {
            return Ok(out);
        } else if size == 0 {
            return Err(ArchiveError::MalformedRar);
        } else if size as usize > len - pos {
            return Ok(out);
        } else {
            pos = pos + size as usize;
        }
    }
}

/// Content that stands in for a video that is not there: the Matroska
/// signature, the fields of an EBML header, and zeros up to 10 MiB.
pub open spec fn mock_video() -> Seq<u8> {
    let head = seq![
        0x1Au8, 0x45u8, 0xDFu8, 0xA3u8, 0x42u8, 0x86u8, 0x81u8, 0x01u8, 0x42u8, 0x87u8,
        0x81u8, 0x01u8, 0x42u8, 0x85u8, 0x81u8, 0x02u8, 0x42u8, 0x82u8, 0x81u8, 0x02u8,
    ];
    head + Seq::new((MOCK_SIZE - 20) as nat, |i: int| 0u8)
}

/// Builds the content that stands in for a video that is not there.
pub fn create_mock_mkv_data() -> (data: Vec<u8>)
    ensures
        data@ == mock_video(),
{
    let mut data: Vec<u8> = vec![
        0x1Au8, 0x45u8, 0xDFu8, 0xA3u8, 0x42u8, 0x86u8, 0x81u8, 0x01u8, 0x42u8, 0x87u8,
        0x81u8, 0x01u8, 0x42u8, 0x85u8, 0x81u8, 0x02u8, 0x42u8, 0x82u8, 0x81u8, 0x02u8,
    ];
    data.resize(MOCK_SIZE, 0u8);
    assert(data@ =~= mock_video());
    data
}

/// Why a `Range` header is not read.
#[derive(Debug, Clone, Copy, PartialEq, Eq, Structural)]
pub enum HeaderError {
    /// The header does not begin with `bytes=`.
    Header,
    /// Behind `bytes=` there is not exactly one `-`.
    Format,
    /// What stands before the `-` is no number of 64 bits.
    Start,
    /// What stands behind the `-` is no number of 64 bits.
    End,
}

impl HeaderError {
    /// The words that go with the error.
    pub open spec fn spec_message(&self) -> Seq<char> {
        match self {
            HeaderError::Header => "Invalid range header"@,
            HeaderError::Format => "Invalid range format"@,
            HeaderError::Start => "Invalid range start"@,
            HeaderError::End => "Invalid range end"@,
        }
    }

    /// The words that go with the error.
    pub fn message(&self) -> (m: &'static str)
        ensures
            m@ == self.spec_message(),
    {
        match self {
            HeaderError::Header => "Invalid range header",
            HeaderError::Format => "Invalid range format",
            HeaderError::Start => "Invalid range start",
            HeaderError::End => "Invalid range end",
        }
    }
}

/// The range that a header of the form `bytes=start-end` names: from
/// `start`, or from 0 where none is given, to `end`, or to the largest
/// offset where none is given. Nothing is passed over: the header holds
/// one range, and no white space.
pub open spec fn simple_range_of(header: Seq<char>) -> Result<(u64, u64), HeaderError> {
    if !has_prefix(header, "bytes="@) {
        Err(HeaderError::Header)
    } else {
        let part = header.subrange(6, header.len() as int);
        match first_index(part, '-') {
            None => Err(HeaderError::Format),
            Some(dash) => {
                let start_text = part.subrange(0, dash);
                let end_text = part.subrange(dash + 1, part.len() as int);
                if first_index(end_text, '-') is Some {
                    Err(HeaderError::Format)
                } else {
                    let start = if start_text.len() == 0 {
                        Some(0nat)
                    } else {
                        unsigned_of(start_text, u64::MAX as nat)
                    };
                    let end = if end_text.len() == 0 {
                        Some(u64::MAX as nat)
                    } else {
                        unsigned_of(end_text, u64::MAX as nat)
                    };
                    match (start, end) {
                        (None, _) => Err(HeaderError::Start),
                        (Some(_), None) => Err(HeaderError::End),
                        (Some(a), Some(b)) => Ok((a as u64, b as u64)),
                    }
                }
            },
        }
    }
}

/// Reads a `Range` header into the offsets of its first and last byte.
pub fn parse_range_header(range_header: &str) -> (r: Result<Range<u64>, HeaderError>)
    ensures
        match simple_range_of(range_header@) {
            Ok((start, end)) => r matches Ok(range) && range.start == start && range.end == end,
            Err(e) => r == Err::<Range<u64>, HeaderError>(e),
        },
{
    let s = chars_of(range_header);
    proof {
        reveal_strlit("bytes=");
    }
    if !starts_with_str(s.as_slice(), "bytes=") {
        return Err(HeaderError::Header);
    }
    let part = slice_subrange(s.as_slice(), 6, s.len());
    let dash: usize = match find_char(part, '-') {
        Some(d) => {
            proof {
                crate::text::lemma_first_index_from(part@, '-', 0);
            }
            d
        },
        None => {
            return Err(HeaderError::Format);
        },
    };
    let start_text = slice_subrange(part, 0, dash);
    let end_text = slice_subrange(part, dash + 1, part.len());
    if find_char(end_text, '-').is_some() {
        return Err(HeaderError::Format);
    }
    let start: u64 = if start_text.len() == 0 {
        0
    } else {
        match parse_decimal(start_text, u64::MAX) {
            Some(n) => n,
            None => {
                return Err(HeaderError::Start);
            },
        }
    };
    let end: u64 = if end_text.len() == 0 {
        u64::MAX
    } else {
        match parse_decimal(end_text, u64::MAX) {
            Some(n) => n,
            None => {
                return Err(HeaderError::End);
            },
        }
    };
    Ok(start..end)
}

/// The first and the last byte that are served of content of
/// `total_size` bytes for the range from `start` to `end`; nothing where
/// the range starts behind the content.
pub fn clamp_range(start: u64, end: u64, total_size: u64) -> (r: Option<(u64, u64)>)
    ensures
        r == if start >= total_size {
            None
        } else {
            Some(
                (
                    start,
                    if end < total_size - 1 {
                        end
                    } else {
                        (total_size - 1) as u64
                    },
                ),
            )
        },
{
    if start >= total_size {
        None
    } else {
        Some(
            (
                start,
                if end < total_size - 1 {
                    end
                } else {
                    total_size - 1
                },
            ),
        )
    }
}

/// Priority of the segments of the first volume; every volume behind it
/// has a hundred less.
pub const STREAM_PRIORITY: u32 = 10000;

/// Bytes of an obfuscated name by which a subject is known to belong to
/// it.
pub const NAME_PREFIX: usize = 10;

/// What `name` begins with: its first ten bytes in UTF-8, or all of it.
/// Nothing where the tenth byte lies within a character.
pub open spec fn name_prefix(name: Seq<char>) -> Option<Seq<char>> {
    match byte_cut(name, 0, NAME_PREFIX as nat) {
        Some(n) => Some(name.subrange(0, n)),
        None => None,
    }
}

/// Whether a subject belongs to the obfuscated name `name`: it holds the
/// name, or begins as the name begins, where the beginning of the name
/// can be taken.
pub open spec fn belongs_to(subject: Seq<char>, name: Seq<char>) -> bool {
    has_sub(subject, name) || (name_prefix(name) matches Some(prefix) && has_prefix(
        subject,
        prefix,
    ))
}

/// The files of `files` whose subjects belong to `name`, in their order.
pub open spec fn files_of_name(files: Seq<PostedFile>, name: Seq<char>) -> Seq<PostedFile>
    decreases files.len(),
{
    if files.len() == 0 {
        Seq::empty()
    } else if belongs_to(files.last().subject@, name) {
        files_of_name(files.drop_last(), name).push(files.last())
    } else {
        files_of_name(files.drop_last(), name)
    }
}

/// Whether the priority of the volume that is fetched as the
/// `file_index`-th is not below zero.
pub open spec fn position_fits(file_index: usize) -> bool {
    file_index * 100 <= STREAM_PRIORITY
}

/// The priority of the segments of the volume that is fetched as the
/// `file_index`-th.
pub open spec fn position_priority(file_index: usize) -> u32 {
    (STREAM_PRIORITY - file_index * 100) as u32
}

/// Whether a volume can be queued as the `file_index`-th: the sizes of
/// its segments together fit in 64 bits, and their priority is not below
/// zero.
pub open spec fn stream_fits(segments: Seq<Segment>, file_index: usize) -> bool {
    sizes_sum(segments) <= u64::MAX && (segments.len() > 0 ==> position_fits(file_index))
}

/// Whether the first `n` of the volumes `chosen`, fetched in the order
/// `order`, can all be queued.
pub open spec fn all_stream_fit(chosen: Seq<PostedFile>, order: Seq<usize>, n: int) -> bool {
    forall|k: int|
        0 <= k < n && k < order.len() ==> stream_fits(
            chosen[(#[trigger] order[k]) as int].segments@,
            k as usize,
        )
}

/// The download of segment `i` of the volume that is fetched as the
/// `file_index`-th.
pub open spec fn stream_task(segments: Seq<Segment>, file_index: usize, i: int) -> DownloadTaskView {
    DownloadTaskView::RarSegment {
        segment: segments[i]@,
        file_index,
        segment_index: i as usize,
        priority: position_priority(file_index),
        start: sizes_sum(segments.subrange(0, i)) as u64,
        end: sizes_sum(segments.subrange(0, i + 1)) as u64,
    }
}

/// The downloads of the first `n` of the volumes `chosen`, fetched in the
/// order `order`: volume by volume, segment by segment.
pub open spec fn stream_tasks(chosen: Seq<PostedFile>, order: Seq<usize>, n: int) -> Seq<
    DownloadTaskView,
>
    decreases n,
{
    if n <= 0 || n > order.len() {
        Seq::empty()
    } else {
        let file = chosen[order[n - 1] as int];
        stream_tasks(chosen, order, n - 1) + Seq::new(
            file.segments@.len(),
            |i: int| stream_task(file.segments@, (n - 1) as usize, i),
        )
    }
}

/// The views of downloads.
pub open spec fn tasks_view(tasks: Seq<DownloadTask>) -> Seq<DownloadTaskView> {
    tasks.map_values(|t: DownloadTask| t@)
}

/// Picks the files whose subjects belong to an obfuscated name.
pub fn files_for_name(rar_files: &[PostedFile], obfuscated_name: &str) -> (chosen: Vec<
    PostedFile,
>)
    ensures
        chosen@.map_values(|f: PostedFile| f@) == files_of_name(
            rar_files@,
            obfuscated_name@,
        ).map_values(|f: PostedFile| f@),
{
    let name = chars_of(obfuscated_name);
    let cut: Option<usize> = cut_at_bytes(name.as_slice(), NAME_PREFIX);
    let mut chosen: Vec<PostedFile> = Vec::new();
    let mut i: usize = 0;
    assert(rar_files@.subrange(0, 0) =~= Seq::<PostedFile>::empty());
    while i < rar_files.len()
        invariant
            i <= rar_files@.len(),
            name@ == obfuscated_name@,
            match cut {
                Some(n) => byte_cut(name@, 0, NAME_PREFIX as nat) == Some(n as int) && n
                    <= name@.len(),
                None => byte_cut(name@, 0, NAME_PREFIX as nat) is None,
            },
            chosen@.len() == files_of_name(rar_files@.subrange(0, i as int), name@).len(),
            forall|k: int|
                0 <= k < chosen@.len() ==> (#[trigger] chosen@[k])@ == files_of_name(
                    rar_files@.subrange(0, i as int),
                    name@,
                )[k]@,
        decreases rar_files@.len() - i,
    {
        let ghost next = rar_files@.subrange(0, i + 1);
        let ghost found = files_of_name(rar_files@.subrange(0, i as int), name@);
        assert(next.drop_last() =~= rar_files@.subrange(0, i as int));
        assert(next.last() == rar_files@[i as int]);
        let subject = chars_of(rar_files[i].subject.as_str());
        let belongs: bool = contains(subject.as_slice(), name.as_slice()) || match cut {
            Some(n) => starts_with(
                subject.as_slice(),
                vstd::slice::slice_subrange(name.as_slice(), 0, n),
            ),
            None => false,
        };
        assert(belongs == belongs_to(rar_files@[i as int].subject@, name@));
        if belongs {
            chosen.push(rar_files[i].duplicate());
            assert(files_of_name(next, name@) == found.push(rar_files@[i as int]));
        } else {
            assert(files_of_name(next, name@) == found);
        }
        assert forall|k: int| 0 <= k < found.len() implies files_of_name(next, name@)[k]
            == found[k] by {}
        i += 1;
    }
    assert(rar_files@.subrange(0, i as int) =~= rar_files@);
    let ghost all = files_of_name(rar_files@, obfuscated_name@);
    assert(chosen@.map_values(|f: PostedFile| f@) =~= all.map_values(|f: PostedFile| f@));
    chosen
}

/// Works out the priority of the segments of a volume, which must not
/// be below zero.
pub fn priority_at(file_index: usize) -> (p: u32)
    requires
        position_fits(file_index),
    ensures
        p == position_priority(file_index),
{
    STREAM_PRIORITY - (file_index as u32) * 100
}

/// Queues the segments of the volumes `chosen` for streaming: the
/// volumes in the order of their archive, each with all its segments in
/// order, which is the order of falling priority.
pub fn prioritize_rar_segments(chosen: &[PostedFile]) -> (r: Option<Vec<DownloadTask>>)
    ensures
        exists|order: Seq<usize>|
            #![trigger crate::archive::par2::is_stable_order(sequences_of(chosen@), order)]
            crate::archive::par2::is_stable_order(sequences_of(chosen@), order) && match r {
                Some(tasks) => all_stream_fit(chosen@, order, order.len() as int) && tasks_view(
                    tasks@,
                ) == stream_tasks(chosen@, order, order.len() as int),
                None => !all_stream_fit(chosen@, order, order.len() as int),
            },
{
    let order = volume_order(chosen);
    let mut tasks: Vec<DownloadTask> = Vec::new();
    let mut n: usize = 0;
    assert(tasks_view(tasks@) =~= Seq::<DownloadTaskView>::empty());
    while n < order.len()
        invariant
            n <= order@.len(),
            crate::archive::par2::is_stable_order(sequences_of(chosen@), order@),
            all_stream_fit(chosen@, order@, n as int),
            tasks_view(tasks@) == stream_tasks(chosen@, order@, n as int),
        decreases order@.len() - n,
    {
        let at: usize = order[n];
        let file = &chosen[at];
        if file.size().is_none() || (file.segments.len() > 0 && n > 100) {
            assert(!stream_fits(chosen@[order@[n as int] as int].segments@, n));
            return None;
        }
        assert(stream_fits(chosen@[order@[n as int] as int].segments@, n));
        let ghost before = tasks_view(tasks@);
        let ghost want = Seq::new(
            file.segments@.len(),
            |i: int| stream_task(file.segments@, n, i),
        );
        let mut offset: u64 = 0;
        let mut i: usize = 0;
        assert(file.segments@.subrange(0, 0) =~= Seq::<Segment>::empty());
        assert(tasks_view(tasks@) =~= before + want.subrange(0, 0));
        while i < file.segments.len()
            invariant
                i <= file.segments@.len(),
                sizes_sum(file.segments@) <= u64::MAX,
                file.segments@.len() > 0 ==> position_fits(n),
                offset == sizes_sum(file.segments@.subrange(0, i as int)),
                want == Seq::new(
                    file.segments@.len(),
                    |k: int| stream_task(file.segments@, n, k),
                ),
                tasks_view(tasks@) == before + want.subrange(0, i as int),
            decreases file.segments@.len() - i,
        {
            let s = &file.segments[i];
            let ghost next = file.segments@.subrange(0, i + 1);
            let ghost queued = tasks_view(tasks@);
            assert(next.drop_last() =~= file.segments@.subrange(0, i as int));
            assert(next.last() == file.segments@[i as int]);
            proof {
                crate::nzb::file::lemma_sizes_sum_monotone(file.segments@, i + 1);
            }
            let end: u64 = offset + s.size as u64;
            let task = DownloadTask::RarSegment {
                segment: s.duplicate(),
                file_index: n,
                segment_index: i,
                priority: priority_at(n),
                start: offset,
                end,
            };
            assert(task@ == want[i as int]);
            tasks.push(task);
            assert(tasks_view(tasks@) =~= queued.push(want[i as int]));
            assert(before + want.subrange(0, i + 1) =~= (before + want.subrange(
                0,
                i as int,
            )).push(want[i as int]));
            offset = end;
            i += 1;
        }
        assert(want.subrange(0, i as int) =~= want);
        n += 1;
    }
    Some(tasks)
}

/// The priority never rises from one volume to the next, as long as it
/// is not below zero.
pub proof fn lemma_priority_falls(i: usize, j: usize)
    requires
        i <= j,
        position_fits(j),
    ensures
        position_priority(i) >= position_priority(j),
{
}

} // verus!
