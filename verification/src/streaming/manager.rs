//! Answering a request for the video of a session from what the session
//! holds: which archive is streamed, which stored segments make it up,
//! and which bytes of the video a range names.
use crate::archive::error::ArchiveError;
use crate::http::response::content_range_text;
use crate::http::response::content_range_value;
use crate::http::response::line;
use crate::http::response::lines_view;
use crate::nzb::file::PostedFile;
use crate::nzb::file::Segment;
use crate::streaming::HeaderError;
use crate::streaming::NAME_PREFIX;
use crate::streaming::belongs_to;
use crate::streaming::clamp_range;
use crate::streaming::create_mock_mkv_data;
use crate::streaming::extract_mkv_from_rar;
use crate::streaming::mock_video;
use crate::streaming::parse_range_header;
use crate::streaming::simple_range_of;
use crate::streaming::video_of;
use crate::text::byte_cut;
use crate::text::chars_of;
use crate::text::contains;
use crate::text::cut_at_bytes;
use crate::text::decimal_digits;
use crate::text::decimal_string;
use crate::text::ends_with_str;
use crate::text::has_suffix;
use crate::text::starts_with;
use crate::text::str_eq;
use vstd::prelude::*;
use vstd::slice::slice_subrange;
use vstd::string::StrSliceExecFns;
use vstd::string::StringExecFns;
use vstd::string::StringSliceAdditionalSpecFns;

verus! {

/// An answer: its status, its header lines and its body.
#[derive(Debug, Clone, PartialEq, Eq)]
pub struct Reply {
    pub status: u16,
    pub headers: Vec<(String, String)>,
    pub body: Vec<u8>,
}

/// What an answer holds.
pub ghost struct ReplyView {
    pub status: u16,
    pub headers: Seq<(Seq<char>, Seq<char>)>,
    pub body: Seq<u8>,
}

impl View for Reply {
    type V = ReplyView;

    open spec fn view(&self) -> ReplyView {
        ReplyView { status: self.status, headers: lines_view(self.headers@), body: self.body@ }
    }
}

/// Why a request is not answered.
#[derive(Debug, Clone, PartialEq, Eq)]
pub enum StreamFailure {
    /// The `Range` header is not read.
    Range(HeaderError),
    /// No posted file is known to stand for the archive of that name.
    StreamNotFound(String),
    /// The stored segments are no RAR volume.
    Rar(ArchiveError),
}

/// What a failure holds.
pub ghost enum StreamFailureView {
    Range(HeaderError),
    StreamNotFound(Seq<char>),
    Rar(ArchiveError),
}

impl View for StreamFailure {
    type V = StreamFailureView;

    open spec fn view(&self) -> StreamFailureView {
        match self {
            StreamFailure::Range(e) => StreamFailureView::Range(*e),
            StreamFailure::StreamNotFound(name) => StreamFailureView::StreamNotFound(name@),
            StreamFailure::Rar(e) => StreamFailureView::Rar(*e),
        }
    }
}

/// Index of the first name at or after `from` that ends in `.rar`.
pub open spec fn first_rar_name(names: Seq<String>, from: int) -> Option<int>
    decreases names.len() - from,
{
    if from < 0 || from >= names.len() {
        None
    } else if has_suffix(names[from]@, ".rar"@) {
        Some(from)
    } else {
        first_rar_name(names, from + 1)
    }
}

/// The name of the archive that is streamed: the first real name that
/// ends in `.rar`, or else the subject of the first posted file.
pub open spec fn target_of(real_names: Seq<String>, rar_files: Seq<PostedFile>) -> Option<
    Seq<char>,
> {
    match first_rar_name(real_names, 0) {
        Some(i) => Some(real_names[i]@),
        None => if rar_files.len() > 0 {
            Some(rar_files[0].subject@)
        } else {
            None
        },
    }
}

/// Picks the archive that is streamed.
pub fn target_filename(real_names: &[String], rar_files: &[PostedFile]) -> (r: Option<String>)
    ensures
        match target_of(real_names@, rar_files@) {
            Some(name) => r matches Some(n) && n@ == name,
            None => r is None,
        },
{
    let mut i: usize = 0;
    while i < real_names.len()
        invariant
            i <= real_names@.len(),
            first_rar_name(real_names@, 0) == first_rar_name(real_names@, i as int),
        decreases real_names@.len() - i,
    {
        let chars = chars_of(real_names[i].as_str());
        if ends_with_str(chars.as_slice(), ".rar") {
            return Some(real_names[i].clone());
        }
        i += 1;
    }
    if rar_files.len() > 0 {
        Some(rar_files[0].subject.clone())
    } else {
        None
    }
}

/// Index of the first pair at or after `from` whose real name is
/// `actual`.
pub open spec fn pair_of_real(pairs: Seq<(String, String)>, actual: Seq<char>, from: int) -> Option<
    int,
>
    decreases pairs.len() - from,
{
    if from < 0 || from >= pairs.len() {
        None
    } else if pairs[from].1@ == actual {
        Some(from)
    } else {
        pair_of_real(pairs, actual, from + 1)
    }
}

/// Finds the pair of subject and real name that names the archive
/// `video_filename`.
pub fn obfuscated_name_of(pairs: &[(String, String)], video_filename: &str) -> (r: Option<usize>)
    ensures
        match r {
            Some(i) => pair_of_real(pairs@, video_filename@, 0) == Some(i as int) && i
                < pairs@.len(),
            None => pair_of_real(pairs@, video_filename@, 0) is None,
        },
{
    let mut i: usize = 0;
    while i < pairs.len()
        invariant
            i <= pairs@.len(),
            pair_of_real(pairs@, video_filename@, 0) == pair_of_real(
                pairs@,
                video_filename@,
                i as int,
            ),
        decreases pairs@.len() - i,
    {
        if str_eq(pairs[i].1.as_str(), video_filename) {
            return Some(i);
        }
        i += 1;
    }
    None
}

/// Index of the first file at or after `from` whose subject belongs to
/// `name`.
pub open spec fn first_belonging(files: Seq<PostedFile>, name: Seq<char>, from: int) -> Option<int>
    decreases files.len() - from,
{
    if from < 0 || from >= files.len() {
        None
    } else if belongs_to(files[from].subject@, name) {
        Some(from)
    } else {
        first_belonging(files, name, from + 1)
    }
}

/// Index of the first stored article at or after `from` whose message
/// id is `id`.
pub open spec fn stored_at(stored: Seq<(String, Vec<u8>)>, id: Seq<char>, from: int) -> Option<int>
    decreases stored.len() - from,
{
    if from < 0 || from >= stored.len() {
        None
    } else if stored[from].0@ == id {
        Some(from)
    } else {
        stored_at(stored, id, from + 1)
    }
}

/// The stored bytes of the first `n` segments, one behind the other;
/// a segment that is not stored adds nothing.
pub open spec fn joined_segments(segments: Seq<Segment>, stored: Seq<(String, Vec<u8>)>, n: int) -> Seq<
    u8,
>
    decreases n,
{
    if n <= 0 || n > segments.len() {
        Seq::empty()
    } else {
        joined_segments(segments, stored, n - 1) + match stored_at(
            stored,
            segments[n - 1].message_id@,
            0,
        ) {
            Some(i) => stored[i].1@,
            None => Seq::empty(),
        }
    }
}

/// Whether one of the first `n` segments is stored.
pub open spec fn any_stored(segments: Seq<Segment>, stored: Seq<(String, Vec<u8>)>, n: int) -> bool
    decreases n,
{
    if n <= 0 || n > segments.len() {
        false
    } else {
        any_stored(segments, stored, n - 1) || stored_at(stored, segments[n - 1].message_id@, 0)
            is Some
    }
}

/// The video of the archive that is posted under `name`: what the
/// stored segments of the first file that belongs to the name hold as a
/// RAR volume; content that stands in for it where no such segment is
/// stored.
pub open spec fn video_for(
    files: Seq<PostedFile>,
    stored: Seq<(String, Vec<u8>)>,
    name: Seq<char>,
) -> Result<Seq<u8>, ArchiveError> {
    match first_belonging(files, name, 0) {
        Some(f) => {
            let segments = files[f].segments@;
            if any_stored(segments, stored, segments.len() as int) {
                video_of(joined_segments(segments, stored, segments.len() as int))
            } else {
                Ok(mock_video())
            }
        },
        None => Ok(mock_video()),
    }
}

fn find_stored(stored: &[(String, Vec<u8>)], id: &str) -> (r: Option<usize>)
    ensures
        match r {
            Some(i) => stored_at(stored@, id@, 0) == Some(i as int) && i < stored@.len(),
            None => stored_at(stored@, id@, 0) is None,
        },
{
    let mut i: usize = 0;
    while i < stored.len()
        invariant
            i <= stored@.len(),
            stored_at(stored@, id@, 0) == stored_at(stored@, id@, i as int),
        decreases stored@.len() - i,
    {
        if str_eq(stored[i].0.as_str(), id) {
            return Some(i);
        }
        i += 1;
    }
    None
}

fn find_belonging(rar_files: &[PostedFile], obfuscated_name: &str) -> (r: Option<usize>)
    ensures
        match r {
            Some(i) => first_belonging(rar_files@, obfuscated_name@, 0) == Some(i as int) && i
                < rar_files@.len(),
            None => first_belonging(rar_files@, obfuscated_name@, 0) is None,
        },
{
    let name = chars_of(obfuscated_name);
    let cut: Option<usize> = cut_at_bytes(name.as_slice(), NAME_PREFIX);
    let mut i: usize = 0;
    while i < rar_files.len()
        invariant
            i <= rar_files@.len(),
            name@ == obfuscated_name@,
            match cut {
                Some(n) => byte_cut(name@, 0, NAME_PREFIX as nat) == Some(n as int) && n
                    <= name@.len(),
                None => byte_cut(name@, 0, NAME_PREFIX as nat) is None,
            },
            first_belonging(rar_files@, name@, 0) == first_belonging(rar_files@, name@, i as int),
        decreases rar_files@.len() - i,
    {
        let subject = chars_of(rar_files[i].subject.as_str());
        let belongs: bool = contains(subject.as_slice(), name.as_slice()) || match cut {
            Some(n) => starts_with(subject.as_slice(), slice_subrange(name.as_slice(), 0, n)),
            None => false,
        };
        assert(belongs == belongs_to(rar_files@[i as int].subject@, name@));
        if belongs {
            return Some(i);
        }
        i += 1;
    }
    None
}

/// Takes the video out of the stored segments of the archive that is
/// posted under `obfuscated_name`.
pub fn extract_mkv_from_rar_segments(
    rar_files: &[PostedFile],
    stored: &[(String, Vec<u8>)],
    obfuscated_name: &str,
) -> (r: Result<Vec<u8>, ArchiveError>)
    ensures
        match video_for(rar_files@, stored@, obfuscated_name@) {
            Ok(video) => r matches Ok(v) && v@ == video,
            Err(e) => r == Err::<Vec<u8>, ArchiveError>(e),
        },
{
    let at: usize = match find_belonging(rar_files, obfuscated_name) {
        Some(at) => at,
        None => {
            return Ok(create_mock_mkv_data());
        },
    };
    let file = &rar_files[at];
    let mut combined: Vec<u8> = Vec::new();
    let mut found: bool = false;
    let mut k: usize = 0;
    while k < file.segments.len()
        invariant
            k <= file.segments@.len(),
            combined@ == joined_segments(file.segments@, stored@, k as int),
            found == any_stored(file.segments@, stored@, k as int),
        decreases file.segments@.len() - k,
    {
        match find_stored(stored, file.segments[k].message_id.as_str()) {
            Some(i) => {
                combined.extend_from_slice(stored[i].1.as_slice());
                found = true;
            },
            None => {
                assert(combined@ + Seq::<u8>::empty() =~= combined@);
            },
        }
        k += 1;
    }
    if !found {
        return Ok(create_mock_mkv_data());
    }
    extract_mkv_from_rar(combined.as_slice())
}

/// The bytes of a video that are served for a range, the words that say
/// which they are, and the length of the video.
#[derive(Debug, Clone, PartialEq, Eq)]
pub struct RangeData {
    pub data: Vec<u8>,
    pub content_range: String,
    pub total_size: u64,
}

/// What is served of `video` for the range from `start` to `end`: the
/// bytes from `start` to `end`, or to the end of the video, and the
/// words for them; nothing at all where the range begins behind the
/// video, and no bytes where it ends before it begins.
pub open spec fn range_data(video: Seq<u8>, start: u64, end: u64) -> (Seq<u8>, Seq<char>) {
    if start >= video.len() {
        (Seq::empty(), Seq::empty())
    } else {
        let last = if end < video.len() - 1 {
            end as int
        } else {
            video.len() - 1
        };
        (
            if last < start {
                Seq::empty()
            } else {
                video.subrange(start as int, last + 1)
            },
            content_range_text(start, last as u64, video.len() as u64),
        )
    }
}

/// Picks the bytes of a video that a range names.
pub fn get_data_for_range(mkv_data: &[u8], start: u64, end: u64) -> (r: RangeData)
    ensures
        (r.data@, r.content_range@) == range_data(mkv_data@, start, end),
        r.total_size == mkv_data@.len(),
{
    let total_size: u64 = mkv_data.len() as u64;
    match clamp_range(start, end, total_size) {
        None => RangeData { data: Vec::new(), content_range: String::new(), total_size },
        Some((first, last)) => {
            let mut data: Vec<u8> = Vec::new();
            if last >= first {
                data.extend_from_slice(
                    slice_subrange(mkv_data, first as usize, last as usize + 1),
                );
            }
            RangeData { data, content_range: content_range_value(first, last, total_size), total_size }
        },
    }
}

/// The media type of the video.
pub open spec fn video_type() -> Seq<char> {
    "video/x-matroska"@
}

/// What is said while the stream is not ready.
pub open spec fn processing_text() -> &'static str {
    "{\"status\":\"processing\",\"message\":\"Stream not ready yet\"}"
}

/// What is said where the session holds no posted file to stream.
pub open spec fn missing_text() -> &'static str {
    "No RAR files found for streaming"
}

/// What is said in place of the whole video.
pub open spec fn whole_text() -> &'static str {
    "MKV streaming not fully implemented yet"
}

/// The answer while the stream is not ready.
pub open spec fn processing_reply() -> ReplyView {
    ReplyView {
        status: 202,
        headers: seq![line("Content-Type"@, "application/json"@)],
        body: processing_text().spec_bytes(),
    }
}

/// The answer where the session holds no posted file to stream.
pub open spec fn missing_reply() -> ReplyView {
    ReplyView { status: 404, headers: Seq::empty(), body: missing_text().spec_bytes() }
}

/// The answer to a request without a range.
pub open spec fn whole_reply() -> ReplyView {
    ReplyView {
        status: 200,
        headers: seq![line("Content-Type"@, video_type()), line("Accept-Ranges"@, "bytes"@)],
        body: whole_text().spec_bytes(),
    }
}

/// The answer to a request with a range: the bytes with the words that
/// say which they are, or the status 416 where there are none.
pub open spec fn partial_reply(data: Seq<u8>, content_range: Seq<char>, total: u64) -> ReplyView {
    if data.len() == 0 {
        ReplyView {
            status: 416,
            headers: seq![line("Content-Range"@, "bytes */"@ + decimal_digits(total as nat))],
            body: Seq::empty(),
        }
    } else {
        ReplyView {
            status: 206,
            headers: seq![
                line("Content-Type"@, video_type()),
                line("Content-Range"@, content_range),
                line("Content-Length"@, decimal_digits(data.len())),
                line("Accept-Ranges"@, "bytes"@),
            ],
            body: data,
        }
    }
}

fn header(name: &str, value: String) -> (h: (String, String))
    ensures
        h.0@ == name@,
        h.1@ == value@,
{
    (name.to_owned(), value)
}

/// Builds the answer to a request with a range.
pub fn handle_range_request(found: RangeData) -> (r: Reply)
    ensures
        r@ == partial_reply(found.data@, found.content_range@, found.total_size),
{
    let mut headers: Vec<(String, String)> = Vec::new();
    if found.data.len() == 0 {
        let mut unsatisfied = "bytes */".to_owned();
        unsatisfied.append(decimal_string(found.total_size).as_str());
        headers.push(header("Content-Range", unsatisfied));
        assert(lines_view(headers@) =~= seq![
            line("Content-Range"@, "bytes */"@ + decimal_digits(found.total_size as nat)),
        ]);
        return Reply { status: 416, headers, body: Vec::new() };
    }
    let length: u64 = found.data.len() as u64;
    headers.push(header("Content-Type", "video/x-matroska".to_owned()));
    headers.push(header("Content-Range", found.content_range));
    headers.push(header("Content-Length", decimal_string(length)));
    headers.push(header("Accept-Ranges", "bytes".to_owned()));
    assert(lines_view(headers@) =~= seq![
        line("Content-Type"@, video_type()),
        line("Content-Range"@, found.content_range@),
        line("Content-Length"@, decimal_digits(found.data@.len())),
        line("Accept-Ranges"@, "bytes"@),
    ]);
    Reply { status: 206, headers, body: found.data }
}

/// Builds the answer to a request without a range.
pub fn handle_full_request() -> (r: Reply)
    ensures
        r@ == whole_reply(),
{
    let mut headers: Vec<(String, String)> = Vec::new();
    headers.push(header("Content-Type", "video/x-matroska".to_owned()));
    headers.push(header("Accept-Ranges", "bytes".to_owned()));
    assert(lines_view(headers@) =~= seq![
        line("Content-Type"@, video_type()),
        line("Accept-Ranges"@, "bytes"@),
    ]);
    Reply {
        status: 200,
        headers,
        body: "MKV streaming not fully implemented yet".as_bytes_vec(),
    }
}

/// The answer to a request with the `Range` header `range_header` for
/// the archive `target`: the header is read, the posted file that
/// stands for the archive is found, and the bytes that the range names
/// are taken from its video.
pub open spec fn ranged_reply(
    pairs: Seq<(String, String)>,
    rar_files: Seq<PostedFile>,
    stored: Seq<(String, Vec<u8>)>,
    target: Seq<char>,
    range_header: Seq<char>,
) -> Result<ReplyView, StreamFailureView> {
    match simple_range_of(range_header) {
        Err(e) => Err(StreamFailureView::Range(e)),
        Ok((start, end)) => match pair_of_real(pairs, target, 0) {
            None => Err(StreamFailureView::StreamNotFound(target)),
            Some(p) => match video_for(rar_files, stored, pairs[p].0@) {
                Err(e) => Err(StreamFailureView::Rar(e)),
                Ok(video) => Ok(
                    partial_reply(
                        range_data(video, start, end).0,
                        range_data(video, start, end).1,
                        video.len() as u64,
                    ),
                ),
            },
        },
    }
}

/// The answer to a request for the video of a session.
///
/// While the stream is not ready the answer says so. The archive that
/// is streamed is picked; without one the answer is 404. A request with
/// a range is answered with the bytes of the range, any other with a
/// whole answer.
pub open spec fn stream_reply(
    ready: bool,
    real_names: Seq<String>,
    pairs: Seq<(String, String)>,
    rar_files: Seq<PostedFile>,
    stored: Seq<(String, Vec<u8>)>,
    range_header: Option<Seq<char>>,
) -> Result<ReplyView, StreamFailureView> {
    if !ready {
        Ok(processing_reply())
    } else {
        match target_of(real_names, rar_files) {
            None => Ok(missing_reply()),
            Some(target) => match range_header {
                Some(header) => ranged_reply(pairs, rar_files, stored, target, header),
                None => Ok(whole_reply()),
            },
        }
    }
}

/// Answers a request for the video of a session: `ready` tells whether
/// the stream can start, `real_names` are the real names that the
/// recovery set gave, `pairs` the posted subjects with their real
/// names, `rar_files` the posted files, and `stored` the articles that
/// are there, by their message ids.
pub fn handle_stream_request(
    ready: bool,
    real_names: &[String],
    pairs: &[(String, String)],
    rar_files: &[PostedFile],
    stored: &[(String, Vec<u8>)],
    range_header: Option<&str>,
) -> (r: Result<Reply, StreamFailure>)
    ensures
        match stream_reply(
            ready,
            real_names@,
            pairs@,
            rar_files@,
            stored@,
            match range_header {
                Some(h) => Some(h@),
                None => None,
            },
        ) {
            Ok(reply) => r matches Ok(a) && a@ == reply,
            Err(failure) => r matches Err(e) && e@ == failure,
        },
{
    if !ready {
        let mut headers: Vec<(String, String)> = Vec::new();
        headers.push(header("Content-Type", "application/json".to_owned()));
        assert(lines_view(headers@) =~= seq![line("Content-Type"@, "application/json"@)]);
        return Ok(
            Reply {
                status: 202,
                headers,
                body: "{\"status\":\"processing\",\"message\":\"Stream not ready yet\"}".as_bytes_vec(),
            },
        );
    }
    let target: String = match target_filename(real_names, rar_files) {
        Some(t) => t,
        None => {
            let headers: Vec<(String, String)> = Vec::new();
            assert(lines_view(headers@) =~= Seq::<(Seq<char>, Seq<char>)>::empty());
            return Ok(
                Reply {
                    status: 404,
                    headers,
                    body: "No RAR files found for streaming".as_bytes_vec(),
                },
            );
        },
    };
    let header_text: &str = match range_header {
        Some(h) => h,
        None => {
            return Ok(handle_full_request());
        },
    };
    let range = match parse_range_header(header_text) {
        Ok(range) => range,
        Err(e) => {
            return Err(StreamFailure::Range(e));
        },
    };
    let pair: usize = match obfuscated_name_of(pairs, target.as_str()) {
        Some(p) => p,
        None => {
            return Err(StreamFailure::StreamNotFound(target));
        },
    };
    let video = match extract_mkv_from_rar_segments(rar_files, stored, pairs[pair].0.as_str()) {
        Ok(video) => video,
        Err(e) => {
            return Err(StreamFailure::Rar(e));
        },
    };
    Ok(handle_range_request(get_data_for_range(video.as_slice(), range.start, range.end)))
}

} // verus!
