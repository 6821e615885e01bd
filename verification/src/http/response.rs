//! Header lines and bodies of the answers.
use crate::http::range::RangeRequest;
use crate::http::stream::StreamResponse;
use crate::text::chars_of;
use crate::text::decimal_digits;
use crate::text::decimal_string;
use vstd::prelude::*;
use vstd::string::StringExecFns;

verus! {

/// The media type of the stream.
pub open spec fn stream_content_type() -> Seq<char> {
    "video/x-matroska"@
}

/// `bytes start-end/total`
pub open spec fn content_range_text(start: u64, end: u64, total: u64) -> Seq<char> {
    "bytes "@ + decimal_digits(start as nat) + "-"@ + decimal_digits(end as nat) + "/"@
        + decimal_digits(total as nat)
}

/// The value of a `Content-Range` header.
pub fn content_range_value(start: u64, end: u64, total: u64) -> (s: String)
    ensures
        s@ == content_range_text(start, end, total),
{
    let mut s = "bytes ".to_owned();
    s.append(decimal_string(start).as_str());
    s.append("-");
    s.append(decimal_string(end).as_str());
    s.append("/");
    s.append(decimal_string(total).as_str());
    s
}

/// A header line: its name and its value.
pub open spec fn line(name: Seq<char>, value: Seq<char>) -> (Seq<char>, Seq<char>) {
    (name, value)
}

fn header(name: &str, value: String) -> (h: (String, String))
    ensures
        h.0@ == name@,
        h.1@ == value@,
{
    (name.to_owned(), value)
}

/// The header lines of a partial answer for the bytes of `request`.
pub open spec fn range_headers(
    request: RangeRequest,
    content_length: u64,
    total_length: u64,
    content_type: Seq<char>,
) -> Seq<(Seq<char>, Seq<char>)> {
    seq![
        line(
            "Content-Range"@,
            content_range_text(
                request.start,
                request.last_byte(total_length) as u64,
                total_length,
            ),
        ),
        line("Content-Length"@, decimal_digits(content_length as nat)),
        line("Content-Type"@, content_type),
        line("Accept-Ranges"@, "bytes"@),
    ]
}

/// The views of header lines.
pub open spec fn lines_view(headers: Seq<(String, String)>) -> Seq<(Seq<char>, Seq<char>)> {
    Seq::new(headers.len(), |i: int| (headers[i].0@, headers[i].1@))
}

/// Whether a header line may hold the character in its value: any but
/// the control characters of ASCII, of which the tab alone is admitted.
pub open spec fn value_char(c: char) -> bool {
    (c as u32 >= 32 && c as u32 != 127) || c as u32 == 9
}

/// Whether a header line may hold `value`.
pub open spec fn header_value_ok(value: Seq<char>) -> bool {
    forall|i: int| 0 <= i < value.len() ==> value_char(#[trigger] value[i])
}

/// Tells whether a header line may hold `value`.
pub fn is_header_value(value: &str) -> (r: bool)
    ensures
        r == header_value_ok(value@),
{
    let chars = chars_of(value);
    let mut i: usize = 0;
    while i < chars.len()
        invariant
            i <= chars@.len(),
            chars@ == value@,
            forall|k: int| 0 <= k < i ==> value_char(#[trigger] chars@[k]),
        decreases chars@.len() - i,
    {
        let u: u32 = chars[i] as u32;
        if !((u >= 32 && u != 127) || u == 9) {
            assert(!value_char(chars@[i as int]));
            return false;
        }
        i += 1;
    }
    true
}

/// The status of an answer that could not be built.
pub const INTERNAL_SERVER_ERROR: u16 = 500;

/// Builds the header lines of a partial answer: `Content-Range`,
/// `Content-Length`, `Content-Type` and `Accept-Ranges`. Where a header
/// line cannot hold the media type, the status 500 is given.
pub fn create_range_response_headers(
    range_request: &RangeRequest,
    content_length: u64,
    total_length: u64,
    content_type: &str,
) -> (r: Result<Vec<(String, String)>, u16>)
    requires
        total_length > 0,
    ensures
        match r {
            Ok(headers) => header_value_ok(content_type@) && lines_view(headers@) == range_headers(
                *range_request,
                content_length,
                total_length,
                content_type@,
            ),
            Err(status) => !header_value_ok(content_type@) && status == INTERNAL_SERVER_ERROR,
        },
{
    if !is_header_value(content_type) {
        return Err(INTERNAL_SERVER_ERROR);
    }
    let end: u64 = match range_request.end {
        Some(e) => if e < total_length - 1 {
            e
        } else {
            total_length - 1
        },
        None => total_length - 1,
    };
    let mut headers: Vec<(String, String)> = Vec::new();
    headers.push(
        header("Content-Range", content_range_value(range_request.start, end, total_length)),
    );
    headers.push(header("Content-Length", decimal_string(content_length)));
    headers.push(header("Content-Type", content_type.to_owned()));
    headers.push(header("Accept-Ranges", "bytes".to_owned()));
    assert(lines_view(headers@) =~= range_headers(
        *range_request,
        content_length,
        total_length,
        content_type@,
    ));
    Ok(headers)
}

/// Status and header lines of the answer to a request for a file.
#[derive(Debug, Clone, PartialEq, Eq)]
pub struct FileResponse {
    pub status: u16,
    pub headers: Vec<(String, String)>,
}

/// The header lines of an answer that holds all `length` bytes of a file
/// of the media type `content_type`.
pub open spec fn whole_headers(content_type: Seq<char>, length: nat) -> Seq<
    (Seq<char>, Seq<char>),
> {
    seq![
        line("Content-Type"@, content_type),
        line("Content-Length"@, decimal_digits(length)),
        line("Accept-Ranges"@, "bytes"@),
    ]
}

/// The lines among `headers` that have a name, in their order.
pub open spec fn named_lines(headers: Seq<(Option<String>, String)>) -> Seq<(Seq<char>, Seq<char>)>
    decreases headers.len(),
{
    if headers.len() == 0 {
        Seq::empty()
    } else {
        match headers.last().0 {
            Some(name) => named_lines(headers.drop_last()).push((name@, headers.last().1@)),
            None => named_lines(headers.drop_last()),
        }
    }
}

/// The answer to a request for a file of the media type `content_type`:
/// with the header lines of a range, a partial answer that carries
/// those of them that have a name; without, a whole answer of `length`
/// bytes, or the status 500 and no header line where a header line
/// cannot hold the media type.
pub open spec fn file_response(
    content_type: Seq<char>,
    length: nat,
    range_headers: Option<Vec<(Option<String>, String)>>,
) -> (u16, Seq<(Seq<char>, Seq<char>)>) {
    match range_headers {
        Some(headers) => (206, named_lines(headers@)),
        None => if header_value_ok(content_type) {
            (200, whole_headers(content_type, length))
        } else {
            (INTERNAL_SERVER_ERROR, Seq::empty())
        },
    }
}

/// The media type that is guessed for a file name: what
/// `mime_guess::from_path(..).first_or_octet_stream()` gives for it, the
/// first type that the crate's table has for the extension of the name,
/// or `application/octet-stream`.
pub uninterp spec fn guessed_type(filename: Seq<char>) -> Seq<char>;

/// Guesses the media type of a file by the extension of its name. Wraps
/// `mime_guess::from_path` and `MimeGuess::first_or_octet_stream`, which
/// look at the name alone; what the table holds is not stated.
#[verifier::external_body]
fn guess_content_type(filename: &str) -> (content_type: String)
    ensures
        content_type@ == guessed_type(filename@),
{
    mime_guess::from_path(filename).first_or_octet_stream().to_string()
}

fn named_headers(headers: &Vec<(Option<String>, String)>) -> (lines: Vec<(String, String)>)
    ensures
        lines_view(lines@) == named_lines(headers@),
{
    let mut lines: Vec<(String, String)> = Vec::new();
    let mut i: usize = 0;
    assert(headers@.subrange(0, 0) =~= Seq::<(Option<String>, String)>::empty());
    assert(lines_view(lines@) =~= Seq::<(Seq<char>, Seq<char>)>::empty());
    while i < headers.len()
        invariant
            i <= headers@.len(),
            lines_view(lines@) == named_lines(headers@.subrange(0, i as int)),
        decreases headers@.len() - i,
    {
        let ghost next = headers@.subrange(0, i + 1);
        assert(next.drop_last() =~= headers@.subrange(0, i as int));
        assert(next.last() == headers@[i as int]);
        let ghost before = lines_view(lines@);
        match &headers[i].0 {
            Some(name) => {
                lines.push((name.clone(), headers[i].1.clone()));
                assert(lines_view(lines@) =~= before.push((name@, headers@[i as int].1@)));
            },
            None => {},
        }
        i += 1;
    }
    assert(headers@.subrange(0, i as int) =~= headers@);
    lines
}

/// Builds the answer to a request for a file whose media type is known.
pub fn streaming_response(
    content_type: &str,
    length: usize,
    range_headers: Option<Vec<(Option<String>, String)>>,
) -> (r: FileResponse)
    ensures
        (r.status, lines_view(r.headers@)) == file_response(
            content_type@,
            length as nat,
            range_headers,
        ),
{
    match range_headers {
        Some(headers) => FileResponse { status: 206, headers: named_headers(&headers) },
        None => {
            let mut headers: Vec<(String, String)> = Vec::new();
            if !is_header_value(content_type) {
                assert(lines_view(headers@) =~= Seq::<(Seq<char>, Seq<char>)>::empty());
                return FileResponse { status: INTERNAL_SERVER_ERROR, headers };
            }
            headers.push(header("Content-Type", content_type.to_owned()));
            headers.push(header("Content-Length", decimal_string(length as u64)));
            headers.push(header("Accept-Ranges", "bytes".to_owned()));
            assert(lines_view(headers@) =~= whole_headers(content_type@, length as nat));
            FileResponse { status: 200, headers }
        },
    }
}

/// Builds the answer to a request for the file `filename`, whose media
/// type is guessed by the extension of the name. The guess shows only
/// in the `Content-Type` line of a whole answer.
pub fn create_streaming_response(
    length: usize,
    range_headers: Option<Vec<(Option<String>, String)>>,
    filename: &str,
) -> (r: FileResponse)
    ensures
        (r.status, lines_view(r.headers@)) == file_response(
            guessed_type(filename@),
            length as nat,
            range_headers,
        ),
{
    let content_type = guess_content_type(filename);
    streaming_response(content_type.as_str(), length, range_headers)
}

/// The header lines of an answer to a request for the stream.
pub open spec fn stream_headers(response: StreamResponse) -> Seq<(Seq<char>, Seq<char>)> {
    match response {
        StreamResponse::Unavailable { retry_after } => seq![
            line("Retry-After"@, decimal_digits(retry_after as nat)),
        ],
        StreamResponse::Full { length } => seq![
            line("Content-Type"@, stream_content_type()),
            line("Accept-Ranges"@, "bytes"@),
            line("Content-Length"@, decimal_digits(length as nat)),
            line("Cache-Control"@, "no-cache"@),
        ],
        StreamResponse::Partial { start, end, total } => seq![
            line("Content-Type"@, stream_content_type()),
            line("Accept-Ranges"@, "bytes"@),
            line("Content-Range"@, content_range_text(start, end, total)),
            line("Content-Length"@, decimal_digits((end - start + 1) as nat)),
            line("Cache-Control"@, "public, max-age=3600"@),
        ],
        StreamResponse::BadRequest => Seq::empty(),
        StreamResponse::NotSatisfiable => Seq::empty(),
    }
}

/// Builds the header lines of an answer to a request for the stream.
pub fn stream_response_headers(response: &StreamResponse) -> (headers: Vec<(String, String)>)
    requires
        *response matches StreamResponse::Partial { start, end, total } ==> start <= end && end
            - start < u64::MAX,
    ensures
        lines_view(headers@) == stream_headers(*response),
{
    let mut headers: Vec<(String, String)> = Vec::new();
    match response {
        StreamResponse::Unavailable { retry_after } => {
            headers.push(header("Retry-After", decimal_string(*retry_after)));
        },
        StreamResponse::Full { length } => {
            headers.push(header("Content-Type", "video/x-matroska".to_owned()));
            headers.push(header("Accept-Ranges", "bytes".to_owned()));
            headers.push(header("Content-Length", decimal_string(*length)));
            headers.push(header("Cache-Control", "no-cache".to_owned()));
        },
        StreamResponse::Partial { start, end, total } => {
            headers.push(header("Content-Type", "video/x-matroska".to_owned()));
            headers.push(header("Accept-Ranges", "bytes".to_owned()));
            headers.push(header("Content-Range", content_range_value(*start, *end, *total)));
            headers.push(header("Content-Length", decimal_string(*end - *start + 1)));
            headers.push(header("Cache-Control", "public, max-age=3600".to_owned()));
        },
        StreamResponse::BadRequest => {},
        StreamResponse::NotSatisfiable => {},
    }
    assert(lines_view(headers@) =~= stream_headers(*response));
    headers
}

/// The header lines of an answer in chunked transfer.
pub open spec fn chunked_headers() -> Seq<(Seq<char>, Seq<char>)> {
    seq![
        line("Content-Type"@, stream_content_type()),
        line("Transfer-Encoding"@, "chunked"@),
        line("Cache-Control"@, "no-cache"@),
    ]
}

/// Builds the header lines of an answer in chunked transfer.
pub fn chunked_response_headers() -> (headers: Vec<(String, String)>)
    ensures
        lines_view(headers@) == chunked_headers(),
{
    let mut headers: Vec<(String, String)> = Vec::new();
    headers.push(header("Content-Type", "video/x-matroska".to_owned()));
    headers.push(header("Transfer-Encoding", "chunked".to_owned()));
    headers.push(header("Cache-Control", "no-cache".to_owned()));
    assert(lines_view(headers@) =~= chunked_headers());
    headers
}

/// The body of an error answer: `{"error": "message"}`.
pub open spec fn error_body(message: Seq<char>) -> Seq<char> {
    "{\"error\": \""@ + message + "\"}"@
}

/// Builds the body of an error answer.
pub fn create_error_body(message: &str) -> (body: String)
    ensures
        body@ == error_body(message@),
{
    let mut body = "{\"error\": \"".to_owned();
    body.append(message);
    body.append("\"}");
    body
}

/// Status, header lines and body of an answer that reports an error.
#[derive(Debug, Clone, PartialEq, Eq)]
pub struct ErrorResponse {
    pub status: u16,
    pub headers: Vec<(String, String)>,
    pub body: String,
}

/// Builds the answer that reports an error: the given status, a body in
/// JSON that holds the message, and the media type of the body.
pub fn create_error_response(status: u16, message: &str) -> (r: ErrorResponse)
    ensures
        r.status == status,
        lines_view(r.headers@) == seq![line("Content-Type"@, "application/json"@)],
        r.body@ == error_body(message@),
{
    let mut headers: Vec<(String, String)> = Vec::new();
    headers.push(header("Content-Type", "application/json".to_owned()));
    assert(lines_view(headers@) =~= seq![line("Content-Type"@, "application/json"@)]);
    ErrorResponse { status, headers, body: create_error_body(message) }
}

/// Content for trying the server out: `size` bytes that count up from
/// zero and start again after 255.
pub fn create_test_file_response(size: usize) -> (data: Vec<u8>)
    ensures
        data@.len() == size,
        forall|i: int| 0 <= i < size ==> data@[i] == (i % 256) as u8,
{
    let mut data: Vec<u8> = Vec::new();
    let mut i: usize = 0;
    while i < size
        invariant
            i <= size,
            data@.len() == i,
            forall|k: int| 0 <= k < i ==> data@[k] == (k % 256) as u8,
        decreases size - i,
    {
        data.push((i % 256) as u8);
        i += 1;
    }
    data
}

} // verus!
