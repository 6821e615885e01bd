//! What a request for the stream is answered with, given how much of the
//! stream is there.
use crate::http::range::byte_range_of;
use crate::http::range::lemma_range_text_is_read;
use crate::http::range::range_text;
use crate::http::range::parse_byte_range;
use crate::http::range::ByteRange;
use vstd::prelude::*;

verus! {

/// Seconds after which a client should ask again for data that is not
/// there yet.
pub const RETRY_AFTER_SECS: u64 = 2;

/// The answer to a request for the stream.
#[derive(Debug, Clone, Copy, PartialEq, Eq, Structural)]
pub enum StreamResponse {
    /// 503: the first byte asked for is not there yet.
    Unavailable { retry_after: u64 },
    /// 200: everything that is there, `length` bytes from the start.
    Full { length: u64 },
    /// 206: the bytes from `start` to `end`, both included, of a stream
    /// of `total` bytes.
    Partial { start: u64, end: u64, total: u64 },
    /// 400: the `Range` header cannot be read.
    BadRequest,
    /// 416: the range ends before it starts, or is empty.
    NotSatisfiable,
}

/// The answer to a request for the bytes `range` when the first
/// `available` bytes of a stream of `total` bytes are there.
///
/// A range that starts in what is there is served up to its end or up to
/// the first byte that is missing, whichever comes first. A suffix range
/// counts from the end of what is there.
pub open spec fn range_response(range: ByteRange, available: u64, total: u64) -> StreamResponse {
    match range {
        ByteRange::FromTo(a, b) => if a > b {
            StreamResponse::NotSatisfiable
        } else if a >= available {
            StreamResponse::Unavailable { retry_after: RETRY_AFTER_SECS }
        } else {
            StreamResponse::Partial {
                start: a,
                end: if b < available {
                    b
                } else {
                    (available - 1) as u64
                },
                total,
            }
        },
        ByteRange::From(a) => if a >= available {
            StreamResponse::Unavailable { retry_after: RETRY_AFTER_SECS }
        } else {
            StreamResponse::Partial { start: a, end: (available - 1) as u64, total }
        },
        ByteRange::Suffix(n) => if n == 0 {
            StreamResponse::NotSatisfiable
        } else if available == 0 {
            StreamResponse::Unavailable { retry_after: RETRY_AFTER_SECS }
        } else {
            StreamResponse::Partial {
                start: if n <= available {
                    (available - n) as u64
                } else {
                    0
                },
                end: (available - 1) as u64,
                total,
            }
        },
    }
}

/// The answer to a request with the `Range` header `header` (or none)
/// when the first `available` bytes of a stream of `total` bytes are there.
///
/// While nothing is there every request is told to come back. Without a
/// header all that is there is served.
pub open spec fn stream_response(header: Option<Seq<char>>, available: u64, total: u64) -> StreamResponse {
    if available == 0 {
        StreamResponse::Unavailable { retry_after: RETRY_AFTER_SECS }
    } else {
        match header {
            None => StreamResponse::Full { length: available },
            Some(h) => match byte_range_of(h) {
                Err(_) => StreamResponse::BadRequest,
                Ok(range) => range_response(range, available, total),
            },
        }
    }
}

/// Answers a request for a given range.
pub fn plan_range(range: ByteRange, available: u64, total: u64) -> (r: StreamResponse)
    ensures
        r == range_response(range, available, total),
{
    match range {
        ByteRange::FromTo(a, b) => {
            if a > b {
                StreamResponse::NotSatisfiable
            } else if a >= available {
                StreamResponse::Unavailable { retry_after: RETRY_AFTER_SECS }
            } else {
                StreamResponse::Partial {
                    start: a,
                    end: if b < available {
                        b
                    } else {
                        available - 1
                    },
                    total,
                }
            }
        },
        ByteRange::From(a) => {
            if a >= available {
                StreamResponse::Unavailable { retry_after: RETRY_AFTER_SECS }
            } else {
                StreamResponse::Partial { start: a, end: available - 1, total }
            }
        },
        ByteRange::Suffix(n) => {
            if n == 0 {
                StreamResponse::NotSatisfiable
            } else if available == 0 {
                StreamResponse::Unavailable { retry_after: RETRY_AFTER_SECS }
            } else {
                StreamResponse::Partial {
                    start: if n <= available {
                        available - n
                    } else {
                        0
                    },
                    end: available - 1,
                    total,
                }
            }
        },
    }
}

/// Answers a request for the stream. `header` is the value of its `Range`
/// header, if it has one; `available` is the number of bytes that are
/// there from the start of the stream; `total` is the length of the stream.
pub fn plan_stream(header: Option<&str>, available: u64, total: u64) -> (r: StreamResponse)
    ensures
        r == stream_response(
            match header {
                Some(h) => Some(h@),
                None => None,
            },
            available,
            total,
        ),
{
    if available == 0 {
        return StreamResponse::Unavailable { retry_after: RETRY_AFTER_SECS };
    }
    match header {
        None => StreamResponse::Full { length: available },
        Some(h) => match parse_byte_range(h) {
            Err(_) => StreamResponse::BadRequest,
            Ok(range) => plan_range(range, available, total),
        },
    }
}

/// Answers a request for the stream in chunked transfer: all that is
/// there, or the advice to come back while nothing is.
pub fn plan_chunked(available: u64) -> (r: StreamResponse)
    ensures
        r == if available == 0 {
            StreamResponse::Unavailable { retry_after: RETRY_AFTER_SECS }
        } else {
            StreamResponse::Full { length: available }
        },
{
    if available == 0 {
        StreamResponse::Unavailable { retry_after: RETRY_AFTER_SECS }
    } else {
        StreamResponse::Full { length: available }
    }
}

/// The first byte and the number of bytes that a `Range` header asks of
/// the `available_bytes` that are there; nothing where the request has no
/// such header, or one that cannot be served.
pub fn parse_range_header(header: Option<&str>, available_bytes: u64) -> (r: Option<(u64, u64)>)
    ensures
        r == match stream_response(
            match header {
                Some(h) => Some(h@),
                None => None,
            },
            available_bytes,
            available_bytes,
        ) {
            StreamResponse::Partial { start, end, total } => Some(
                (start, (end - start + 1) as u64),
            ),
            _ => None,
        },
{
    match plan_stream(header, available_bytes, available_bytes) {
        StreamResponse::Partial { start, end, total } => Some((start, end - start + 1)),
        _ => None,
    }
}

impl StreamResponse {
    /// The HTTP status of the answer.
    pub fn status(&self) -> (code: u16)
        ensures
            code == match self {
                StreamResponse::Unavailable { .. } => 503u16,
                StreamResponse::Full { .. } => 200u16,
                StreamResponse::Partial { .. } => 206u16,
                StreamResponse::BadRequest => 400u16,
                StreamResponse::NotSatisfiable => 416u16,
            },
    {
        match self {
            StreamResponse::Unavailable { .. } => 503,
            StreamResponse::Full { .. } => 200,
            StreamResponse::Partial { .. } => 206,
            StreamResponse::BadRequest => 400,
            StreamResponse::NotSatisfiable => 416,
        }
    }

    /// The answer is sound for a stream of which `available` bytes are
    /// there: what it serves lies within them and is not empty.
    pub open spec fn within(&self, available: u64) -> bool {
        match *self {
            StreamResponse::Full { length } => 0 < length <= available,
            StreamResponse::Partial { start, end, total } => start <= end < available,
            _ => true,
        }
    }

    /// The first byte and the number of bytes of the body, where the
    /// answer has one taken from the stream.
    pub fn body(&self) -> (r: Option<(u64, u64)>)
        requires
            *self matches StreamResponse::Partial { start, end, total } ==> start <= end,
        ensures
            r == match *self {
                StreamResponse::Full { length } => Some((0u64, length)),
                StreamResponse::Partial { start, end, total } => if end - start < u64::MAX {
                    Some((start, (end - start + 1) as u64))
                } else {
                    None
                },
                _ => None,
            },
    {
        match self {
            StreamResponse::Full { length } => Some((0, *length)),
            StreamResponse::Partial { start, end, total } => {
                if *end - *start < u64::MAX {
                    Some((*start, *end - *start + 1))
                } else {
                    None
                }
            },
            _ => None,
        }
    }
}

/// Every answer serves only bytes that are there.
pub proof fn lemma_response_within(header: Option<Seq<char>>, available: u64, total: u64)
    ensures
        stream_response(header, available, total).within(available),
{
}

/// While nothing is there, every request is told to come back, whatever
/// it asks for.
pub proof fn lemma_empty_stream_unavailable(header: Option<Seq<char>>, total: u64)
    ensures
        stream_response(header, 0, total) == (StreamResponse::Unavailable {
            retry_after: RETRY_AFTER_SECS,
        }),
{
}

/// An open range that starts at or behind the end of what is there is
/// told to come back.
pub proof fn lemma_start_past_available(header: Seq<char>, n: u64, available: u64, total: u64)
    requires
        byte_range_of(header) == Ok::<ByteRange, crate::http::range::RangeError>(
            ByteRange::From(n),
        ),
        n >= available,
    ensures
        stream_response(Some(header), available, total) == (StreamResponse::Unavailable {
            retry_after: RETRY_AFTER_SECS,
        }),
{
}

/// A suffix range that asks for more than is there is served all that is
/// there.
pub proof fn lemma_long_suffix_serves_all(header: Seq<char>, k: u64, available: u64, total: u64)
    requires
        byte_range_of(header) == Ok::<ByteRange, crate::http::range::RangeError>(
            ByteRange::Suffix(k),
        ),
        k > available > 0,
    ensures
        stream_response(Some(header), available, total) == (StreamResponse::Partial {
            start: 0,
            end: (available - 1) as u64,
            total,
        }),
{
}

/// `Range: bytes=N-` with `N` at or behind the end of what is there is
/// told to come back, for every `N`.
pub proof fn lemma_open_range_past_available(n: u64, available: u64, total: u64)
    requires
        n >= available,
    ensures
        stream_response(Some(range_text(Some(n), None)), available, total) == (
        StreamResponse::Unavailable { retry_after: RETRY_AFTER_SECS }),
{
    lemma_range_text_is_read(Some(n), None);
}

/// `Range: bytes=-k` with `k` more than is there serves all that is
/// there, for every `k`.
pub proof fn lemma_suffix_range_serves_available(k: u64, available: u64, total: u64)
    requires
        k > available > 0,
    ensures
        stream_response(Some(range_text(None, Some(k))), available, total) == (
        StreamResponse::Partial { start: 0, end: (available - 1) as u64, total }),
{
    lemma_range_text_is_read(None, Some(k));
}

/// `Range: bytes=a-b` within what is there is served as asked.
pub proof fn lemma_closed_range_served(a: u64, b: u64, available: u64, total: u64)
    requires
        a <= b < available,
    ensures
        stream_response(Some(range_text(Some(a), Some(b))), available, total) == (
        StreamResponse::Partial { start: a, end: b, total }),
{
    lemma_range_text_is_read(Some(a), Some(b));
}

} // verus!
