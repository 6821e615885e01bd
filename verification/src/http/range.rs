//! The `Range` header of a request: how it is read and what part of the
//! content it asks for.
use crate::text::chars_of;
use crate::text::decimal_digits;
use crate::text::find_char;
use crate::text::first_index;
use crate::text::has_prefix;
use crate::text::parse_decimal;
use crate::text::starts_with_str;
use crate::text::trim;
use crate::text::trim_range;
use crate::text::unsigned_of;
use std::ops::Range;
use vstd::prelude::*;
use vstd::slice::slice_subrange;

verus! {

/// Why a `Range` header is refused.
#[derive(Debug, Clone, Copy, PartialEq, Eq, Structural)]
pub enum RangeError {
    /// The header is not of the form `bytes=a-b`, `bytes=a-` or `bytes=-n`.
    BadRequest,
    /// The header is well formed but asks for nothing that can be served.
    NotSatisfiable,
}

impl RangeError {
    /// The HTTP status that reports this error.
    pub fn status_code(&self) -> (code: u16)
        ensures
            code == match self {
                RangeError::BadRequest => 400u16,
                RangeError::NotSatisfiable => 416u16,
            },
    {
        match self {
            RangeError::BadRequest => 400,
            RangeError::NotSatisfiable => 416,
        }
    }
}

/// What a `Range` header asks for, as written.
#[derive(Debug, Clone, Copy, PartialEq, Eq, Structural)]
pub enum ByteRange {
    /// `bytes=a-b`: the bytes from `a` to `b`, both included.
    FromTo(u64, u64),
    /// `bytes=a-`: the bytes from `a` on.
    From(u64),
    /// `bytes=-n`: the last `n` bytes.
    Suffix(u64),
}

/// The first range of a header value, as written.
///
/// The value must begin with `bytes=`. Of a list of ranges only the first
/// is read. White space around the range and around its numbers is
/// passed over. The numbers are unsigned decimals of at most 64 bits.
pub open spec fn byte_range_of(header: Seq<char>) -> Result<ByteRange, RangeError> {
    if !has_prefix(header, "bytes="@) {
        Err(RangeError::BadRequest)
    } else {
        let ranges = header.subrange(6, header.len() as int);
        let first = trim(
            match first_index(ranges, ',') {
                Some(i) => ranges.subrange(0, i),
                None => ranges,
            },
        );
        match first_index(first, '-') {
            None => Err(RangeError::BadRequest),
            Some(dash) => {
                let start_text = trim(first.subrange(0, dash));
                let end_text = trim(first.subrange(dash + 1, first.len() as int));
                if start_text.len() == 0 {
                    match unsigned_of(end_text, u64::MAX as nat) {
                        Some(n) => Ok(ByteRange::Suffix(n as u64)),
                        None => Err(RangeError::BadRequest),
                    }
                } else {
                    match unsigned_of(start_text, u64::MAX as nat) {
                        None => Err(RangeError::BadRequest),
                        Some(a) => if end_text.len() == 0 {
                            Ok(ByteRange::From(a as u64))
                        } else {
                            match unsigned_of(end_text, u64::MAX as nat) {
                                Some(b) => Ok(ByteRange::FromTo(a as u64, b as u64)),
                                None => Err(RangeError::BadRequest),
                            }
                        },
                    }
                }
            },
        }
    }
}

/// Reads the first range of a `Range` header value.
pub fn parse_byte_range(header: &str) -> (r: Result<ByteRange, RangeError>)
    ensures
        r == byte_range_of(header@),
{
    let s = chars_of(header);
    proof {
        reveal_strlit("bytes=");
    }
    if !starts_with_str(s.as_slice(), "bytes=") {
        return Err(RangeError::BadRequest);
    }
    let ranges = slice_subrange(s.as_slice(), 6, s.len());
    let cut: usize = match find_char(ranges, ',') {
        Some(i) => {
            proof {
                crate::text::lemma_first_index_from(ranges@, ',', 0);
            }
            i
        },
        None => {
            assert(ranges@.subrange(0, ranges@.len() as int) =~= ranges@);
            ranges.len()
        },
    };
    let (f0, f1) = trim_range(ranges, 0, cut);
    let first = slice_subrange(ranges, f0, f1);
    let dash: usize = match find_char(first, '-') {
        Some(d) => {
            proof {
                crate::text::lemma_first_index_from(first@, '-', 0);
            }
            d
        },
        None => {
            return Err(RangeError::BadRequest);
        },
    };
    let (a0, a1) = trim_range(first, 0, dash);
    let (b0, b1) = trim_range(first, dash + 1, first.len());
    let start_text = slice_subrange(first, a0, a1);
    let end_text = slice_subrange(first, b0, b1);
    if start_text.len() == 0 {
        match parse_decimal(end_text, u64::MAX) {
            Some(n) => Ok(ByteRange::Suffix(n)),
            None => Err(RangeError::BadRequest),
        }
    } else {
        match parse_decimal(start_text, u64::MAX) {
            None => Err(RangeError::BadRequest),
            Some(a) => {
                if end_text.len() == 0 {
                    Ok(ByteRange::From(a))
                } else {
                    match parse_decimal(end_text, u64::MAX) {
                        Some(b) => Ok(ByteRange::FromTo(a, b)),
                        None => Err(RangeError::BadRequest),
                    }
                }
            },
        }
    }
}

/// A range that was checked against the length of the content: it starts
/// at `start` and ends at `end`, included, or at the last byte.
#[derive(Debug, Clone, Copy, PartialEq, Eq, Structural)]
pub struct RangeRequest {
    pub start: u64,
    pub end: Option<u64>,
}

/// The request that `range` makes of content of `content_length` bytes.
///
/// A suffix range starts that many bytes before the end, or at the
/// beginning where the content is shorter. A range that starts at or
/// behind the end of the content, ends at or behind it, or ends before it
/// starts cannot be satisfied.
pub open spec fn request_of(range: ByteRange, content_length: u64) -> Result<RangeRequest, RangeError> {
    let request = match range {
        ByteRange::Suffix(n) => RangeRequest {
            start: if n <= content_length {
                (content_length - n) as u64
            } else {
                0
            },
            end: None,
        },
        ByteRange::From(a) => RangeRequest { start: a, end: None },
        ByteRange::FromTo(a, b) => RangeRequest { start: a, end: Some(b) },
    };
    if request.start >= content_length {
        Err(RangeError::NotSatisfiable)
    } else if request.end matches Some(e) && (e >= content_length || request.start > e) {
        Err(RangeError::NotSatisfiable)
    } else {
        Ok(request)
    }
}

/// What a request with the `Range` header `header` asks of content of
/// `content_length` bytes: nothing in particular without the header.
pub open spec fn range_header_outcome(header: Option<Seq<char>>, content_length: u64) -> Result<
    Option<RangeRequest>,
    RangeError,
> {
    match header {
        None => Ok(None),
        Some(h) => match byte_range_of(h) {
            Err(e) => Err(e),
            Ok(range) => match request_of(range, content_length) {
                Err(e) => Err(e),
                Ok(request) => Ok(Some(request)),
            },
        },
    }
}

/// Checks a range against the length of the content.
pub fn check_range(range: ByteRange, content_length: u64) -> (r: Result<RangeRequest, RangeError>)
    ensures
        r == request_of(range, content_length),
{
    let request = match range {
        ByteRange::Suffix(n) => RangeRequest {
            start: if n <= content_length {
                content_length - n
            } else {
                0
            },
            end: None,
        },
        ByteRange::From(a) => RangeRequest { start: a, end: None },
        ByteRange::FromTo(a, b) => RangeRequest { start: a, end: Some(b) },
    };
    if request.start >= content_length {
        return Err(RangeError::NotSatisfiable);
    }
    match request.end {
        Some(e) => {
            if e >= content_length || request.start > e {
                return Err(RangeError::NotSatisfiable);
            }
        },
        None => {},
    }
    Ok(request)
}

impl RangeRequest {
    /// The range is sound for content of `content_length` bytes: it starts
    /// inside the content and does not end before it starts.
    pub open spec fn fits(&self, content_length: u64) -> bool {
        self.start < content_length && (self.end matches Some(e) ==> self.start <= e)
    }

    /// The last byte served for content of `content_length` bytes: the end
    /// of the range, or the last byte of the content where the range is
    /// open or reaches past it.
    pub open spec fn last_byte(&self, content_length: u64) -> int {
        match self.end {
            Some(e) => if e < content_length - 1 {
                e as int
            } else {
                content_length - 1
            },
            None => content_length - 1,
        }
    }

    /// Reads the `Range` header of a request for content of
    /// `content_length` bytes. `header` is the value of the header, or
    /// nothing where the request has none.
    pub fn parse_range_header(header: Option<&str>, content_length: u64) -> (r: Result<
        Option<RangeRequest>,
        RangeError,
    >)
        ensures
            r == range_header_outcome(
                match header {
                    Some(h) => Some(h@),
                    None => None,
                },
                content_length,
            ),
            r matches Ok(Some(request)) ==> request.fits(content_length),
    {
        let h = match header {
            Some(h) => h,
            None => {
                return Ok(None);
            },
        };
        let range = match parse_byte_range(h) {
            Ok(range) => range,
            Err(e) => {
                return Err(e);
            },
        };
        match check_range(range, content_length) {
            Ok(request) => Ok(Some(request)),
            Err(e) => Err(e),
        }
    }

    /// The bytes to serve, as a half-open range.
    pub fn to_range(&self, content_length: u64) -> (r: Range<u64>)
        requires
            content_length > 0,
        ensures
            r.start == self.start,
            r.end == self.last_byte(content_length) + 1,
    {
        let end: u64 = match self.end {
            Some(e) => if e < content_length - 1 {
                e
            } else {
                content_length - 1
            },
            None => content_length - 1,
        };
        self.start..end + 1
    }

    /// How many bytes are served.
    pub fn content_length(&self, total_length: u64) -> (n: u64)
        requires
            self.fits(total_length),
        ensures
            n == self.last_byte(total_length) - self.start + 1,
    {
        let end: u64 = match self.end {
            Some(e) => if e < total_length - 1 {
                e
            } else {
                total_length - 1
            },
            None => total_length - 1,
        };
        end - self.start + 1
    }
}

/// The digits of a bound of a range, or nothing where the range has no
/// such bound.
pub open spec fn bound_text(bound: Option<u64>) -> Seq<char> {
    match bound {
        Some(n) => decimal_digits(n as nat),
        None => Seq::empty(),
    }
}

/// The header value `bytes=a-b`, `bytes=a-` or `bytes=-n`.
pub open spec fn range_text(start: Option<u64>, end: Option<u64>) -> Seq<char> {
    "bytes="@ + bound_text(start) + "-"@ + bound_text(end)
}

/// A bound written out is read back as it was, and is trimmed to itself.
proof fn lemma_bound_text(bound: Option<u64>)
    ensures
        crate::text::trim(bound_text(bound)) == bound_text(bound),
        bound matches Some(n) ==> unsigned_of(bound_text(bound), u64::MAX as nat) == Some(
            n as nat,
        ) && bound_text(bound).len() > 0,
        forall|k: int|
            0 <= k < bound_text(bound).len() ==> #[trigger] bound_text(bound)[k] != ','
                && bound_text(bound)[k] != '-' && !crate::text::is_space(bound_text(bound)[k]),
{
    match bound {
        Some(n) => {
            crate::text::lemma_digits_are_plain(n as nat);
            crate::text::lemma_unsigned_of_digits(n as nat, u64::MAX as nat);
            crate::text::lemma_decimal_digits_value(n as nat);
            let d = decimal_digits(n as nat);
            assert(!crate::text::is_space(d[0]));
            assert(!crate::text::is_space(d[d.len() - 1]));
            crate::text::lemma_trim_identity(d);
        },
        None => {
            crate::text::lemma_trim_identity(Seq::<char>::empty());
        },
    }
}

/// A header value written in one of the three forms is read as the range
/// it names: `bytes=a-b` as the bytes from `a` to `b`, `bytes=a-` as the
/// bytes from `a` on, `bytes=-n` as the last `n` bytes.
pub proof fn lemma_range_text_is_read(start: Option<u64>, end: Option<u64>)
    requires
        start is Some || end is Some,
    ensures
        byte_range_of(range_text(start, end)) == Ok::<ByteRange, RangeError>(
            match (start, end) {
                (Some(a), Some(b)) => ByteRange::FromTo(a, b),
                (Some(a), None) => ByteRange::From(a),
                (_, Some(n)) => ByteRange::Suffix(n),
                (None, None) => ByteRange::Suffix(0),
            },
        ),
{
    reveal_strlit("bytes=");
    reveal_strlit("-");
    let header = range_text(start, end);
    let a = bound_text(start);
    let b = bound_text(end);
    lemma_bound_text(start);
    lemma_bound_text(end);
    assert(header.subrange(0, 6) =~= "bytes="@);
    let ranges = header.subrange(6, header.len() as int);
    assert(ranges =~= a + "-"@ + b);
    assert(ranges[a.len() as int] == '-');
    assert(!crate::text::is_space('-'));
    assert forall|k: int| 0 <= k < ranges.len() implies ranges[k] != ',' by {
        if k < a.len() {
            assert(ranges[k] == a[k]);
        } else if k > a.len() {
            assert(ranges[k] == b[k - a.len() - 1]);
        }
    }
    crate::text::lemma_first_index_none(ranges, ',', 0);
    assert(!crate::text::is_space(ranges[0])) by {
        if a.len() > 0 {
            assert(ranges[0] == a[0]);
        }
    }
    assert(!crate::text::is_space(ranges.last())) by {
        if b.len() > 0 {
            assert(ranges.last() == b[b.len() - 1]);
        }
    }
    crate::text::lemma_trim_identity(ranges);
    let first = crate::text::trim(ranges);
    assert forall|k: int| 0 <= k < a.len() implies first[k] != '-' by {
        assert(first[k] == a[k]);
    }
    crate::text::lemma_first_index_at(first, '-', 0, a.len() as int);
    assert(first.subrange(0, a.len() as int) =~= a);
    assert(first.subrange(a.len() as int + 1, first.len() as int) =~= b);
}

} // verus!
