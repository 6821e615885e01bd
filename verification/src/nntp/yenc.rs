//! yEnc article bodies: finding the payload lines, decoding and encoding
//! them, and the fingerprint of a file's first 16 KiB.
use crate::text::chars_of;
use crate::text::find_char;
use crate::text::find_char_from;
use crate::text::first_index;
use crate::text::first_index_from;
use crate::text::skip_chars;
use crate::text::skip_while;
use md5::Digest;
use md5::Md5;
use vstd::prelude::*;
use vstd::slice::slice_subrange;
use vstd::string::StrSliceExecFns;

verus! {

/// Line feed.
pub const LF: u8 = 0x0A;

/// Carriage return.
pub const CR: u8 = 0x0D;

/// The escape character `=`.
pub const ESCAPE: u8 = 0x3D;

/// How many bytes of a file its fingerprint covers.
pub const SIXTEEN_KB: usize = 16384;

/// Characters of a line before an encoder breaks it.
pub const LINE_LENGTH: usize = 128;

/// The first run of characters of `s` that are not white space.
pub open spec fn first_word(s: Seq<char>) -> Option<Seq<char>> {
    let start = skip_while(s, 0, true);
    if start >= s.len() {
        None
    } else {
        Some(s.subrange(start, skip_while(s, start, false)))
    }
}

/// The file name in a subject line: what stands between the first pair of
/// double quotes, or else the first word.
pub open spec fn filename_of(subject: Seq<char>) -> Option<Seq<char>> {
    match first_index(subject, '"') {
        Some(start) => match first_index_from(subject, '"', start + 1) {
            Some(end) => Some(subject.subrange(start + 1, end)),
            None => first_word(subject),
        },
        None => first_word(subject),
    }
}

/// Reads the file name from a subject line such as
/// `[1/3] - "movie.r00" yEnc (1/50)`.
pub fn extract_filename(subject: &str) -> (r: Option<&str>)
    ensures
        r.is_some() == filename_of(subject@).is_some(),
        r matches Some(name) ==> filename_of(subject@) == Some(name@),
{
    let s = chars_of(subject);
    match find_char(s.as_slice(), '"') {
        Some(start) => {
            proof {
                crate::text::lemma_first_index_from(s@, '"', 0);
            }
            match find_char_from(s.as_slice(), '"', start + 1) {
                Some(end) => {
                    proof {
                        crate::text::lemma_first_index_from(s@, '"', start + 1);
                    }
                    return Some(subject.substring_char(start + 1, end));
                },
                None => {},
            }
        },
        None => {},
    }
    let start = skip_chars(s.as_slice(), 0, true);
    if start >= s.len() {
        None
    } else {
        let end = skip_chars(s.as_slice(), start, false);
        Some(subject.substring_char(start, end))
    }
}

/// `line` without a trailing `\r\n` or `\n`.
pub open spec fn trimmed(line: Seq<u8>) -> Seq<u8> {
    let n = line.len() as int;
    if n >= 2 && line[n - 2] == CR && line[n - 1] == LF {
        line.subrange(0, n - 2)
    } else if n >= 1 && line[n - 1] == LF {
        line.subrange(0, n - 1)
    } else {
        line
    }
}

/// Cuts a trailing `\r\n` or `\n` off a line.
pub fn trim_line_endings(line: &[u8]) -> (r: &[u8])
    ensures
        r@ == trimmed(line@),
{
    let n: usize = line.len();
    if n >= 2 && line[n - 2] == CR && line[n - 1] == LF {
        slice_subrange(line, 0, n - 2)
    } else if n >= 1 && line[n - 1] == LF {
        slice_subrange(line, 0, n - 1)
    } else {
        assert(line@.subrange(0, n as int) =~= line@);
        slice_subrange(line, 0, n)
    }
}

/// `=ybegin`
pub open spec fn ybegin_marker() -> Seq<u8> {
    seq![0x3Du8, 0x79u8, 0x62u8, 0x65u8, 0x67u8, 0x69u8, 0x6Eu8]
}

/// `=ypart`
pub open spec fn ypart_marker() -> Seq<u8> {
    seq![0x3Du8, 0x79u8, 0x70u8, 0x61u8, 0x72u8, 0x74u8]
}

/// `=yend`
pub open spec fn yend_marker() -> Seq<u8> {
    seq![0x3Du8, 0x79u8, 0x65u8, 0x6Eu8, 0x64u8]
}

/// Index of the first line feed at or after `from`, or the length of `a`.
pub open spec fn line_end(a: Seq<u8>, from: int) -> int
    decreases a.len() - from,
{
    if from < 0 || from >= a.len() {
        a.len() as int
    } else if a[from] == LF {
        from
    } else {
        line_end(a, from + 1)
    }
}

pub proof fn lemma_line_end(a: Seq<u8>, from: int)
    requires
        0 <= from <= a.len(),
    ensures
        from <= line_end(a, from) <= a.len(),
    decreases a.len() - from,
{
    if from < a.len() && a[from] != LF {
        lemma_line_end(a, from + 1);
    }
}

/// Whether the reader is inside the body once it has seen `line`.
pub open spec fn body_after(line: Seq<u8>, in_body: bool) -> bool {
    if crate::byteseq::matches_at(line, ybegin_marker(), 0) || crate::byteseq::matches_at(
        line,
        ypart_marker(),
        0,
    ) {
        true
    } else if crate::byteseq::matches_at(line, yend_marker(), 0) {
        false
    } else {
        in_body
    }
}

/// A line, as it is cut at its line feed, without the carriage return
/// that stands before the line feed.
pub open spec fn line_body(line: Seq<u8>) -> Seq<u8> {
    let n = line.len() as int;
    if n >= 1 && line[n - 1] == CR {
        line.subrange(0, n - 1)
    } else {
        line
    }
}

/// Cuts the carriage return off the end of a line that was cut at its
/// line feed.
pub fn strip_carriage_return(line: &[u8]) -> (r: &[u8])
    ensures
        r@ == line_body(line@),
{
    let n: usize = line.len();
    if n >= 1 && line[n - 1] == CR {
        slice_subrange(line, 0, n - 1)
    } else {
        assert(line@.subrange(0, n as int) =~= line@);
        slice_subrange(line, 0, n)
    }
}

/// What `line` adds to the payload: itself without its line ending when it
/// is a body line, nothing when it is a marker line or lies outside the
/// body.
pub open spec fn line_payload(line: Seq<u8>, in_body: bool) -> Seq<u8> {
    if crate::byteseq::matches_at(line, ybegin_marker(), 0) || crate::byteseq::matches_at(
        line,
        ypart_marker(),
        0,
    ) || crate::byteseq::matches_at(line, yend_marker(), 0) || !in_body {
        Seq::empty()
    } else {
        line_body(line)
    }
}

/// The payload of the lines of `a` that start at or after `from`. Lines
/// end at a line feed, which is not part of them, and neither is the
/// carriage return before it.
pub open spec fn payload_from(a: Seq<u8>, from: int, in_body: bool) -> Seq<u8>
    decreases a.len() - from,
{
    if from < 0 || from > a.len() {
        Seq::empty()
    } else {
        let end = line_end(a, from);
        let line = a.subrange(from, end);
        if from <= end < a.len() {
            line_payload(line, in_body) + payload_from(a, end + 1, body_after(line, in_body))
        } else {
            line_payload(line, in_body)
        }
    }
}

/// The encoded payload of a yEnc article: the lines between the
/// `=ybegin` / `=ypart` markers and the `=yend` marker, joined.
pub open spec fn yenc_payload(article: Seq<u8>) -> Seq<u8> {
    payload_from(article, 0, false)
}

fn marker(which: u8) -> (v: Vec<u8>)
    ensures
        which == 0 ==> v@ == ybegin_marker(),
        which == 1 ==> v@ == ypart_marker(),
        which >= 2 ==> v@ == yend_marker(),
{
    if which == 0 {
        let v: Vec<u8> = vec![0x3Du8, 0x79u8, 0x62u8, 0x65u8, 0x67u8, 0x69u8, 0x6Eu8];
        assert(v@ =~= ybegin_marker());
        v
    } else if which == 1 {
        let v: Vec<u8> = vec![0x3Du8, 0x79u8, 0x70u8, 0x61u8, 0x72u8, 0x74u8];
        assert(v@ =~= ypart_marker());
        v
    } else {
        let v: Vec<u8> = vec![0x3Du8, 0x79u8, 0x65u8, 0x6Eu8, 0x64u8];
        assert(v@ =~= yend_marker());
        v
    }
}

fn find_line_end(a: &[u8], from: usize) -> (r: usize)
    requires
        from <= a@.len(),
    ensures
        r == line_end(a@, from as int),
        from <= r <= a@.len(),
{
    let mut i: usize = from;
    while i < a.len() && a[i] != LF
        invariant
            from <= i <= a@.len(),
            line_end(a@, from as int) == line_end(a@, i as int),
        decreases a@.len() - i,
    {
        i += 1;
    }
    i
}

/// Takes the encoded payload out of a raw article body.
pub fn extract_yenc_data(article: &[u8]) -> (r: Vec<u8>)
    ensures
        r@ == yenc_payload(article@),
{
    let ybegin = marker(0);
    let ypart = marker(1);
    let yend = marker(2);
    let len: usize = article.len();
    let mut out: Vec<u8> = Vec::new();
    let mut in_body: bool = false;
    let mut pos: usize = 0;
    assert(out@ + payload_from(article@, 0, false) =~= payload_from(article@, 0, false));
    loop
        invariant
            pos <= len,
            len == article@.len(),
            ybegin@ == ybegin_marker(),
            ypart@ == ypart_marker(),
            yend@ == yend_marker(),
            yenc_payload(article@) == out@ + payload_from(article@, pos as int, in_body),
        decreases len - pos,
    {
        let end = find_line_end(article, pos);
        let line = slice_subrange(article, pos, end);
        let ghost before = out@;
        let ghost was = in_body;
        if crate::byteseq::occurs_at(line, ybegin.as_slice(), 0) || crate::byteseq::occurs_at(
            line,
            ypart.as_slice(),
            0,
        ) {
            in_body = true;
        } else if crate::byteseq::occurs_at(line, yend.as_slice(), 0) {
            in_body = false;
        } else if in_body {
            let body = strip_carriage_return(line);
            out.extend_from_slice(body);
        }
        proof {
            assert(out@ =~= before + line_payload(line@, was));
            assert(in_body == body_after(line@, was));
        }
        if end >= len {
            return out;
        }
        proof {
            assert(before + (line_payload(line@, was) + payload_from(
                article@,
                end + 1,
                in_body,
            )) =~= out@ + payload_from(article@, end + 1, in_body));
        }
        pos = end + 1;
    }
}

/// The byte that an unescaped encoded byte stands for.
pub open spec fn decode_byte(b: u8) -> u8 {
    ((b as int - 42) % 256) as u8
}

/// The byte that the byte after an escape character stands for.
pub open spec fn unescape_byte(c: u8) -> u8 {
    ((c as int - 64 - 42) % 256) as u8
}

/// The bytes that the encoded payload `data` stands for.
///
/// Line terminators are passed over. An escape character and the byte
/// after it give one byte; an escape character at the very end gives
/// none. Every other byte gives one byte.
pub open spec fn yenc_decode(data: Seq<u8>) -> Seq<u8>
    decreases data.len(),
{
    if data.len() == 0 {
        Seq::empty()
    } else if data[0] == CR || data[0] == LF {
        yenc_decode(data.skip(1))
    } else if data[0] == ESCAPE {
        if data.len() >= 2 {
            seq![unescape_byte(data[1])] + yenc_decode(data.skip(2))
        } else {
            Seq::empty()
        }
    } else {
        seq![decode_byte(data[0])] + yenc_decode(data.skip(1))
    }
}

/// The encoded form of a byte before escaping.
pub open spec fn encode_byte(b: u8) -> u8 {
    ((b as int + 42) % 256) as u8
}

/// Whether an encoded byte has to be escaped: NUL, the line terminators
/// and the escape character itself.
pub open spec fn needs_escape(e: u8) -> bool {
    e == 0 || e == LF || e == CR || e == ESCAPE
}

/// The one or two bytes that stand for `b` in an encoded payload.
pub open spec fn encode_unit(b: u8) -> Seq<u8> {
    let e = encode_byte(b);
    if needs_escape(e) {
        seq![ESCAPE, ((e as int + 64) % 256) as u8]
    } else {
        seq![e]
    }
}

/// The encoded payload of `data`, written from column `col` of a line. A
/// line is ended by `\r\n` once it holds `LINE_LENGTH` characters or
/// more; so is the last line, where it is not empty.
pub open spec fn yenc_encode_from(data: Seq<u8>, col: int) -> Seq<u8>
    decreases data.len(),
{
    if data.len() == 0 {
        if col > 0 {
            seq![CR, LF]
        } else {
            Seq::empty()
        }
    } else {
        let unit = encode_unit(data[0]);
        if col + unit.len() >= LINE_LENGTH {
            unit + seq![CR, LF] + yenc_encode_from(data.skip(1), 0)
        } else {
            unit + yenc_encode_from(data.skip(1), col + unit.len())
        }
    }
}

/// The encoded payload of `data`.
pub open spec fn yenc_encode(data: Seq<u8>) -> Seq<u8> {
    yenc_encode_from(data, 0)
}

/// A line terminator in front of a payload changes nothing of what it
/// stands for.
pub proof fn lemma_decode_line_break(rest: Seq<u8>)
    ensures
        yenc_decode(seq![CR, LF] + rest) == yenc_decode(rest),
{
    let s = seq![CR, LF] + rest;
    assert(s.skip(1) =~= seq![LF] + rest);
    assert(s.skip(1).skip(1) =~= rest);
    assert(yenc_decode(s) == yenc_decode(s.skip(1)));
    assert(s.skip(1)[0] == LF);
    assert(yenc_decode(s.skip(1)) == yenc_decode(s.skip(1).skip(1)));
}

/// The encoded form of a byte, in front of a payload, stands for that
/// byte.
pub proof fn lemma_decode_unit(b: u8, rest: Seq<u8>)
    ensures
        yenc_decode(encode_unit(b) + rest) == seq![b] + yenc_decode(rest),
{
    let e = encode_byte(b);
    let s = encode_unit(b) + rest;
    if needs_escape(e) {
        assert(s[0] == ESCAPE);
        assert(s.skip(2) =~= rest);
        assert(unescape_byte(s[1]) == b);
    } else {
        assert(s[0] == e);
        assert(s.skip(1) =~= rest);
        assert(decode_byte(e) == b);
    }
}

/// Decoding what was encoded gives the bytes back, from whatever column
/// the encoder started.
pub proof fn lemma_round_trip_from(data: Seq<u8>, col: int)
    ensures
        yenc_decode(yenc_encode_from(data, col)) == data,
    decreases data.len(),
{
    if data.len() == 0 {
        if col > 0 {
            lemma_decode_line_break(Seq::empty());
            assert(seq![CR, LF] + Seq::<u8>::empty() =~= seq![CR, LF]);
        }
        assert(yenc_decode(Seq::<u8>::empty()) =~= Seq::<u8>::empty());
        assert(data =~= Seq::<u8>::empty());
    } else {
        let unit = encode_unit(data[0]);
        let tail = data.skip(1);
        if col + unit.len() >= LINE_LENGTH {
            let rest = yenc_encode_from(tail, 0);
            lemma_round_trip_from(tail, 0);
            lemma_decode_line_break(rest);
            lemma_decode_unit(data[0], seq![CR, LF] + rest);
            assert(unit + seq![CR, LF] + rest =~= unit + (seq![CR, LF] + rest));
        } else {
            let rest = yenc_encode_from(tail, col + unit.len());
            lemma_round_trip_from(tail, col + unit.len());
            lemma_decode_unit(data[0], rest);
        }
        assert(seq![data[0]] + tail =~= data);
    }
}

/// Decoding the encoded form of any bytes gives those bytes back.
pub proof fn lemma_yenc_round_trip(data: Seq<u8>)
    ensures
        yenc_decode(yenc_encode(data)) == data,
{
    lemma_round_trip_from(data, 0);
}

/// Decodes an encoded payload.
pub fn decode_buffer(data: &[u8]) -> (r: Vec<u8>)
    ensures
        r@ == yenc_decode(data@),
{
    let len: usize = data.len();
    let mut out: Vec<u8> = Vec::new();
    let mut i: usize = 0;
    assert(data@.skip(0) =~= data@);
    assert(out@ + yenc_decode(data@) =~= yenc_decode(data@));
    while i < len
        invariant
            i <= len,
            len == data@.len(),
            yenc_decode(data@) == out@ + yenc_decode(data@.skip(i as int)),
        decreases len - i,
    {
        let ghost rest = data@.skip(i as int);
        let ghost before = out@;
        let b: u8 = data[i];
        assert(rest[0] == b);
        if b == CR || b == LF {
            assert(rest.skip(1) =~= data@.skip(i + 1));
            i += 1;
        } else if b == ESCAPE {
            if len - i >= 2 {
                let c: u8 = data[i + 1];
                assert(rest[1] == c);
                assert(rest.skip(2) =~= data@.skip(i + 2));
                let d: u8 = ((c as u16 + 512 - 106) % 256) as u8;
                assert(d == unescape_byte(c));
                out.push(d);
                assert(before + (seq![d] + yenc_decode(rest.skip(2))) =~= out@ + yenc_decode(
                    rest.skip(2),
                ));
                i += 2;
            } else {
                assert(out@ + Seq::<u8>::empty() =~= out@);
                return out;
            }
        } else {
            assert(rest.skip(1) =~= data@.skip(i + 1));
            let d: u8 = ((b as u16 + 256 - 42) % 256) as u8;
            assert(d == decode_byte(b));
            out.push(d);
            assert(before + (seq![d] + yenc_decode(rest.skip(1))) =~= out@ + yenc_decode(
                rest.skip(1),
            ));
            i += 1;
        }
    }
    assert(data@.skip(i as int) =~= Seq::<u8>::empty());
    assert(out@ + Seq::<u8>::empty() =~= out@);
    out
}

/// Encodes bytes as a yEnc payload with lines of `LINE_LENGTH` characters.
pub fn encode_buffer(data: &[u8]) -> (r: Vec<u8>)
    ensures
        r@ == yenc_encode(data@),
        yenc_decode(r@) == data@,
{
    let len: usize = data.len();
    let mut out: Vec<u8> = Vec::new();
    let mut col: usize = 0;
    let mut i: usize = 0;
    assert(data@.skip(0) =~= data@);
    assert(out@ + yenc_encode_from(data@, 0) =~= yenc_encode_from(data@, 0));
    while i < len
        invariant
            i <= len,
            len == data@.len(),
            col < LINE_LENGTH,
            yenc_encode(data@) == out@ + yenc_encode_from(data@.skip(i as int), col as int),
        decreases len - i,
    {
        let ghost rest = data@.skip(i as int);
        let ghost before = out@;
        let b: u8 = data[i];
        assert(rest[0] == b);
        assert(rest.skip(1) =~= data@.skip(i + 1));
        let e: u8 = ((b as u16 + 42) % 256) as u8;
        assert(e == encode_byte(b));
        if e == 0 || e == LF || e == CR || e == ESCAPE {
            out.push(ESCAPE);
            out.push(((e as u16 + 64) % 256) as u8);
            col += 2;
        } else {
            out.push(e);
            col += 1;
        }
        assert(out@ =~= before + encode_unit(b));
        if col >= LINE_LENGTH {
            out.push(CR);
            out.push(LF);
            col = 0;
            assert(before + (encode_unit(b) + seq![CR, LF] + yenc_encode_from(rest.skip(1), 0))
                =~= out@ + yenc_encode_from(rest.skip(1), 0));
        } else {
            assert(before + (encode_unit(b) + yenc_encode_from(rest.skip(1), col as int)) =~= out@
                + yenc_encode_from(rest.skip(1), col as int));
        }
        i += 1;
    }
    assert(data@.skip(i as int) =~= Seq::<u8>::empty());
    if col > 0 {
        let ghost before = out@;
        out.push(CR);
        out.push(LF);
        assert(out@ =~= before + seq![CR, LF]);
    } else {
        assert(out@ + Seq::<u8>::empty() =~= out@);
    }
    proof {
        lemma_yenc_round_trip(data@);
    }
    out
}

/// The MD5 digest of `data`, as the `md-5` crate computes it.
pub uninterp spec fn md5_digest(data: Seq<u8>) -> Seq<u8>;

/// Computes the MD5 digest of `data` with `Md5::new`, `chain_update` and
/// `finalize` of the `md-5` crate. The digest depends on the bytes alone
/// and is sixteen bytes long.
#[verifier::external_body]
pub(crate) fn md5_of(data: &[u8]) -> (r: Vec<u8>)
    ensures
        r@ == md5_digest(data@),
        r@.len() == 16,
{
    Md5::new().chain_update(data).finalize().to_vec()
}

/// The part of a file that its fingerprint covers: its first 16 KiB, or
/// all of it where it is shorter.
pub open spec fn head16k(bytes: Seq<u8>) -> Seq<u8> {
    if bytes.len() <= SIXTEEN_KB {
        bytes
    } else {
        bytes.subrange(0, SIXTEEN_KB as int)
    }
}

/// The fingerprint by which a PAR2 manifest knows a file: the MD5 digest
/// of its first 16 KiB.
pub fn compute_hash16k(bytes: &[u8]) -> (r: Vec<u8>)
    ensures
        r@ == md5_digest(head16k(bytes@)),
        r@.len() == 16,
{
    let len: usize = if bytes.len() <= SIXTEEN_KB {
        bytes.len()
    } else {
        SIXTEEN_KB
    };
    assert(bytes@.subrange(0, bytes@.len() as int) =~= bytes@);
    md5_of(slice_subrange(bytes, 0, len))
}

} // verus!
