//! Classic RAR volumes: where the payload of a volume lies, and how the
//! volumes of one archive are ordered.
use crate::archive::error::ArchiveError;
pub use crate::archive::volume::lemma_volume_order;
pub use crate::archive::volume::lemma_volume_order_total;
pub use crate::archive::volume::RarExt;
use crate::byteseq::find_subslice;
use crate::byteseq::first_match;
use crate::byteseq::le_u16;
use crate::byteseq::le_u32;
use crate::byteseq::read_u16_le;
use crate::byteseq::read_u32_le;
use crate::text::chars_of;
use crate::text::digits_of;
use crate::text::ends_with_str;
use crate::text::has_suffix;
use crate::text::last_index;
use crate::text::parse_digits;
use crate::text::rfind_char;
use vstd::prelude::*;
use vstd::slice::slice_subrange;

verus! {

/// Header type of the archive's main header.
pub const RAR_MAIN_HEAD: u8 = 0x73;

/// Header type of a file header; the payload follows it.
pub const RAR_FILE_HEAD: u8 = 0x74;

/// Header type of the end-of-archive marker.
pub const RAR_ENDARC_HEAD: u8 = 0x7B;

/// How many payload bytes of the first volume are searched for the start
/// of the Matroska stream.
pub const MKV_SEARCH_WINDOW: u32 = 1024;

/// The seven bytes that open a classic RAR volume.
pub open spec fn rar_signature() -> Seq<u8> {
    seq![0x52u8, 0x61u8, 0x72u8, 0x21u8, 0x1Au8, 0x07u8, 0x00u8]
}

/// The four bytes of the EBML header that opens a Matroska stream.
pub open spec fn mkv_signature() -> Seq<u8> {
    seq![0x1Au8, 0x45u8, 0xDFu8, 0xA3u8]
}

/// Payload offset and length that a file header at `pos` with declared
/// size `size` gives.
///
/// The payload begins `size` bytes after the start of the header and is
/// `pack_size` bytes long. The buffer must hold the whole header. In the
/// first volume the start moves on to the Matroska signature, if the
/// first `min(1024, pack_size)` payload bytes hold one; those bytes must
/// then be present in the buffer.
pub open spec fn file_payload(buf: Seq<u8>, pos: int, size: int, is_first: bool) -> Result<
    (u64, u64),
    ArchiveError,
> {
    if pos + 15 > buf.len() {
        Err(ArchiveError::MalformedRar)
    } else {
        let pack = le_u32(buf.subrange(pos + 7, pos + 11));
        let data = pos + size;
        if data > u64::MAX || data > buf.len() {
            Err(ArchiveError::MalformedRar)
        } else if !is_first || pack == 0 {
            Ok((data as u64, pack as u64))
        } else {
            let window = if pack < MKV_SEARCH_WINDOW {
                pack
            } else {
                MKV_SEARCH_WINDOW as int
            };
            if data + window > buf.len() {
                Err(ArchiveError::MalformedRar)
            } else {
                match first_match(buf.subrange(data, data + window), mkv_signature()) {
                    Some(k) => Ok(((data + k) as u64, (pack - k) as u64)),
                    None => Ok((data as u64, pack as u64)),
                }
            }
        }
    }
}

/// What the chain of headers that starts at `pos` gives.
///
/// Each header is seven bytes (checksum, type, flags, size) and declares
/// its whole size. A file header ends the walk with the payload's place,
/// an end-of-archive header ends it with `(0, 0)`, and so does the end
/// of the buffer where a header would begin. Any other header is
/// skipped. A header that the buffer does not hold whole, or one that
/// declares size zero, is malformed.
pub open spec fn walk_headers(buf: Seq<u8>, pos: int, is_first: bool) -> Result<
    (u64, u64),
    ArchiveError,
>
    decreases buf.len() - pos,
{
    if pos == buf.len() {
        Ok((0u64, 0u64))
    } else if pos < 0 || pos + 7 > buf.len() {
        Err(ArchiveError::MalformedRar)
    } else {
        let kind = buf[pos + 2];
        let size = le_u16(buf.subrange(pos + 5, pos + 7));
        let next = pos + size;
        if kind == RAR_FILE_HEAD {
            file_payload(buf, pos, size, is_first)
        } else if kind == RAR_ENDARC_HEAD {
            Ok((0u64, 0u64))
        } else if next <= pos || next > buf.len() {
            Err(ArchiveError::MalformedRar)
        } else {
            walk_headers(buf, next, is_first)
        }
    }
}

/// Payload offset and length of the RAR volume whose first bytes are `buf`.
pub open spec fn analyse_rar(buf: Seq<u8>, is_first: bool) -> Result<(u64, u64), ArchiveError> {
    match first_match(buf, rar_signature()) {
        None => Err(ArchiveError::MalformedRar),
        Some(i) => walk_headers(buf, i + 7, is_first),
    }
}

fn rar_signature_bytes() -> (v: Vec<u8>)
    ensures
        v@ == rar_signature(),
{
    let v: Vec<u8> = vec![0x52u8, 0x61u8, 0x72u8, 0x21u8, 0x1Au8, 0x07u8, 0x00u8];
    assert(v@ =~= rar_signature());
    v
}

fn mkv_signature_bytes() -> (v: Vec<u8>)
    ensures
        v@ == mkv_signature(),
{
    let v: Vec<u8> = vec![0x1Au8, 0x45u8, 0xDFu8, 0xA3u8];
    assert(v@ =~= mkv_signature());
    v
}

/// Reads the file header at `pos`, whose declared size is `size`.
fn read_file_payload(buffer: &[u8], pos: usize, size: u16, is_first: bool) -> (r: Result<
    (u64, u64),
    ArchiveError,
>)
    requires
        pos + 7 <= buffer@.len(),
    ensures
        r == file_payload(buffer@, pos as int, size as int, is_first),
{
    let len: usize = buffer.len();
    if len - pos < 15 {
        return Err(ArchiveError::MalformedRar);
    }
    let pack: u32 = read_u32_le(slice_subrange(buffer, pos + 7, pos + 11));
    let data: u64 = match (pos as u64).checked_add(size as u64) {
        Some(d) => d,
        None => {
            return Err(ArchiveError::MalformedRar);
        },
    };
    if data > len as u64 {
        return Err(ArchiveError::MalformedRar);
    }
    if !is_first || pack == 0 {
        return Ok((data, pack as u64));
    }
    let window: u32 = if pack < MKV_SEARCH_WINDOW {
        pack
    } else {
        MKV_SEARCH_WINDOW
    };
    if data > len as u64 || (len as u64) - data < window as u64 {
        return Err(ArchiveError::MalformedRar);
    }
    let from: usize = data as usize;
    let to: usize = from + window as usize;
    let mkv = mkv_signature_bytes();
    match find_subslice(slice_subrange(buffer, from, to), mkv.as_slice()) {
        Some(k) => {
            proof {
                crate::byteseq::lemma_first_match_from(
                    buffer@.subrange(from as int, to as int),
                    mkv_signature(),
                    0,
                );
            }
            Ok((data + k as u64, pack as u64 - k as u64))
        },
        None => Ok((data, pack as u64)),
    }
}

/// Finds the payload of a RAR volume in its first bytes.
///
/// Returns the offset, counted from the start of `buffer`, at which the
/// payload begins, and the payload's length. For the first volume of an
/// archive the offset is moved on to the Matroska signature and the length
/// shortened by as much. A buffer without the RAR signature, or with a
/// header that is cut short, gives `MalformedRar`.
pub fn analyse_rar_buffer(buffer: &[u8], is_first: bool) -> (r: Result<(u64, u64), ArchiveError>)
    ensures
        r == analyse_rar(buffer@, is_first),
{
    let sig = rar_signature_bytes();
    let len: usize = buffer.len();
    let start: usize = match find_subslice(buffer, sig.as_slice()) {
        Some(i) => {
            proof {
                crate::byteseq::lemma_first_match_from(buffer@, rar_signature(), 0);
                assert(rar_signature().len() == 7);
            }
            i + 7
        },
        None => {
            return Err(ArchiveError::MalformedRar);
        },
    };
    let mut pos: usize = start;
    loop
        invariant
            pos <= len,
            len == buffer@.len(),
            analyse_rar(buffer@, is_first) == walk_headers(buffer@, pos as int, is_first),
        decreases len - pos,
    {
        if pos == len {
            return Ok((0, 0));
        }
        if len - pos < 7 {
            return Err(ArchiveError::MalformedRar);
        }
        let kind: u8 = buffer[pos + 2];
        let size: u16 = read_u16_le(slice_subrange(buffer, pos + 5, pos + 7));
        if kind == RAR_FILE_HEAD {
            return read_file_payload(buffer, pos, size, is_first);
        } else if kind == RAR_ENDARC_HEAD {
            return Ok((0, 0));
        } else if size == 0 || size as usize > len - pos {
            return Err(ArchiveError::MalformedRar);
        } else {
            pos = pos + size as usize;
        }
    }
}

/// The number behind `.r` at the end of `name`: the text after the last
/// dot must be `r` followed by at least one decimal digit, nothing else,
/// and the number must fit in 32 bits.
pub open spec fn rar_number(name: Seq<char>) -> Option<u32> {
    match last_index(name, '.') {
        None => None,
        Some(dot) => {
            let ext = name.subrange(dot + 1, name.len() as int);
            if ext.len() >= 1 && ext[0] == 'r' {
                match digits_of(ext.subrange(1, ext.len() as int), u32::MAX as nat) {
                    Some(n) => Some(n as u32),
                    None => None,
                }
            } else {
                None
            }
        },
    }
}

/// The volume key that a file name stands for, if it names a RAR volume.
pub open spec fn rar_ext_of(name: Seq<char>) -> Option<RarExt> {
    if has_suffix(name, ".rar"@) {
        Some(RarExt::Main)
    } else {
        match rar_number(name) {
            Some(n) => Some(RarExt::Part(n)),
            None => None,
        }
    }
}

/// Reads the volume number from a name such as `movie.r07`.
pub fn extract_rar_number(filename: &str) -> (r: Option<u32>)
    ensures
        r == rar_number(filename@),
{
    let name = chars_of(filename);
    match rfind_char(name.as_slice(), '.') {
        None => None,
        Some(dot) => {
            proof {
                crate::text::lemma_last_index(name@, '.');
            }
            let ext = slice_subrange(name.as_slice(), dot + 1, name.len());
            if ext.len() >= 1 && ext[0] == 'r' {
                let digits = slice_subrange(ext, 1, ext.len());
                match parse_digits(digits, 0xFFFF_FFFF) {
                    Some(n) => Some(n as u32),
                    None => None,
                }
            } else {
                None
            }
        },
    }
}

impl RarExt {
    /// The volume key of a file name: `Main` for `*.rar`, `Part(n)` for
    /// `*.rNN`, nothing for any other name.
    pub fn from_filename(filename: &str) -> (r: Option<RarExt>)
        ensures
            r == rar_ext_of(filename@),
    {
        let name = chars_of(filename);
        if ends_with_str(name.as_slice(), ".rar") {
            Some(RarExt::Main)
        } else {
            match extract_rar_number(filename) {
                Some(n) => Some(RarExt::Part(n)),
                None => None,
            }
        }
    }
}

/// A buffer without the RAR signature is malformed, whatever else it
/// holds.
pub proof fn lemma_missing_signature(buf: Seq<u8>, is_first: bool)
    requires
        forall|i: int| !crate::byteseq::matches_at(buf, rar_signature(), i),
    ensures
        analyse_rar(buf, is_first) == Err::<(u64, u64), ArchiveError>(ArchiveError::MalformedRar),
{
    crate::byteseq::lemma_first_match_from(buf, rar_signature(), 0);
}

/// A buffer that ends within a header is malformed: behind the
/// signature, fewer than seven bytes of a header are no header.
pub proof fn lemma_header_cut_short(buf: Seq<u8>, pos: int, is_first: bool)
    requires
        0 <= pos < buf.len() < pos + 7,
    ensures
        walk_headers(buf, pos, is_first) == Err::<(u64, u64), ArchiveError>(
            ArchiveError::MalformedRar,
        ),
{
}

/// A header that declares more bytes than the buffer holds is
/// malformed, unless it is the end of the archive.
pub proof fn lemma_header_past_the_end(buf: Seq<u8>, pos: int, is_first: bool)
    requires
        0 <= pos,
        pos + 7 <= buf.len(),
        buf[pos + 2] != RAR_ENDARC_HEAD,
        pos + le_u16(buf.subrange(pos + 5, pos + 7)) > buf.len(),
    ensures
        walk_headers(buf, pos, is_first) == Err::<(u64, u64), ArchiveError>(
            ArchiveError::MalformedRar,
        ),
{
}

/// The rank of a volume fits in 64 bits, whatever the name.
pub proof fn lemma_rank_bound(name: Seq<char>)
    ensures
        rar_ext_of(name) matches Some(v) ==> v.rank() <= 4294967296,
{
}

} // verus!
