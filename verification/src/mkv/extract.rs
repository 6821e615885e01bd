//! Copying the video out of a RAR volume, file by file.
//!
//! A volume holds stored files one behind the other, each behind its
//! header. What is copied are their payloads; in the first volume of an
//! archive the copy begins at the Matroska signature. A volume that ends
//! within a payload gives what is there.
use crate::archive::error::ArchiveError;
use crate::archive::rar::MKV_SEARCH_WINDOW;
use crate::archive::rar::RAR_ENDARC_HEAD;
use crate::archive::rar::RAR_FILE_HEAD;
use crate::archive::rar::mkv_signature;
use crate::archive::rar::rar_signature;
use crate::byteseq::find_subslice;
use crate::byteseq::first_match;
use crate::byteseq::le_u16;
use crate::byteseq::le_u32;
use crate::byteseq::read_u16_le;
use crate::byteseq::read_u32_le;
use crate::streaming::SIGNATURE_WINDOW;
use vstd::prelude::*;
use vstd::slice::slice_subrange;

verus! {

/// What the header at one place of a volume asks for.
#[derive(Debug, Clone, Copy, PartialEq, Eq)]
pub enum Step {
    /// The walk is over.
    End,
    /// The header is cut short.
    Malformed,
    /// Copy `count` bytes from `from` on, and go on behind them.
    Copy { from: usize, count: usize },
}

/// The smaller of two lengths.
pub open spec fn at_most(a: int, b: int) -> int {
    if a < b {
        a
    } else {
        b
    }
}

/// What the header at `pos` asks for; `search` says whether the start
/// of the video is still looked for.
///
/// The end of the buffer within the first three bytes of a header ends
/// the walk, and so does an end-of-archive header, or a header whose
/// declared size leads past the buffer. A header cut short behind its
/// first three bytes is malformed. A file header at `pos` that declares
/// `size` has its payload at `pos + size`, `pack` bytes long, which is
/// copied as far as the buffer holds it. Where the start of the video is
/// looked for, the first 1024 bytes of the payload are searched for the
/// Matroska signature: the copy begins there, and without a signature
/// the walk goes on at the start of the payload and copies nothing. Any
/// other header is passed over.
pub open spec fn header_step(buf: Seq<u8>, pos: int, search: bool) -> Step {
    if pos < 0 || pos + 3 > buf.len() {
        Step::End
    } else if pos + 7 > buf.len() {
        Step::Malformed
    } else {
        let kind = buf[pos + 2];
        let data = pos + le_u16(buf.subrange(pos + 5, pos + 7));
        if kind == RAR_ENDARC_HEAD {
            Step::End
        } else if kind == RAR_FILE_HEAD && pos + 15 > buf.len() {
            Step::Malformed
        } else if data > buf.len() {
            Step::End
        } else if kind != RAR_FILE_HEAD {
            Step::Copy { from: data as usize, count: 0 }
        } else {
            let pack = le_u32(buf.subrange(pos + 7, pos + 11));
            if search {
                let window = buf.subrange(
                    data,
                    data + at_most(at_most(pack as int, MKV_SEARCH_WINDOW as int), buf.len() - data),
                );
                match first_match(window, mkv_signature()) {
                    Some(k) => Step::Copy {
                        from: (data + k) as usize,
                        count: at_most(pack - k, buf.len() - (data + k)) as usize,
                    },
                    None => Step::Copy { from: data as usize, count: 0 },
                }
            } else {
                Step::Copy {
                    from: data as usize,
                    count: at_most(pack as int, buf.len() - data) as usize,
                }
            }
        }
    }
}

/// What is copied from the headers of `buf` from `pos` on, behind what
/// was `taken` before. In the first volume the start of the video is
/// looked for as long as nothing was copied. A step that does not lead
/// on is malformed.
pub open spec fn copied_from(buf: Seq<u8>, pos: int, is_first: bool, taken: Seq<u8>) -> Result<
    Seq<u8>,
    ArchiveError,
>
    decreases buf.len() - pos,
{
    match header_step(buf, pos, is_first && taken.len() == 0) {
        Step::End => Ok(taken),
        Step::Malformed => Err(ArchiveError::MalformedRar),
        Step::Copy { from, count } => {
            let next = from + count;
            if next <= pos || next > buf.len() {
                Err(ArchiveError::MalformedRar)
            } else {
                copied_from(buf, next, is_first, taken + buf.subrange(from as int, next))
            }
        },
    }
}

/// What is copied from a volume: the payloads of its files, one behind
/// the other. The RAR signature must stand in the first 1024 bytes.
pub open spec fn copied(volume: Seq<u8>, is_first: bool) -> Result<Seq<u8>, ArchiveError> {
    let head = volume.subrange(0, at_most(volume.len() as int, SIGNATURE_WINDOW as int));
    match first_match(head, rar_signature()) {
        None => Err(ArchiveError::MalformedRar),
        Some(i) => copied_from(volume, i + 7, is_first, Seq::empty()),
    }
}

/// Reads the header at `pos`.
pub fn read_step(volume: &[u8], pos: usize, search: bool) -> (step: Step)
    requires
        pos <= volume@.len(),
    ensures
        step == header_step(volume@, pos as int, search),
        step matches Step::Copy { from, count } ==> from + count <= volume@.len(),
{
    let len: usize = volume.len();
    if len - pos < 3 {
        return Step::End;
    }
    if len - pos < 7 {
        return Step::Malformed;
    }
    let kind: u8 = volume[pos + 2];
    let size: u16 = read_u16_le(slice_subrange(volume, pos + 5, pos + 7));
    if kind == RAR_ENDARC_HEAD {
        return Step::End;
    }
    if kind == RAR_FILE_HEAD && len - pos < 15 {
        return Step::Malformed;
    }
    if size as usize > len - pos {
        return Step::End;
    }
    let data: usize = pos + size as usize;
    if kind != RAR_FILE_HEAD {
        return Step::Copy { from: data, count: 0 };
    }
    let pack: u32 = read_u32_le(slice_subrange(volume, pos + 7, pos + 11));
    let avail: usize = len - data;
    if !search {
        let count: usize = if (pack as usize) < avail {
            pack as usize
        } else {
            avail
        };
        return Step::Copy { from: data, count };
    }
    let wanted: usize = if pack < MKV_SEARCH_WINDOW {
        pack as usize
    } else {
        MKV_SEARCH_WINDOW as usize
    };
    let searched: usize = if wanted < avail {
        wanted
    } else {
        avail
    };
    let mkv: Vec<u8> = vec![0x1Au8, 0x45u8, 0xDFu8, 0xA3u8];
    assert(mkv@ =~= mkv_signature());
    let window = slice_subrange(volume, data, data + searched);
    match find_subslice(window, mkv.as_slice()) {
        Some(k) => {
            proof {
                crate::byteseq::lemma_first_match_from(window@, mkv_signature(), 0);
            }
            let from: usize = data + k;
            let want: usize = (pack as usize) - k;
            let count: usize = if want < len - from {
                want
            } else {
                len - from
            };
            Step::Copy { from, count }
        },
        None => Step::Copy { from: data, count: 0 },
    }
}

/// Copies the video out of a volume that is held in memory. `is_first`
/// says whether the volume is the first of its archive.
pub fn extract_file_data(volume: &[u8], is_first: bool) -> (r: Result<Vec<u8>, ArchiveError>)
    ensures
        match copied(volume@, is_first) {
            Ok(video) => r matches Ok(v) && v@ == video,
            Err(e) => r == Err::<Vec<u8>, ArchiveError>(e),
        },
{
    let len: usize = volume.len();
    let head: usize = if len < SIGNATURE_WINDOW {
        len
    } else {
        SIGNATURE_WINDOW
    };
    let sig: Vec<u8> = vec![0x52u8, 0x61u8, 0x72u8, 0x21u8, 0x1Au8, 0x07u8, 0x00u8];
    assert(sig@ =~= rar_signature());
    let window = slice_subrange(volume, 0, head);
    let start: usize = match find_subslice(window, sig.as_slice()) {
        Some(i) => {
            proof {
                crate::byteseq::lemma_first_match_from(window@, rar_signature(), 0);
            }
            i + 7
        },
        None => {
            return Err(ArchiveError::MalformedRar);
        },
    };
    let mut out: Vec<u8> = Vec::new();
    let mut pos: usize = start;
    loop
        invariant
            pos <= len,
            len == volume@.len(),
            copied(volume@, is_first) == copied_from(volume@, pos as int, is_first, out@),
        decreases len - pos,
    {
        match read_step(volume, pos, is_first && out.len() == 0) {
            Step::End => {
                return Ok(out);
            },
            Step::Malformed => {
                return Err(ArchiveError::MalformedRar);
            },
            Step::Copy { from, count } => {
                let next: usize = from + count;
                if next <= pos {
                    return Err(ArchiveError::MalformedRar);
                }
                let ghost before = out@;
                let part = slice_subrange(volume, from, next);
                out.extend_from_slice(part);
                assert(out@ == before + volume@.subrange(from as int, next as int));
                assert(header_step(volume@, pos as int, is_first && before.len() == 0)
                    == (Step::Copy { from, count }));
                assert(copied_from(volume@, pos as int, is_first, before) == copied_from(
                    volume@,
                    next as int,
                    is_first,
                    out@,
                ));
                pos = next;
            },
        }
    }
}

/// The copy of a volume without the RAR signature in its first 1024
/// bytes fails.
pub proof fn lemma_copy_needs_signature(volume: Seq<u8>, is_first: bool)
    requires
        first_match(
            volume.subrange(0, at_most(volume.len() as int, SIGNATURE_WINDOW as int)),
            rar_signature(),
        ) is None,
    ensures
        copied(volume, is_first) == Err::<Seq<u8>, ArchiveError>(ArchiveError::MalformedRar),
{
}

} // verus!
