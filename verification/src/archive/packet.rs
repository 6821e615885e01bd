//! PAR2 packets: the three kinds that are read, and how one packet is
//! parsed from the bytes at which it starts.
use crate::byteseq::le_u32;
use crate::byteseq::le_u64;
use crate::byteseq::occurs_at;
use crate::byteseq::read_u32_le;
use crate::byteseq::read_u64_le;
use crate::text::has_prefix;
use vstd::prelude::*;
use vstd::slice::slice_subrange;
use vstd::utf8::decode_utf8;
use vstd::utf8::valid_utf8;

verus! {

/// Bytes of a packet before its body: magic, length, checksum.
pub const HEADER_SIZE: usize = 32;

/// Width of the recovery-set, type and file identifiers.
pub const HEADER_FIELD_SIZE: usize = 16;

/// Width of one slice-checksum entry: an MD5 and a CRC32.
pub const CRC_ENTRY_SIZE: usize = 20;

/// `PAR2\0PKT`, the magic that opens every packet.
pub open spec fn par_pkt_id() -> Seq<u8> {
    seq![0x50u8, 0x41u8, 0x52u8, 0x32u8, 0x00u8, 0x50u8, 0x4Bu8, 0x54u8]
}

/// `PAR 2.0\0Main\0\0\0\0`, the type of a main packet.
pub open spec fn par_main_id() -> Seq<u8> {
    seq![
        0x50u8, 0x41u8, 0x52u8, 0x20u8, 0x32u8, 0x2Eu8, 0x30u8, 0x00u8, 0x4Du8, 0x61u8,
        0x69u8, 0x6Eu8, 0x00u8, 0x00u8, 0x00u8, 0x00u8,
    ]
}

/// `PAR 2.0\0FileDesc`, the type of a file-description packet.
pub open spec fn par_file_id() -> Seq<u8> {
    seq![
        0x50u8, 0x41u8, 0x52u8, 0x20u8, 0x32u8, 0x2Eu8, 0x30u8, 0x00u8, 0x46u8, 0x69u8,
        0x6Cu8, 0x65u8, 0x44u8, 0x65u8, 0x73u8, 0x63u8,
    ]
}

/// `PAR 2.0\0IFSC\0\0\0\0`, the type of a slice-checksum packet.
pub open spec fn par_slice_id() -> Seq<u8> {
    seq![
        0x50u8, 0x41u8, 0x52u8, 0x20u8, 0x32u8, 0x2Eu8, 0x30u8, 0x00u8, 0x49u8, 0x46u8,
        0x53u8, 0x43u8, 0x00u8, 0x00u8, 0x00u8, 0x00u8,
    ]
}

fn par_pkt_id_bytes() -> (v: Vec<u8>)
    ensures
        v@ == par_pkt_id(),
{
    let v: Vec<u8> = vec![0x50u8, 0x41u8, 0x52u8, 0x32u8, 0x00u8, 0x50u8, 0x4Bu8, 0x54u8];
    assert(v@ =~= par_pkt_id());
    v
}

fn par_main_id_bytes() -> (v: Vec<u8>)
    ensures
        v@ == par_main_id(),
{
    let v: Vec<u8> = vec![
        0x50u8, 0x41u8, 0x52u8, 0x20u8, 0x32u8, 0x2Eu8, 0x30u8, 0x00u8, 0x4Du8, 0x61u8,
        0x69u8, 0x6Eu8, 0x00u8, 0x00u8, 0x00u8, 0x00u8,
    ];
    assert(v@ =~= par_main_id());
    v
}

fn par_file_id_bytes() -> (v: Vec<u8>)
    ensures
        v@ == par_file_id(),
{
    let v: Vec<u8> = vec![
        0x50u8, 0x41u8, 0x52u8, 0x20u8, 0x32u8, 0x2Eu8, 0x30u8, 0x00u8, 0x46u8, 0x69u8,
        0x6Cu8, 0x65u8, 0x44u8, 0x65u8, 0x73u8, 0x63u8,
    ];
    assert(v@ =~= par_file_id());
    v
}

fn par_slice_id_bytes() -> (v: Vec<u8>)
    ensures
        v@ == par_slice_id(),
{
    let v: Vec<u8> = vec![
        0x50u8, 0x41u8, 0x52u8, 0x20u8, 0x32u8, 0x2Eu8, 0x30u8, 0x00u8, 0x49u8, 0x46u8,
        0x53u8, 0x43u8, 0x00u8, 0x00u8, 0x00u8, 0x00u8,
    ];
    assert(v@ =~= par_slice_id());
    v
}

/// The main packet of a recovery set.
#[derive(Debug, Clone)]
pub struct MainPacket {
    pub slice_size: u64,
}

/// The description of one file of the recovery set.
#[derive(Debug, Clone)]
pub struct FileDescPacket {
    pub file_id: String,
    pub filename: String,
    pub hash16k: Vec<u8>,
    pub filesize: u64,
}

/// The slice checksums of one file.
#[derive(Debug, Clone)]
pub struct IFSCPacket {
    pub file_id: String,
    pub crcs: Vec<u32>,
}

/// A packet of one of the kinds that are read.
#[derive(Debug, Clone)]
pub enum Packet {
    Main(MainPacket),
    FileDesc(FileDescPacket),
    IFSC(IFSCPacket),
}

/// What a file-description packet holds.
pub ghost struct FileDescView {
    pub file_id: Seq<char>,
    pub filename: Seq<char>,
    pub hash16k: Seq<u8>,
    pub filesize: u64,
}

/// What a packet holds.
pub ghost enum PacketView {
    Main { slice_size: u64 },
    FileDesc(FileDescView),
    IFSC { file_id: Seq<char>, crcs: Seq<u32> },
}

impl View for FileDescPacket {
    type V = FileDescView;

    open spec fn view(&self) -> FileDescView {
        FileDescView {
            file_id: self.file_id@,
            filename: self.filename@,
            hash16k: self.hash16k@,
            filesize: self.filesize,
        }
    }
}

impl View for Packet {
    type V = PacketView;

    open spec fn view(&self) -> PacketView {
        match self {
            Packet::Main(m) => PacketView::Main { slice_size: m.slice_size },
            Packet::FileDesc(d) => PacketView::FileDesc(d@),
            Packet::IFSC(s) => PacketView::IFSC { file_id: s.file_id@, crcs: s.crcs@ },
        }
    }
}

/// The lowercase hexadecimal digit for a value below 16.
pub open spec fn hex_digit(n: int) -> char {
    seq!['0', '1', '2', '3', '4', '5', '6', '7', '8', '9', 'a', 'b', 'c', 'd', 'e', 'f'][n]
}

/// Two lowercase hexadecimal digits for each byte, the high one first.
pub open spec fn hex_string(bytes: Seq<u8>) -> Seq<char> {
    Seq::new(
        2 * bytes.len(),
        |i: int|
            if i % 2 == 0 {
                hex_digit(bytes[i / 2] as int / 16)
            } else {
                hex_digit(bytes[i / 2] as int % 16)
            },
    )
}

/// The bytes of `body` before its first zero byte, or all of them.
pub open spec fn until_nul(body: Seq<u8>) -> Seq<u8>
    decreases body.len(),
{
    if body.len() == 0 || body[0] == 0 {
        Seq::empty()
    } else {
        seq![body[0]] + until_nul(body.drop_first())
    }
}

/// The main packet in `body`: its first eight bytes are the slice size.
pub open spec fn main_body(body: Seq<u8>) -> Option<PacketView> {
    if body.len() < 8 {
        None
    } else {
        Some(PacketView::Main { slice_size: le_u64(body.subrange(0, 8)) as u64 })
    }
}

/// The file description in `body`: file id, MD5 of the file (skipped), MD5
/// of its first 16 KiB, size, and the name up to a zero byte, which must
/// be UTF-8.
pub open spec fn file_body(body: Seq<u8>) -> Option<PacketView> {
    if body.len() < 56 {
        None
    } else {
        let name = until_nul(body.subrange(56, body.len() as int));
        if valid_utf8(name) {
            Some(
                PacketView::FileDesc(
                    FileDescView {
                        file_id: hex_string(body.subrange(0, 16)),
                        filename: decode_utf8(name),
                        hash16k: body.subrange(32, 48),
                        filesize: le_u64(body.subrange(48, 56)) as u64,
                    },
                ),
            )
        } else {
            None
        }
    }
}

/// The slice checksums in `body`: a file id, then entries of twenty bytes
/// whose last four are a CRC32.
pub open spec fn slice_body(body: Seq<u8>) -> Option<PacketView> {
    if body.len() < 16 || (body.len() - 16) % 20 != 0 {
        None
    } else {
        Some(
            PacketView::IFSC {
                file_id: hex_string(body.subrange(0, 16)),
                crcs: Seq::new(
                    ((body.len() - 16) / 20) as nat,
                    |i: int| le_u32(body.subrange(16 + 20 * i + 16, 16 + 20 * i + 20)) as u32,
                ),
            },
        )
    }
}

/// The packet that starts at the first byte of `input`, with its length.
///
/// `input` must open with the magic; the eight bytes after it are the
/// packet's length, which must be at least the header size and no more
/// than `input` holds. The sixteen bytes at offset 48 name the type, the
/// body starts at offset 64 and ends with the packet.
pub open spec fn packet_at(input: Seq<u8>) -> Option<(PacketView, int)> {
    if !has_prefix(input, par_pkt_id()) || input.len() < 16 {
        None
    } else {
        let pack_len = le_u64(input.subrange(8, 16));
        if pack_len < 64 || pack_len > input.len() {
            None
        } else {
            let kind = input.subrange(48, 64);
            let body = input.subrange(64, pack_len);
            let packet = if kind == par_main_id() {
                main_body(body)
            } else if kind == par_file_id() {
                file_body(body)
            } else if kind == par_slice_id() {
                slice_body(body)
            } else {
                None
            };
            match packet {
                Some(p) => Some((p, pack_len)),
                None => None,
            }
        }
    }
}

/// Lowercase hexadecimal text of `bytes`. Wraps `hex::encode`, which
/// writes two lowercase digits for every byte, the high half first.
#[verifier::external_body]
pub(crate) fn hex_encode(bytes: &[u8]) -> (s: String)
    ensures
        s@ == hex_string(bytes@),
{
    hex::encode(bytes)
}

/// The text that `bytes` encode, if they are valid UTF-8. Wraps
/// `String::from_utf8`, which fails exactly on invalid UTF-8.
#[verifier::external_body]
pub(crate) fn utf8_string(bytes: Vec<u8>) -> (r: Option<String>)
    ensures
        r.is_some() == valid_utf8(bytes@),
        r matches Some(s) ==> s@ == decode_utf8(bytes@),
{
    String::from_utf8(bytes).ok()
}

/// Splits off the first `len` bytes of `slice`: the head and what is left,
/// or nothing when `slice` is shorter than `len`.
pub fn take(slice: &[u8], len: usize) -> (r: Option<(&[u8], &[u8])>)
    ensures
        r.is_some() == (len <= slice@.len()),
        r matches Some((head, tail)) ==> head@ == slice@.subrange(0, len as int) && tail@
            == slice@.subrange(len as int, slice@.len() as int),
{
    if len <= slice.len() {
        Some((slice_subrange(slice, 0, len), slice_subrange(slice, len, slice.len())))
    } else {
        None
    }
}

fn copy_until_nul(body: &[u8]) -> (r: Vec<u8>)
    ensures
        r@ == until_nul(body@),
{
    let mut r: Vec<u8> = Vec::new();
    let mut i: usize = 0;
    proof {
        assert(body@.subrange(0, body@.len() as int) =~= body@);
        assert(r@ + until_nul(body@) =~= until_nul(body@));
    }
    while i < body.len() && body[i] != 0
        invariant
            i <= body@.len(),
            until_nul(body@) == r@ + until_nul(body@.subrange(i as int, body@.len() as int)),
        decreases body@.len() - i,
    {
        let ghost rest = body@.subrange(i as int, body@.len() as int);
        assert(rest.drop_first() =~= body@.subrange(i + 1, body@.len() as int));
        assert(rest[0] == body@[i as int]);
        r.push(body[i]);
        assert(r@ + until_nul(rest.drop_first()) =~= r@.drop_last() + (seq![rest[0]] + until_nul(
            rest.drop_first(),
        )));
        i += 1;
    }
    proof {
        let rest = body@.subrange(i as int, body@.len() as int);
        if i < body@.len() {
            assert(rest[0] == body@[i as int]);
        }
        assert(until_nul(rest) =~= Seq::<u8>::empty());
        assert(r@ + Seq::<u8>::empty() =~= r@);
    }
    r
}

fn parse_main_packet(body: &[u8]) -> (r: Option<Packet>)
    ensures
        r.is_some() == main_body(body@).is_some(),
        r matches Some(p) ==> main_body(body@) == Some(p@),
{
    match take(body, 8) {
        Some((bytes, _)) => Some(Packet::Main(MainPacket { slice_size: read_u64_le(bytes) })),
        None => None,
    }
}

fn parse_file_packet(body: &[u8]) -> (r: Option<Packet>)
    ensures
        r.is_some() == file_body(body@).is_some(),
        r matches Some(p) ==> file_body(body@) == Some(p@),
{
    if body.len() < 56 {
        return None;
    }
    let file_id = hex_encode(slice_subrange(body, 0, 16));
    let hash16k = crate::byteseq::copy_range(body, 32, 48);
    let filesize = read_u64_le(slice_subrange(body, 48, 56));
    let name = copy_until_nul(slice_subrange(body, 56, body.len()));
    match utf8_string(name) {
        Some(filename) => Some(
            Packet::FileDesc(FileDescPacket { file_id, filename, hash16k, filesize }),
        ),
        None => None,
    }
}

fn parse_slice_packet(body: &[u8]) -> (r: Option<Packet>)
    ensures
        r.is_some() == slice_body(body@).is_some(),
        r matches Some(p) ==> slice_body(body@) == Some(p@),
{
    let len: usize = body.len();
    if len < 16 || (len - 16) % CRC_ENTRY_SIZE != 0 {
        return None;
    }
    let file_id = hex_encode(slice_subrange(body, 0, 16));
    let count: usize = (len - 16) / CRC_ENTRY_SIZE;
    let mut crcs: Vec<u32> = Vec::new();
    let mut i: usize = 0;
    while i < count
        invariant
            i <= count,
            len == body@.len(),
            len >= 16,
            count == (len - 16) / 20,
            (len - 16) % 20 == 0,
            crcs@.len() == i,
            forall|k: int|
                0 <= k < i ==> crcs@[k] == le_u32(
                    body@.subrange(16 + 20 * k + 16, 16 + 20 * k + 20),
                ) as u32,
        decreases count - i,
    {
        let at: usize = 16 + 20 * i + 16;
        let crc = read_u32_le(slice_subrange(body, at, at + 4));
        crcs.push(crc);
        i += 1;
    }
    let packet = Packet::IFSC(IFSCPacket { file_id, crcs });
    proof {
        let want = slice_body(body@).unwrap();
        assert(packet@->IFSC_crcs =~= want->IFSC_crcs);
    }
    Some(packet)
}

/// Parses the packet that starts at the first byte of `input`.
///
/// Returns the packet and its length in bytes, or nothing where `input`
/// does not open with a whole packet of a known type and sound body.
pub fn parse_packet(input: &[u8]) -> (r: Option<(Packet, usize)>)
    ensures
        r.is_some() == packet_at(input@).is_some(),
        r matches Some((p, n)) ==> packet_at(input@) == Some((p@, n as int)),
{
    let magic = par_pkt_id_bytes();
    if !occurs_at(input, magic.as_slice(), 0) {
        return None;
    }
    assert(par_pkt_id().len() == 8);
    if input.len() < 16 {
        return None;
    }
    let declared: u64 = read_u64_le(slice_subrange(input, 8, 16));
    if declared < 64 || declared > input.len() as u64 {
        return None;
    }
    let pack_len: usize = declared as usize;
    let kind = slice_subrange(input, 48, 64);
    let body = slice_subrange(input, 64, pack_len);
    let main_id = par_main_id_bytes();
    let file_id = par_file_id_bytes();
    let slice_id = par_slice_id_bytes();
    let packet = if crate::byteseq::bytes_eq(kind, main_id.as_slice()) {
        parse_main_packet(body)
    } else if crate::byteseq::bytes_eq(kind, file_id.as_slice()) {
        parse_file_packet(body)
    } else if crate::byteseq::bytes_eq(kind, slice_id.as_slice()) {
        parse_slice_packet(body)
    } else {
        None
    };
    match packet {
        Some(p) => Some((p, pack_len)),
        None => None,
    }
}

} // verus!
