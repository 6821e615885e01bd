//! The table of a recovery set: for every file its fingerprint, its size
//! and the CRC32 of its whole content, worked out from the checksums of
//! its slices.
use crate::archive::packet::FileDescPacket;
use crate::archive::packet::FileDescView;
use crate::archive::packet::Packet;
use crate::archive::packet::PacketView;
use crate::archive::scan_for_packets;
use crate::archive::scan_from;
use crate::par2::error::Par2Error;
use crate::par2::par2_crc32::combine;
use crate::par2::par2_crc32::combined;
use crate::par2::par2_crc32::multiply;
use crate::par2::par2_crc32::product;
use crate::par2::par2_crc32::unpadded;
use crate::par2::par2_crc32::x_pow_8n;
use crate::par2::par2_crc32::xpow8n;
use crate::par2::par2_crc32::zero_unpad;
use crate::text::str_eq;
use vstd::prelude::*;

verus! {

/// What the recovery set tells of one file.
#[derive(Debug, Clone, PartialEq, Eq)]
pub struct FilePar2Info {
    pub hash16k: Vec<u8>,
    pub filesize: u64,
    /// CRC32 of the whole file.
    pub filehash: u32,
}

/// What the recovery set tells of one file.
pub ghost struct FilePar2InfoView {
    pub hash16k: Seq<u8>,
    pub filesize: u64,
    pub filehash: u32,
}

impl View for FilePar2Info {
    type V = FilePar2InfoView;

    open spec fn view(&self) -> FilePar2InfoView {
        FilePar2InfoView {
            hash16k: self.hash16k@,
            filesize: self.filesize,
            filehash: self.filehash,
        }
    }
}

/// The checksum of the first `n` whole slices: every slice shifts what
/// came before by its length and adds its own checksum.
pub open spec fn slices_hash(crcs: Seq<u32>, coeff: u32, n: int) -> u32
    decreases n,
{
    if n <= 0 {
        0
    } else {
        product(slices_hash(crcs, coeff, n - 1), coeff) ^ crcs[n - 1]
    }
}

/// The CRC32 of a file of `filesize` bytes from the checksums of its
/// slices of `slice_size` bytes; `coeff` stands for one slice length.
///
/// The whole slices for which a checksum is there are joined in order. A
/// last, shorter slice is joined without the zero bytes that pad it,
/// where its checksum is there.
pub open spec fn file_hash(filesize: u64, crcs: Seq<u32>, slice_size: u64, coeff: u32) -> u32 {
    let slices = filesize as int / slice_size as int;
    let whole = if slices < crcs.len() {
        slices
    } else {
        crcs.len() as int
    };
    let head = slices_hash(crcs, coeff, whole);
    let tail_size = filesize as int % slice_size as int;
    if tail_size > 0 && slices < crcs.len() {
        combined(
            head,
            unpadded(crcs[slices], (slice_size - tail_size) as u64),
            tail_size as u64,
        )
    } else {
        head
    }
}

/// Works out the CRC32 of a file from the checksums of its slices.
pub fn compute_file_hash(filesize: u64, crcs: &[u32], slice_size: u64, coeff: u32) -> (r: u32)
    requires
        slice_size > 0,
    ensures
        r == file_hash(filesize, crcs@, slice_size, coeff),
{
    let slices: u64 = filesize / slice_size;
    let len: usize = crcs.len();
    let whole: usize = if slices < len as u64 {
        slices as usize
    } else {
        len
    };
    let mut crc32: u32 = 0;
    let mut i: usize = 0;
    while i < whole
        invariant
            i <= whole <= len,
            len == crcs@.len(),
            crc32 == slices_hash(crcs@, coeff, i as int),
        decreases whole - i,
    {
        crc32 = multiply(crc32, coeff) ^ crcs[i];
        i += 1;
    }
    let tail_size: u64 = filesize % slice_size;
    if tail_size > 0 && slices < len as u64 {
        let tail_crc = zero_unpad(crcs[slices as usize], slice_size - tail_size);
        crc32 = combine(crc32, tail_crc, tail_size);
    }
    crc32
}

/// The slice size that the last main packet names.
pub open spec fn slice_size_of(packets: Seq<PacketView>) -> Option<u64>
    decreases packets.len(),
{
    if packets.len() == 0 {
        None
    } else {
        match packets.last() {
            PacketView::Main { slice_size } => Some(slice_size),
            _ => slice_size_of(packets.drop_last()),
        }
    }
}

/// Index of the first description at or after `from` with the file id
/// `id`.
pub open spec fn desc_index_from(descs: Seq<FileDescView>, id: Seq<char>, from: int) -> Option<int>
    decreases descs.len() - from,
{
    if from < 0 || from >= descs.len() {
        None
    } else if descs[from].file_id == id {
        Some(from)
    } else {
        desc_index_from(descs, id, from + 1)
    }
}

/// The file descriptions among `packets`, one for every file id: a later
/// description takes the place of an earlier one of the same id.
pub open spec fn descriptions(packets: Seq<PacketView>) -> Seq<FileDescView>
    decreases packets.len(),
{
    if packets.len() == 0 {
        Seq::empty()
    } else {
        let before = descriptions(packets.drop_last());
        match packets.last() {
            PacketView::FileDesc(d) => match desc_index_from(before, d.file_id, 0) {
                Some(i) => before.update(i, d),
                None => before.push(d),
            },
            _ => before,
        }
    }
}

/// The slice checksums that `packets` hold for the file id `id`, in the
/// order of the packets.
pub open spec fn checksums(packets: Seq<PacketView>, id: Seq<char>) -> Seq<u32>
    decreases packets.len(),
{
    if packets.len() == 0 {
        Seq::empty()
    } else {
        match packets.last() {
            PacketView::IFSC { file_id, crcs } => if file_id == id {
                checksums(packets.drop_last(), id) + crcs
            } else {
                checksums(packets.drop_last(), id)
            },
            _ => checksums(packets.drop_last(), id),
        }
    }
}

/// Index of the first row at or after `from` that is named `name`.
pub open spec fn row_index_from(
    rows: Seq<(Seq<char>, FilePar2InfoView)>,
    name: Seq<char>,
    from: int,
) -> Option<int>
    decreases rows.len() - from,
{
    if from < 0 || from >= rows.len() {
        None
    } else if rows[from].0 == name {
        Some(from)
    } else {
        row_index_from(rows, name, from + 1)
    }
}

/// The rows for the descriptions `descs`: one for every description for
/// which slice checksums are there, under its file name; a later row
/// takes the place of an earlier one of the same name.
pub open spec fn rows_of(descs: Seq<FileDescView>, packets: Seq<PacketView>, slice_size: u64) -> Seq<
    (Seq<char>, FilePar2InfoView),
>
    decreases descs.len(),
{
    if descs.len() == 0 {
        Seq::empty()
    } else {
        let before = rows_of(descs.drop_last(), packets, slice_size);
        let d = descs.last();
        let crcs = checksums(packets, d.file_id);
        if crcs.len() == 0 {
            before
        } else {
            let row = (
                d.filename,
                FilePar2InfoView {
                    hash16k: d.hash16k,
                    filesize: d.filesize,
                    filehash: file_hash(d.filesize, crcs, slice_size, x_pow_8n(slice_size)),
                },
            );
            match row_index_from(before, d.filename, 0) {
                Some(i) => before.update(i, row),
                None => before.push(row),
            }
        }
    }
}

/// The table that `packets` give: it needs a main packet that names a
/// slice size other than zero.
pub open spec fn table_of(packets: Seq<PacketView>) -> Result<
    Seq<(Seq<char>, FilePar2InfoView)>,
    Par2Error,
> {
    match slice_size_of(packets) {
        None => Err(Par2Error::MissingMainPacket),
        Some(slice_size) => if slice_size == 0 {
            Err(Par2Error::Parse)
        } else {
            Ok(rows_of(descriptions(packets), packets, slice_size))
        },
    }
}

/// The views of the rows of a table.
pub open spec fn rows_view(rows: Seq<(String, FilePar2Info)>) -> Seq<(Seq<char>, FilePar2InfoView)> {
    Seq::new(rows.len(), |i: int| (rows[i].0@, rows[i].1@))
}

/// The views of packets.
pub open spec fn packets_view(packets: Seq<Packet>) -> Seq<PacketView> {
    packets.map_values(|p: Packet| p@)
}

/// The views of descriptions.
pub open spec fn descs_view(descs: Seq<FileDescPacket>) -> Seq<FileDescView> {
    descs.map_values(|d: FileDescPacket| d@)
}

fn last_slice_size(packets: &Vec<Packet>) -> (r: Option<u64>)
    ensures
        r == slice_size_of(packets_view(packets@)),
{
    let ghost all = packets_view(packets@);
    let mut found: Option<u64> = None;
    let mut i: usize = 0;
    assert(all.subrange(0, 0) =~= Seq::<PacketView>::empty());
    while i < packets.len()
        invariant
            i <= packets@.len(),
            all == packets_view(packets@),
            found == slice_size_of(all.subrange(0, i as int)),
        decreases packets@.len() - i,
    {
        let ghost next = all.subrange(0, i + 1);
        assert(next.drop_last() =~= all.subrange(0, i as int));
        assert(next.last() == packets@[i as int]@);
        match &packets[i] {
            Packet::Main(m) => {
                found = Some(m.slice_size);
            },
            _ => {},
        }
        i += 1;
    }
    assert(all.subrange(0, i as int) =~= all);
    found
}

fn copy_desc(d: &FileDescPacket) -> (r: FileDescPacket)
    ensures
        r@ == d@,
{
    FileDescPacket {
        file_id: d.file_id.clone(),
        filename: d.filename.clone(),
        hash16k: d.hash16k.clone(),
        filesize: d.filesize,
    }
}

fn collect_descriptions(packets: &Vec<Packet>) -> (descs: Vec<FileDescPacket>)
    ensures
        descs_view(descs@) == descriptions(packets_view(packets@)),
{
    let ghost all = packets_view(packets@);
    let mut descs: Vec<FileDescPacket> = Vec::new();
    let mut i: usize = 0;
    assert(all.subrange(0, 0) =~= Seq::<PacketView>::empty());
    assert(descs_view(descs@) =~= Seq::<FileDescView>::empty());
    while i < packets.len()
        invariant
            i <= packets@.len(),
            all == packets_view(packets@),
            descs_view(descs@) == descriptions(all.subrange(0, i as int)),
        decreases packets@.len() - i,
    {
        let ghost next = all.subrange(0, i + 1);
        let ghost before = descs_view(descs@);
        assert(next.drop_last() =~= all.subrange(0, i as int));
        assert(next.last() == packets@[i as int]@);
        match &packets[i] {
            Packet::FileDesc(d) => {
                let mut at: Option<usize> = None;
                let mut k: usize = 0;
                while k < descs.len()
                    invariant_except_break
                        at is None,
                        desc_index_from(before, d@.file_id, 0) == desc_index_from(
                            before,
                            d@.file_id,
                            k as int,
                        ),
                    invariant
                        k <= descs@.len(),
                        before == descs_view(descs@),
                    ensures
                        match at {
                            Some(j) => j < descs@.len() && desc_index_from(before, d@.file_id, 0)
                                == Some(j as int),
                            None => desc_index_from(before, d@.file_id, 0) is None,
                        },
                    decreases descs@.len() - k,
                {
                    assert(before[k as int] == descs@[k as int]@);
                    if str_eq(descs[k].file_id.as_str(), d.file_id.as_str()) {
                        at = Some(k);
                        break;
                    }
                    k += 1;
                }
                let copy = copy_desc(d);
                match at {
                    Some(j) => {
                        descs[j] = copy;
                        assert(descs_view(descs@) =~= before.update(j as int, d@));
                    },
                    None => {
                        descs.push(copy);
                        assert(descs_view(descs@) =~= before.push(d@));
                    },
                }
            },
            _ => {},
        }
        i += 1;
    }
    assert(all.subrange(0, i as int) =~= all);
    descs
}

fn collect_checksums(packets: &Vec<Packet>, id: &str) -> (crcs: Vec<u32>)
    ensures
        crcs@ == checksums(packets_view(packets@), id@),
{
    let ghost all = packets_view(packets@);
    let mut crcs: Vec<u32> = Vec::new();
    let mut i: usize = 0;
    assert(all.subrange(0, 0) =~= Seq::<PacketView>::empty());
    while i < packets.len()
        invariant
            i <= packets@.len(),
            all == packets_view(packets@),
            crcs@ == checksums(all.subrange(0, i as int), id@),
        decreases packets@.len() - i,
    {
        let ghost next = all.subrange(0, i + 1);
        assert(next.drop_last() =~= all.subrange(0, i as int));
        assert(next.last() == packets@[i as int]@);
        match &packets[i] {
            Packet::IFSC(s) => {
                if str_eq(s.file_id.as_str(), id) {
                    crcs.extend_from_slice(s.crcs.as_slice());
                }
            },
            _ => {},
        }
        i += 1;
    }
    assert(all.subrange(0, i as int) =~= all);
    crcs
}

/// Builds the table of a recovery set from its packets.
///
/// Every file that is described and for which slice checksums are there
/// gets a row under its file name. Fails where no main packet names the
/// slice size, or names zero.
pub fn build_file_info(packets: Vec<Packet>) -> (r: Result<Vec<(String, FilePar2Info)>, Par2Error>)
    ensures
        match table_of(packets_view(packets@)) {
            Ok(rows) => r matches Ok(table) && rows_view(table@) == rows,
            Err(e) => r == Err::<Vec<(String, FilePar2Info)>, Par2Error>(e),
        },
{
    let ghost all = packets_view(packets@);
    let slice_size: u64 = match last_slice_size(&packets) {
        Some(s) => s,
        None => {
            return Err(Par2Error::MissingMainPacket);
        },
    };
    if slice_size == 0 {
        return Err(Par2Error::Parse);
    }
    let coeff = xpow8n(slice_size);
    let descs = collect_descriptions(&packets);
    let ghost dv = descs_view(descs@);
    let mut table: Vec<(String, FilePar2Info)> = Vec::new();
    let mut i: usize = 0;
    assert(dv.subrange(0, 0) =~= Seq::<FileDescView>::empty());
    assert(rows_view(table@) =~= Seq::<(Seq<char>, FilePar2InfoView)>::empty());
    while i < descs.len()
        invariant
            i <= descs@.len(),
            all == packets_view(packets@),
            dv == descs_view(descs@),
            slice_size > 0,
            coeff == x_pow_8n(slice_size),
            rows_view(table@) == rows_of(dv.subrange(0, i as int), all, slice_size),
        decreases descs@.len() - i,
    {
        let d = &descs[i];
        let ghost next = dv.subrange(0, i + 1);
        let ghost before = rows_view(table@);
        assert(next.drop_last() =~= dv.subrange(0, i as int));
        assert(next.last() == d@);
        let crcs = collect_checksums(&packets, d.file_id.as_str());
        if crcs.len() > 0 {
            let filehash = compute_file_hash(d.filesize, crcs.as_slice(), slice_size, coeff);
            let info = FilePar2Info { hash16k: d.hash16k.clone(), filesize: d.filesize, filehash };
            let ghost row = (d.filename@, info@);
            let mut at: Option<usize> = None;
            let mut k: usize = 0;
            while k < table.len()
                invariant_except_break
                    at is None,
                    row_index_from(before, d.filename@, 0) == row_index_from(
                        before,
                        d.filename@,
                        k as int,
                    ),
                invariant
                    k <= table@.len(),
                    before == rows_view(table@),
                ensures
                    match at {
                        Some(j) => j < table@.len() && row_index_from(before, d.filename@, 0)
                            == Some(j as int),
                        None => row_index_from(before, d.filename@, 0) is None,
                    },
                decreases table@.len() - k,
            {
                assert(before[k as int].0 == table@[k as int].0@);
                if str_eq(table[k].0.as_str(), d.filename.as_str()) {
                    at = Some(k);
                    break;
                }
                k += 1;
            }
            let entry = (d.filename.clone(), info);
            match at {
                Some(j) => {
                    table[j] = entry;
                    assert(rows_view(table@) =~= before.update(j as int, row));
                },
                None => {
                    table.push(entry);
                    assert(rows_view(table@) =~= before.push(row));
                },
            }
        }
        i += 1;
    }
    assert(dv.subrange(0, i as int) =~= dv);
    Ok(table)
}

/// Reads the table of a recovery set from the bytes of a PAR2 file.
pub fn parse_buffer(buffer: &[u8]) -> (r: Result<Vec<(String, FilePar2Info)>, Par2Error>)
    ensures
        match table_of(scan_from(buffer@, 0)) {
            Ok(rows) => r matches Ok(table) && rows_view(table@) == rows,
            Err(e) => r == Err::<Vec<(String, FilePar2Info)>, Par2Error>(e),
        },
{
    let packets = scan_for_packets(buffer);
    build_file_info(packets)
}

} // verus!
