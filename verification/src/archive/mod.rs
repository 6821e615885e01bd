//! Reading a PAR2 file into a manifest.
use crate::archive::packet::packet_at;
use crate::archive::packet::parse_packet;
use crate::archive::packet::Packet;
use crate::archive::packet::PacketView;
use crate::archive::par2::collect_entries;
use crate::archive::par2::FileInfo;
use crate::archive::par2::FileInfoView;
use crate::archive::par2::Par2Manifest;
use crate::par2::error::Par2Error;
use vstd::prelude::*;
use vstd::slice::slice_subrange;

pub mod error;
pub mod packet;
pub mod par2;
pub mod rar;
pub mod volume;

verus! {

/// The packets found in `buf` from `cursor` on.
///
/// Where a packet starts at the cursor it is taken and the cursor moves
/// past it; elsewhere the cursor moves on by one byte.
pub open spec fn scan_from(buf: Seq<u8>, cursor: int) -> Seq<PacketView>
    decreases buf.len() - cursor,
{
    if cursor < 0 || cursor >= buf.len() {
        Seq::empty()
    } else {
        match packet_at(buf.subrange(cursor, buf.len() as int)) {
            Some((p, n)) => if 0 < n && cursor + n <= buf.len() {
                seq![p] + scan_from(buf, cursor + n)
            } else {
                Seq::empty()
            },
            None => scan_from(buf, cursor + 1),
        }
    }
}

/// A packet that is found has at least a full header and lies within the
/// input.
pub proof fn lemma_packet_length(input: Seq<u8>)
    ensures
        packet_at(input) matches Some((_, n)) ==> 64 <= n <= input.len(),
{
}

/// The manifest entries that the file descriptions among `packets` give,
/// in the order of the packets.
pub open spec fn file_infos(packets: Seq<PacketView>) -> Seq<FileInfoView>
    decreases packets.len(),
{
    if packets.len() == 0 {
        Seq::empty()
    } else {
        match packets.last() {
            PacketView::FileDesc(d) => file_infos(packets.drop_last()).push(
                FileInfoView {
                    real_filename: d.filename,
                    hash16k: d.hash16k,
                    file_size: d.filesize,
                },
            ),
            _ => file_infos(packets.drop_last()),
        }
    }
}

/// Whether a main packet is among `packets`.
pub open spec fn holds_main(packets: Seq<PacketView>) -> bool {
    exists|i: int| 0 <= i < packets.len() && packets[i] is Main
}

/// The manifest that the bytes of a PAR2 file give.
pub open spec fn manifest_of(buf: Seq<u8>) -> Seq<FileInfoView> {
    collect_entries(file_infos(scan_from(buf, 0)))
}

/// `r` is what parsing `buf` gives: the manifest of its file
/// descriptions, or `NoFiles` where it holds none.
pub open spec fn parse_outcome(buf: Seq<u8>, r: Result<Par2Manifest, Par2Error>) -> bool {
    match r {
        Ok(m) => manifest_of(buf).len() > 0 && m@ == manifest_of(buf),
        Err(e) => manifest_of(buf).len() == 0 && e == Par2Error::NoFiles,
    }
}

/// Sweeps `buffer` for packets.
pub fn scan_for_packets(buffer: &[u8]) -> (packets: Vec<Packet>)
    ensures
        packets@.map_values(|p: Packet| p@) == scan_from(buffer@, 0),
{
    let mut packets: Vec<Packet> = Vec::new();
    let mut cursor: usize = 0;
    let len: usize = buffer.len();
    assert(packets@.map_values(|p: Packet| p@) + scan_from(buffer@, 0) =~= scan_from(buffer@, 0));
    while cursor < len
        invariant
            cursor <= len,
            len == buffer@.len(),
            scan_from(buffer@, 0) == packets@.map_values(|p: Packet| p@) + scan_from(
                buffer@,
                cursor as int,
            ),
        decreases len - cursor,
    {
        let rest = slice_subrange(buffer, cursor, len);
        proof {
            lemma_packet_length(rest@);
        }
        let ghost before = packets@.map_values(|p: Packet| p@);
        match parse_packet(rest) {
            Some((packet, length)) => {
                let ghost pv = packet@;
                packets.push(packet);
                assert(packets@.map_values(|p: Packet| p@) =~= before.push(pv));
                assert(before + (seq![pv] + scan_from(buffer@, cursor + length)) =~= before.push(pv)
                    + scan_from(buffer@, cursor + length));
                cursor += length;
            },
            None => {
                cursor += 1;
            },
        }
    }
    assert(packets@.map_values(|p: Packet| p@) + Seq::<PacketView>::empty()
        =~= packets@.map_values(|p: Packet| p@));
    packets
}

/// Whether a main packet is among `packets`. A PAR2 file without one may
/// still be used, but is likely damaged.
pub fn has_main_packet(packets: &Vec<Packet>) -> (r: bool)
    ensures
        r == holds_main(packets@.map_values(|p: Packet| p@)),
{
    let mut i: usize = 0;
    while i < packets.len()
        invariant
            i <= packets@.len(),
            forall|k: int| 0 <= k < i ==> !(packets@[k]@ is Main),
        decreases packets@.len() - i,
    {
        match &packets[i] {
            Packet::Main(_) => {
                assert(packets@.map_values(|p: Packet| p@)[i as int] is Main);
                return true;
            },
            _ => {},
        }
        i += 1;
    }
    false
}

/// The manifest entries of the file descriptions among `packets`.
pub fn collect_file_infos(packets: Vec<Packet>) -> (infos: Vec<FileInfo>)
    ensures
        infos@.map_values(|f: FileInfo| f@) == file_infos(packets@.map_values(|p: Packet| p@)),
{
    let ghost all = packets@.map_values(|p: Packet| p@);
    let mut infos: Vec<FileInfo> = Vec::new();
    let mut i: usize = 0;
    assert(all.subrange(0, 0) =~= Seq::<PacketView>::empty());
    assert(infos@.map_values(|f: FileInfo| f@) =~= Seq::<FileInfoView>::empty());
    while i < packets.len()
        invariant
            i <= packets@.len(),
            all == packets@.map_values(|p: Packet| p@),
            infos@.map_values(|f: FileInfo| f@) == file_infos(all.subrange(0, i as int)),
        decreases packets@.len() - i,
    {
        let ghost next = all.subrange(0, i + 1);
        assert(next.drop_last() =~= all.subrange(0, i as int));
        assert(next.last() == packets@[i as int]@);
        let ghost before = infos@.map_values(|f: FileInfo| f@);
        match &packets[i] {
            Packet::FileDesc(desc) => {
                let info = FileInfo {
                    real_filename: desc.filename.clone(),
                    hash16k: desc.hash16k.clone(),
                    file_size: desc.filesize,
                };
                let ghost iv = info@;
                infos.push(info);
                assert(infos@.map_values(|f: FileInfo| f@) =~= before.push(iv));
            },
            _ => {},
        }
        i += 1;
    }
    assert(all.subrange(0, i as int) =~= all);
    infos
}

/// Reads the manifest of a PAR2 file from its bytes.
///
/// Every file description found gives one entry under its file name; a
/// later description replaces an earlier one of the same name. Fails with
/// `NoFiles` exactly when no file description is found.
pub fn parse_buffer(buffer: &[u8]) -> (r: Result<Par2Manifest, Par2Error>)
    ensures
        parse_outcome(buffer@, r),
        r matches Ok(m) ==> m.wf(),
{
    let packets = scan_for_packets(buffer);
    let infos = collect_file_infos(packets);
    let manifest = Par2Manifest::new(infos);
    if manifest.len() == 0 {
        return Err(Par2Error::NoFiles);
    }
    Ok(manifest)
}

/// Parsing is a function of the bytes: two results for the same buffer
/// hold the same manifest, or are the same error.
pub proof fn lemma_parse_deterministic(
    buf: Seq<u8>,
    first: Result<Par2Manifest, Par2Error>,
    second: Result<Par2Manifest, Par2Error>,
)
    requires
        parse_outcome(buf, first),
        parse_outcome(buf, second),
    ensures
        first is Ok <==> second is Ok,
        first matches Ok(a) ==> second matches Ok(b) && a@ == b@,
        first matches Err(a) ==> second matches Err(b) && a == b,
{
}

/// A buffer without any byte holds no file description.
pub proof fn lemma_empty_buffer_has_no_files()
    ensures
        manifest_of(Seq::<u8>::empty()).len() == 0,
{
    assert(scan_from(Seq::<u8>::empty(), 0) =~= Seq::<PacketView>::empty());
}

} // verus!
