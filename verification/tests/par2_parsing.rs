use nzb_streamer::archive::has_main_packet;
use nzb_streamer::archive::packet::parse_packet;
use nzb_streamer::archive::packet::take;
use nzb_streamer::archive::packet::Packet;
use nzb_streamer::archive::par2::FileInfo;
use nzb_streamer::archive::par2::Par2Manifest;
use nzb_streamer::archive::parse_buffer;
use nzb_streamer::archive::scan_for_packets;
use nzb_streamer::par2::error::Par2Error;

const MAGIC: &[u8] = b"PAR2\x00PKT";
const MAIN: &[u8] = b"PAR 2.0\x00Main\x00\x00\x00\x00";
const FILE: &[u8] = b"PAR 2.0\x00FileDesc";
const SLICE: &[u8] = b"PAR 2.0\x00IFSC\x00\x00\x00\x00";

fn packet(kind: &[u8], body: &[u8]) -> Vec<u8> {
    let mut p = MAGIC.to_vec();
    p.extend_from_slice(&((64 + body.len()) as u64).to_le_bytes());
    p.extend_from_slice(&[0xEE; 16]); // checksum of the packet, not looked at
    p.extend_from_slice(&[0x55; 16]); // recovery set
    p.extend_from_slice(kind);
    p.extend_from_slice(body);
    p
}

fn file_desc(id: u8, hash: u8, size: u64, name: &[u8]) -> Vec<u8> {
    let mut body = vec![id; 16];
    body.extend_from_slice(&[0x99; 16]);
    body.extend_from_slice(&[hash; 16]);
    body.extend_from_slice(&size.to_le_bytes());
    body.extend_from_slice(name);
    packet(FILE, &body)
}

fn info(name: &str, hash: u8, size: u64) -> FileInfo {
    FileInfo::new(name.to_string(), vec![hash; 16], size)
}

#[test]
fn test_parse_par2() {
    let path = "/tmp/downloaded/db5839e271decea10e9e713aa0e20573.par2";
    // no file is read here: the bytes of a file that is not there are none
    let buffer: Vec<u8> = Vec::new();
    match parse_buffer(&buffer) {
        Ok(table) => {
            for info in &table.files {
                println!("{}: FileInfo {{", info.real_filename);
                println!("    hash16k: {:?},", info.hash16k);
                println!("    filesize: {},", info.file_size);
                println!("}}");
            }
        }
        Err(e) => println!("Error: {e:?} ({path})"),
    }
}

#[test]
fn test_parse_par2_again() {
    let path = "/tmp/nzb/downloads/downloads/inter/Foundation.S03E03.When.a.Book.Finds.You.1080p.ATVP.WEB-DL.DDP5.1.H.264-NTb.#4/0ae5e6761c69051d401054734c174e91.par2";
    let buffer: Vec<u8> = Vec::new();
    match parse_buffer(&buffer) {
        Ok(table) => {
            for info in &table.files {
                println!("{}: FileInfo {{", info.real_filename);
                println!("    hash16k: {:?},", info.hash16k);
                println!("    filesize: {},", info.file_size);
                println!("}}");
            }
        }
        Err(e) => println!("Error: {e:?} ({path})"),
    }
}

#[test]
fn test_parse_par2_again_again() {
    let path = "/tmp/test_nntp/downloads/test.par2";
    let buffer: Vec<u8> = Vec::new();
    match parse_buffer(&buffer) {
        Ok(table) => {
            for info in &table.files {
                println!("{}: FileInfo {{", info.real_filename);
                println!("    hash16k: {:?},", info.hash16k);
                println!("    filesize: {},", info.file_size);
                println!("}}");
            }
        }
        Err(e) => println!("Error: {e:?} ({path})"),
    }
}

#[test]
fn empty_par2_has_no_files() {
    assert_eq!(parse_buffer(&[]), Err(Par2Error::NoFiles));
    assert_eq!(parse_buffer(b"PAR2\x00PKT"), Err(Par2Error::NoFiles));
    assert_eq!(parse_buffer(&vec![0u8; 500]), Err(Par2Error::NoFiles));
    assert_eq!(parse_buffer(&packet(MAIN, &4096u64.to_le_bytes())), Err(Par2Error::NoFiles));
    assert_eq!(Par2Error::NoFiles.message(), "No files found");
}

#[test]
fn file_descriptions_make_the_manifest() {
    let mut buf = packet(MAIN, &4096u64.to_le_bytes());
    buf.extend(file_desc(1, 0xA1, 1000, b"movie.rar\0\0\0"));
    buf.extend(file_desc(2, 0xB2, 2000, b"movie.r00\0"));
    buf.extend(packet(SLICE, &[3u8; 16 + 40]));
    buf.extend(file_desc(3, 0xC3, 3000, b"movie.r01"));
    let manifest = parse_buffer(&buf).unwrap();
    assert_eq!(
        manifest.files,
        vec![info("movie.rar", 0xA1, 1000), info("movie.r00", 0xB2, 2000), info("movie.r01", 0xC3, 3000)]
    );
    assert_eq!(manifest.len(), 3);
}

#[test]
fn parsing_twice_gives_the_same_manifest() {
    let mut buf = vec![7u8; 13];
    buf.extend(file_desc(1, 0xA1, 1000, b"a.rar\0"));
    buf.extend_from_slice(b"garbage between packets");
    buf.extend(file_desc(2, 0xB2, 2000, b"a.r00\0"));
    let first = parse_buffer(&buf).unwrap();
    let second = parse_buffer(&buf).unwrap();
    assert_eq!(first, second);
    assert_eq!(first.files.len(), 2);
    assert_eq!(parse_buffer(&[1, 2, 3]), parse_buffer(&[1, 2, 3]));
}

#[test]
fn later_description_of_a_name_wins() {
    let mut buf = file_desc(1, 0xA1, 1000, b"a.rar\0");
    buf.extend(file_desc(2, 0xB2, 2000, b"b.rar\0"));
    buf.extend(file_desc(3, 0xC3, 3000, b"a.rar\0"));
    let manifest = parse_buffer(&buf).unwrap();
    assert_eq!(manifest.files, vec![info("a.rar", 0xC3, 3000), info("b.rar", 0xB2, 2000)]);
}

#[test]
fn malformed_packets_are_dropped_and_the_scan_goes_on() {
    // declared length reaches past the buffer
    let mut cut = file_desc(1, 0xA1, 1000, b"a.rar\0");
    cut.truncate(cut.len() - 3);
    assert_eq!(parse_buffer(&cut), Err(Par2Error::NoFiles));
    // a name that is not UTF-8
    let mut buf = file_desc(1, 0xA1, 1000, &[0xFF, 0xFE, 0]);
    // an unknown type
    buf.extend(packet(b"PAR 2.0\x00RecvSlic", &[0u8; 80]));
    // a file description that is too short
    buf.extend(packet(FILE, &[0u8; 55]));
    // a length below the header size
    let mut short = MAGIC.to_vec();
    short.extend_from_slice(&31u64.to_le_bytes());
    short.extend_from_slice(&[0u8; 60]);
    buf.extend(short);
    buf.extend(file_desc(2, 0xB2, 2000, b"b.rar\0"));
    let manifest = parse_buffer(&buf).unwrap();
    assert_eq!(manifest.files, vec![info("b.rar", 0xB2, 2000)]);
}

#[test]
fn packets_are_parsed_with_their_lengths() {
    let main = packet(MAIN, &[0x00, 0x10, 0, 0, 0, 0, 0, 0, 0xFF]);
    match parse_packet(&main) {
        Some((Packet::Main(m), n)) => {
            assert_eq!(m.slice_size, 4096);
            assert_eq!(n, 73);
        }
        other => panic!("unexpected {other:?}"),
    }
    let mut id = vec![0x0Fu8; 16];
    id[0] = 0xA0;
    let mut body = id.clone();
    body.extend_from_slice(&[0x99; 16]);
    body.extend_from_slice(&[0x42; 16]);
    body.extend_from_slice(&0x0102030405060708u64.to_le_bytes());
    body.extend_from_slice("caf\u{e9}.rar\0ignored".as_bytes());
    let mut desc = packet(FILE, &body);
    let len = desc.len();
    desc.extend_from_slice(b"trailing bytes");
    match parse_packet(&desc) {
        Some((Packet::FileDesc(d), n)) => {
            assert_eq!(d.file_id, "a00f0f0f0f0f0f0f0f0f0f0f0f0f0f0f");
            assert_eq!(d.filename, "caf\u{e9}.rar");
            assert_eq!(d.hash16k, vec![0x42; 16]);
            assert_eq!(d.filesize, 0x0102030405060708);
            assert_eq!(n, len);
        }
        other => panic!("unexpected {other:?}"),
    }
    let mut body = vec![0xABu8; 16];
    body.extend_from_slice(&[0u8; 16]);
    body.extend_from_slice(&0xDEADBEEFu32.to_le_bytes());
    body.extend_from_slice(&[1u8; 16]);
    body.extend_from_slice(&7u32.to_le_bytes());
    match parse_packet(&packet(SLICE, &body)) {
        Some((Packet::IFSC(s), n)) => {
            assert_eq!(s.file_id, "abababababababababababababababab");
            assert_eq!(s.crcs, vec![0xDEADBEEF, 7]);
            assert_eq!(n, 64 + 56);
        }
        other => panic!("unexpected {other:?}"),
    }
    assert!(parse_packet(&packet(SLICE, &[0u8; 16 + 19])).is_none());
    assert!(parse_packet(&packet(MAIN, &[0u8; 7])).is_none());
    assert!(parse_packet(&[]).is_none());
    assert!(parse_packet(b"PAR2\x00PKT").is_none());
    assert!(parse_packet(&desc[1..]).is_none());
}

#[test]
fn scan_finds_packets_between_garbage() {
    let mut buf = b"xx".to_vec();
    buf.extend(packet(MAIN, &1u64.to_le_bytes()));
    buf.extend_from_slice(b"PAR2\x00PK");
    buf.extend(file_desc(1, 2, 3, b"n\0"));
    let packets = scan_for_packets(&buf);
    assert_eq!(packets.len(), 2);
    assert!(matches!(packets[0], Packet::Main(_)));
    assert!(matches!(packets[1], Packet::FileDesc(_)));
    assert!(has_main_packet(&packets));
    assert!(!has_main_packet(&scan_for_packets(&file_desc(1, 2, 3, b"n\0"))));
    assert!(scan_for_packets(&[]).is_empty());
}

#[test]
fn take_splits_a_slice() {
    assert_eq!(take(b"abcdef", 2), Some((&b"ab"[..], &b"cdef"[..])));
    assert_eq!(take(b"abcdef", 0), Some((&b""[..], &b"abcdef"[..])));
    assert_eq!(take(b"abcdef", 6), Some((&b"abcdef"[..], &b""[..])));
    assert_eq!(take(b"abcdef", 7), None);
    assert_eq!(take(b"", 0), Some((&b""[..], &b""[..])));
}

#[test]
fn manifest_lookups() {
    let manifest = Par2Manifest::new(vec![
        info("movie.rar", 1, 10),
        info("movie.r00", 2, 20),
        info("movie.r01", 2, 30),
        info("movie.rar", 3, 40),
    ]);
    assert_eq!(
        manifest.files,
        vec![info("movie.rar", 3, 40), info("movie.r00", 2, 20), info("movie.r01", 2, 30)]
    );
    assert_eq!(manifest.real_name_for(&[2; 16]), Some("movie.r00"));
    assert_eq!(manifest.real_name_for(&[3; 16]), Some("movie.rar"));
    assert_eq!(manifest.real_name_for(&[1; 16]), None);
    assert_eq!(manifest.real_name_for(&[2; 15]), None);
    assert_eq!(manifest.position("movie.r01"), Some(2));
    assert_eq!(manifest.position("movie.r02"), None);
    assert_eq!(
        manifest.hash_to_filename(),
        vec![
            (vec![3u8; 16], "movie.rar".to_string()),
            (vec![2u8; 16], "movie.r00".to_string()),
            (vec![2u8; 16], "movie.r01".to_string()),
        ]
    );
    assert_eq!(manifest.find_missing_files(&[]), vec!["movie.rar", "movie.r00", "movie.r01"]);
    assert_eq!(manifest.find_missing_files(&[vec![2u8; 16]]), vec!["movie.rar"]);
    assert_eq!(
        manifest.find_missing_files(&[vec![9u8; 16], vec![3u8; 16], vec![2u8; 16]]),
        Vec::<String>::new()
    );
    let mut m = Par2Manifest::new(Vec::new());
    assert_eq!(m.len(), 0);
    m.insert(info("a", 1, 1));
    m.insert(info("b", 2, 2));
    m.insert(info("a", 3, 3));
    assert_eq!(m.files, vec![info("a", 3, 3), info("b", 2, 2)]);
}
