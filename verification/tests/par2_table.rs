use nzb_streamer::archive::packet::FileDescPacket;
use nzb_streamer::archive::packet::IFSCPacket;
use nzb_streamer::archive::packet::MainPacket;
use nzb_streamer::archive::packet::Packet;
use nzb_streamer::nzb::types::NzbFile;
use nzb_streamer::par2::deobfuscate::Par2Deobfuscator;
use nzb_streamer::par2::error::Par2Error;
use nzb_streamer::par2::matcher::match_files_to_par2;
use nzb_streamer::par2::matcher::FileMatch;
use nzb_streamer::par2::matcher::ScannedFile;
use nzb_streamer::par2::par2_crc32::combine;
use nzb_streamer::par2::par2_crc32::multiply;
use nzb_streamer::par2::par2_crc32::xpow8n;
use nzb_streamer::par2::par2_crc32::zero_unpad;
use nzb_streamer::par2::parser::build_file_info;
use nzb_streamer::par2::parser::compute_file_hash;
use nzb_streamer::par2::parser::parse_buffer;
use nzb_streamer::par2::parser::FilePar2Info;

fn main(slice_size: u64) -> Packet {
    Packet::Main(MainPacket { slice_size })
}

fn desc(id: &str, name: &str, hash: u8, filesize: u64) -> Packet {
    Packet::FileDesc(FileDescPacket {
        file_id: id.to_string(),
        filename: name.to_string(),
        hash16k: vec![hash; 16],
        filesize,
    })
}

fn ifsc(id: &str, crcs: &[u32]) -> Packet {
    Packet::IFSC(IFSCPacket { file_id: id.to_string(), crcs: crcs.to_vec() })
}

fn row(name: &str, hash: u8, filesize: u64, filehash: u32) -> (String, FilePar2Info) {
    (name.to_string(), FilePar2Info { hash16k: vec![hash; 16], filesize, filehash })
}

#[test]
fn products_modulo_the_polynomial() {
    assert_eq!(multiply(1, 1), 1);
    assert_eq!(multiply(3, 5), 0xf);
    assert_eq!(multiply(0x80000000, 0x80000000), 0x60c4e640);
    assert_eq!(multiply(0xdeadbeef, 0x12345678), 0x2a76c908);
    assert_eq!(multiply(0xdeadbeef, 0), 0);
    assert_eq!(multiply(0, 0xdeadbeef), 0);
    assert_eq!(multiply(0xdeadbeef, 1), 0xdeadbeef);
}

#[test]
fn powers_of_x() {
    assert_eq!(xpow8n(0), 1);
    assert_eq!(xpow8n(1), 0x19795f40);
    assert_eq!(xpow8n(2), 0x7c844fa0);
    assert_eq!(xpow8n(4), 0xab78c560);
    assert_eq!(xpow8n(1000), 0x36bfb0c0);
    assert_eq!(xpow8n(2305843009213693952), 0x919cd960);
    assert_eq!(xpow8n(u64::MAX), 0xf868fc60);
    assert_eq!(multiply(xpow8n(1), xpow8n(1)), xpow8n(2));
}

#[test]
fn checksums_are_joined() {
    assert_eq!(combine(0x11111111, 0x22222222, 0), 0x11111111);
    assert_eq!(combine(0x11111111, 0x22222222, 5), 0x2d3a5702);
    assert_eq!(zero_unpad(0xcafebabe, 3), 0xf20d26e0);
    assert_eq!(zero_unpad(0xcafebabe, 0), 0xcafebabe);
}

#[test]
fn file_hash_joins_the_slices() {
    let coeff = xpow8n(4);
    assert_eq!(compute_file_hash(10, &[1, 2, 3], 4, coeff), 0xa78c0420);
    assert_eq!(compute_file_hash(8, &[1, 2, 3], 4, coeff), 0xab78c562);
    assert_eq!(compute_file_hash(100, &[1, 2, 3], 4, coeff), 0x6699ad63);
    assert_eq!(compute_file_hash(3, &[0xaabbccdd], 4, coeff), 0x7cf71ee0);
    assert_eq!(compute_file_hash(0, &[7], 4, coeff), 0);
    assert_eq!(compute_file_hash(10, &[], 4, coeff), 0);
}

#[test]
fn table_needs_a_main_packet() {
    assert_eq!(build_file_info(Vec::new()), Err(Par2Error::MissingMainPacket));
    assert_eq!(
        build_file_info(vec![desc("a", "a.rar", 1, 10), ifsc("a", &[1])]),
        Err(Par2Error::MissingMainPacket)
    );
    assert_eq!(build_file_info(vec![main(0), desc("a", "a.rar", 1, 10)]), Err(Par2Error::Parse));
    assert_eq!(build_file_info(vec![main(4)]), Ok(Vec::new()));
    assert_eq!(parse_buffer(&[]), Err(Par2Error::MissingMainPacket));
    assert_eq!(Par2Error::MissingMainPacket.message(), "PAR2 file holds no main packet");
}

#[test]
fn table_holds_the_files_with_checksums() {
    let packets = vec![
        desc("a", "a.rar", 1, 10),
        ifsc("b", &[7]),
        main(9),
        desc("b", "b.rar", 2, 100),
        desc("c", "c.rar", 3, 8),
        ifsc("a", &[1, 2]),
        main(4),
        ifsc("a", &[3]),
        ifsc("d", &[5]),
        ifsc("c", &[]),
    ];
    assert_eq!(
        build_file_info(packets),
        Ok(vec![row("a.rar", 1, 10, 0xa78c0420), row("b.rar", 2, 100, 7)])
    );
}

#[test]
fn later_descriptions_and_names_replace_earlier_ones() {
    let packets = vec![
        main(4),
        desc("a", "old.rar", 1, 10),
        desc("b", "b.rar", 2, 8),
        desc("a", "new.rar", 9, 8),
        desc("c", "b.rar", 3, 100),
        ifsc("a", &[1, 2, 3]),
        ifsc("b", &[1, 2, 3]),
        ifsc("c", &[1, 2, 3]),
    ];
    assert_eq!(
        build_file_info(packets),
        Ok(vec![row("new.rar", 9, 8, 0xab78c562), row("b.rar", 3, 100, 0x6699ad63)])
    );
}

#[test]
fn files_are_matched_by_fingerprint() {
    let scanned = vec![
        ScannedFile { path: "/d/x1".to_string(), hash16k: vec![2; 16], size: 20 },
        ScannedFile { path: "/d/x2".to_string(), hash16k: vec![9; 16], size: 90 },
        ScannedFile { path: "/d/x3".to_string(), hash16k: vec![1; 16], size: 10 },
    ];
    let table = vec![
        row("a.rar", 1, 10, 0),
        row("b.rar", 2, 20, 0),
        row("c.rar", 3, 30, 0),
        row("b2.rar", 2, 20, 0),
    ];
    let result = match_files_to_par2(&scanned, &table);
    assert_eq!(
        result.matched,
        vec![
            FileMatch {
                path: "/d/x1".to_string(),
                hash16k: vec![2; 16],
                size: 20,
                real_name: Some("b2.rar".to_string()),
            },
            FileMatch {
                path: "/d/x3".to_string(),
                hash16k: vec![1; 16],
                size: 10,
                real_name: Some("a.rar".to_string()),
            },
        ]
    );
    assert_eq!(result.missing, vec![("c.rar".to_string(), vec![3u8; 16])]);
    let nothing = match_files_to_par2(&[], &table);
    assert!(nothing.matched.is_empty());
    assert_eq!(nothing.missing.len(), 4);
    let empty = match_files_to_par2(&scanned, &[]);
    assert!(empty.matched.is_empty() && empty.missing.is_empty());
}

#[test]
fn obfuscated_names_are_told_from_real_ones() {
    for name in ["0a1b2c3d4e5f", "README", "  noext  ", "", "movie.0123abcdef", "movie.", "a.b.c.DEAD",
        "movie.averylongextension", "x.\u{e9}\u{e9}\u{e9}\u{e9}\u{e9}\u{e9}"]
    {
        assert!(Par2Deobfuscator::is_obfuscated_filename(name), "{name:?}");
    }
    for name in ["movie.mkv", "movie.rar", "  movie.r00 ", "a.b.c.txt", "x.012345678g", "x.tenletters",
        "x.\u{e9}\u{e9}\u{e9}\u{e9}\u{e9}"]
    {
        assert!(!Par2Deobfuscator::is_obfuscated_filename(name), "{name:?}");
    }
    assert!(Par2Deobfuscator::is_video_file("a.MKV"));
    assert!(!Par2Deobfuscator::is_video_file("a.rar"));
    assert!(Par2Deobfuscator::is_rar_file("a.R00"));
    assert!(!Par2Deobfuscator::is_rar_file("a.mkv"));
}

#[test]
fn manifests_of_mostly_obfuscated_names_need_resolving() {
    let file = |path: &str| {
        let mut f = NzbFile::new("s".to_string(), "p".to_string(), 0);
        f.path = path.to_string();
        f
    };
    let files = vec![file("abc123"), file("movie.mkv"), file("deadbeef"), file("clip.mp4")];
    assert!(!Par2Deobfuscator::needs_deobfuscation(&files));
    assert!(Par2Deobfuscator::needs_deobfuscation(&files[..3]));
    assert!(!Par2Deobfuscator::needs_deobfuscation(&files[1..2]));
    assert!(!Par2Deobfuscator::needs_deobfuscation(&[]));
    assert!(Par2Deobfuscator::needs_deobfuscation(&files[..1]));
    assert_eq!(Par2Deobfuscator::identify_video_files(&files), vec![&files[1], &files[3]]);
}

#[test]
fn product_has_a_one_and_a_zero_and_takes_its_factors_in_any_order() {
    let samples = [0u32, 1, 2, 3, 0x80000000, 0xEDB88320, 0xFFFFFFFF, 0x12345678, 0xDEADBEEF];
    for a in samples {
        assert_eq!(multiply(a, 1), a);
        assert_eq!(multiply(1, a), a);
        assert_eq!(multiply(a, 0), 0);
        assert_eq!(multiply(0, a), 0);
        for b in samples {
            assert_eq!(multiply(a, b), multiply(b, a));
            for c in samples {
                assert_eq!(multiply(multiply(a, b), c), multiply(a, multiply(b, c)));
            }
        }
    }
}

#[test]
fn lengths_add_where_their_powers_multiply() {
    assert_eq!(xpow8n(0), 1);
    for (n, m) in [(0u64, 0u64), (1, 1), (3, 4), (16384, 1), (1 << 40, 12345), (u64::MAX - 9, 9)] {
        assert_eq!(xpow8n(n + m), multiply(xpow8n(n), xpow8n(m)), "{n} {m}");
    }
    // three parts, joined from the left and from the right
    let (a, b, c) = (0x11111111u32, 0x22222222u32, 0x33333333u32);
    assert_eq!(combine(combine(a, b, 5), c, 7), combine(a, combine(b, c, 7), 12));
    assert_eq!(combine(combine(a, b, 5), c, 0), combine(a, combine(b, c, 0), 5));
}
