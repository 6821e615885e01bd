use nzb_streamer::archive::error::ArchiveError;
use nzb_streamer::archive::rar::analyse_rar_buffer;
use nzb_streamer::archive::rar::extract_rar_number;
use nzb_streamer::archive::rar::RarExt;

const RAR_SIGNATURE: [u8; 7] = [0x52, 0x61, 0x72, 0x21, 0x1A, 0x07, 0x00];
const MKV_SIGNATURE: [u8; 4] = [0x1A, 0x45, 0xDF, 0xA3];

fn header(kind: u8, size: u16, rest: &[u8]) -> Vec<u8> {
    let mut h = vec![0xAA, 0xBB, kind, 0x00, 0x00];
    h.extend_from_slice(&size.to_le_bytes());
    h.extend_from_slice(rest);
    h
}

fn file_header(pack_size: u32, extra: usize) -> Vec<u8> {
    let mut rest = Vec::new();
    rest.extend_from_slice(&pack_size.to_le_bytes());
    rest.extend_from_slice(&pack_size.to_le_bytes());
    rest.extend(std::iter::repeat(0x11).take(extra));
    header(0x74, (15 + extra) as u16, &rest)
}

fn volume(prefix: &[u8], payload: &[u8], pack_size: u32) -> Vec<u8> {
    let mut v = prefix.to_vec();
    v.extend_from_slice(&RAR_SIGNATURE);
    v.extend(header(0x73, 13, &[0; 6]));
    v.extend(file_header(pack_size, 10));
    v.extend_from_slice(payload);
    v
}

#[test]
fn rar_test_extract_rar_number() {
    let cases = [
        ("file.rar", None),
        ("file.r00", Some(0)),
        ("file.r01", Some(1)),
        ("file.r99", Some(99)),
        ("file.r9999", Some(9999)),
        ("roll.roll.on.r00", Some(0)),
        ("path/to/file.r05", Some(5)),
        ("file.ra0", None), // Not a number
        ("file.r", None),   // No digits
        ("r00", None),      // No dot
        ("file.txt", None), // Wrong extension
    ];

    for (input, expected) in cases {
        assert_eq!(
            extract_rar_number(input),
            expected,
            "Failed for input: {input}"
        );
    }
}

#[test]
fn rar_test_rar_sorting() {
    let mut files = vec!["file.r02", "file.r00", "file.rar", "file.r10", "file.r01"];

    files.sort_by_key(|name| {
        if name.ends_with(".rar") {
            (0, 0)
        } else {
            (1, extract_rar_number(name).unwrap_or(999))
        }
    });

    assert_eq!(
        files,
        vec!["file.rar", "file.r00", "file.r01", "file.r02", "file.r10",]
    );
}

#[test]
fn rar_number_rejects_signs_and_overflow() {
    assert_eq!(extract_rar_number("file.r+5"), None);
    assert_eq!(extract_rar_number("file.r4294967295"), Some(u32::MAX));
    assert_eq!(extract_rar_number("file.r4294967296"), None);
    assert_eq!(extract_rar_number("file."), None);
    assert_eq!(extract_rar_number("file.R00"), None);
}

#[test]
fn from_filename_reads_the_volume_key() {
    assert_eq!(RarExt::from_filename("movie.rar"), Some(RarExt::Main));
    assert_eq!(RarExt::from_filename("movie.r00"), Some(RarExt::Part(0)));
    assert_eq!(RarExt::from_filename("movie.r17"), Some(RarExt::Part(17)));
    assert_eq!(RarExt::from_filename("movie.mkv"), None);
    assert_eq!(RarExt::from_filename("movie"), None);
}

#[test]
fn volume_order_puts_main_first() {
    assert!(RarExt::Main.comes_before(&RarExt::Part(0)));
    assert!(RarExt::Part(0).comes_before(&RarExt::Part(1)));
    assert!(!RarExt::Part(1).comes_before(&RarExt::Part(1)));
    assert!(!RarExt::Part(3).comes_before(&RarExt::Main));
    assert_eq!(RarExt::Main.sort_key(), 0);
    assert_eq!(RarExt::Part(0).sort_key(), 1);
    assert_eq!(RarExt::Part(u32::MAX).sort_key(), 4294967296);
    assert!(RarExt::Main < RarExt::Part(0));
    assert!(RarExt::Part(2) < RarExt::Part(10));
}

#[test]
fn missing_signature_is_malformed() {
    assert_eq!(
        analyse_rar_buffer(&[], true),
        Err(ArchiveError::MalformedRar)
    );
    assert_eq!(
        analyse_rar_buffer(b"this is not an archive at all", false),
        Err(ArchiveError::MalformedRar)
    );
    // the later format's signature is not accepted
    assert_eq!(
        analyse_rar_buffer(&[0x52, 0x61, 0x72, 0x21, 0x1A, 0x07, 0x01, 0x00], false),
        Err(ArchiveError::MalformedRar)
    );
}

#[test]
fn payload_follows_the_file_header() {
    let payload = [0x55u8; 40];
    let buf = volume(&[], &payload, 5000);
    // signature 7, main header 13, file header 25
    assert_eq!(analyse_rar_buffer(&buf, false), Ok((45, 5000)));
}

#[test]
fn signature_may_start_later_in_the_buffer() {
    let payload = [0x55u8; 8];
    let buf = volume(&[9, 9, 9], &payload, 8);
    assert_eq!(analyse_rar_buffer(&buf, false), Ok((48, 8)));
}

#[test]
fn first_volume_moves_on_to_the_matroska_header() {
    let mut payload = vec![0x00u8; 6];
    payload.extend_from_slice(&MKV_SIGNATURE);
    payload.extend_from_slice(&[0x42; 30]);
    let buf = volume(&[], &payload, 40);
    assert_eq!(analyse_rar_buffer(&buf, true), Ok((45 + 6, 40 - 6)));
    assert_eq!(analyse_rar_buffer(&buf, false), Ok((45, 40)));
}

#[test]
fn first_volume_without_matroska_header_keeps_the_payload_start() {
    let payload = vec![0x00u8; 40];
    let buf = volume(&[], &payload, 40);
    assert_eq!(analyse_rar_buffer(&buf, true), Ok((45, 40)));
}

#[test]
fn matroska_header_outside_the_window_is_not_found() {
    let mut payload = vec![0x00u8; 1022];
    payload.extend_from_slice(&MKV_SIGNATURE);
    payload.extend_from_slice(&[0x42; 30]);
    let buf = volume(&[], &payload, 5000);
    assert_eq!(analyse_rar_buffer(&buf, true), Ok((45, 5000)));
    let mut payload = vec![0x00u8; 1020];
    payload.extend_from_slice(&MKV_SIGNATURE);
    payload.extend_from_slice(&[0x42; 30]);
    let buf = volume(&[], &payload, 5000);
    assert_eq!(analyse_rar_buffer(&buf, true), Ok((45 + 1020, 5000 - 1020)));
}

#[test]
fn first_volume_needs_the_search_window() {
    let payload = vec![0x00u8; 39];
    let buf = volume(&[], &payload, 40);
    assert_eq!(analyse_rar_buffer(&buf, true), Err(ArchiveError::MalformedRar));
    assert_eq!(analyse_rar_buffer(&buf, false), Ok((45, 40)));
}

#[test]
fn truncated_header_is_malformed() {
    let mut buf = RAR_SIGNATURE.to_vec();
    buf.extend_from_slice(&[0xAA, 0xBB, 0x73]);
    assert_eq!(analyse_rar_buffer(&buf, false), Err(ArchiveError::MalformedRar));
    let mut buf = RAR_SIGNATURE.to_vec();
    buf.extend(header(0x73, 13, &[0; 6]));
    buf.extend_from_slice(&[0xAA, 0xBB, 0x74, 0, 0, 30, 0, 1, 2, 3]);
    assert_eq!(analyse_rar_buffer(&buf, false), Err(ArchiveError::MalformedRar));
}

#[test]
fn headers_without_a_file_give_nothing() {
    let buf = RAR_SIGNATURE.to_vec();
    assert_eq!(analyse_rar_buffer(&buf, false), Ok((0, 0)));
    let mut buf = RAR_SIGNATURE.to_vec();
    buf.extend(header(0x73, 13, &[0; 6]));
    buf.extend(header(0x7B, 7, &[]));
    buf.extend(file_header(10, 0));
    assert_eq!(analyse_rar_buffer(&buf, false), Ok((0, 0)));
    // the buffer may end where a header would begin
    let mut buf = RAR_SIGNATURE.to_vec();
    buf.extend(header(0x73, 13, &[0; 6]));
    buf.extend(header(0x7A, 9, &[1, 2]));
    assert_eq!(analyse_rar_buffer(&buf, true), Ok((0, 0)));
}

#[test]
fn buffer_that_ends_within_a_header_is_malformed() {
    for held in 1..7usize {
        let mut buf = RAR_SIGNATURE.to_vec();
        buf.extend_from_slice(&[0xAA, 0xBB, 0x73, 0, 0, 13][..held]);
        assert_eq!(analyse_rar_buffer(&buf, false), Err(ArchiveError::MalformedRar), "{held}");
        assert_eq!(analyse_rar_buffer(&buf, true), Err(ArchiveError::MalformedRar), "{held}");
    }
    // a header that declares more than the buffer holds
    let mut buf = RAR_SIGNATURE.to_vec();
    buf.extend(header(0x7A, 500, &[0; 6]));
    assert_eq!(analyse_rar_buffer(&buf, true), Err(ArchiveError::MalformedRar));
    let mut buf = RAR_SIGNATURE.to_vec();
    buf.extend(header(0x73, 13, &[0; 5]));
    assert_eq!(analyse_rar_buffer(&buf, false), Err(ArchiveError::MalformedRar));
    // a file header that is not there whole
    let mut buf = RAR_SIGNATURE.to_vec();
    buf.extend(file_header(40, 5));
    buf.truncate(7 + 19);
    assert_eq!(analyse_rar_buffer(&buf, false), Err(ArchiveError::MalformedRar));
    let mut buf = RAR_SIGNATURE.to_vec();
    buf.extend(file_header(40, 5));
    assert_eq!(analyse_rar_buffer(&buf, false), Ok((27, 40)));
}

#[test]
fn header_of_size_zero_is_malformed() {
    let mut buf = RAR_SIGNATURE.to_vec();
    buf.extend(header(0x73, 0, &[0; 6]));
    assert_eq!(analyse_rar_buffer(&buf, false), Err(ArchiveError::MalformedRar));
}

#[test]
fn unknown_headers_are_skipped() {
    let mut buf = RAR_SIGNATURE.to_vec();
    buf.extend(header(0x73, 13, &[0; 6]));
    buf.extend(header(0x7A, 9, &[1, 2]));
    buf.extend(file_header(77, 3));
    buf.extend_from_slice(&[0; 4]);
    assert_eq!(analyse_rar_buffer(&buf, false), Ok((7 + 13 + 9 + 18, 77)));
}
