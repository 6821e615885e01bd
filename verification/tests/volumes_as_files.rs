use nzb_streamer::archive::error::ArchiveError;
use nzb_streamer::error::RestError;
use nzb_streamer::mkv::mkv::FileRead;
use nzb_streamer::mkv::mkv::MkvStreamer;
use nzb_streamer::nzb::file::PostedFile;
use nzb_streamer::nzb::file::Segment;
use nzb_streamer::rar::parser::RarParser;
use nzb_streamer::rar::types::RarArchive;
use nzb_streamer::session::calculate_similarity;
use nzb_streamer::session::can_queue_volume;
use nzb_streamer::session::extract_base_name;
use nzb_streamer::session::filenames_match;
use nzb_streamer::session::get_next_download_task;
use nzb_streamer::session::has_similar_patterns;
use nzb_streamer::session::lowercase_names_match;
use nzb_streamer::session::match_obfuscated_filename;
use nzb_streamer::session::stream_ready;
use nzb_streamer::session::has_shared_quality;
use nzb_streamer::session::is_video_file;
use nzb_streamer::session::priority_of_segment;
use nzb_streamer::session::queue_par2_downloads;
use nzb_streamer::session::queue_volume;
use nzb_streamer::session::rar_sequence;
use nzb_streamer::session::similar_enough;
use nzb_streamer::session::volume_order;
use nzb_streamer::session::DownloadTask;
use nzb_streamer::stream::error::StreamError;
use nzb_streamer::streaming::clamp_range;
use nzb_streamer::streaming::create_mock_mkv_data;
use nzb_streamer::streaming::extract_mkv_from_rar;
use nzb_streamer::streaming::files_for_name;
use nzb_streamer::streaming::prioritize_rar_segments;
use nzb_streamer::streaming::priority_at;
use nzb_streamer::streaming::parse_range_header;
use nzb_streamer::streaming::HeaderError;
use nzb_streamer::vfs::blocks_of;
use nzb_streamer::vfs::cache::ArticleCache;
use nzb_streamer::vfs::get_rar_part_number;
use nzb_streamer::vfs::read_multipart;
use nzb_streamer::vfs::FileMapping;
use nzb_streamer::vfs::MultiPartRarVfs;
use nzb_streamer::vfs::PartRead;

const RAR_SIGNATURE: [u8; 7] = [0x52, 0x61, 0x72, 0x21, 0x1A, 0x07, 0x00];
const MKV_SIGNATURE: [u8; 4] = [0x1A, 0x45, 0xDF, 0xA3];

fn file_with(payload: &[u8]) -> Vec<u8> {
    let mut v = vec![0, 0, 0x74, 0, 0, 20, 0];
    v.extend_from_slice(&(payload.len() as u32).to_le_bytes());
    v.extend_from_slice(&[0; 9]);
    v.extend_from_slice(payload);
    v
}

fn posted(subject: &str, sizes: &[u32]) -> PostedFile {
    PostedFile::new(
        subject.to_string(),
        sizes
            .iter()
            .enumerate()
            .map(|(i, s)| Segment::new(*s, i as u32 + 1, format!("{subject}#{i}")))
            .collect(),
    )
}

#[test]
fn test_parse_range_header() {
    // Test basic range
    let range = parse_range_header("bytes=0-1023").unwrap();
    assert_eq!(range.start, 0);
    assert_eq!(range.end, 1023);

    // Test open-ended range
    let range = parse_range_header("bytes=1024-").unwrap();
    assert_eq!(range.start, 1024);
    assert_eq!(range.end, u64::MAX);
}

#[test]
fn test_mock_mkv_data() {
    let data = create_mock_mkv_data();

    assert!(data.len() > 1000);
    assert_eq!(&data[0..4], &MKV_SIGNATURE);
}

#[test]
fn mock_video_is_ten_mebibytes_of_header_and_zeros() {
    let data = create_mock_mkv_data();
    assert_eq!(data.len(), 10 * 1024 * 1024);
    assert_eq!(&data[4..8], &[0x42, 0x86, 0x81, 0x01]);
    assert_eq!(&data[16..20], &[0x42, 0x82, 0x81, 0x02]);
    assert!(data[20..].iter().all(|&b| b == 0));
}

#[test]
fn simple_ranges() {
    assert_eq!(parse_range_header("bytes=-500"), Ok(0..500));
    assert_eq!(parse_range_header("bytes=5-2"), Ok(5..2));
    assert_eq!(parse_range_header("bytes=-"), Ok(0..u64::MAX));
    assert_eq!(parse_range_header("bytes=+7-+9"), Ok(7..9));
    assert_eq!(parse_range_header("bytes=18446744073709551615-"), Ok(u64::MAX..u64::MAX));
    assert_eq!(parse_range_header("bytes=a-2"), Err(HeaderError::Start));
    assert_eq!(parse_range_header("bytes=18446744073709551616-2"), Err(HeaderError::Start));
    assert_eq!(parse_range_header("bytes=1-b"), Err(HeaderError::End));
    assert_eq!(parse_range_header("bytes=a-b"), Err(HeaderError::Start));
    assert_eq!(parse_range_header("bytes= 1-2"), Err(HeaderError::Start));
    assert_eq!(parse_range_header("bytes=1-2 "), Err(HeaderError::End));
    assert_eq!(parse_range_header("bytes=0-5,7-9"), Err(HeaderError::Format));
    assert_eq!(parse_range_header("bytes=1-2-3"), Err(HeaderError::Format));
    assert_eq!(parse_range_header("bytes=--"), Err(HeaderError::Format));
    assert_eq!(parse_range_header("bytes=12"), Err(HeaderError::Format));
    assert_eq!(parse_range_header("bytes="), Err(HeaderError::Format));
    assert_eq!(parse_range_header("octets=1-2"), Err(HeaderError::Header));
    assert_eq!(parse_range_header("Bytes=1-2"), Err(HeaderError::Header));
    assert_eq!(parse_range_header(""), Err(HeaderError::Header));
    assert_eq!(HeaderError::Header.message(), "Invalid range header");
    assert_eq!(HeaderError::Format.message(), "Invalid range format");
    assert_eq!(HeaderError::Start.message(), "Invalid range start");
    assert_eq!(HeaderError::End.message(), "Invalid range end");
    assert_eq!(clamp_range(0, 1023, 5000), Some((0, 1023)));
    assert_eq!(clamp_range(1024, u64::MAX, 5000), Some((1024, 4999)));
    assert_eq!(clamp_range(5000, u64::MAX, 5000), None);
    assert_eq!(clamp_range(0, 0, 0), None);
}

#[test]
fn video_is_taken_out_of_the_volume() {
    let mut first = vec![9u8; 5];
    first.extend_from_slice(&MKV_SIGNATURE);
    first.extend_from_slice(&[1, 2, 3]);
    let mut buf = b"junk".to_vec();
    buf.extend_from_slice(&RAR_SIGNATURE);
    buf.extend_from_slice(&[0, 0, 0x73, 0, 0, 13, 0, 0, 0, 0, 0, 0, 0]);
    buf.extend(file_with(&first));
    buf.extend_from_slice(&[0, 0, 0x7A, 0, 0, 8, 0, 0xFF]);
    buf.extend(file_with(&MKV_SIGNATURE));
    buf.extend(file_with(&[]));
    buf.extend_from_slice(&[0, 0, 0x7B, 0, 0, 7, 0]);
    buf.extend(file_with(&[0xEE; 4]));
    let mut video = MKV_SIGNATURE.to_vec();
    video.extend_from_slice(&[1, 2, 3]);
    video.extend_from_slice(&MKV_SIGNATURE);
    assert_eq!(extract_mkv_from_rar(&buf), Ok(video));
}

#[test]
fn video_without_signature_is_taken_whole() {
    let mut buf = RAR_SIGNATURE.to_vec();
    buf.extend(file_with(&[5, 6, 7]));
    buf.extend_from_slice(&[1, 2, 3]);
    assert_eq!(extract_mkv_from_rar(&buf), Ok(vec![5, 6, 7]));
    assert_eq!(extract_mkv_from_rar(&RAR_SIGNATURE), Ok(Vec::new()));
    // a file header too short to name the packed size is passed over
    let mut buf = RAR_SIGNATURE.to_vec();
    buf.extend_from_slice(&[0, 0, 0x74, 0, 0, 9, 0, 1, 2]);
    buf.extend(file_with(&[8]));
    assert_eq!(extract_mkv_from_rar(&buf), Ok(vec![8]));
}

#[test]
fn cut_volumes_are_malformed() {
    assert_eq!(extract_mkv_from_rar(&[]), Err(ArchiveError::MalformedRar));
    let mut late = vec![0u8; 1018];
    late.extend_from_slice(&RAR_SIGNATURE);
    assert_eq!(extract_mkv_from_rar(&late), Err(ArchiveError::MalformedRar));
    let mut in_time = vec![0u8; 1017];
    in_time.extend_from_slice(&RAR_SIGNATURE);
    assert_eq!(extract_mkv_from_rar(&in_time), Ok(Vec::new()));
    let mut buf = RAR_SIGNATURE.to_vec();
    buf.extend(file_with(&[5, 6, 7]));
    buf.pop();
    assert_eq!(extract_mkv_from_rar(&buf), Err(ArchiveError::MalformedRar));
    let mut buf = RAR_SIGNATURE.to_vec();
    buf.extend_from_slice(&[0, 0, 0x74, 0, 0, 20, 0, 1, 0, 0]);
    assert_eq!(extract_mkv_from_rar(&buf), Err(ArchiveError::MalformedRar));
    let mut buf = RAR_SIGNATURE.to_vec();
    buf.extend_from_slice(&[0, 0, 0x73, 0, 0, 0, 0]);
    assert_eq!(extract_mkv_from_rar(&buf), Err(ArchiveError::MalformedRar));
}

#[test]
fn volumes_are_placed_one_behind_the_other() {
    let names: Vec<String> = ["a.rar", "a.r00", "a.r01"].iter().map(|s| s.to_string()).collect();
    let mut s = MkvStreamer::new(&names);
    assert_eq!(s.segments.len(), 3);
    assert_eq!(s.get_available_bytes(), 0);
    assert_eq!(s.position("a.r00"), Some(1));
    assert_eq!(s.position("a.r09"), None);
    assert_eq!(s.mark_segment_downloaded("a.r01", 20, 300), Ok(()));
    assert_eq!(s.get_available_bytes(), 0);
    assert_eq!(s.segments[2].virtual_start, 0);
    assert_eq!(s.mark_segment_downloaded("a.rar", 50, 1000), Ok(()));
    assert_eq!(s.get_available_bytes(), 1000);
    assert_eq!(
        s.segments.iter().map(|v| v.virtual_start).collect::<Vec<_>>(),
        vec![0, 1000, 1000]
    );
    assert_eq!(s.mark_segment_downloaded("a.r00", 20, 500), Ok(()));
    assert_eq!(s.get_available_bytes(), 1800);
    assert_eq!(
        s.segments.iter().map(|v| (v.start, v.length, v.virtual_start, v.is_complete)).collect::<Vec<_>>(),
        vec![(50, 1000, 0, true), (20, 500, 1000, true), (20, 300, 1500, true)]
    );
    let before = s.clone();
    assert_eq!(
        s.mark_segment_downloaded("b.rar", 0, 0),
        Err(StreamError::FileNotFound("b.rar".to_string()))
    );
    assert!(matches!(s.mark_segment_downloaded("a.r00", 0, u64::MAX), Err(StreamError::Read(_))));
    assert_eq!(s, before);
}

#[test]
fn reads_are_located_in_the_volumes() {
    let names: Vec<String> = ["a.rar", "a.r00"].iter().map(|s| s.to_string()).collect();
    let mut s = MkvStreamer::new(&names);
    s.mark_segment_downloaded("a.rar", 50, 1000).unwrap();
    s.mark_segment_downloaded("a.r00", 20, 500).unwrap();
    assert_eq!(s.read_at(0, 100), Some(FileRead { volume: 0, position: 50, length: 100 }));
    assert_eq!(s.read_at(900, 500), Some(FileRead { volume: 0, position: 950, length: 100 }));
    assert_eq!(s.read_at(1000, 500), Some(FileRead { volume: 1, position: 20, length: 500 }));
    assert_eq!(s.read_at(1499, 0), Some(FileRead { volume: 1, position: 519, length: 0 }));
    assert_eq!(s.read_at(1500, 1), None);
    assert_eq!(MkvStreamer::new(&[]).read_at(0, 1), None);
}

#[test]
fn parts_are_numbered_and_read_across() {
    assert_eq!(get_rar_part_number("a.rar"), 0);
    assert_eq!(get_rar_part_number("a.r00"), 0);
    assert_eq!(get_rar_part_number("a.r17"), 17);
    assert_eq!(get_rar_part_number("a.r4294967295"), 4294967295);
    assert_eq!(get_rar_part_number("a.r4294967296"), 999);
    assert_eq!(get_rar_part_number("a.rx"), 999);
    assert_eq!(get_rar_part_number("a.r"), 999);
    assert_eq!(get_rar_part_number("a.mkv"), 999);
    assert_eq!(get_rar_part_number("a.r05.r"), 999);
    assert_eq!(get_rar_part_number("a.r05.txt"), 999);
    let sizes = [100u64, 50, 0, 200];
    assert_eq!(
        read_multipart(&sizes, 80, 100),
        vec![
            PartRead { part: 0, start: 80, length: 20 },
            PartRead { part: 1, start: 0, length: 50 },
            PartRead { part: 3, start: 0, length: 30 },
        ]
    );
    assert_eq!(read_multipart(&sizes, 100, 10), vec![PartRead { part: 1, start: 0, length: 10 }]);
    assert_eq!(read_multipart(&sizes, 340, 100), vec![PartRead { part: 3, start: 190, length: 10 }]);
    assert_eq!(read_multipart(&sizes, 350, 100), vec![]);
    assert_eq!(read_multipart(&sizes, 0, 0), vec![]);
    assert_eq!(read_multipart(&[], 0, 10), vec![]);
    assert_eq!(blocks_of(0), 0);
    assert_eq!(blocks_of(1), 1);
    assert_eq!(blocks_of(512), 1);
    assert_eq!(blocks_of(513), 2);
    assert_eq!(blocks_of(u64::MAX), 36028797018963968);
}

#[test]
fn shown_files_get_inodes_from_two() {
    let mapping = |name: &str| FileMapping {
        real_name: name.to_string(),
        obfuscated_files: vec!["x".to_string()],
        total_size: 10,
        part_sizes: vec![10],
    };
    let vfs = MultiPartRarVfs::new("/base".to_string(), vec![mapping("a.rar"), mapping("b.rar")]);
    assert_eq!(vfs.base_dir, "/base");
    assert_eq!(vfs.inodes, vec![(2, "a.rar".to_string()), (3, "b.rar".to_string())]);
    assert_eq!(vfs.next_inode, 4);
    assert_eq!(vfs.file_mappings.len(), 2);
    assert_eq!(ArticleCache::new(), ArticleCache::default());
}

#[test]
fn volume_lists_are_empty() {
    assert_eq!(RarParser::parse(b"anything"), Ok(RarArchive::new()));
    assert_eq!(RarParser::parse(&[]), Ok(RarArchive::default()));
    assert!(RarArchive::new().files.is_empty());
}

#[test]
fn session_queue_orders_and_priorities() {
    assert_eq!(rar_sequence("movie.rar"), 0);
    assert_eq!(rar_sequence("movie.r00"), 1);
    assert_eq!(rar_sequence("movie.r41"), 42);
    assert_eq!(rar_sequence("movie.r4294967294"), 4294967295);
    assert_eq!(rar_sequence("movie.r4294967295"), 999);
    assert_eq!(rar_sequence("movie.mkv"), 999);
    assert_eq!(rar_sequence("movie.r1\" yEnc"), 999);
    assert_eq!(priority_of_segment(0, 0), 5000);
    assert_eq!(priority_of_segment(2, 7), 4793);
    assert_eq!(priority_of_segment(49, 99), 1);
    assert_eq!(priority_of_segment(50, 0), 0);
    assert!(can_queue_volume(&posted("x.r49", &[1]), 50));
    assert!(!can_queue_volume(&posted("x.r49", &[1, 1]), 50));
    assert!(!can_queue_volume(&posted("x.r50", &[1]), 51));
    assert!(can_queue_volume(&posted("x.r50", &[]), usize::MAX));
    assert!(can_queue_volume(&posted("x.rar", &[9; 5001]), 0));
    assert!(!can_queue_volume(&posted("x.rar", &[9; 5002]), 0));
    let files = vec![
        posted("x.r01", &[1]),
        posted("x.rar", &[1]),
        posted("y.rar", &[1]),
        posted("x.txt", &[1]),
        posted("x.r00", &[1]),
    ];
    assert_eq!(volume_order(&files), vec![1, 2, 4, 0, 3]);
    let par2 = queue_par2_downloads(&files[..2]);
    assert_eq!(
        par2,
        vec![
            DownloadTask::Par2 { file: files[0].clone(), priority: 10000 },
            DownloadTask::Par2 { file: files[1].clone(), priority: 10001 },
        ]
    );
    assert_eq!(par2[1].priority(), 10001);
    assert_eq!(par2[1].message_id(), "x.rar#0");
}

#[test]
fn volume_segments_are_queued_with_their_byte_ranges() {
    let file = posted("x.r00", &[100, 50, 25]);
    let tasks = queue_volume(&file, 3);
    assert_eq!(
        tasks,
        vec![
            DownloadTask::RarSegment {
                segment: file.segments[0].clone(),
                file_index: 3,
                segment_index: 0,
                priority: 4700,
                start: 0,
                end: 100,
            },
            DownloadTask::RarSegment {
                segment: file.segments[1].clone(),
                file_index: 3,
                segment_index: 1,
                priority: 4699,
                start: 100,
                end: 150,
            },
            DownloadTask::RarSegment {
                segment: file.segments[2].clone(),
                file_index: 3,
                segment_index: 2,
                priority: 4698,
                start: 150,
                end: 175,
            },
        ]
    );
    assert_eq!(tasks[2].message_id(), "x.r00#2");
    assert_eq!(tasks[2].priority(), 4698);
    assert!(queue_volume(&posted("e", &[]), 0).is_empty());
    // the download of the lowest priority is handed out; of equals the last
    assert_eq!(get_next_download_task(&tasks), Some(2));
    let mut queue = queue_par2_downloads(&[file.clone(), file.clone()]);
    queue.extend(queue_volume(&file, 40));
    assert_eq!(get_next_download_task(&queue), Some(4));
    assert_eq!(get_next_download_task(&queue[..2].to_vec()), Some(0));
    assert_eq!(get_next_download_task(&Vec::new()), None);
}

#[test]
fn names_are_compared() {
    assert!(is_video_file("movie.mkv"));
    assert!(is_video_file("a.b.m4v"));
    assert!(!is_video_file("movie.MKV"));
    assert!(!is_video_file("movie.mkv.rar"));
    assert!(!is_video_file("mkv"));
    assert!(has_shared_quality("show.1080p.x264", "other.1080p"));
    assert!(has_shared_quality("a-hevc", "b-hevc-c"));
    assert!(!has_shared_quality("show.1080p", "show.720p"));
    assert!(!has_shared_quality("show.1080p", "show"));
    assert!(!has_shared_quality("", ""));
    assert!(similar_enough(8, 10));
    assert!(!similar_enough(7, 10));
    assert!(similar_enough(71, 100));
    assert!(!similar_enough(0, 0));
    assert!(similar_enough(usize::MAX, usize::MAX as u128));
    assert!(!similar_enough(usize::MAX, u128::MAX));
}

#[test]
fn errors_map_to_statuses() {
    assert_eq!(RestError::MissingNzb.status_code(), 400);
    assert_eq!(RestError::InvalidRange.status_code(), 400);
    assert_eq!(RestError::Utf8Parse("x".to_string()).status_code(), 400);
    assert_eq!(RestError::RangeNotSatisfiable.status_code(), 416);
    assert_eq!(RestError::SessionNotFound.status_code(), 404);
    assert_eq!(RestError::MultiPart("x".to_string()).status_code(), 500);
    assert_eq!(RestError::Archive(ArchiveError::MalformedRar).status_code(), 500);
    assert_eq!(RestError::BackgroundDownload("x".to_string()).status_code(), 500);
    assert_eq!(RestError::SessionNotFound.message(), "Session not found");
    assert_eq!(RestError::InvalidRange.message(), "Invalid range header");
    assert_eq!(ArchiveError::MalformedRar.message(), "RAR signature not found in buffer");
    assert_eq!(ArchiveError::NoFiles.message(), "No files found");
}

#[test]
fn base_names_drop_sites_and_separators() {
    assert_eq!(extract_base_name("my-movie_2020 final.mkv"), "mymovie2020final");
    assert_eq!(extract_base_name("a.b.c"), "a");
    assert_eq!(extract_base_name("rarbgrarbg-movie.mkv"), "movie");
    assert_eq!(extract_base_name("ytsmovie"), "movie");
    assert_eq!(extract_base_name("eztv_show.s01"), "show");
    assert_eq!(extract_base_name("rarbgytseztvx"), "x");
    assert_eq!(extract_base_name("ytsrarbgmovie"), "rarbgmovie");
    assert_eq!(extract_base_name("www.site.org"), "www");
    assert_eq!(extract_base_name(".hidden"), "");
    assert_eq!(extract_base_name(""), "");
}

#[test]
fn likeness_counts_shared_characters() {
    assert_eq!(calculate_similarity("abc", "abcd"), Some((3, 4)));
    assert_eq!(calculate_similarity("abcd", "abc"), Some((3, 4)));
    assert_eq!(calculate_similarity("xyz", "abc"), Some((0, 3)));
    assert_eq!(calculate_similarity("aab", "abc"), Some((3, 3)));
    assert_eq!(calculate_similarity("abc", "aab"), Some((2, 3)));
    assert_eq!(calculate_similarity("\u{e9}", "ab"), Some((0, 2)));
    assert_eq!(calculate_similarity("\u{e9}\u{e9}", "ab"), Some((0, 4)));
    assert_eq!(calculate_similarity("", "abc"), None);
    assert_eq!(calculate_similarity("abc", ""), None);
}

#[test]
fn names_are_matched_by_content_likeness_or_marks() {
    assert!(has_similar_patterns("show.2021.s01", "other-2021"));
    assert!(!has_similar_patterns("show.2021.s01", "other-2022"));
    // the last year of the list that is found counts
    assert!(has_similar_patterns("a2020b2015", "c2015"));
    assert!(!has_similar_patterns("a2020b2015", "c2020"));
    assert!(!has_similar_patterns("a2019", "b2019"));
    assert!(has_similar_patterns("a.720p", "b.720p.2021"));
    assert!(lowercase_names_match("x movie.mkv y", "movie.mkv", "movie"));
    assert!(lowercase_names_match("vie.m", "movie.mkv", "movie"));
    assert!(lowercase_names_match("great-movie-cut.bin", "x.mkv", "greatmovie"));
    assert!(!lowercase_names_match("great.bin", "x.mkv", "greatmovie"));
    assert!(!lowercase_names_match("abcdefgh.bin", "x.mkv", "stuvwxyz"));
    assert!(filenames_match("Some.MOVIE.mkv.001", "movie.MKV", "movie"));
    assert!(!filenames_match("8f3a9c", "movie.mkv", "movie"));
    let subjects: Vec<String> =
        ["8f3a9c", "the.film.1080p.part1", "The.Film.1080p.part2"].iter().map(|s| s.to_string()).collect();
    assert_eq!(match_obfuscated_filename(&subjects, "Film.1080p.MKV"), Some(1));
    assert_eq!(match_obfuscated_filename(&subjects, "film.1080p.rar"), None);
    assert_eq!(match_obfuscated_filename(&subjects, "other.mkv"), None);
    assert_eq!(match_obfuscated_filename(&[], "film.mkv"), None);
}

#[test]
fn stream_is_ready_with_two_segments_of_the_first_volume() {
    let files = vec![posted("x.r00", &[1]), posted("x.rar", &[1, 2])];
    assert!(stream_ready(&files, &volume_order(&files)));
    assert!(!stream_ready(&files, &vec![0, 1]));
    assert!(!stream_ready(&files, &Vec::new()));
    assert!(!stream_ready(&files, &vec![7]));
}

#[test]
fn segments_are_queued_for_streaming_volume_by_volume() {
    let files = vec![
        posted("abcdef0123456789 x.r00", &[10, 20]),
        posted("other.rar", &[1]),
        posted("abcdef0123 x.rar", &[5]),
        posted("see abcdef0123456789", &[7]),
        posted("abcdef012", &[9]),
    ];
    let chosen = files_for_name(&files, "abcdef0123456789");
    assert_eq!(chosen, vec![files[0].clone(), files[2].clone(), files[3].clone()]);
    assert_eq!(files_for_name(&files, "abc").len(), 4);
    assert_eq!(files_for_name(&files, "").len(), 5);
    let tasks = prioritize_rar_segments(&chosen).unwrap();
    assert_eq!(
        tasks,
        vec![
            DownloadTask::RarSegment {
                segment: chosen[1].segments[0].clone(),
                file_index: 0,
                segment_index: 0,
                priority: 10000,
                start: 0,
                end: 5,
            },
            DownloadTask::RarSegment {
                segment: chosen[0].segments[0].clone(),
                file_index: 1,
                segment_index: 0,
                priority: 9900,
                start: 0,
                end: 10,
            },
            DownloadTask::RarSegment {
                segment: chosen[0].segments[1].clone(),
                file_index: 1,
                segment_index: 1,
                priority: 9900,
                start: 10,
                end: 30,
            },
            DownloadTask::RarSegment {
                segment: chosen[2].segments[0].clone(),
                file_index: 2,
                segment_index: 0,
                priority: 9800,
                start: 0,
                end: 7,
            },
        ]
    );
    assert_eq!(prioritize_rar_segments(&[]), Some(Vec::new()));
    assert_eq!(priority_at(0), 10000);
    assert_eq!(priority_at(99), 100);
    assert_eq!(priority_at(100), 0);
    let many: Vec<PostedFile> = (0..102).map(|i| posted(&format!("v.r{i:02}"), &[1])).collect();
    assert_eq!(prioritize_rar_segments(&many), None);
    assert_eq!(prioritize_rar_segments(&many[..101]).unwrap().last().unwrap().priority(), 0);
    let mut hollow = many.clone();
    hollow[101] = posted("v.r101", &[]);
    assert_eq!(prioritize_rar_segments(&hollow).unwrap().len(), 101);
}

#[test]
fn names_are_known_by_their_first_ten_bytes() {
    let files = vec![
        posted("\u{e9}\u{e9}\u{e9}\u{e9}\u{e9} x.rar", &[1]),
        posted("a\u{e9}\u{e9}\u{e9}\u{e9} x.rar", &[1]),
        posted("holds a\u{e9}\u{e9}\u{e9}\u{e9}\u{e9} inside", &[1]),
        posted("0123456789", &[1]),
    ];
    // seven letters of two bytes: the first ten bytes are five letters
    let by_prefix = files_for_name(&files, "\u{e9}\u{e9}\u{e9}\u{e9}\u{e9}\u{e9}\u{e9}");
    assert_eq!(by_prefix, vec![files[0].clone()]);
    // the tenth byte lies within a letter: only subjects that hold the name belong
    let by_name = files_for_name(&files, "a\u{e9}\u{e9}\u{e9}\u{e9}\u{e9}");
    assert_eq!(by_name, vec![files[2].clone()]);
    assert_eq!(files_for_name(&files, "0123456789abc"), vec![files[3].clone()]);
    assert_eq!(files_for_name(&files, "012345678"), vec![files[3].clone()]);
    assert_eq!(files_for_name(&files, "012345678x"), Vec::<PostedFile>::new());
}
