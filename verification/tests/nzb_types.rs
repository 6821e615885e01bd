use nzb_streamer::nzb::types::is_rar_extension;
use nzb_streamer::nzb::types::is_rar_file;
use nzb_streamer::nzb::types::is_video_extension;
use nzb_streamer::nzb::types::is_video_file;
use nzb_streamer::nzb::types::normalize_path;
use nzb_streamer::nzb::types::Nzb;
use nzb_streamer::nzb::types::NzbFile;
use nzb_streamer::nzb::types::NzbMeta;
use nzb_streamer::nzb::types::NzbSegment;

#[test]
fn test_normalize_path() {
    assert_eq!(normalize_path("folder\\file.txt"), "folder/file.txt");
    assert_eq!(normalize_path("/folder/file.txt"), "folder/file.txt");
    assert_eq!(normalize_path("folder/file.txt"), "folder/file.txt");
}

#[test]
fn test_is_video_file() {
    assert!(is_video_file("movie.mp4"));
    assert!(is_video_file("MOVIE.MP4"));
    assert!(is_video_file("video.mkv"));
    assert!(!is_video_file("archive.rar"));
    assert!(!is_video_file("document.txt"));
}

#[test]
fn test_is_rar_file() {
    assert!(is_rar_file("archive.rar"));
    assert!(is_rar_file("archive.r00"));
    assert!(is_rar_file("archive.r01"));
    assert!(!is_rar_file("video.mp4"));
    assert!(!is_rar_file("archive.zip"));
}

#[test]
fn test_nzb_file_segments() {
    let mut file = NzbFile::new(
        "Test File".to_string(),
        "poster@example.com".to_string(),
        1706440708,
    );

    file.add_segment(NzbSegment::new("msg2".to_string(), 2, 1000));
    file.add_segment(NzbSegment::new("msg1".to_string(), 1, 1000));

    assert_eq!(file.size, 2000);
    assert!(!file.is_complete()); // Not complete because segments are not in order

    file.sort_segments();
    assert!(file.is_complete());
    assert_eq!(file.segments[0].number, 1);
    assert_eq!(file.segments[1].number, 2);
}

#[test]
fn test_nzb_file_types() {
    // Test video file detection
    assert!(is_video_file("movie.mp4"));
    assert!(is_video_file("MOVIE.MP4"));
    assert!(is_video_file("video.mkv"));
    assert!(is_video_file("film.avi"));
    assert!(!is_video_file("archive.rar"));
    assert!(!is_video_file("document.txt"));

    // Test RAR file detection
    assert!(is_rar_file("archive.rar"));
    assert!(is_rar_file("archive.r00"));
    assert!(is_rar_file("archive.r01"));
    assert!(is_rar_file("archive.r99"));
    assert!(!is_rar_file("video.mp4"));
    assert!(!is_rar_file("archive.zip"));

    // Test path normalization
    assert_eq!(normalize_path("folder\\file.txt"), "folder/file.txt");
    assert_eq!(normalize_path("/folder/file.txt"), "folder/file.txt");
    assert_eq!(normalize_path("folder/file.txt"), "folder/file.txt");
}

#[test]
fn normalize_path_edge_cases() {
    assert_eq!(normalize_path(""), "");
    assert_eq!(normalize_path("///"), "");
    assert_eq!(normalize_path("\\\\server\\share"), "server/share");
    assert_eq!(normalize_path("//a//b/"), "a//b/");
    assert_eq!(normalize_path("a\\/b"), "a//b");
}

#[test]
fn extensions_are_read_behind_the_last_dot_in_lowercase() {
    assert!(is_video_file("a.b.MkV"));
    assert!(is_video_file("mkv"));
    assert!(is_video_file("x.webm"));
    assert!(is_video_file("x.mpeg"));
    assert!(!is_video_file("x.mkv."));
    assert!(!is_video_file("x.mkvv"));
    assert!(!is_video_file(""));
    assert!(is_rar_file("X.RAR"));
    assert!(is_rar_file("x.R07"));
    assert!(is_rar_file("x.r123456"));
    assert!(is_rar_file("r00"));
    assert!(!is_rar_file("x.r0"));
    assert!(!is_rar_file("x.r"));
    assert!(!is_rar_file("x.s00"));
    assert!(!is_rar_file("x.r99999999999"));
    assert!(!is_rar_file("x.r0a"));
    assert!(is_video_extension("mp4"));
    assert!(!is_video_extension("MP4"));
    assert!(is_rar_extension("rar"));
    assert!(is_rar_extension("r00"));
    assert!(!is_rar_extension("R00"));
    assert!(!is_rar_extension("r1"));
}

#[test]
fn segments_sort_stably_by_number() {
    let mut file = NzbFile::new("s".to_string(), "p".to_string(), 0);
    file.add_segment(NzbSegment::new("c".to_string(), 3, 10));
    file.add_segment(NzbSegment::new("a1".to_string(), 1, 20));
    file.add_segment(NzbSegment::new("a2".to_string(), 1, 30));
    file.add_segment(NzbSegment::new("b".to_string(), 2, 40));
    assert_eq!(file.size, 100);
    file.sort_segments();
    let ids: Vec<&str> = file.segments.iter().map(|s| s.message_id.as_str()).collect();
    assert_eq!(ids, vec!["a1", "a2", "b", "c"]);
    assert_eq!(file.size, 100);
    assert!(!file.is_complete());
    assert!(!NzbFile::new("s".to_string(), "p".to_string(), 0).is_complete());
}

#[test]
fn manifest_totals_and_lookups() {
    let mut nzb = Nzb::new();
    assert_eq!(nzb.file_count(), 0);
    assert_eq!(nzb.total_size(), Some(0));
    assert_eq!(nzb.meta, NzbMeta::default());
    let mut a = NzbFile::new("a".to_string(), "p".to_string(), 0);
    a.path = "dir/movie.mkv".to_string();
    a.add_segment(NzbSegment::new("m1".to_string(), 1, 100000));
    a.add_segment(NzbSegment::new("m2".to_string(), 2, 50000));
    let mut b = NzbFile::new("b".to_string(), "p".to_string(), 0);
    b.path = "dir/movie.r00".to_string();
    b.add_segment(NzbSegment::new("m3".to_string(), 1, 200000));
    nzb.files.push(a.clone());
    nzb.files.push(b.clone());
    assert_eq!(nzb.file_count(), 2);
    assert_eq!(nzb.total_size(), Some(350000));
    assert_eq!(nzb.find_file("\\dir\\movie.r00"), Some(&b));
    assert_eq!(nzb.find_file("/dir/movie.mkv"), Some(&a));
    assert_eq!(nzb.find_file("movie.mkv"), None);
    assert_eq!(nzb.find_video_files(), vec![&a]);
    assert_eq!(a.extension(), Some("mkv".to_string()));
    let mut big = NzbFile::new("c".to_string(), "p".to_string(), 0);
    big.size = u64::MAX;
    nzb.files.push(big);
    assert_eq!(nzb.total_size(), None);
    assert_eq!(Nzb::default(), Nzb::new());
}
