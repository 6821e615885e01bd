use nzb_streamer::nzb::file::PostedFile;
use nzb_streamer::nzb::file::Segment;
use nzb_streamer::session::state::Session;
use nzb_streamer::session::DownloadTask;

fn posted(subject: &str, sizes: &[u32]) -> PostedFile {
    let segments = sizes
        .iter()
        .enumerate()
        .map(|(i, size)| Segment::new(*size, i as u32 + 1, format!("{subject}-{}", i + 1)))
        .collect();
    PostedFile::new(subject.to_string(), segments)
}

fn posting() -> Vec<PostedFile> {
    vec![
        posted("show.r00", &[300, 300]),
        posted("show.PAR2", &[50]),
        posted("show.rar", &[100, 200, 50]),
        posted("show.vol00+01.par2", &[60, 60]),
        posted("readme.txt", &[10]),
    ]
}

fn priorities(session: &Session) -> Vec<u32> {
    session.download_queue.iter().map(|t| t.priority()).collect()
}

#[test]
fn new_session_parts_recovery_files_from_the_others() {
    let session = Session::new(&posting());
    let par2: Vec<&str> = session.par2_files.iter().map(|f| f.subject.as_str()).collect();
    let rar: Vec<&str> = session.rar_files.iter().map(|f| f.subject.as_str()).collect();
    assert_eq!(par2, vec!["show.PAR2", "show.vol00+01.par2"]);
    assert_eq!(rar, vec!["show.r00", "show.rar", "readme.txt"]);
    assert!(session.download_queue.is_empty());
    assert!(session.downloaded.is_empty());
    assert!(session.video_files.is_empty());
    assert!(session.obfuscated_to_real.is_empty());
    assert!(!session.is_ready_for_streaming());
    assert!(!session.par2_complete);
    assert!(!session.deobfuscation_complete);
}

#[test]
fn recovery_files_are_queued_from_priority_10000_upwards() {
    let mut session = Session::new(&posting());
    session.queue_par2_downloads();
    assert_eq!(
        session.download_queue,
        vec![
            DownloadTask::Par2 { file: posted("show.PAR2", &[50]), priority: 10000 },
            DownloadTask::Par2 { file: posted("show.vol00+01.par2", &[60, 60]), priority: 10001 },
        ]
    );
    session.queue_par2_downloads();
    assert_eq!(priorities(&session), vec![10000, 10001, 10000, 10001]);
}

#[test]
fn volumes_are_queued_in_the_order_of_their_archive() {
    let mut session = Session::new(&posting());
    assert!(session.queue_priority_download());
    let rar = posted("show.rar", &[100, 200, 50]);
    let r00 = posted("show.r00", &[300, 300]);
    let other = posted("readme.txt", &[10]);
    let task = |f: &PostedFile, file_index: usize, i: usize, priority: u32, start: u64, end: u64| {
        DownloadTask::RarSegment {
            segment: f.segments[i].clone(),
            file_index,
            segment_index: i,
            priority,
            start,
            end,
        }
    };
    assert_eq!(
        session.download_queue,
        vec![
            task(&rar, 0, 0, 5000, 0, 100),
            task(&rar, 0, 1, 4999, 100, 300),
            task(&rar, 0, 2, 4998, 300, 350),
            task(&r00, 1, 0, 4900, 0, 300),
            task(&r00, 1, 1, 4899, 300, 600),
            task(&other, 2, 0, 4800, 0, 10),
        ]
    );
    assert!(session.is_ready_for_streaming());
}

#[test]
fn stream_is_not_ready_while_the_first_volume_has_one_segment() {
    let mut session = Session::new(&[posted("a.rar", &[5]), posted("a.r00", &[5, 5])]);
    assert!(session.queue_priority_download());
    assert!(!session.is_ready_for_streaming());
    let mut empty = Session::new(&[posted("a.par2", &[5])]);
    assert!(empty.queue_priority_download());
    assert!(empty.download_queue.is_empty());
    assert!(!empty.is_ready_for_streaming());
}

#[test]
fn volume_without_segments_adds_no_download() {
    let mut session = Session::new(&[posted("a.r00", &[]), posted("a.rar", &[5, 5])]);
    assert!(session.queue_priority_download());
    assert_eq!(priorities(&session), vec![5000, 4999]);
    assert!(session.is_ready_for_streaming());
}

#[test]
fn next_download_is_the_last_of_the_lowest_priority() {
    let mut session = Session::new(&posting());
    session.queue_par2_downloads();
    assert!(session.queue_priority_download());
    assert_eq!(priorities(&session), vec![10000, 10001, 5000, 4999, 4998, 4900, 4899, 4800]);
    let next = session.get_next_download_task().unwrap();
    assert_eq!(next.priority(), 4800);
    assert_eq!(next.message_id(), "readme.txt-1");
    assert_eq!(priorities(&session), vec![10001, 10000, 5000, 4999, 4998, 4900, 4899]);
    let next = session.get_next_download_task().unwrap();
    assert_eq!(next.message_id(), "show.r00-2");
    assert_eq!(priorities(&session), vec![10001, 10000, 5000, 4999, 4998, 4900]);
}

#[test]
fn downloads_of_one_priority_leave_from_the_back() {
    let mut session = Session::new(&[]);
    let task = |id: &str, priority: u32| DownloadTask::RarSegment {
        segment: Segment::new(1, 1, id.to_string()),
        file_index: 0,
        segment_index: 0,
        priority,
        start: 0,
        end: 1,
    };
    session.download_queue = vec![task("a", 7), task("b", 3), task("c", 7), task("d", 3)];
    assert_eq!(session.get_next_download_task().unwrap().message_id(), "d");
    let ids: Vec<&str> = session.download_queue.iter().map(|t| t.message_id()).collect();
    assert_eq!(ids, vec!["a", "c", "b"]);
    assert_eq!(session.get_next_download_task().unwrap().message_id(), "b");
    assert_eq!(session.get_next_download_task().unwrap().message_id(), "c");
    assert_eq!(session.get_next_download_task().unwrap().message_id(), "a");
    assert_eq!(session.get_next_download_task(), None);
    assert!(session.download_queue.is_empty());
}

#[test]
fn stored_articles_are_noted_once() {
    let mut session = Session::new(&posting());
    session.mark_segment_downloaded("a@x".to_string());
    session.mark_segment_downloaded("b@x".to_string());
    session.mark_segment_downloaded("a@x".to_string());
    assert_eq!(session.downloaded, vec!["a@x".to_string(), "b@x".to_string()]);
}

#[test]
fn real_video_names_are_paired_with_posted_files() {
    let files = vec![posted("abc.def", &[1]), posted("Great.Movie.2019.1080p.part1", &[1])];
    let mut session = Session::new(&files);
    session.match_obfuscated_filename("great.movie.2019.1080p.nfo");
    assert!(session.video_files.is_empty());
    assert!(session.obfuscated_to_real.is_empty());
    session.match_obfuscated_filename("Great.Movie.2019.1080p.mkv");
    assert_eq!(session.video_files, vec!["Great.Movie.2019.1080p.mkv".to_string()]);
    assert_eq!(
        session.obfuscated_to_real,
        vec![(
            "Great.Movie.2019.1080p.part1".to_string(),
            "Great.Movie.2019.1080p.mkv".to_string()
        )]
    );
    session.match_obfuscated_filename("Great.Movie.2019.1080p.mkv");
    assert_eq!(session.video_files.len(), 1);
    assert_eq!(session.obfuscated_to_real.len(), 1);
    session.match_obfuscated_filename("great.movie.2019.1080p.sample.mp4");
    assert_eq!(
        session.video_files,
        vec![
            "Great.Movie.2019.1080p.mkv".to_string(),
            "great.movie.2019.1080p.sample.mp4".to_string()
        ]
    );
    assert_eq!(
        session.obfuscated_to_real,
        vec![(
            "Great.Movie.2019.1080p.part1".to_string(),
            "great.movie.2019.1080p.sample.mp4".to_string()
        )]
    );
}

#[test]
fn processing_the_recovery_names_looks_at_each_in_turn() {
    let files = vec![posted("Great.Movie.2019.1080p.part1", &[1])];
    let names = vec![
        "notes.txt".to_string(),
        "Great.Movie.2019.1080p.mkv".to_string(),
        "unrelated.avi".to_string(),
    ];
    let mut session = Session::new(&files);
    session.process_par2_files(&names);
    assert!(session.deobfuscation_complete);
    assert_eq!(session.video_files, vec!["Great.Movie.2019.1080p.mkv".to_string()]);
    let mut one_by_one = Session::new(&files);
    for name in &names {
        one_by_one.match_obfuscated_filename(name);
    }
    assert_eq!(one_by_one.video_files, session.video_files);
    assert_eq!(one_by_one.obfuscated_to_real, session.obfuscated_to_real);
    let mut none = Session::new(&files);
    none.process_par2_files(&[]);
    assert!(none.deobfuscation_complete);
    assert!(none.video_files.is_empty());
}

#[test]
fn nothing_is_queued_where_a_priority_would_fall_below_zero() {
    let volumes: Vec<PostedFile> =
        (0..52).map(|i| posted(&format!("v.r{i:02}"), &[1])).collect();
    let mut session = Session::new(&volumes);
    let before = Session::new(&volumes);
    assert!(!session.queue_priority_download());
    assert_eq!(session, before);
    let mut fits = Session::new(&volumes[..51]);
    assert!(fits.queue_priority_download());
    assert_eq!(priorities(&fits).last(), Some(&0));
    assert_eq!(fits.download_queue.len(), 51);
}

#[test]
fn test_session_creation() {
    let files = vec![
        PostedFile::new(
            "test.par2".to_string(),
            vec![Segment::new(1000, 1, "test@example.com".to_string())],
        ),
        PostedFile::new(
            "test.rar".to_string(),
            vec![Segment::new(2000, 1, "test2@example.com".to_string())],
        ),
    ];
    let session = Session::new(&files);

    assert_eq!(session.par2_files.len(), 1);
    assert_eq!(session.rar_files.len(), 1);
    assert!(!session.is_ready_for_streaming());
}
