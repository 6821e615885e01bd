use nzb_streamer::archive::par2::DownloadTask;
use nzb_streamer::nzb::file::PostedFile;
use nzb_streamer::stream::orchestrator::buffer_health;
use nzb_streamer::stream::orchestrator::is_range_available;
use nzb_streamer::stream::orchestrator::BufferHealth;
use nzb_streamer::stream::orchestrator::InitialWrite;
use nzb_streamer::stream::orchestrator::StreamCursor;
use nzb_streamer::stream::orchestrator::StreamOrchestrator;
use nzb_streamer::stream::segment_tracker::SegmentTracker;
use nzb_streamer::stream::virtual_file_streamer::next_piece;
use nzb_streamer::stream::virtual_file_streamer::read_range;
use nzb_streamer::stream::virtual_file_streamer::FileLayout;
use nzb_streamer::stream::virtual_file_streamer::LayoutRead;

fn task(length: u64, held: usize) -> DownloadTask {
    DownloadTask::new(
        "p".to_string(),
        PostedFile::new("s".to_string(), Vec::new()),
        length,
        0,
        vec![1u8; held],
    )
}

#[test]
fn stream_is_as_long_as_all_payloads_together() {
    let tasks = vec![task(1000, 300), task(500, 900), task(0, 0), task(700, 100)];
    let (stream, writes) = StreamOrchestrator::new(&tasks).unwrap();
    assert_eq!(stream.total_size(), 2200);
    assert_eq!(stream.playback_position(), 0);
    assert_eq!(
        writes,
        vec![
            InitialWrite { task: 0, offset: 0, length: 300 },
            InitialWrite { task: 1, offset: 1000, length: 500 },
            InitialWrite { task: 2, offset: 1500, length: 0 },
            InitialWrite { task: 3, offset: 1500, length: 100 },
        ]
    );
    let (empty, writes) = StreamOrchestrator::new(&[]).unwrap();
    assert_eq!(empty.total_size(), 0);
    assert!(writes.is_empty());
    assert!(StreamOrchestrator::new(&[task(u64::MAX, 0), task(1, 0)]).is_none());
    assert_eq!(
        StreamOrchestrator::new(&[task(u64::MAX, 0)]).unwrap().0.total_size(),
        u64::MAX
    );
}

#[test]
fn health_levels_split_at_5_15_and_35_percent() {
    assert_eq!(buffer_health(0, 0, 1000), BufferHealth::Critical);
    assert_eq!(buffer_health(50, 0, 1000), BufferHealth::Critical);
    assert_eq!(buffer_health(51, 0, 1000), BufferHealth::Poor);
    assert_eq!(buffer_health(59, 0, 1000), BufferHealth::Poor);
    assert_eq!(buffer_health(150, 0, 1000), BufferHealth::Poor);
    assert_eq!(buffer_health(151, 0, 1000), BufferHealth::Good);
    assert_eq!(buffer_health(350, 0, 1000), BufferHealth::Good);
    assert_eq!(buffer_health(351, 0, 1000), BufferHealth::Excellent);
    assert_eq!(buffer_health(1000, 0, 1000), BufferHealth::Excellent);
    // 10 of 200 are 5 %, 11 of 200 are more
    assert_eq!(buffer_health(10, 0, 200), BufferHealth::Critical);
    assert_eq!(buffer_health(11, 0, 200), BufferHealth::Poor);
    // shares that no whole percent tells apart
    assert_eq!(buffer_health(1, 0, 20), BufferHealth::Critical);
    assert_eq!(buffer_health(1, 0, 19), BufferHealth::Poor);
    assert_eq!(buffer_health(7, 0, 20), BufferHealth::Good);
    assert_eq!(buffer_health(7, 0, 19), BufferHealth::Excellent);
}

#[test]
fn health_counts_from_the_playback_position() {
    assert_eq!(buffer_health(600, 500, 1000), BufferHealth::Good);
    assert_eq!(buffer_health(500, 500, 1000), BufferHealth::Critical);
    assert_eq!(buffer_health(400, 500, 1000), BufferHealth::Critical);
    assert_eq!(buffer_health(1000, 500, 1000), BufferHealth::Excellent);
    // nothing remains at or behind the end, and nothing is ahead
    assert_eq!(buffer_health(0, 1000, 1000), BufferHealth::Critical);
    assert_eq!(buffer_health(1000, 1000, 1000), BufferHealth::Critical);
    assert_eq!(buffer_health(0, 5000, 1000), BufferHealth::Critical);
    assert_eq!(buffer_health(0, 0, 0), BufferHealth::Critical);
    assert_eq!(buffer_health(u64::MAX, 0, u64::MAX), BufferHealth::Excellent);
    assert_eq!(buffer_health(u64::MAX / 20, 0, u64::MAX), BufferHealth::Critical);
    assert_eq!(buffer_health(u64::MAX / 20 + 1, 0, u64::MAX), BufferHealth::Poor);
}

#[test]
fn health_rises_as_the_download_goes_on() {
    let (mut stream, _) = StreamOrchestrator::new(&[task(10000, 0)]).unwrap();
    stream.update_playback_position(0);
    let mut seen = Vec::new();
    for available in (0..=10000u64).step_by(100) {
        let h = stream.update_health(available);
        if seen.last() != Some(&h) {
            seen.push(h);
        }
    }
    assert_eq!(
        seen,
        vec![BufferHealth::Critical, BufferHealth::Poor, BufferHealth::Good, BufferHealth::Excellent]
    );
    assert_eq!(stream.update_health(0), BufferHealth::Critical);
    stream.update_playback_position(9000);
    assert_eq!(stream.playback_position(), 9000);
    assert_eq!(stream.total_size(), 10000);
    assert_eq!(stream.update_health(9400), BufferHealth::Excellent);
    assert_eq!(stream.update_health(9100), BufferHealth::Poor);
    assert_eq!(stream.update_health(9059), BufferHealth::Poor);
    assert_eq!(stream.update_health(9050), BufferHealth::Critical);
    stream.update_playback_position(10000);
    assert_eq!(stream.update_health(10000), BufferHealth::Critical);
}

#[test]
fn available_bytes_follow_the_first_hole() {
    let (stream, _) = StreamOrchestrator::new(&[task(5000, 0)]).unwrap();
    assert_eq!(stream.get_available_bytes(Some(0), Some(1234)), 1234);
    assert_eq!(stream.get_available_bytes(Some(0), None), 5000);
    assert_eq!(stream.get_available_bytes(Some(0), Some(0)), 0);
    assert_eq!(stream.get_available_bytes(Some(4096), Some(8192)), 0);
    assert_eq!(stream.get_available_bytes(None, None), 0);
    assert_eq!(stream.get_available_bytes(None, Some(77)), 0);
}

#[test]
fn range_is_there_when_no_hole_starts_in_it() {
    assert!(is_range_available(100, 50, Some(100), Some(150)));
    assert!(is_range_available(100, 50, Some(100), Some(4096)));
    assert!(is_range_available(100, 50, Some(100), None));
    assert!(is_range_available(100, 50, Some(0), Some(150)));
    assert!(!is_range_available(100, 50, Some(100), Some(149)));
    assert!(!is_range_available(100, 50, Some(101), Some(4096)));
    assert!(!is_range_available(100, 50, None, None));
    assert!(is_range_available(100, 0, None, None));
    assert!(!is_range_available(u64::MAX, 2, Some(0), Some(u64::MAX)));
    assert!(is_range_available(u64::MAX - 1, 1, Some(0), Some(u64::MAX)));
}

#[test]
fn range_is_handed_out_in_chunks() {
    let (mut stream, _) = StreamOrchestrator::new(&[task(10000, 0)]).unwrap();
    let mut cursor = stream.get_stream(1000, 2500, 1000);
    assert_eq!(stream.playback_position(), 1000);
    assert_eq!(cursor, StreamCursor { pos: 1000, end: 3500, chunk_size: 1000 });
    assert_eq!(cursor.next_chunk(10000), Some((1000, 1000)));
    assert_eq!(cursor.next_chunk(10000), Some((2000, 1000)));
    assert_eq!(cursor.next_chunk(10000), Some((3000, 500)));
    assert_eq!(cursor.next_chunk(10000), None);
    assert_eq!(cursor.pos, 3500);
    let mut whole = stream.get_stream(u64::MAX - 5, 100, 3);
    assert_eq!(whole.end, u64::MAX);
    assert_eq!(whole.next_chunk(u64::MAX), Some((u64::MAX - 5, 3)));
    assert_eq!(whole.next_chunk(u64::MAX), Some((u64::MAX - 2, 2)));
    assert_eq!(whole.next_chunk(u64::MAX), None);
}

#[test]
fn stream_ends_early_at_a_hole() {
    let mut cursor = StreamCursor { pos: 0, end: 5000, chunk_size: 2000 };
    assert_eq!(cursor.next_chunk(3000), Some((0, 2000)));
    assert_eq!(cursor.next_chunk(3000), Some((2000, 1000)));
    assert_eq!(cursor.next_chunk(3000), None);
    assert_eq!(cursor.next_chunk(2500), None);
    // more data has arrived
    assert_eq!(cursor.next_chunk(4000), Some((3000, 1000)));
    let mut stuck = StreamCursor { pos: 10, end: 20, chunk_size: 0 };
    assert_eq!(stuck.next_chunk(100), None);
    let mut empty = StreamCursor { pos: 10, end: 10, chunk_size: 5 };
    assert_eq!(empty.next_chunk(100), None);
}

#[test]
fn reads_follow_the_layout() {
    let f = |start: u64, length: u64| FileLayout {
        path: format!("f{start}"),
        length,
        virtual_start: start,
    };
    let layout = vec![f(0, 100), f(100, 50), f(150, 200), f(400, 100)];
    assert_eq!(
        read_range(50, 200, &layout),
        vec![
            LayoutRead { file: 0, offset: 50, length: 50 },
            LayoutRead { file: 1, offset: 0, length: 50 },
            LayoutRead { file: 2, offset: 0, length: 100 },
        ]
    );
    // the bytes from 350 to 400 are not there
    assert_eq!(
        read_range(300, 500, &layout),
        vec![LayoutRead { file: 2, offset: 150, length: 50 }]
    );
    assert_eq!(read_range(360, 10, &layout), vec![]);
    assert_eq!(read_range(420, 500, &layout), vec![LayoutRead { file: 3, offset: 20, length: 80 }]);
    assert_eq!(read_range(0, 0, &layout), vec![]);
    assert_eq!(read_range(500, 10, &layout), vec![]);
    assert_eq!(read_range(0, 10, &[]), vec![]);
    assert_eq!(next_piece(100, 30), 30);
    assert_eq!(next_piece(20, 30), 20);
    assert_eq!(next_piece(30, 30), 30);
    assert_eq!(next_piece(0, 30), 0);
    assert_eq!(next_piece(10, 0), 0);
}

#[test]
fn tracker_follows_the_run_of_segments_that_are_there() {
    let mut t = SegmentTracker::new();
    assert_eq!(t.get_buffer_health(), BufferHealth::Critical);
    for i in [0usize, 1, 2, 4, 5] {
        t.register_segment(i, format!("f{i}"), i);
    }
    let stats = t.get_stats();
    assert_eq!((stats.playback_segment, stats.available_segment, stats.total_segments), (0, 0, 6));
    t.mark_segment_complete(1);
    assert_eq!(t.get_stats().available_segment, 0);
    // segments 1 and 2 are registered, 3 is not
    t.mark_segment_complete(0);
    assert_eq!(t.get_stats().available_segment, 3);
    t.mark_segment_complete(3);
    assert_eq!(t.get_stats().available_segment, 6);
    assert_eq!(t.get_priority_segments(3), vec![6, 7, 8]);
    assert_eq!(t.get_priority_segments(0), Vec::<usize>::new());
    t.update_playback_position(2500, 1000);
    let stats = t.get_stats();
    assert_eq!(stats.playback_segment, 2);
    assert_eq!(stats.buffer_segments, 4);
    t.update_playback_position(9999, 1000);
    assert_eq!(t.get_stats().buffer_segments, 0);
}

#[test]
fn tracker_health_counts_segments_ahead() {
    let health_at = |lead: usize| {
        let mut t = SegmentTracker::new();
        for i in 1..lead {
            t.register_segment(i, String::new(), 0);
        }
        if lead > 0 {
            t.mark_segment_complete(0);
        }
        assert_eq!(t.get_stats().buffer_segments, lead);
        t.get_buffer_health()
    };
    assert_eq!(health_at(0), BufferHealth::Critical);
    assert_eq!(health_at(10), BufferHealth::Critical);
    assert_eq!(health_at(11), BufferHealth::Poor);
    assert_eq!(health_at(50), BufferHealth::Poor);
    assert_eq!(health_at(51), BufferHealth::Good);
    assert_eq!(health_at(200), BufferHealth::Good);
    assert_eq!(health_at(201), BufferHealth::Excellent);
}
