use nzb_streamer::mkv::mkv::FileRead;
use nzb_streamer::mkv::mkv::MkvStreamer;
use nzb_streamer::mkv::mkv::VIDEO_CHUNK_SIZE;

fn two_of_three() -> MkvStreamer {
    let names: Vec<String> = ["a.rar", "a.r00", "a.r01"].iter().map(|s| s.to_string()).collect();
    let mut s = MkvStreamer::new(&names);
    s.mark_segment_downloaded("a.rar", 50, 1000).unwrap();
    s.mark_segment_downloaded("a.r00", 20, 500).unwrap();
    s
}

#[test]
fn range_is_read_from_the_volume_that_holds_its_start() {
    let s = two_of_three();
    assert_eq!(s.read_range(0, 100), Some(FileRead { volume: 0, position: 50, length: 100 }));
    assert_eq!(s.read_range(990, 100), Some(FileRead { volume: 0, position: 1040, length: 10 }));
    assert_eq!(s.read_range(1000, 90), Some(FileRead { volume: 1, position: 20, length: 90 }));
    assert_eq!(s.read_range(1000, 0), None);
    assert_eq!(s.read_range(1500, 10), None);
}

#[test]
fn range_is_read_in_pieces_of_eight_mebibytes() {
    assert_eq!(VIDEO_CHUNK_SIZE, 8 * 1024 * 1024);
    let names = vec!["big.rar".to_string()];
    let mut s = MkvStreamer::new(&names);
    s.mark_segment_downloaded("big.rar", 7, 20_000_000).unwrap();
    assert_eq!(
        s.read_range(0, 20_000_000),
        Some(FileRead { volume: 0, position: 7, length: 8_388_608 })
    );
    assert_eq!(
        s.read_range(8_388_608, 11_611_392),
        Some(FileRead { volume: 0, position: 8_388_615, length: 8_388_608 })
    );
    assert_eq!(
        s.read_range(16_777_216, 3_222_784),
        Some(FileRead { volume: 0, position: 16_777_223, length: 3_222_784 })
    );
    assert_eq!(s.read_range(20_000_000, 0), None);
}

#[test]
fn chunked_read_stops_where_the_stream_is_available() {
    let s = two_of_three();
    assert_eq!(s.get_available_bytes(), 1500);
    assert_eq!(
        s.read_range_with_chunk_size(0, 5000, 400),
        Some(FileRead { volume: 0, position: 50, length: 400 })
    );
    assert_eq!(
        s.read_range_with_chunk_size(800, 4200, 400),
        Some(FileRead { volume: 0, position: 850, length: 200 })
    );
    assert_eq!(
        s.read_range_with_chunk_size(1000, 4000, 400),
        Some(FileRead { volume: 1, position: 20, length: 400 })
    );
    assert_eq!(
        s.read_range_with_chunk_size(1400, 3600, 400),
        Some(FileRead { volume: 1, position: 420, length: 100 })
    );
    assert_eq!(s.read_range_with_chunk_size(1500, 3500, 400), None);
    assert_eq!(s.read_range_with_chunk_size(1200, 50, 400),
        Some(FileRead { volume: 1, position: 220, length: 50 }));
    assert_eq!(s.read_range_with_chunk_size(0, 0, 400), None);
    assert_eq!(s.read_range_with_chunk_size(0, 100, 0), None);
}

#[test]
fn chunked_read_gives_nothing_behind_an_incomplete_volume() {
    let names: Vec<String> = ["a.rar", "a.r00"].iter().map(|s| s.to_string()).collect();
    let mut s = MkvStreamer::new(&names);
    assert_eq!(s.read_range_with_chunk_size(0, 10, 4), None);
    s.mark_segment_downloaded("a.r00", 20, 500).unwrap();
    assert_eq!(s.get_available_bytes(), 0);
    assert_eq!(s.read_range_with_chunk_size(0, 10, 4), None);
    assert_eq!(s.read_range(0, 10), Some(FileRead { volume: 1, position: 20, length: 10 }));
}
