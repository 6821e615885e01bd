use nzb_streamer::http::response::create_error_response;
use nzb_streamer::http::response::create_streaming_response;
use nzb_streamer::http::response::streaming_response;
use nzb_streamer::http::response::ErrorResponse;
use nzb_streamer::http::response::FileResponse;
use nzb_streamer::stream::segment_tracker::SegmentTracker;

fn pair(name: &str, value: &str) -> (String, String) {
    (name.to_string(), value.to_string())
}

#[test]
fn whole_file_is_answered_with_type_length_and_ranges() {
    assert_eq!(
        streaming_response("video/x-matroska", 1234, None),
        FileResponse {
            status: 200,
            headers: vec![
                pair("Content-Type", "video/x-matroska"),
                pair("Content-Length", "1234"),
                pair("Accept-Ranges", "bytes"),
            ],
        }
    );
    assert_eq!(
        streaming_response("", 0, None).headers,
        vec![pair("Content-Type", ""), pair("Content-Length", "0"), pair("Accept-Ranges", "bytes")]
    );
    assert_eq!(
        streaming_response("text/plain\r\n", 5, None),
        FileResponse { status: 500, headers: Vec::new() }
    );
    assert_eq!(streaming_response("\n", 5, Some(Vec::new())).status, 206);
}

#[test]
fn range_answer_carries_the_named_lines_it_was_given() {
    let given = vec![
        (Some("Content-Range".to_string()), "bytes 0-9/100".to_string()),
        (None, "dropped".to_string()),
        (Some("Content-Length".to_string()), "10".to_string()),
    ];
    assert_eq!(
        streaming_response("video/x-matroska", 10, Some(given.clone())),
        FileResponse {
            status: 206,
            headers: vec![pair("Content-Range", "bytes 0-9/100"), pair("Content-Length", "10")],
        }
    );
    assert_eq!(
        create_streaming_response(10, Some(given), "movie.mkv"),
        FileResponse {
            status: 206,
            headers: vec![pair("Content-Range", "bytes 0-9/100"), pair("Content-Length", "10")],
        }
    );
    assert_eq!(
        create_streaming_response(10, Some(Vec::new()), "movie.mkv"),
        FileResponse { status: 206, headers: Vec::new() }
    );
}

#[test]
fn media_type_is_guessed_by_the_extension() {
    let of = |name: &str| create_streaming_response(7, None, name).headers[0].clone();
    assert_eq!(of("movie.mkv"), pair("Content-Type", "video/x-matroska"));
    assert_eq!(of("movie.MP4"), pair("Content-Type", "video/mp4"));
    assert_eq!(of("notes.txt"), pair("Content-Type", "text/plain"));
    assert_eq!(of("movie"), pair("Content-Type", "application/octet-stream"));
    assert_eq!(of("movie.unknown-ext"), pair("Content-Type", "application/octet-stream"));
    let r = create_streaming_response(7, None, "movie.mkv");
    assert_eq!(r.status, 200);
    assert_eq!(r.headers[1..], [pair("Content-Length", "7"), pair("Accept-Ranges", "bytes")]);
}

#[test]
fn errors_are_reported_as_json() {
    assert_eq!(
        create_error_response(404, "no such session"),
        ErrorResponse {
            status: 404,
            headers: vec![pair("Content-Type", "application/json")],
            body: "{\"error\": \"no such session\"}".to_string(),
        }
    );
}

#[test]
fn segment_registered_twice_counts_once() {
    let mut t = SegmentTracker::new();
    t.register_segment(1, "a".to_string(), 0);
    t.register_segment(1, "b".to_string(), 1);
    t.register_segment(3, "c".to_string(), 0);
    assert_eq!(t.get_stats().total_segments, 4);
    t.mark_segment_complete(0);
    assert_eq!(t.get_stats().available_segment, 2);
    t.mark_segment_complete(2);
    assert_eq!(t.get_stats().available_segment, 4);
    t.mark_segment_complete(7);
    assert_eq!(t.get_stats().available_segment, 4);
}

#[test]
fn tracker_without_segments_moves_one_past_the_marked_segment() {
    let mut t = SegmentTracker::new();
    t.mark_segment_complete(0);
    assert_eq!(t.get_stats().available_segment, 1);
    t.mark_segment_complete(1);
    assert_eq!(t.get_stats().available_segment, 2);
}
