use nzb_streamer::http::range::parse_byte_range;
use nzb_streamer::http::range::ByteRange;
use nzb_streamer::http::range::RangeError;
use nzb_streamer::http::range::RangeRequest;
use nzb_streamer::http::response::content_range_value;
use nzb_streamer::http::response::create_error_body;
use nzb_streamer::http::response::create_range_response_headers;
use nzb_streamer::http::response::create_test_file_response;
use nzb_streamer::http::response::chunked_response_headers;
use nzb_streamer::http::response::stream_response_headers;
use nzb_streamer::http::stream::parse_range_header;
use nzb_streamer::http::stream::plan_chunked;
use nzb_streamer::http::stream::plan_stream;
use nzb_streamer::http::stream::StreamResponse;

fn pair(name: &str, value: &str) -> (String, String) {
    (name.to_string(), value.to_string())
}

#[test]
fn test_parse_full_range() {
    let range = RangeRequest::parse_range_header(Some("bytes=0-1023"), 2048)
        .unwrap()
        .unwrap();
    assert_eq!(range.start, 0);
    assert_eq!(range.end, Some(1023));
}

#[test]
fn test_parse_open_ended_range() {
    let range = RangeRequest::parse_range_header(Some("bytes=1024-"), 2048)
        .unwrap()
        .unwrap();
    assert_eq!(range.start, 1024);
    assert_eq!(range.end, None);
}

#[test]
fn test_parse_suffix_range() {
    let range = RangeRequest::parse_range_header(Some("bytes=-500"), 2048)
        .unwrap()
        .unwrap();
    assert_eq!(range.start, 1548); // 2048 - 500
    assert_eq!(range.end, None);
}

#[test]
fn test_to_range() {
    let range = RangeRequest {
        start: 100,
        end: Some(199),
    };
    let byte_range = range.to_range(1000);
    assert_eq!(byte_range, 100..200);
}

#[test]
fn to_range_stops_at_the_end_of_the_content() {
    let open = RangeRequest { start: 10, end: None };
    assert_eq!(open.to_range(1000), 10..1000);
    assert_eq!(open.content_length(1000), 990);
    let long = RangeRequest { start: 10, end: Some(5000) };
    assert_eq!(long.to_range(1000), 10..1000);
    assert_eq!(long.content_length(1000), 990);
    let short = RangeRequest { start: 100, end: Some(199) };
    assert_eq!(short.content_length(1000), 100);
    let one = RangeRequest { start: 0, end: Some(0) };
    assert_eq!(one.to_range(1), 0..1);
    assert_eq!(one.content_length(1), 1);
}

#[test]
fn request_without_header_asks_for_nothing_in_particular() {
    assert_eq!(RangeRequest::parse_range_header(None, 2048), Ok(None));
    assert_eq!(RangeRequest::parse_range_header(None, 0), Ok(None));
}

#[test]
fn malformed_headers_are_bad_requests() {
    for header in [
        "", "bytes", "bytes=", "items=0-5", "bytes=5", "bytes=a-b", "bytes=-", "bytes=1-x",
        "bytes=-x", "Bytes=0-5", " bytes=0-5", "bytes=1 2-5", "bytes=18446744073709551616-",
        "bytes=0--5", "bytes=-5-",
    ] {
        assert_eq!(
            RangeRequest::parse_range_header(Some(header), 2048),
            Err(RangeError::BadRequest),
            "header {header:?}"
        );
        assert_eq!(parse_byte_range(header), Err(RangeError::BadRequest));
    }
    assert_eq!(RangeError::BadRequest.status_code(), 400);
    assert_eq!(RangeError::NotSatisfiable.status_code(), 416);
}

#[test]
fn byte_ranges_are_read_as_written() {
    assert_eq!(parse_byte_range("bytes=0-1023"), Ok(ByteRange::FromTo(0, 1023)));
    assert_eq!(parse_byte_range("bytes=7-"), Ok(ByteRange::From(7)));
    assert_eq!(parse_byte_range("bytes=-9"), Ok(ByteRange::Suffix(9)));
    assert_eq!(parse_byte_range("bytes=9-3"), Ok(ByteRange::FromTo(9, 3)));
    assert_eq!(parse_byte_range("bytes= 5 - 8 "), Ok(ByteRange::FromTo(5, 8)));
    assert_eq!(parse_byte_range("bytes=0-1, 5-9"), Ok(ByteRange::FromTo(0, 1)));
    assert_eq!(parse_byte_range("bytes=+3-+4"), Ok(ByteRange::FromTo(3, 4)));
    assert_eq!(
        parse_byte_range("bytes=18446744073709551615-"),
        Ok(ByteRange::From(u64::MAX))
    );
    assert_eq!(parse_byte_range("bytes=007-"), Ok(ByteRange::From(7)));
}

#[test]
fn ranges_outside_the_content_cannot_be_satisfied() {
    for header in ["bytes=2048-", "bytes=5000-", "bytes=0-2048", "bytes=10-5", "bytes=-0"] {
        assert_eq!(
            RangeRequest::parse_range_header(Some(header), 2048),
            Err(RangeError::NotSatisfiable),
            "header {header:?}"
        );
    }
    assert_eq!(
        RangeRequest::parse_range_header(Some("bytes=0-"), 0),
        Err(RangeError::NotSatisfiable)
    );
    assert_eq!(
        RangeRequest::parse_range_header(Some("bytes=-5000"), 2048),
        Ok(Some(RangeRequest { start: 0, end: None }))
    );
    assert_eq!(
        RangeRequest::parse_range_header(Some("bytes=2047-2047"), 2048),
        Ok(Some(RangeRequest { start: 2047, end: Some(2047) }))
    );
}

#[test]
fn nothing_available_is_answered_with_retry_after() {
    let unavailable = StreamResponse::Unavailable { retry_after: 2 };
    assert_eq!(plan_stream(Some("bytes=0-"), 0, 0), unavailable);
    assert_eq!(plan_stream(Some("bytes=0-"), 0, 5000), unavailable);
    assert_eq!(plan_stream(None, 0, 5000), unavailable);
    assert_eq!(plan_stream(Some("nonsense"), 0, 5000), unavailable);
    assert_eq!(plan_chunked(0), unavailable);
    assert_eq!(unavailable.status(), 503);
    assert_eq!(unavailable.body(), None);
    assert_eq!(stream_response_headers(&unavailable), vec![pair("Retry-After", "2")]);
}

#[test]
fn range_that_starts_in_a_hole_is_told_to_come_back() {
    let unavailable = StreamResponse::Unavailable { retry_after: 2 };
    assert_eq!(plan_stream(Some("bytes=1000-"), 1000, 5000), unavailable);
    assert_eq!(plan_stream(Some("bytes=1001-"), 1000, 5000), unavailable);
    assert_eq!(plan_stream(Some("bytes=9999-"), 1000, 5000), unavailable);
    assert_eq!(plan_stream(Some("bytes=1000-1200"), 1000, 5000), unavailable);
    assert_eq!(
        plan_stream(Some("bytes=999-"), 1000, 5000),
        StreamResponse::Partial { start: 999, end: 999, total: 5000 }
    );
}

#[test]
fn long_suffix_serves_all_that_is_there() {
    assert_eq!(
        plan_stream(Some("bytes=-4000"), 1000, 5000),
        StreamResponse::Partial { start: 0, end: 999, total: 5000 }
    );
    assert_eq!(
        plan_stream(Some("bytes=-1000"), 1000, 5000),
        StreamResponse::Partial { start: 0, end: 999, total: 5000 }
    );
    assert_eq!(
        plan_stream(Some("bytes=-100"), 1000, 5000),
        StreamResponse::Partial { start: 900, end: 999, total: 5000 }
    );
    assert_eq!(plan_stream(Some("bytes=-0"), 1000, 5000), StreamResponse::NotSatisfiable);
}

#[test]
fn partial_answers_stop_at_the_first_hole() {
    let r = plan_stream(Some("bytes=0-1023"), 4096, 10000);
    assert_eq!(r, StreamResponse::Partial { start: 0, end: 1023, total: 10000 });
    assert_eq!(r.status(), 206);
    assert_eq!(r.body(), Some((0, 1024)));
    assert_eq!(
        stream_response_headers(&r),
        vec![
            pair("Content-Type", "video/x-matroska"),
            pair("Accept-Ranges", "bytes"),
            pair("Content-Range", "bytes 0-1023/10000"),
            pair("Content-Length", "1024"),
            pair("Cache-Control", "public, max-age=3600"),
        ]
    );
    let clipped = plan_stream(Some("bytes=4000-8000"), 4096, 10000);
    assert_eq!(clipped, StreamResponse::Partial { start: 4000, end: 4095, total: 10000 });
    assert_eq!(clipped.body(), Some((4000, 96)));
}

#[test]
fn whole_file_requests_are_answered_with_all_that_is_there() {
    let r = plan_stream(None, 4096, 10000);
    assert_eq!(r, StreamResponse::Full { length: 4096 });
    assert_eq!(r.status(), 200);
    assert_eq!(r.body(), Some((0, 4096)));
    assert_eq!(
        stream_response_headers(&r),
        vec![
            pair("Content-Type", "video/x-matroska"),
            pair("Accept-Ranges", "bytes"),
            pair("Content-Length", "4096"),
            pair("Cache-Control", "no-cache"),
        ]
    );
    assert_eq!(plan_chunked(4096), StreamResponse::Full { length: 4096 });
    assert_eq!(
        chunked_response_headers(),
        vec![
            pair("Content-Type", "video/x-matroska"),
            pair("Transfer-Encoding", "chunked"),
            pair("Cache-Control", "no-cache"),
        ]
    );
}

#[test]
fn unreadable_and_backward_ranges_are_errors() {
    assert_eq!(plan_stream(Some("bytes=x-"), 100, 100), StreamResponse::BadRequest);
    assert_eq!(StreamResponse::BadRequest.status(), 400);
    assert_eq!(plan_stream(Some("bytes=50-10"), 100, 100), StreamResponse::NotSatisfiable);
    assert_eq!(StreamResponse::NotSatisfiable.status(), 416);
    assert_eq!(stream_response_headers(&StreamResponse::NotSatisfiable), vec![]);
}

#[test]
fn range_header_gives_start_and_length() {
    assert_eq!(parse_range_header(Some("bytes=0-1023"), 2048), Some((0, 1024)));
    assert_eq!(parse_range_header(Some("bytes=1024-"), 2048), Some((1024, 1024)));
    assert_eq!(parse_range_header(Some("bytes=-500"), 2048), Some((1548, 500)));
    assert_eq!(parse_range_header(Some("bytes=2048-"), 2048), None);
    assert_eq!(parse_range_header(Some("bytes=5-1"), 2048), None);
    assert_eq!(parse_range_header(Some("pages=1-2"), 2048), None);
    assert_eq!(parse_range_header(None, 2048), None);
    assert_eq!(parse_range_header(Some("bytes=0-"), 0), None);
}

#[test]
fn range_headers_name_the_served_bytes() {
    let request = RangeRequest { start: 100, end: Some(199) };
    assert_eq!(
        create_range_response_headers(&request, 100, 1000, "video/x-matroska"),
        Ok(vec![
            pair("Content-Range", "bytes 100-199/1000"),
            pair("Content-Length", "100"),
            pair("Content-Type", "video/x-matroska"),
            pair("Accept-Ranges", "bytes"),
        ])
    );
    assert_eq!(create_range_response_headers(&request, 100, 1000, "text/plain\n"), Err(500));
    assert_eq!(create_range_response_headers(&request, 100, 1000, "a\u{7f}b"), Err(500));
    assert_eq!(create_range_response_headers(&request, 100, 1000, "\u{1f}"), Err(500));
    assert!(create_range_response_headers(&request, 100, 1000, "a\tb; \u{e9}~").is_ok());
    assert!(create_range_response_headers(&request, 100, 1000, "").is_ok());
    let open = RangeRequest { start: 0, end: None };
    assert_eq!(
        create_range_response_headers(&open, 1000, 1000, "text/plain").unwrap()[0],
        pair("Content-Range", "bytes 0-999/1000")
    );
    assert_eq!(content_range_value(0, 0, 1), "bytes 0-0/1");
    assert_eq!(
        content_range_value(10, u64::MAX, u64::MAX),
        "bytes 10-18446744073709551615/18446744073709551615"
    );
}

#[test]
fn error_body_and_trial_content() {
    assert_eq!(create_error_body("Session not found"), "{\"error\": \"Session not found\"}");
    assert_eq!(create_error_body(""), "{\"error\": \"\"}");
    assert_eq!(create_test_file_response(0), Vec::<u8>::new());
    let data = create_test_file_response(600);
    assert_eq!(data.len(), 600);
    assert_eq!(data[0], 0);
    assert_eq!(data[255], 255);
    assert_eq!(data[256], 0);
    assert_eq!(data[599], 87);
}
