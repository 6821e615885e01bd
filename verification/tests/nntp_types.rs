use nzb_streamer::nntp::types::Article;
use nzb_streamer::nntp::types::NntpCommand;
use nzb_streamer::nntp::types::NntpConfig;
use nzb_streamer::nntp::types::NntpResponse;
use nzb_streamer::nntp::types::YencFooter;
use nzb_streamer::nntp::types::YencHeader;

#[test]
fn test_yenc_header_parsing() {
    let line = "=ybegin line=128 size=123456 part=1 total=3 name=movie.mp4";
    let header = YencHeader::parse(line).unwrap();

    assert_eq!(header.line, 128);
    assert_eq!(header.size, 123456);
    assert_eq!(header.part, Some(1));
    assert_eq!(header.total, Some(3));
    assert_eq!(header.name, "movie.mp4");
}

#[test]
fn test_yenc_footer_parsing() {
    let line = "=yend size=123456 part=1 pcrc32=12345678";
    let footer = YencFooter::parse(line).unwrap();

    assert_eq!(footer.size, 123456);
    assert_eq!(footer.part, Some(1));
    assert_eq!(footer.pcrc32, Some(0x12345678));
}

#[test]
fn test_nntp_response() {
    let response = NntpResponse::new(200, "OK".to_string());
    assert!(response.is_success());
    assert!(!response.is_error());

    let error_response = NntpResponse::new(430, "No such article".to_string());
    assert!(!error_response.is_success());
    assert!(error_response.is_error());
}

#[test]
fn response_codes_split_at_400() {
    assert!(NntpResponse::new(399, String::new()).is_success());
    assert!(NntpResponse::new(400, String::new()).is_error());
    assert!(NntpResponse::new(0, String::new()).is_success());
    let r = NntpResponse::new(222, "body follows".to_string())
        .with_lines(vec!["a".to_string(), "b".to_string()]);
    assert_eq!(r.code, 222);
    assert_eq!(r.message, "body follows");
    assert_eq!(r.lines, vec!["a".to_string(), "b".to_string()]);
    assert_eq!(NntpResponse::new(1, "x".to_string()).lines.len(), 0);
}

#[test]
fn header_line_defaults_and_fallbacks() {
    let h = YencHeader::parse("=ybegin").unwrap();
    assert_eq!(h.line, 128);
    assert_eq!(h.size, 0);
    assert_eq!(h.part, None);
    assert_eq!(h.total, None);
    assert_eq!(h.name, "");
    assert_eq!(h.crc32, None);
    let h = YencHeader::parse("=ybegin line=abc size=-4 part=x total=1.5 crc32=zz").unwrap();
    assert_eq!(h.line, 128);
    assert_eq!(h.size, 0);
    assert_eq!(h.part, None);
    assert_eq!(h.total, None);
    assert_eq!(h.crc32, None);
    let h = YencHeader::parse("=ybegin  line=64\tsize=10  crc32=DEADbeef name=a=b other=1 name").unwrap();
    assert_eq!(h.line, 64);
    assert_eq!(h.size, 10);
    assert_eq!(h.crc32, Some(0xDEADBEEF));
    assert_eq!(h.name, "a=b");
    let h = YencHeader::parse("=ybegin line=64 line=4294967296 part=4294967295").unwrap();
    assert_eq!(h.line, 128);
    assert_eq!(h.part, Some(u32::MAX));
    let h = YencHeader::parse("=ybeginline=5 size=7").unwrap();
    assert_eq!(h.line, 128);
    assert_eq!(h.size, 7);
    assert!(YencHeader::parse("=yend size=1").is_none());
    assert!(YencHeader::parse(" =ybegin size=1").is_none());
    assert!(YencHeader::parse("").is_none());
}

#[test]
fn footer_line_defaults_and_fallbacks() {
    let f = YencFooter::parse("=yend").unwrap();
    assert_eq!(f, YencFooter { size: 0, part: None, pcrc32: None, crc32: None });
    let f = YencFooter::parse("=yend size=9 crc32=ffffffff pcrc32=1ffffffff part=+2").unwrap();
    assert_eq!(f, YencFooter { size: 9, part: Some(2), pcrc32: None, crc32: Some(u32::MAX) });
    assert!(YencFooter::parse("=ybegin size=1").is_none());
    assert!(YencFooter::parse("yend").is_none());
}

#[test]
fn article_headers_are_found_by_name() {
    let mut a = Article::new("<id@host>".to_string());
    assert_eq!(a.message_id, "<id@host>");
    assert_eq!(a.subject(), None);
    assert_eq!(a.from(), None);
    assert_eq!(a.date(), None);
    assert!(!a.is_yenc());
    a.headers.push(("From".to_string(), "poster".to_string()));
    a.headers.push(("Subject".to_string(), "first".to_string()));
    a.headers.push(("Subject".to_string(), "second".to_string()));
    a.headers.push(("Date".to_string(), "today".to_string()));
    assert_eq!(a.subject(), Some(&"first".to_string()));
    assert_eq!(a.from(), Some(&"poster".to_string()));
    assert_eq!(a.date(), Some(&"today".to_string()));
    assert_eq!(a.header("subject"), None);
    a.body = b"junk\r\n=ybegin line=128\r\n".to_vec();
    assert!(a.is_yenc());
    a.body = b"=ybegin line=128 size=1 name=a".to_vec();
    assert!(a.is_yenc());
    a.body = b"=ybegin".to_vec();
    assert!(a.is_yenc());
    a.body = b"=ybegi".to_vec();
    assert!(!a.is_yenc());
    a.body = b"=ybeg=ybegi n".to_vec();
    assert!(!a.is_yenc());
}

#[test]
fn commands_are_written_out() {
    assert_eq!(NntpCommand::Connect.as_string(), "CONNECT");
    assert_eq!(NntpCommand::ModeReader.as_string(), "MODE READER");
    assert_eq!(NntpCommand::Quit.as_string(), "QUIT");
    assert_eq!(
        NntpCommand::Authenticate { username: "u".to_string(), password: "p w".to_string() }
            .as_string(),
        "AUTHINFO USER u\r\nAUTHINFO PASS p w"
    );
    assert_eq!(
        NntpCommand::Article { message_id: "<a@b>".to_string() }.as_string(),
        "ARTICLE <a@b>"
    );
    assert_eq!(NntpCommand::Body { message_id: "<a@b>".to_string() }.as_string(), "BODY <a@b>");
    assert_eq!(NntpCommand::Head { message_id: String::new() }.as_string(), "HEAD ");
}

#[test]
fn default_settings() {
    let c = NntpConfig::default();
    assert_eq!(c.host, "");
    assert_eq!(c.port, 563);
    assert_eq!(c.username, "");
    assert_eq!(c.password, "");
    assert!(c.use_tls);
    assert_eq!(c.connection_timeout, 30);
    assert_eq!(c.read_timeout, 60);
    assert_eq!(c.max_connections, 5);
}
