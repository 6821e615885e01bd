use nzb_streamer::nntp::body::body_line;
use nzb_streamer::nntp::body::is_body_status;
use nzb_streamer::nntp::body::BodyLine;
use nzb_streamer::nntp::client::retry_step;
use nzb_streamer::nntp::client::warm_delay_ms;
use nzb_streamer::nntp::client::warm_plan;
use nzb_streamer::nntp::client::RetryStep;
use nzb_streamer::nntp::config::IdleTimeout;
use nzb_streamer::nntp::config::MaxConnections;
use nzb_streamer::nntp::config::NntpConfig;
use nzb_streamer::nntp::connection::NntpConnection;
use nzb_streamer::nntp::error::NntpError;
use nzb_streamer::nntp::error::NntpPoolError;
use nzb_streamer::nntp::live::assemble_file;
use nzb_streamer::nntp::live::LiveNntpClient;
use nzb_streamer::nntp::mock::MockNntpClient;
use nzb_streamer::nntp::pool::pool_settings;
use nzb_streamer::nntp::pool::Connection;
use nzb_streamer::nntp::pool::PoolSettings;
use nzb_streamer::nntp::simple::SimpleNntpClient;

fn var(name: &str, value: &str) -> (String, String) {
    (name.to_string(), value.to_string())
}

fn config() -> NntpConfig {
    NntpConfig::new(
        "news.example".to_string(),
        "user".to_string(),
        "secret".to_string(),
        MaxConnections(8),
        IdleTimeout(15),
    )
}

/// Runs a download whose attempts end as `outcomes` tell, each attempt
/// taking `attempt_ms` and each pause `delay_ms`.
fn download(
    outcomes: Vec<Result<Vec<u8>, NntpError>>,
    attempt_ms: u64,
    delay_ms: u64,
) -> (Result<Vec<u8>, NntpError>, usize) {
    let mut elapsed = 0;
    let mut attempts = 0;
    for outcome in outcomes {
        attempts += 1;
        elapsed += attempt_ms;
        match retry_step(outcome.as_ref().err(), elapsed, delay_ms) {
            RetryStep::Done => return (outcome, attempts),
            RetryStep::GiveUp => return (outcome, attempts),
            RetryStep::RetryAfter(d) => elapsed += d,
        }
    }
    panic!("the download neither ended nor gave up");
}

#[test]
fn connection_blip_is_not_seen_in_the_bytes() {
    let bytes = vec![1u8, 2, 3, 4];
    let single = download(vec![Ok(bytes.clone())], 200, 500);
    let blip = download(
        vec![Err(NntpError::Io("connection reset".to_string())), Ok(bytes.clone())],
        200,
        500,
    );
    assert_eq!(single, (Ok(bytes.clone()), 1));
    assert_eq!(blip, (Ok(bytes), 2));
}

#[test]
fn download_is_given_up_after_thirty_seconds() {
    let failing: Vec<Result<Vec<u8>, NntpError>> =
        (0..100).map(|_| Err(NntpError::Read("timed out".to_string()))).collect();
    let (result, attempts) = download(failing, 1000, 4000);
    assert_eq!(result, Err(NntpError::Read("timed out".to_string())));
    // attempts begin at 0, 5, 10, 15, 20, 25 and 30 s; an eighth would begin after 30 s
    assert_eq!(attempts, 7);
    let blip = NntpError::Io("x".to_string());
    assert_eq!(retry_step(Some(&blip), 25000, 5000), RetryStep::RetryAfter(5000));
    assert_eq!(retry_step(Some(&blip), 25000, 5001), RetryStep::GiveUp);
    assert_eq!(retry_step(Some(&blip), 30000, 0), RetryStep::RetryAfter(0));
    assert_eq!(retry_step(Some(&blip), 30001, 0), RetryStep::GiveUp);
    assert_eq!(retry_step(Some(&blip), u64::MAX, u64::MAX), RetryStep::GiveUp);
    assert_eq!(retry_step(None, u64::MAX, u64::MAX), RetryStep::Done);
}

#[test]
fn refused_credentials_are_not_tried_again() {
    let refused = NntpError::AcquirePool(NntpPoolError::Authentication("481".to_string()));
    assert_eq!(retry_step(Some(&refused), 0, 100), RetryStep::GiveUp);
    assert!(!refused.is_transient());
    assert!(!NntpError::Config("c".to_string()).is_transient());
    assert!(!NntpError::CreatePool("c".to_string()).is_transient());
    assert!(NntpError::Read("r".to_string()).is_transient());
    assert!(NntpError::Io("i".to_string()).is_transient());
    assert!(NntpError::PoolTimeout.is_transient());
    let (result, attempts) = download(vec![Err(refused.clone()), Ok(vec![1])], 10, 10);
    assert_eq!((result, attempts), (Err(refused), 1));
}

#[test]
fn pool_is_warmed_in_steps_of_50_ms() {
    assert_eq!(warm_delay_ms(0), 0);
    assert_eq!(warm_delay_ms(1), 50);
    assert_eq!(warm_delay_ms(49), 2450);
    assert_eq!(warm_delay_ms(usize::MAX), u64::MAX);
    assert_eq!(warm_plan(4), vec![0, 50, 100, 150]);
    assert_eq!(warm_plan(0), Vec::<u64>::new());
    assert_eq!(warm_plan(50).len(), 50);
}

#[test]
fn settings_are_read_from_the_environment() {
    let vars = vec![
        var("PATH", "/bin"),
        var("NNTP_HOST", "news.example"),
        var("NNTP_USERNAME", "user"),
        var("NNTP_PASSWORD", "secret"),
        var("NNTP_MAX_CONNECTIONS", "8"),
        var("NNTP_IDLE_TIMEOUT", "15"),
    ];
    assert_eq!(NntpConfig::from_env(&vars), Ok(config()));
    let defaults = NntpConfig::from_env(&vars[..4]).unwrap();
    assert_eq!(defaults.max_connections, MaxConnections(50));
    assert_eq!(defaults.idle_timeout, IdleTimeout(10));
    assert_eq!(defaults.max_connections, MaxConnections::default());
    assert_eq!(defaults.idle_timeout, IdleTimeout::default());
    assert_eq!(defaults.max_connections.get(), 50);
    assert_eq!(defaults.idle_timeout.secs(), 10);
}

#[test]
fn missing_or_malformed_settings_are_refused() {
    let full = vec![
        var("NNTP_HOST", "h"),
        var("NNTP_USERNAME", "u"),
        var("NNTP_PASSWORD", "p"),
    ];
    for missing in 0..3 {
        let mut vars = full.clone();
        vars.remove(missing);
        assert!(matches!(NntpConfig::from_env(&vars), Err(NntpError::Config(_))));
    }
    assert!(matches!(NntpConfig::from_env(&[]), Err(NntpError::Config(_))));
    for (name, value) in [
        ("NNTP_MAX_CONNECTIONS", "many"),
        ("NNTP_MAX_CONNECTIONS", ""),
        ("NNTP_MAX_CONNECTIONS", "-1"),
        ("NNTP_IDLE_TIMEOUT", "10s"),
        ("NNTP_IDLE_TIMEOUT", "18446744073709551616"),
    ] {
        let mut vars = full.clone();
        vars.push(var(name, value));
        assert!(matches!(NntpConfig::from_env(&vars), Err(NntpError::Config(_))), "{name}={value}");
    }
    let mut vars = full.clone();
    vars.push(var("NNTP_IDLE_TIMEOUT", "18446744073709551615"));
    assert_eq!(NntpConfig::from_env(&vars).unwrap().idle_timeout, IdleTimeout(u64::MAX));
}

#[test]
fn pool_limits_follow_the_settings() {
    assert_eq!(
        pool_settings(&config()),
        PoolSettings { max_size: 8, wait_secs: None, create_secs: Some(5), recycle_secs: Some(15) }
    );
    assert_eq!(Connection::new(config()).config(), &config());
}

#[test]
fn clients_keep_their_settings() {
    assert_eq!(LiveNntpClient::new(config()).config, config());
    let simple = SimpleNntpClient::new(config());
    assert_eq!(simple.config(), &config());
    assert_eq!(simple.permits(), 8);
    assert_eq!(MockNntpClient::new(None).mock_dir(), &None);
    assert_eq!(
        MockNntpClient::new(Some("/tmp/downloaded".to_string())).mock_dir(),
        &Some("/tmp/downloaded".to_string())
    );
    let types_config = nzb_streamer::nntp::types::NntpConfig::default();
    assert_eq!(NntpConnection::new(types_config.clone()).config(), &types_config);
}

#[test]
fn file_names_are_read_in_two_more_ways() {
    let live = nzb_streamer::nntp::live::extract_filename;
    let simple = nzb_streamer::nntp::simple::extract_filename;
    assert_eq!(live("\"movie.rar\" yEnc (1/10)"), "movie.rar");
    assert_eq!(live("x \"open quote"), "open quote");
    assert_eq!(live("movie.rar yEnc"), "movie.rar");
    assert_eq!(live(" leading blank"), "");
    assert_eq!(live(""), "");
    assert_eq!(live("tab\tseparated words"), "tab\tseparated");
    assert_eq!(simple("\"movie.rar\" yEnc (1/1)"), "movie.rar");
    assert_eq!(simple("  first second"), "first");
    assert_eq!(simple(""), "unknown");
    assert_eq!(simple(" \t "), "unknown");
    assert_eq!(simple("x \"open quote"), "x");
}

#[test]
fn segments_are_put_together_in_order() {
    assert_eq!(assemble_file(&[vec![1, 2], vec![], vec![3], vec![4, 5, 6]]), vec![1, 2, 3, 4, 5, 6]);
    assert_eq!(assemble_file(&[]), Vec::<u8>::new());
}

#[test]
fn body_is_announced_by_status_222() {
    assert!(is_body_status(b"222 0 <id@host> body follows\r\n"));
    assert!(is_body_status(b"222"));
    assert!(!is_body_status(b"22"));
    assert!(!is_body_status(b" 222 body"));
    assert!(!is_body_status(b"430 no such article\r\n"));
    assert!(!is_body_status(b""));
}

#[test]
fn body_ends_at_the_line_of_a_single_dot() {
    assert_eq!(body_line(b".\r\n"), BodyLine::End);
    assert_eq!(body_line(b""), BodyLine::End);
    assert_eq!(body_line(b".\n"), BodyLine::Data(b".\n".to_vec()));
    assert_eq!(body_line(b"."), BodyLine::Data(b".".to_vec()));
    assert_eq!(body_line(b"\r\n"), BodyLine::Data(b"\r\n".to_vec()));
    assert_eq!(body_line(b"abc\r\n"), BodyLine::Data(b"abc\r\n".to_vec()));
}

#[test]
fn dot_before_a_dot_is_left_out() {
    assert_eq!(body_line(b"..\r\n"), BodyLine::Data(b".\r\n".to_vec()));
    assert_eq!(body_line(b"..abc\r\n"), BodyLine::Data(b".abc\r\n".to_vec()));
    assert_eq!(body_line(b"...\r\n"), BodyLine::Data(b"..\r\n".to_vec()));
    assert_eq!(body_line(b".abc\r\n"), BodyLine::Data(b".abc\r\n".to_vec()));
    assert_eq!(body_line(b"a..\r\n"), BodyLine::Data(b"a..\r\n".to_vec()));
    assert_eq!(body_line(b".."), BodyLine::Data(b".".to_vec()));
}
