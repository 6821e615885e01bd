use nzb_streamer::nntp::config::IdleTimeout;
use nzb_streamer::nntp::config::MaxConnections;
use nzb_streamer::nntp::config::NntpConfig;
use nzb_streamer::nzb::file::PostedFile;
use nzb_streamer::nzb::file::Segment;
use nzb_streamer::session::manager::ManagerError;
use nzb_streamer::session::manager::SessionManager;

fn posted(subject: &str) -> PostedFile {
    PostedFile::new(subject.to_string(), vec![Segment::new(5, 1, format!("{subject}@1"))])
}

fn settings() -> NntpConfig {
    NntpConfig::new(
        "news.example".to_string(),
        "user".to_string(),
        "SECRET-REDACTED".to_string(),
        MaxConnections::default(),
        IdleTimeout::default(),
    )
}

#[test]
fn new_manager_runs_no_session() {
    let m = SessionManager::new();
    assert_eq!(m.session_count(), 0);
    assert_eq!(m.position(7), None);
    assert_eq!(m.get_session(7).err(), Some(ManagerError::SessionNotFound { session_id: 7 }));
}

#[test]
fn created_session_has_its_recovery_files_queued() {
    let mut m = SessionManager::new();
    let files = vec![posted("a.rar"), posted("a.par2"), posted("a.vol0+1.par2")];
    assert_eq!(m.create_session(41, 1000, &files), 41);
    assert_eq!(m.create_session(42, 1001, &[]), 42);
    assert_eq!(m.session_count(), 2);
    assert_eq!(m.position(42), Some(1));
    let session = m.get_session(41).unwrap();
    assert_eq!(session.par2_files.len(), 2);
    assert_eq!(session.rar_files.len(), 1);
    let priorities: Vec<u32> = session.download_queue.iter().map(|t| t.priority()).collect();
    assert_eq!(priorities, vec![10000, 10001]);
    assert!(m.get_session(42).unwrap().download_queue.is_empty());
}

#[test]
fn downloader_needs_settings_and_a_session() {
    let mut m = SessionManager::new();
    m.create_session(1, 0, &[]);
    assert_eq!(m.start_session_downloader(1), Err(ManagerError::Config));
    assert_eq!(m.start_session_downloader(2), Err(ManagerError::Config));
    m.set_nntp_config(settings());
    assert_eq!(m.start_session_downloader(1), Ok(()));
    assert_eq!(
        m.start_session_downloader(2),
        Err(ManagerError::SessionNotFound { session_id: 2 })
    );
    assert_eq!(m.session_count(), 1);
}

#[test]
fn sessions_older_than_the_limit_are_ended() {
    let mut m = SessionManager::new();
    m.create_session(1, 100, &[]);
    m.create_session(2, 160, &[]);
    m.create_session(3, 130, &[]);
    m.create_session(4, 500, &[]);
    // at second 200 the ages are 100, 40, 70 and 0
    assert_eq!(m.cleanup_sessions(200, 100), 0);
    assert_eq!(m.session_count(), 4);
    assert_eq!(m.cleanup_sessions(200, 69), 2);
    assert_eq!(m.position(1), None);
    assert_eq!(m.position(2), Some(0));
    assert_eq!(m.position(3), None);
    assert_eq!(m.position(4), Some(1));
    assert_eq!(m.cleanup_sessions(200, 40), 0);
    assert_eq!(m.cleanup_sessions(201, 40), 1);
    assert_eq!(m.cleanup_sessions(u64::MAX, 0), 1);
    assert_eq!(m.session_count(), 0);
    assert_eq!(m.cleanup_sessions(0, 0), 0);
}

#[test]
fn session_of_an_id_that_is_taken_takes_its_place() {
    let mut m = SessionManager::new();
    m.create_session(1, 10, &[posted("a.par2")]);
    m.create_session(2, 20, &[]);
    assert_eq!(m.create_session(1, 30, &[posted("b.rar"), posted("c.rar")]), 1);
    assert_eq!(m.session_count(), 2);
    assert_eq!(m.position(1), Some(0));
    assert_eq!(m.position(2), Some(1));
    let session = m.get_session(1).unwrap();
    assert!(session.par2_files.is_empty());
    assert_eq!(session.rar_files.len(), 2);
    // the session is as old as its making
    assert_eq!(m.cleanup_sessions(31, 5), 1);
    assert_eq!(m.position(1), Some(0));
    assert_eq!(m.position(2), None);
}

#[test]
fn test_session_manager() {
    let mut manager = SessionManager::new();
    let files = vec![PostedFile::new(
        "test.par2".to_string(),
        vec![Segment::new(1000, 1, "test@example.com".to_string())],
    )];
    let session_id = manager.create_session(7, 0, &files);
    assert_eq!(manager.session_count(), 1);
    let session = manager.get_session(session_id).unwrap();
    assert_eq!(session.par2_files.len(), 1);
}
