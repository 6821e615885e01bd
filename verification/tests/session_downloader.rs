use nzb_streamer::nzb::file::PostedFile;
use nzb_streamer::nzb::file::Segment;
use nzb_streamer::session::downloader::after_fetch;
use nzb_streamer::session::downloader::all_par2_downloaded;
use nzb_streamer::session::downloader::before_fetch;
use nzb_streamer::session::downloader::retry_task;
use nzb_streamer::session::downloader::Fetch;
use nzb_streamer::session::downloader::NextStep;
use nzb_streamer::session::downloader::IDLE_WAIT_MS;
use nzb_streamer::session::downloader::RETRY_PRIORITY;
use nzb_streamer::session::DownloadTask;

fn posted(subject: &str, ids: &[&str]) -> PostedFile {
    let segments = ids
        .iter()
        .enumerate()
        .map(|(i, id)| Segment::new(700, i as u32 + 1, id.to_string()))
        .collect();
    PostedFile::new(subject.to_string(), segments)
}

fn volume_segment(priority: u32) -> DownloadTask {
    DownloadTask::RarSegment {
        segment: Segment::new(700, 2, "seg-2@example".to_string()),
        file_index: 1,
        segment_index: 1,
        priority,
        start: 700,
        end: 1400,
    }
}

#[test]
fn empty_queue_makes_the_downloader_wait_a_second() {
    assert_eq!(IDLE_WAIT_MS, 1000);
    assert_eq!(before_fetch(None), NextStep::Idle { wait_ms: 1000 });
    assert_eq!(before_fetch(Some(0)), NextStep::Continue);
    assert_eq!(before_fetch(Some(17)), NextStep::Continue);
}

#[test]
fn recovery_files_are_complete_when_each_first_segment_is_stored() {
    let files = vec![posted("a.par2", &["a1", "a2"]), posted("a.vol0+1.par2", &["b1"])];
    let none: Vec<String> = Vec::new();
    assert!(!all_par2_downloaded(&files, &none));
    assert!(!all_par2_downloaded(&files, &["a1".to_string()]));
    assert!(!all_par2_downloaded(&files, &["a1".to_string(), "a2".to_string()]));
    assert!(!all_par2_downloaded(&files, &["b1".to_string()]));
    assert!(all_par2_downloaded(&files, &["b1".to_string(), "x".to_string(), "a1".to_string()]));
    assert!(all_par2_downloaded(&[], &none));
}

#[test]
fn retried_segment_is_queued_at_priority_1000_for_its_own_length() {
    assert_eq!(RETRY_PRIORITY, 1000);
    let segment = Segment::new(700, 2, "seg-2@example".to_string());
    let task = retry_task(&segment, 3, 1);
    assert_eq!(
        task,
        DownloadTask::RarSegment {
            segment,
            file_index: 3,
            segment_index: 1,
            priority: 1000,
            start: 0,
            end: 700,
        }
    );
    assert_eq!(task.priority(), 1000);
}

#[test]
fn failed_segment_is_queued_again_only_if_the_failure_may_pass() {
    let files = vec![posted("a.par2", &["a1"])];
    let stored = vec!["a1".to_string()];
    let task = volume_segment(4899);
    assert_eq!(
        after_fetch(&task, Fetch::Failed { retryable: true }, &files, &stored),
        NextStep::Requeue(DownloadTask::RarSegment {
            segment: Segment::new(700, 2, "seg-2@example".to_string()),
            file_index: 1,
            segment_index: 1,
            priority: 1000,
            start: 0,
            end: 700,
        })
    );
    assert_eq!(
        after_fetch(&task, Fetch::Failed { retryable: false }, &files, &stored),
        NextStep::Continue
    );
    assert_eq!(after_fetch(&task, Fetch::Stored, &files, &stored), NextStep::Continue);
}

#[test]
fn recovery_files_are_read_once_all_of_them_are_stored() {
    let files = vec![posted("a.par2", &["a1"]), posted("b.par2", &["b1"])];
    let task = DownloadTask::Par2 { file: posted("a.par2", &["a1"]), priority: 10000 };
    let one = vec!["a1".to_string()];
    let both = vec!["a1".to_string(), "b1".to_string()];
    assert_eq!(after_fetch(&task, Fetch::Stored, &files, &one), NextStep::Continue);
    assert_eq!(after_fetch(&task, Fetch::Stored, &files, &both), NextStep::ProcessPar2);
    assert_eq!(
        after_fetch(&task, Fetch::Failed { retryable: true }, &files, &both),
        NextStep::ProcessPar2
    );
    assert_eq!(
        after_fetch(&task, Fetch::Failed { retryable: true }, &files, &one),
        NextStep::Continue
    );
}
