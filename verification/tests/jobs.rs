use squeeze::error::AppError;
use squeeze::jobs::{JobManager, JobStart};
use squeeze::models::{
    CompressResult, CompressionSettings, JobKind, JobStatus, OutputMode, TrimSpan, PROGRESS_DONE,
    PROGRESS_NONE,
};

fn queue_one(m: &mut JobManager, path: &str) -> String {
    m.enqueue(path.to_string(), OutputMode::CopyBeside, None, JobKind::Squeeze, None).id
}

fn status_of(m: &JobManager, id: &str) -> JobStatus {
    m.find(id).expect("job").status
}

#[test]
fn enqueue_adds_a_queued_job() {
    let mut m = JobManager::new();
    let trim = TrimSpan { start_bits: 2.0f64.to_bits(), end_bits: 20.0f64.to_bits() };
    let job = m.enqueue(
        "/v/a.mp4".to_string(),
        OutputMode::Replace,
        Some(trim),
        JobKind::Trim,
        Some("short".to_string()),
    );
    assert_eq!(job.id.len(), 36);
    assert_eq!(job.id.as_bytes()[14], b'4');
    assert_eq!(job.status, JobStatus::Queued);
    assert_eq!(job.input_path, "/v/a.mp4");
    assert_eq!(job.output_path, None);
    assert_eq!(job.error, None);
    assert_eq!(job.progress_bits, PROGRESS_NONE);
    assert_eq!(job.settings, CompressionSettings::discord());
    assert_eq!(job.output_mode, OutputMode::Replace);
    assert_eq!(job.trim, Some(trim));
    assert_eq!(job.kind, JobKind::Trim);
    assert_eq!(job.output_name, Some("short".to_string()));
    let list = m.list();
    assert_eq!(list, vec![job]);
}

#[test]
fn ids_are_distinct() {
    let mut m = JobManager::new();
    let a = queue_one(&mut m, "/v/a.mp4");
    let b = queue_one(&mut m, "/v/b.mp4");
    assert_ne!(a, b);
    assert_eq!(m.list().len(), 2);
}

#[test]
fn enqueue_new_skips_known_paths() {
    let mut m = JobManager::new();
    queue_one(&mut m, r"C:\Clips\A.mp4");
    let again =
        m.enqueue_new("c:/clips/a.mp4".to_string(), OutputMode::CopyBeside, None, JobKind::Squeeze, None);
    assert!(again.is_none());
    let other =
        m.enqueue_new("c:/clips/b.mp4".to_string(), OutputMode::CopyBeside, None, JobKind::Squeeze, None);
    assert!(other.is_some());
    assert_eq!(m.list().len(), 2);
}

#[test]
fn enqueue_all_new_counts_fresh_inputs() {
    let mut m = JobManager::new();
    queue_one(&mut m, "/v/a.mp4");
    let inputs = vec![
        "/v/a.mp4".to_string(),
        "/v/b.mp4".to_string(),
        "/V/B.mp4".to_string(),
        "/v/c.mp4".to_string(),
    ];
    assert_eq!(m.enqueue_all_new(&inputs, OutputMode::Replace), 2);
    let paths: Vec<String> = m.list().into_iter().map(|j| j.input_path).collect();
    assert_eq!(paths, vec!["/v/a.mp4", "/v/b.mp4", "/v/c.mp4"]);
}

#[test]
fn rescanning_the_same_folder_adds_nothing() {
    let mut m = JobManager::new();
    let inputs = vec![
        r"D:\Clips\one.mp4".to_string(),
        r"D:\Clips\two.mkv".to_string(),
        "d:/clips/ONE.mp4".to_string(),
    ];
    assert_eq!(m.enqueue_all_new(&inputs, OutputMode::CopyBeside), 2);
    assert_eq!(m.enqueue_all_new(&inputs, OutputMode::CopyBeside), 0);
    assert_eq!(m.list().len(), 2);
}

#[test]
fn cancel_a_waiting_job() {
    let mut m = JobManager::new();
    let id = queue_one(&mut m, "/v/a.mp4");
    assert!(m.cancel(&id));
    let job = m.find(&id).unwrap();
    assert_eq!(job.status, JobStatus::Cancelled);
    assert_eq!(job.error, Some("cancelled".to_string()));
    assert_eq!(m.cancel_flag(&id), Some(true));
    // a second cancel changes nothing and answers false
    assert!(!m.cancel(&id));
    assert_eq!(status_of(&m, &id), JobStatus::Cancelled);
}

#[test]
fn cancel_a_running_job_only_flags_it() {
    let mut m = JobManager::new();
    let id = queue_one(&mut m, "/v/a.mp4");
    m.set_running(&id);
    assert_eq!(m.cancel_flag(&id), Some(false));
    assert!(m.cancel(&id));
    assert_eq!(status_of(&m, &id), JobStatus::Running);
    assert_eq!(m.cancel_flag(&id), Some(true));
}

#[test]
fn cancel_unknown_or_finished() {
    let mut m = JobManager::new();
    assert!(!m.cancel("nope"));
    assert_eq!(m.cancel_flag("nope"), None);
    let id = queue_one(&mut m, "/v/a.mp4");
    m.set_succeeded(&id, "/v/a-squeezed.mp4".to_string(), 1234);
    assert!(!m.cancel(&id));
    assert_eq!(status_of(&m, &id), JobStatus::Succeeded);
}

#[test]
fn failure_does_not_override_cancel() {
    let mut m = JobManager::new();
    let id = queue_one(&mut m, "/v/a.mp4");
    m.set_cancelled(&id);
    m.set_failed(&id, "boom".to_string());
    let job = m.find(&id).unwrap();
    assert_eq!(job.status, JobStatus::Cancelled);
    assert_eq!(job.error, Some("cancelled".to_string()));
}

#[test]
fn lifecycle_fields() {
    let mut m = JobManager::new();
    let id = queue_one(&mut m, "/v/a.mp4");
    m.set_running(&id);
    m.set_progress(&id, 42.5f64.to_bits());
    let job = m.find(&id).unwrap();
    assert_eq!(job.status, JobStatus::Running);
    assert_eq!(f64::from_bits(job.progress_bits), 42.5);
    m.set_succeeded(&id, "/v/a-squeezed.mp4".to_string(), 99);
    let job = m.find(&id).unwrap();
    assert_eq!(job.status, JobStatus::Succeeded);
    assert_eq!(job.progress_bits, PROGRESS_DONE);
    assert_eq!(f64::from_bits(PROGRESS_DONE), 100.0);
    assert_eq!(job.output_path, Some("/v/a-squeezed.mp4".to_string()));
    assert_eq!(job.output_size_bytes, Some(99));
    assert_eq!(job.error, None);
    m.set_failed(&id, "late".to_string());
    let job = m.find(&id).unwrap();
    assert_eq!(job.status, JobStatus::Failed);
    assert_eq!(job.error, Some("late".to_string()));
}

#[test]
fn retry_requeues_failed_and_cancelled_jobs() {
    let mut m = JobManager::new();
    let id = m
        .enqueue(
            "/v/a.mp4".to_string(),
            OutputMode::Replace,
            None,
            JobKind::Trim,
            Some("x".to_string()),
        )
        .id;
    assert!(m.retry(&id).is_none());
    m.set_running(&id);
    m.set_failed(&id, "boom".to_string());
    let again = m.retry(&id).expect("retry");
    assert_ne!(again.id, id);
    assert_eq!(again.status, JobStatus::Queued);
    assert_eq!(again.input_path, "/v/a.mp4");
    assert_eq!(again.output_mode, OutputMode::Replace);
    assert_eq!(again.kind, JobKind::Trim);
    assert_eq!(again.output_name, Some("x".to_string()));
    assert_eq!(m.list().len(), 2);
    assert!(m.retry("nope").is_none());
}

#[test]
fn clear_finished_keeps_active_jobs() {
    let mut m = JobManager::new();
    let a = queue_one(&mut m, "/v/a.mp4");
    let b = queue_one(&mut m, "/v/b.mp4");
    let c = queue_one(&mut m, "/v/c.mp4");
    let d = queue_one(&mut m, "/v/d.mp4");
    m.set_running(&b);
    m.set_succeeded(&c, "/v/c-squeezed.mp4".to_string(), 1);
    m.set_failed(&d, "x".to_string());
    assert_eq!(m.clear_finished(), 2);
    let ids: Vec<String> = m.list().into_iter().map(|j| j.id).collect();
    assert_eq!(ids, vec![a, b]);
    assert_eq!(m.clear_finished(), 0);
}

#[test]
fn cancel_all_pending_counts_waiting_and_running() {
    let mut m = JobManager::new();
    let a = queue_one(&mut m, "/v/a.mp4");
    let b = queue_one(&mut m, "/v/b.mp4");
    let c = queue_one(&mut m, "/v/c.mp4");
    m.set_running(&b);
    m.set_succeeded(&c, "/v/c-squeezed.mp4".to_string(), 1);
    assert_eq!(m.cancel_all_pending(), 2);
    assert_eq!(status_of(&m, &a), JobStatus::Cancelled);
    assert_eq!(m.cancel_flag(&a), Some(false));
    assert_eq!(status_of(&m, &b), JobStatus::Running);
    assert_eq!(m.cancel_flag(&b), Some(true));
    assert_eq!(status_of(&m, &c), JobStatus::Succeeded);
    assert!(m.next_queued().is_none());
}

#[test]
fn apply_to_queued_under_roots() {
    let mut m = JobManager::new();
    let a = queue_one(&mut m, "/clips/a.mp4");
    let b = queue_one(&mut m, "/other/b.mp4");
    let c = queue_one(&mut m, "/clips/sub/c.mp4");
    m.set_running(&c);
    let trim = TrimSpan { start_bits: 1, end_bits: 2 };
    let n = m.apply_to_queued(Some(trim), JobKind::Trim, Some(vec!["/clips".to_string()]));
    assert_eq!(n, 1);
    assert_eq!(m.find(&a).unwrap().trim, Some(trim));
    assert_eq!(m.find(&a).unwrap().kind, JobKind::Trim);
    assert_eq!(m.find(&b).unwrap().trim, None);
    assert_eq!(m.find(&c).unwrap().kind, JobKind::Squeeze);
    assert_eq!(m.apply_to_queued(None, JobKind::Squeeze, None), 2);
    assert_eq!(m.find(&a).unwrap().trim, None);
}

#[test]
fn next_queued_is_the_first_waiting_job() {
    let mut m = JobManager::new();
    assert!(m.next_queued().is_none());
    let a = queue_one(&mut m, "/v/a.mp4");
    let b = queue_one(&mut m, "/v/b.mp4");
    assert_eq!(m.next_queued().unwrap().id, a);
    m.cancel(&a);
    assert_eq!(m.next_queued().unwrap().id, b);
}

#[test]
fn begin_job_decisions() {
    let mut m = JobManager::new();
    assert_eq!(m.begin_job("nope"), JobStart::Missing);
    let a = queue_one(&mut m, "/v/a.mp4");
    m.cancel(&a);
    assert_eq!(m.begin_job(&a), JobStart::AlreadyCancelled);
    let b = queue_one(&mut m, "/v/b.mp4");
    match m.begin_job(&b) {
        JobStart::Started(job) => {
            assert_eq!(job.id, b);
            assert_eq!(job.status, JobStatus::Running);
        }
        other => panic!("unexpected {:?}", other),
    }
    // a running job with a cancel request that is picked up again is cancelled
    m.cancel(&b);
    assert_eq!(m.begin_job(&b), JobStart::CancelledBeforeStart);
    assert_eq!(status_of(&m, &b), JobStatus::Cancelled);
}

#[test]
fn finish_job_outcomes() {
    let mut m = JobManager::new();
    let a = queue_one(&mut m, "/v/a.mp4");
    let b = queue_one(&mut m, "/v/b.mp4");
    let c = queue_one(&mut m, "/v/c.mp4");
    m.finish_job(
        &a,
        Ok(CompressResult { output_path: "/v/a-squeezed.mp4".to_string(), output_size_bytes: 7, skipped: false }),
        false,
    );
    m.finish_job(&b, Err(AppError::Cancelled), false);
    m.finish_job(&c, Err(AppError::TargetBitrateTooLow), false);
    assert_eq!(status_of(&m, &a), JobStatus::Succeeded);
    assert_eq!(m.find(&a).unwrap().output_size_bytes, Some(7));
    assert_eq!(status_of(&m, &b), JobStatus::Cancelled);
    let c_job = m.find(&c).unwrap();
    assert_eq!(c_job.status, JobStatus::Failed);
    assert_eq!(
        c_job.error,
        Some("video is too long/short to fit the target size with usable quality".to_string())
    );
}

#[test]
fn waiting_jobs_carry_no_result() {
    let mut m = JobManager::new();
    let a = queue_one(&mut m, "/v/a.mp4");
    let b = queue_one(&mut m, "/v/b.mp4");
    m.set_progress(&a, 50.0f64.to_bits());
    m.set_running(&b);
    m.set_failed(&b, "boom".to_string());
    let again = m.retry(&b).expect("failed jobs can be retried");
    assert_eq!(again.error, None);
    m.apply_to_queued(None, JobKind::Trim, None);
    let waiting: Vec<_> = m.list().into_iter().filter(|j| j.status == JobStatus::Queued).collect();
    assert_eq!(waiting.len(), 2);
    for j in waiting {
        assert_eq!(j.output_path, None);
        assert_eq!(j.output_size_bytes, None);
        assert_eq!(j.error, None);
    }
}

#[test]
fn clear_finished_drops_cancel_flags() {
    let mut m = JobManager::new();
    let a = queue_one(&mut m, "/v/a.mp4");
    let b = queue_one(&mut m, "/v/b.mp4");
    m.set_running(&b);
    m.cancel(&b);
    m.cancel(&a);
    assert_eq!(m.clear_finished(), 1);
    assert_eq!(m.cancel_flag(&a), None);
    assert_eq!(m.cancel_flag(&b), Some(true));
    assert_eq!(m.clear_finished(), 0);
}
