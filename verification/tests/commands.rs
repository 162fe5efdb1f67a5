use squeeze::commands::{
    clean_output_name, enqueue_job, ingest_paths, output_mode, retry_job, sanitize_stem, DropPath,
};
use squeeze::error::AppError;
use squeeze::jobs::JobManager;
use squeeze::models::{DropIngestResult, JobKind, JobStatus, OutputMode, TrimSpan};

fn file(p: &str) -> DropPath {
    DropPath { path: p.to_string(), folder: None }
}

fn folder(p: &str, videos: &[&str]) -> DropPath {
    DropPath { path: p.to_string(), folder: Some(Ok(videos.iter().map(|v| v.to_string()).collect())) }
}

fn paths(m: &JobManager) -> Vec<String> {
    m.list().into_iter().map(|j| j.input_path).collect()
}

#[test]
fn modes_and_names() {
    assert_eq!(output_mode(true), OutputMode::Replace);
    assert_eq!(output_mode(false), OutputMode::CopyBeside);
    assert_eq!(sanitize_stem("  my: clip?.  "), "my clip");
    assert_eq!(sanitize_stem("a/b\\c"), "abc");
    assert_eq!(clean_output_name(Some(" ..  ".to_string())), None);
    assert_eq!(clean_output_name(Some("holiday".to_string())), Some("holiday".to_string()));
    assert_eq!(clean_output_name(None), None);
}

#[test]
fn enqueue_job_checks() {
    let mut m = JobManager::new();
    assert_eq!(
        enqueue_job(&mut m, "/v/a.mp4".to_string(), false, false, None, JobKind::Squeeze, None),
        Err(AppError::InputNotFound("/v/a.mp4".to_string()))
    );
    assert_eq!(
        enqueue_job(&mut m, "/v/a.mp4".to_string(), true, false, None, JobKind::Trim, None),
        Err(AppError::InvalidTrimRange)
    );
    assert!(m.list().is_empty());
    let trim = TrimSpan { start_bits: 0, end_bits: 10.0f64.to_bits() };
    let job = enqueue_job(
        &mut m,
        "/v/a.mp4".to_string(),
        true,
        true,
        Some(trim),
        JobKind::Trim,
        Some(" best<part> ".to_string()),
    )
    .expect("queued");
    assert_eq!(job.output_mode, OutputMode::Replace);
    assert_eq!(job.output_name, Some("bestpart".to_string()));
    assert_eq!(job.trim, Some(trim));
    assert_eq!(m.list().len(), 1);
}

#[test]
fn retry_job_errors() {
    let mut m = JobManager::new();
    assert_eq!(retry_job(&mut m, "nope"), Err(AppError::Io("cant retry that job".to_string())));
    let id = m.enqueue("/v/a.mp4".to_string(), OutputMode::CopyBeside, None, JobKind::Squeeze, None).id;
    m.set_cancelled(&id);
    let again = retry_job(&mut m, &id).expect("retry");
    assert_eq!(again.status, JobStatus::Queued);
}

#[test]
fn ingest_needs_engine_and_paths() {
    let mut m = JobManager::new();
    assert_eq!(
        ingest_paths(&mut m, &vec![file("/v/a.mp4")], false, false, Err(AppError::FfmpegNotFound), false),
        Err(AppError::FfmpegNotFound)
    );
    assert_eq!(
        ingest_paths(&mut m, &Vec::new(), false, false, Ok(()), false),
        Err(AppError::InvalidVideo("nothing was dropped".to_string()))
    );
}

#[test]
fn ingest_single_video_opens_preview() {
    let mut m = JobManager::new();
    let r = ingest_paths(&mut m, &vec![file("/v/a.mp4")], false, false, Ok(()), false);
    assert_eq!(
        r,
        Ok(DropIngestResult { jobs_added: 0, preview_path: Some("/v/a.mp4".to_string()), folder_roots: vec![] })
    );
    assert!(m.list().is_empty());
    assert_eq!(
        ingest_paths(&mut m, &vec![file("/v/notes.txt")], false, false, Ok(()), false),
        Err(AppError::InvalidVideo("that file isnt a supported video".to_string()))
    );
}

#[test]
fn ingest_single_folder() {
    let mut m = JobManager::new();
    let r = ingest_paths(&mut m, &vec![folder("/v", &["/v/a.mp4", "/v/b.mp4"])], false, true, Ok(()), false);
    assert_eq!(
        r,
        Ok(DropIngestResult { jobs_added: 2, preview_path: None, folder_roots: vec!["/v".to_string()] })
    );
    assert!(m.list().iter().all(|j| j.output_mode == OutputMode::Replace && j.kind == JobKind::Squeeze));
    // dropping it again queues nothing new
    let r = ingest_paths(&mut m, &vec![folder("/v", &["/v/a.mp4", "/v/b.mp4"])], false, true, Ok(()), false);
    assert_eq!(r.unwrap().jobs_added, 0);
    assert_eq!(m.list().len(), 2);
    // an empty folder: kept as a root, unless the search was recursive
    assert_eq!(
        ingest_paths(&mut m, &vec![folder("/e", &[])], false, false, Ok(()), false),
        Ok(DropIngestResult { jobs_added: 0, preview_path: None, folder_roots: vec!["/e".to_string()] })
    );
    assert_eq!(
        ingest_paths(&mut m, &vec![folder("/e", &[])], true, false, Ok(()), false),
        Err(AppError::InvalidVideo("no supported videos in that folder".to_string()))
    );
    let broken = DropPath { path: "/x".to_string(), folder: Some(Err(AppError::EncodingFailed("denied".to_string()))) };
    assert_eq!(
        ingest_paths(&mut m, &vec![broken], false, false, Ok(()), false),
        Err(AppError::EncodingFailed("denied".to_string()))
    );
}

#[test]
fn ingest_many_files() {
    let mut m = JobManager::new();
    let r = ingest_paths(
        &mut m,
        &vec![file("/v/a.mp4"), file("/v/notes.txt"), file("/v/b.mkv")],
        false,
        false,
        Ok(()), false,
    );
    assert_eq!(
        r,
        Ok(DropIngestResult { jobs_added: 2, preview_path: Some("/v/b.mkv".to_string()), folder_roots: vec![] })
    );
    assert_eq!(paths(&m), vec!["/v/a.mp4", "/v/b.mkv"]);
    // the same files again: nothing added, but the last video still previews
    let r = ingest_paths(&mut m, &vec![file("/v/a.mp4"), file("/v/b.mkv")], false, false, Ok(()), false);
    assert_eq!(
        r,
        Ok(DropIngestResult { jobs_added: 0, preview_path: Some("/v/b.mkv".to_string()), folder_roots: vec![] })
    );
    assert_eq!(
        ingest_paths(&mut m, &vec![file("/v/x.txt"), file("/v/y.txt")], false, false, Ok(()), false),
        Err(AppError::InvalidVideo("no supported videos in that drop".to_string()))
    );
}

#[test]
fn ingest_mixed_drop_has_no_preview() {
    let mut m = JobManager::new();
    let r = ingest_paths(
        &mut m,
        &vec![file("/v/a.mp4"), folder("/w", &["/w/1.mp4", "/w/2.mp4"]), file("/v/b.mp4")],
        true,
        false,
        Ok(()), false,
    );
    assert_eq!(
        r,
        Ok(DropIngestResult { jobs_added: 4, preview_path: None, folder_roots: vec!["/w".to_string()] })
    );
    assert_eq!(paths(&m), vec!["/v/a.mp4", "/w/1.mp4", "/w/2.mp4", "/v/b.mp4"]);
    let r = ingest_paths(&mut m, &vec![folder("/w", &["/w/1.mp4"]), folder("/z", &[])], true, false, Ok(()), false);
    assert_eq!(
        r,
        Ok(DropIngestResult {
            jobs_added: 0,
            preview_path: None,
            folder_roots: vec!["/w".to_string(), "/z".to_string()]
        })
    );
}

#[test]
fn ingest_stops_at_an_unreadable_folder() {
    let mut m = JobManager::new();
    let broken = DropPath { path: "/x".to_string(), folder: Some(Err(AppError::EncodingFailed("denied".to_string()))) };
    let r = ingest_paths(
        &mut m,
        &vec![file("/v/a.mp4"), broken, file("/v/b.mp4")],
        false,
        false,
        Ok(()), false,
    );
    assert_eq!(r, Err(AppError::EncodingFailed("denied".to_string())));
    assert_eq!(paths(&m), vec!["/v/a.mp4"]);
}
