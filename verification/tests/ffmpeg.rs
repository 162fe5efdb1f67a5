use squeeze::error::AppError;
use squeeze::ffmpeg::{
    encode_args, encode_failure_message, encode_outcome, ffmpeg_for_encode, CompressAction,
    CompressEvent, CompressStage, Compression, ProbedSize, ToolRun,
};
use squeeze::models::{BitratePlan, CompressResult, CompressionSettings};

fn plan() -> BitratePlan {
    BitratePlan { video_bitrate_bps: 1_500_000, audio_bitrate_bps: 128_000 }
}

#[test]
fn encode_args_plain() {
    let args = encode_args("/v/a.mov", "/v/a.tmp-compressed.mp4", &CompressionSettings::discord(), &plan());
    let expected = vec![
        "-y", "-i", "/v/a.mov", "-map", "0:v:0", "-map", "0:a?", "-c:v", "libx264", "-b:v",
        "1500000", "-maxrate", "1500000", "-bufsize", "3000000", "-c:a", "aac", "-b:a", "128000",
        "-movflags", "+faststart", "/v/a.tmp-compressed.mp4",
    ];
    assert_eq!(args, expected);
}

#[test]
fn encode_args_with_filters() {
    let mut s = CompressionSettings::discord();
    s.max_width = Some(1280);
    s.max_height = Some(720);
    s.max_fps = Some(30);
    let args = encode_args("in", "out", &s, &plan());
    let n = args.len();
    assert_eq!(args[n - 3], "-vf");
    assert_eq!(
        args[n - 2],
        "scale='min(1280,iw)':'min(720,ih)':force_original_aspect_ratio=decrease,fps=30"
    );
    assert_eq!(args[n - 1], "out");
    s.max_height = None;
    s.max_fps = None;
    let args = encode_args("in", "out", &s, &plan());
    assert_eq!(args[args.len() - 2], "scale='min(1280,iw)':-2");
    s.max_width = None;
    s.max_height = Some(480);
    let args = encode_args("in", "out", &s, &plan());
    assert_eq!(args[args.len() - 2], "scale=-2:'min(480,ih)'");
    s.max_height = None;
    s.max_fps = Some(24);
    let args = encode_args("in", "out", &s, &plan());
    assert_eq!(args[args.len() - 2], "fps=24");
}

#[test]
fn failure_messages() {
    assert_eq!(encode_failure_message("", "exit status: 1"), "exited with exit status: 1");
    let long: String = std::iter::repeat('x').take(500).chain("END".chars()).collect();
    let m = encode_failure_message(&long, "exit status: 1");
    assert_eq!(m.chars().count(), 400);
    assert!(m.ends_with("END"));
    assert_eq!(encode_failure_message("bad input", "x"), "bad input");
}

#[test]
fn encode_outcomes() {
    assert_eq!(encode_outcome(ToolRun::NotFound), Err(AppError::FfmpegNotFound));
    assert_eq!(
        encode_outcome(ToolRun::SpawnFailed("denied".to_string())),
        Err(AppError::EncodingFailed("denied".to_string()))
    );
    assert_eq!(
        encode_outcome(ToolRun::Exited { success: true, stderr: String::new(), status: "0".to_string() }),
        Ok(())
    );
    assert_eq!(
        encode_outcome(ToolRun::Exited {
            success: false,
            stderr: String::new(),
            status: "exit status: 2".to_string()
        }),
        Err(AppError::EncodingFailed("exited with exit status: 2".to_string()))
    );
    assert_eq!(ffmpeg_for_encode(Err(AppError::UnsupportedPlatform)), Err(AppError::FfmpegNotFound));
    assert_eq!(ffmpeg_for_encode(Ok("/x".to_string())), Ok("/x".to_string()));
}

fn started(input: &str) -> Compression {
    let mut c = Compression::new(input, CompressionSettings::discord(), false);
    match c.step(CompressEvent::Begin) {
        CompressAction::CheckInput(p) => assert_eq!(p, input),
        _ => panic!("expected input check"),
    }
    c
}

#[test]
fn compress_happy_path() {
    let mut c = started("/v/a.mov");
    assert_eq!(c.temp, "/v/a.tmp-compressed.mp4");
    assert_eq!(c.final_out, "/v/a-squeezed.mp4");
    assert!(matches!(c.step(CompressEvent::InputChecked { exists: true }), CompressAction::Probe(p) if p == "/v/a.mov"));
    assert!(matches!(
        c.step(CompressEvent::Probed(Ok(ProbedSize { path: "/v/a.mov".to_string(), size_bytes: 50_000_000 }))),
        CompressAction::PlanBitrates
    ));
    assert!(matches!(c.step(CompressEvent::Planned(Ok(plan()))), CompressAction::CheckOutput(p) if p == "/v/a-squeezed.mp4"));
    assert!(matches!(c.step(CompressEvent::OutputChecked { exists: false }), CompressAction::Encode { .. }));
    match c.step(CompressEvent::Encoded(Ok(10_000_000))) {
        CompressAction::Rename { from, to } => {
            assert_eq!(from, "/v/a.tmp-compressed.mp4");
            assert_eq!(to, "/v/a-squeezed.mp4");
        }
        _ => panic!("expected rename"),
    }
    match c.step(CompressEvent::Renamed(Ok(()))) {
        CompressAction::Finish { result, remove_temp } => {
            assert!(!remove_temp);
            assert_eq!(
                result,
                Ok(CompressResult { output_path: "/v/a-squeezed.mp4".to_string(), output_size_bytes: 10_000_000, skipped: false })
            );
        }
        _ => panic!("expected finish"),
    }
    assert_eq!(c.stage, CompressStage::Done);
}

#[test]
fn compress_skips_small_files() {
    let mut c = started("/v/a.mov");
    c.step(CompressEvent::InputChecked { exists: true });
    match c.step(CompressEvent::Probed(Ok(ProbedSize { path: "/v/a.mov".to_string(), size_bytes: 1000 }))) {
        CompressAction::Finish { result, remove_temp } => {
            assert!(!remove_temp);
            assert_eq!(
                result,
                Ok(CompressResult { output_path: "/v/a.mov".to_string(), output_size_bytes: 1000, skipped: true })
            );
        }
        _ => panic!("expected finish"),
    }
}

#[test]
fn compress_retries_once_then_gives_up() {
    let mut c = started("/v/a.mov");
    c.step(CompressEvent::InputChecked { exists: true });
    c.step(CompressEvent::Probed(Ok(ProbedSize { path: "/v/a.mov".to_string(), size_bytes: 50_000_000 })));
    c.step(CompressEvent::Planned(Ok(plan())));
    c.step(CompressEvent::OutputChecked { exists: false });
    assert!(matches!(c.step(CompressEvent::Encoded(Ok(30_000_000))), CompressAction::RetryEncode { plan: p } if p == plan()));
    match c.step(CompressEvent::Encoded(Ok(25_000_000))) {
        CompressAction::Finish { result, remove_temp } => {
            assert!(remove_temp);
            assert_eq!(
                result,
                Err(AppError::EncodingFailed("still 25000000 bytes after retry, target was 20447232".to_string()))
            );
        }
        _ => panic!("expected finish"),
    }
}

#[test]
fn compress_errors() {
    let mut c = started("/v/a.mov");
    match c.step(CompressEvent::InputChecked { exists: false }) {
        CompressAction::Finish { result, .. } => assert_eq!(result, Err(AppError::InputNotFound("/v/a.mov".to_string()))),
        _ => panic!(),
    }
    let mut c = started("/v/a.mov");
    c.step(CompressEvent::InputChecked { exists: true });
    c.step(CompressEvent::Probed(Ok(ProbedSize { path: "/v/a.mov".to_string(), size_bytes: 50_000_000 })));
    match c.step(CompressEvent::Planned(Err(AppError::TargetBitrateTooLow))) {
        CompressAction::Finish { result, .. } => assert_eq!(result, Err(AppError::TargetBitrateTooLow)),
        _ => panic!(),
    }
    let mut c = started("/v/a.mov");
    c.step(CompressEvent::InputChecked { exists: true });
    c.step(CompressEvent::Probed(Ok(ProbedSize { path: "/v/a.mov".to_string(), size_bytes: 50_000_000 })));
    c.step(CompressEvent::Planned(Ok(plan())));
    match c.step(CompressEvent::OutputChecked { exists: true }) {
        CompressAction::Finish { result, .. } => {
            assert_eq!(result, Err(AppError::OutputAlreadyExists("/v/a-squeezed.mp4".to_string())))
        }
        _ => panic!(),
    }
    let mut c = started("/v/a.mov");
    c.step(CompressEvent::InputChecked { exists: true });
    c.step(CompressEvent::Probed(Ok(ProbedSize { path: "/v/a.mov".to_string(), size_bytes: 50_000_000 })));
    c.step(CompressEvent::Planned(Ok(plan())));
    c.step(CompressEvent::OutputChecked { exists: false });
    c.step(CompressEvent::Encoded(Ok(1)));
    match c.step(CompressEvent::Renamed(Err("busy".to_string()))) {
        CompressAction::Finish { result, remove_temp } => {
            assert!(remove_temp);
            assert_eq!(result, Err(AppError::EncodingFailed("busy".to_string())));
        }
        _ => panic!(),
    }
}
