use squeeze::error::AppError;
use squeeze::ffmpeg::ToolRun;
use squeeze::ffprobe::{
    media_from_probe, probe_args, probe_json_error, probe_outcome, FfprobeFormat, FfprobeJson, FfprobeStream,
};

fn stream(kind: &str, codec: &str) -> FfprobeStream {
    FfprobeStream {
        codec_type: Some(kind.to_string()),
        codec_name: Some(codec.to_string()),
        width: None,
        height: None,
        avg_frame_rate: None,
        r_frame_rate: None,
    }
}

fn probe_with(streams: Vec<FfprobeStream>, size: Option<&str>) -> FfprobeJson {
    FfprobeJson {
        streams,
        format: Some(FfprobeFormat { duration: Some("12.5".to_string()), size: size.map(|s| s.to_string()) }),
    }
}

#[test]
fn facts_from_first_streams() {
    let mut video = stream("video", "h264");
    video.width = Some(1920);
    video.height = Some(1080);
    video.r_frame_rate = Some("30/1".to_string());
    let probe = probe_with(
        vec![stream("audio", "aac"), video, stream("video", "mjpeg"), stream("audio", "opus")],
        Some("1234"),
    );
    let facts = media_from_probe("/v/a.mp4", &probe, true, None).expect("facts");
    assert_eq!(facts.path, "/v/a.mp4");
    assert_eq!(facts.size_bytes, 1234);
    assert_eq!(facts.width, Some(1920));
    assert_eq!(facts.height, Some(1080));
    assert_eq!(facts.frame_rate_text, Some("30/1".to_string()));
    assert_eq!(facts.video_codec, Some("h264".to_string()));
    assert_eq!(facts.audio_codec, Some("aac".to_string()));
}

#[test]
fn file_system_size_wins() {
    let mut video = stream("video", "h264");
    video.avg_frame_rate = Some("30000/1001".to_string());
    video.r_frame_rate = Some("30/1".to_string());
    let probe = probe_with(vec![video], Some("1234"));
    let facts = media_from_probe("/v/a.mp4", &probe, true, Some(99)).expect("facts");
    assert_eq!(facts.size_bytes, 99);
    assert_eq!(facts.frame_rate_text, Some("30000/1001".to_string()));
    assert_eq!(facts.audio_codec, None);
}

#[test]
fn refusals_in_order() {
    let no_video = probe_with(vec![stream("audio", "aac")], None);
    assert_eq!(
        media_from_probe("/v/a.mp4", &no_video, false, None),
        Err(AppError::InvalidVideo("no video stream in this file".to_string()))
    );
    let video = probe_with(vec![stream("video", "h264")], None);
    assert_eq!(
        media_from_probe("/v/a.mp4", &video, false, None),
        Err(AppError::InvalidVideo("missing duration".to_string()))
    );
    assert_eq!(
        media_from_probe("/v/a.mp4", &video, true, None),
        Err(AppError::InvalidVideo("missing file size".to_string()))
    );
    let bad_size = probe_with(vec![stream("video", "h264")], Some("12x"));
    assert_eq!(
        media_from_probe("/v/a.mp4", &bad_size, true, None),
        Err(AppError::InvalidVideo("missing file size".to_string()))
    );
    let plus_size = probe_with(vec![stream("video", "h264")], Some("+77"));
    assert_eq!(media_from_probe("/v/a.mp4", &plus_size, true, None).unwrap().size_bytes, 77);
}

#[test]
fn probe_outcomes() {
    assert_eq!(probe_outcome(ToolRun::NotFound), Err(AppError::FfprobeNotFound));
    assert_eq!(
        probe_outcome(ToolRun::SpawnFailed("denied".to_string())),
        Err(AppError::FfprobeFailed("denied".to_string()))
    );
    assert_eq!(
        probe_outcome(ToolRun::Exited { success: false, stderr: "moov atom not found".to_string(), status: "exit status: 1".to_string() }),
        Err(AppError::FfprobeFailed("moov atom not found".to_string()))
    );
    assert_eq!(
        probe_outcome(ToolRun::Exited { success: false, stderr: String::new(), status: "exit status: 1".to_string() }),
        Err(AppError::FfprobeFailed("exited with exit status: 1".to_string()))
    );
    assert_eq!(
        probe_outcome(ToolRun::Exited { success: true, stderr: "warn".to_string(), status: "0".to_string() }),
        Ok(())
    );
    assert_eq!(
        probe_json_error("EOF"),
        AppError::FfprobeFailed("couldnt parse ffprobe json: EOF".to_string())
    );
}

#[test]
fn probe_arguments_keep_the_path_an_input() {
    let base = ["-v", "error", "-print_format", "json", "-show_format", "-show_streams"];
    let mut expected: Vec<String> = base.iter().map(|s| s.to_string()).collect();
    expected.push("/v/clip one.mov".to_string());
    assert_eq!(probe_args("/v/clip one.mov"), expected);
    let mut guarded: Vec<String> = base.iter().map(|s| s.to_string()).collect();
    guarded.push("--".to_string());
    guarded.push("-clip.mov".to_string());
    assert_eq!(probe_args("-clip.mov"), guarded);
}
