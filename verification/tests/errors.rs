use squeeze::error::{missing_engine_message, AppError};

#[test]
fn engine_messages() {
    assert_eq!(
        missing_engine_message(true),
        "Squeeze's video engine is missing. For local builds, run: npm run setup:ffmpeg"
    );
    assert_eq!(
        missing_engine_message(false),
        "Squeeze's video engine is missing. Please reinstall Squeeze."
    );
    assert_eq!(AppError::FfmpegNotFound.message(false), missing_engine_message(false));
    assert_eq!(AppError::FfprobeNotFound.message(true), missing_engine_message(true));
}

#[test]
fn error_texts() {
    let s = |m: &str| m.to_string();
    assert_eq!(
        AppError::UnsupportedPlatform.message(false),
        "Squeeze isn't available on this system yet (need Windows x64, Linux x64, or macOS Intel/Apple Silicon)."
    );
    assert_eq!(AppError::FfprobeFailed(s("x")).message(false), "ffprobe failed: x");
    assert_eq!(AppError::EncodingFailed(s("x")).message(false), "encode failed: x");
    assert_eq!(AppError::Io(s("plain")).message(false), "plain");
    assert_eq!(AppError::PickerFailed(s("x")).message(false), "file picker failed: x");
    assert_eq!(AppError::InputNotFound(s("/a")).message(false), "couldn't find that file: /a");
    assert_eq!(AppError::OutputAlreadyExists(s("/a")).message(false), "output already exists: /a");
    assert_eq!(AppError::InvalidVideo(s("x")).message(false), "that doesn't look like a video: x");
    assert_eq!(
        AppError::TargetBitrateTooLow.message(false),
        "video is too long/short to fit the target size with usable quality"
    );
    assert_eq!(AppError::Cancelled.message(false), "cancelled");
    assert_eq!(AppError::InvalidTrimRange.message(false), "trim range doesnt make sense");
}
