//! The errors the program reports, and the text the user sees for each.
use vstd::prelude::*;
use vstd::string::*;

verus! {

#[derive(Debug, PartialEq, Eq)]
pub enum AppError {
    FfprobeNotFound,
    FfmpegNotFound,
    /// Returned when the host OS/arch has no bundled sidecar target.
    UnsupportedPlatform,
    FfprobeFailed(String),
    EncodingFailed(String),
    Io(String),
    PickerFailed(String),
    InputNotFound(String),
    OutputAlreadyExists(String),
    InvalidVideo(String),
    TargetBitrateTooLow,
    Cancelled,
    InvalidTrimRange,
}

/// What to tell the user when ffmpeg or ffprobe is missing. Shipped builds
/// always include them; a development build gets the setup hint.
pub open spec fn missing_engine_text(dev_build: bool) -> Seq<char> {
    if dev_build {
        "Squeeze's video engine is missing. For local builds, run: npm run setup:ffmpeg"@
    } else {
        "Squeeze's video engine is missing. Please reinstall Squeeze."@
    }
}

/// The message for a missing ffmpeg or ffprobe.
pub fn missing_engine_message(dev_build: bool) -> (r: &'static str)
    ensures
        r@ == missing_engine_text(dev_build),
{
    if dev_build {
        "Squeeze's video engine is missing. For local builds, run: npm run setup:ffmpeg"
    } else {
        "Squeeze's video engine is missing. Please reinstall Squeeze."
    }
}

/// The text shown for an error.
pub open spec fn error_text(e: AppError, dev_build: bool) -> Seq<char> {
    match e {
        AppError::FfprobeNotFound => missing_engine_text(dev_build),
        AppError::FfmpegNotFound => missing_engine_text(dev_build),
        AppError::UnsupportedPlatform =>
            "Squeeze isn't available on this system yet (need Windows x64, Linux x64, or macOS Intel/Apple Silicon)."@,
        AppError::FfprobeFailed(m) => "ffprobe failed: "@ + m@,
        AppError::EncodingFailed(m) => "encode failed: "@ + m@,
        AppError::Io(m) => m@,
        AppError::PickerFailed(m) => "file picker failed: "@ + m@,
        AppError::InputNotFound(p) => "couldn't find that file: "@ + p@,
        AppError::OutputAlreadyExists(p) => "output already exists: "@ + p@,
        AppError::InvalidVideo(m) => "that doesn't look like a video: "@ + m@,
        AppError::TargetBitrateTooLow =>
            "video is too long/short to fit the target size with usable quality"@,
        AppError::Cancelled => "cancelled"@,
        AppError::InvalidTrimRange => "trim range doesnt make sense"@,
    }
}

fn prefixed(prefix: &str, m: &String) -> (r: String)
    ensures
        r@ == prefix@ + m@,
{
    let mut r = String::from_str(prefix);
    r.append(m.as_str());
    r
}

impl AppError {
    /// The text shown to the user (what `Display` writes in the program).
    pub fn message(&self, dev_build: bool) -> (r: String)
        ensures
            r@ == error_text(*self, dev_build),
    {
        match self {
            AppError::FfprobeNotFound => String::from_str(missing_engine_message(dev_build)),
            AppError::FfmpegNotFound => String::from_str(missing_engine_message(dev_build)),
            AppError::UnsupportedPlatform => String::from_str(
                "Squeeze isn't available on this system yet (need Windows x64, Linux x64, or macOS Intel/Apple Silicon).",
            ),
            AppError::FfprobeFailed(m) => prefixed("ffprobe failed: ", m),
            AppError::EncodingFailed(m) => prefixed("encode failed: ", m),
            AppError::Io(m) => m.clone(),
            AppError::PickerFailed(m) => prefixed("file picker failed: ", m),
            AppError::InputNotFound(p) => prefixed("couldn't find that file: ", p),
            AppError::OutputAlreadyExists(p) => prefixed("output already exists: ", p),
            AppError::InvalidVideo(m) => prefixed("that doesn't look like a video: ", m),
            AppError::TargetBitrateTooLow => String::from_str(
                "video is too long/short to fit the target size with usable quality",
            ),
            AppError::Cancelled => String::from_str("cancelled"),
            AppError::InvalidTrimRange => String::from_str("trim range doesnt make sense"),
        }
    }
}

impl Clone for AppError {
    fn clone(&self) -> (r: Self)
        ensures
            r == *self,
    {
        match self {
            AppError::FfprobeNotFound => AppError::FfprobeNotFound,
            AppError::FfmpegNotFound => AppError::FfmpegNotFound,
            AppError::UnsupportedPlatform => AppError::UnsupportedPlatform,
            AppError::FfprobeFailed(m) => AppError::FfprobeFailed(m.clone()),
            AppError::EncodingFailed(m) => AppError::EncodingFailed(m.clone()),
            AppError::Io(m) => AppError::Io(m.clone()),
            AppError::PickerFailed(m) => AppError::PickerFailed(m.clone()),
            AppError::InputNotFound(m) => AppError::InputNotFound(m.clone()),
            AppError::OutputAlreadyExists(m) => AppError::OutputAlreadyExists(m.clone()),
            AppError::InvalidVideo(m) => AppError::InvalidVideo(m.clone()),
            AppError::TargetBitrateTooLow => AppError::TargetBitrateTooLow,
            AppError::Cancelled => AppError::Cancelled,
            AppError::InvalidTrimRange => AppError::InvalidTrimRange,
        }
    }
}

} // verus!
