//! The plain data the rest of the library works on: jobs, their settings and
//! the results handed back to the user interface.
use vstd::prelude::*;

verus! {

/// Where a job stands.
#[derive(Debug, Clone, Copy, PartialEq, Eq, Structural)]
pub enum JobStatus {
    Queued,
    Running,
    Succeeded,
    Failed,
    Cancelled,
}

/// What a job does with its input.
#[derive(Debug, Clone, Copy, PartialEq, Eq, Structural)]
pub enum JobKind {
    /// Compress toward the Discord size target (optional trim).
    Squeeze,
    /// Cut the selected range without size-targeting.
    Trim,
}

/// Where the finished file goes.
#[derive(Debug, Clone, Copy, PartialEq, Eq, Structural)]
pub enum OutputMode {
    /// write foo-squeezed.mp4 next to the source
    CopyBeside,
    /// swap the original after a successful encode
    Replace,
}

/// Video encoders the pipeline knows.
#[derive(Debug, Clone, Copy, PartialEq, Eq, Structural)]
pub enum VideoCodec {
    H264,
}

/// A trim range as the two IEEE-754 bit patterns of its start and end
/// (in seconds). The queue only carries it from the request to the encoder;
/// the arithmetic on it lives with the caller.
#[derive(Debug, Clone, Copy, PartialEq, Eq, Structural)]
pub struct TrimSpan {
    pub start_bits: u64,
    pub end_bits: u64,
}

/// Encoder knobs used by the ffmpeg pipeline.
///
/// `max_width` / `max_height` / `max_fps` are applied when set (see
/// `ffmpeg::encode_args`). `discord()` leaves them unset.
#[derive(Debug, Clone, Copy, PartialEq, Eq, Structural)]
pub struct CompressionSettings {
    pub target_size_bytes: u64,
    pub video_codec: VideoCodec,
    pub audio_bitrate_kbps: u32,
    pub max_width: Option<u32>,
    pub max_height: Option<u32>,
    pub max_fps: Option<u32>,
}

/// 19.5 MiB: a bit under Discord's free upload limit of 20 MB.
pub const DISCORD_TARGET_BYTES: u64 = 20_447_232;

pub open spec fn discord_settings() -> CompressionSettings {
    CompressionSettings {
        target_size_bytes: DISCORD_TARGET_BYTES,
        video_codec: VideoCodec::H264,
        audio_bitrate_kbps: 128,
        max_width: None,
        max_height: None,
        max_fps: None,
    }
}

impl CompressionSettings {
    /// Discord's free upload is 20 MB, so aim a bit under that:
    /// 19.5 MiB, H.264, 128 kbit/s audio, no size or frame-rate caps.
    pub fn discord() -> (r: Self)
        ensures
            r == discord_settings(),
            r.target_size_bytes == 19 * 1024 * 1024 + 512 * 1024,
    {
        CompressionSettings {
            target_size_bytes: DISCORD_TARGET_BYTES,
            video_codec: VideoCodec::H264,
            audio_bitrate_kbps: 128,
            max_width: None,
            max_height: None,
            max_fps: None,
        }
    }
}

/// Bits per second for the video and audio streams of one encode.
#[derive(Debug, Clone, Copy, PartialEq, Eq, Structural)]
pub struct BitratePlan {
    pub video_bitrate_bps: u32,
    pub audio_bitrate_bps: u32,
}

/// What a finished compression produced.
#[derive(Debug, PartialEq, Eq)]
pub struct CompressResult {
    pub output_path: String,
    pub output_size_bytes: u64,
    pub skipped: bool,
}

/// What a drop (or pick) of paths did to the queue.
#[derive(Debug, PartialEq, Eq)]
pub struct DropIngestResult {
    pub jobs_added: usize,
    /// if they dropped one lone video, the UI can open the trim preview
    pub preview_path: Option<String>,
    /// folders that were expanded, so "include subfolders" can expand later
    pub folder_roots: Vec<String>,
}

/// One queued, running or finished job. The progress is the IEEE-754 bit
/// pattern of a percentage between 0 and 100.
#[derive(Debug, PartialEq, Eq)]
pub struct CompressionJob {
    pub id: String,
    pub input_path: String,
    pub output_path: Option<String>,
    pub status: JobStatus,
    pub error: Option<String>,
    pub progress_bits: u64,
    pub output_size_bytes: Option<u64>,
    pub settings: CompressionSettings,
    pub output_mode: OutputMode,
    pub trim: Option<TrimSpan>,
    pub kind: JobKind,
    pub output_name: Option<String>,
}

/// Bit pattern of the progress value 0.0.
pub const PROGRESS_NONE: u64 = 0;

/// Bit pattern of the progress value 100.0.
pub const PROGRESS_DONE: u64 = 0x4059_0000_0000_0000;

/// A job with its texts seen as character sequences.
pub struct JobView {
    pub id: Seq<char>,
    pub input_path: Seq<char>,
    pub output_path: Option<Seq<char>>,
    pub status: JobStatus,
    pub error: Option<Seq<char>>,
    pub progress_bits: u64,
    pub output_size_bytes: Option<u64>,
    pub settings: CompressionSettings,
    pub output_mode: OutputMode,
    pub trim: Option<TrimSpan>,
    pub kind: JobKind,
    pub output_name: Option<Seq<char>>,
}

pub open spec fn opt_text(o: Option<String>) -> Option<Seq<char>> {
    match o {
        Some(s) => Some(s@),
        None => None,
    }
}

impl View for CompressionJob {
    type V = JobView;

    open spec fn view(&self) -> JobView {
        JobView {
            id: self.id@,
            input_path: self.input_path@,
            output_path: opt_text(self.output_path),
            status: self.status,
            error: opt_text(self.error),
            progress_bits: self.progress_bits,
            output_size_bytes: self.output_size_bytes,
            settings: self.settings,
            output_mode: self.output_mode,
            trim: self.trim,
            kind: self.kind,
            output_name: opt_text(self.output_name),
        }
    }
}

/// Copies an optional string.
pub fn copy_opt_text(o: &Option<String>) -> (r: Option<String>)
    ensures
        r == *o,
{
    match o {
        Some(s) => Some(s.clone()),
        None => None,
    }
}

impl Clone for CompressionJob {
    fn clone(&self) -> (r: Self)
        ensures
            r == *self,
    {
        CompressionJob {
            id: self.id.clone(),
            input_path: self.input_path.clone(),
            output_path: copy_opt_text(&self.output_path),
            status: self.status,
            error: copy_opt_text(&self.error),
            progress_bits: self.progress_bits,
            output_size_bytes: self.output_size_bytes,
            settings: self.settings,
            output_mode: self.output_mode,
            trim: self.trim,
            kind: self.kind,
            output_name: copy_opt_text(&self.output_name),
        }
    }
}

impl Clone for CompressResult {
    fn clone(&self) -> (r: Self)
        ensures
            r == *self,
    {
        CompressResult {
            output_path: self.output_path.clone(),
            output_size_bytes: self.output_size_bytes,
            skipped: self.skipped,
        }
    }
}

} // verus!
