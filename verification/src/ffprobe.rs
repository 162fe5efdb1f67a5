//! What ffprobe reports about a file, reduced to what the program uses:
//! the first video and audio streams, the size, and the error a probe run
//! ends in. Durations and frame rates are decimal fractions and are read by
//! the caller; this module gets their outcome.
use vstd::prelude::*;
use vstd::string::*;
use crate::binaries::texts_of;
use crate::error::AppError;
use crate::ffmpeg::ToolRun;
use crate::models::{copy_opt_text, opt_text};
use crate::text::{parse_u64, parse_u64_spec, same_text, text};

verus! {

/// One stream of ffprobe's JSON (only the fields used).
pub struct FfprobeStream {
    pub codec_type: Option<String>,
    pub codec_name: Option<String>,
    pub width: Option<u32>,
    pub height: Option<u32>,
    pub avg_frame_rate: Option<String>,
    pub r_frame_rate: Option<String>,
}

/// The `format` section of ffprobe's JSON (only the fields used).
pub struct FfprobeFormat {
    pub duration: Option<String>,
    pub size: Option<String>,
}

pub struct FfprobeJson {
    pub streams: Vec<FfprobeStream>,
    pub format: Option<FfprobeFormat>,
}

/// What is known of a media file once probed, apart from its duration.
#[derive(Debug, PartialEq, Eq)]
pub struct MediaFacts {
    pub path: String,
    pub size_bytes: u64,
    pub width: Option<u32>,
    pub height: Option<u32>,
    /// The average frame rate as ffprobe wrote it, else the real base rate.
    pub frame_rate_text: Option<String>,
    pub video_codec: Option<String>,
    pub audio_codec: Option<String>,
}

/// Index of the first stream at or after `k` whose codec type is `t`, or -1.
pub open spec fn first_of_type(streams: Seq<FfprobeStream>, t: Seq<char>, k: int) -> int
    decreases streams.len() - k,
{
    if k < 0 || k >= streams.len() {
        -1
    } else if opt_text(streams[k].codec_type) == Some(t) {
        k
    } else {
        first_of_type(streams, t, k + 1)
    }
}

fn first_of_type_exec(streams: &Vec<FfprobeStream>, t: &str) -> (r: Option<usize>)
    ensures
        match r {
            Some(k) => first_of_type(streams@, t@, 0) == k && k < streams.len(),
            None => first_of_type(streams@, t@, 0) == -1,
        },
{
    let mut k: usize = 0;
    while k < streams.len()
        invariant
            k <= streams.len(),
            first_of_type(streams@, t@, k as int) == first_of_type(streams@, t@, 0),
        decreases streams.len() - k,
    {
        match &streams[k].codec_type {
            Some(ct) => {
                if same_text(ct.as_str(), t) {
                    return Some(k);
                }
            },
            None => {},
        }
        k = k + 1;
    }
    None
}

/// The size ffprobe wrote in its `format` section, read as `u64`.
pub open spec fn format_size(probe: FfprobeJson) -> Option<u64> {
    match probe.format {
        Some(f) => match f.size {
            Some(s) => parse_u64_spec(s@),
            None => None,
        },
        None => None,
    }
}

/// The frame rate text of a stream: the average rate, else the base rate.
pub open spec fn frame_rate_text_of(s: FfprobeStream) -> Option<String> {
    match s.avg_frame_rate {
        Some(a) => Some(a),
        None => s.r_frame_rate,
    }
}

/// Turns the probe into the file's facts. A file without a video stream is
/// refused first, then one whose duration is missing or not positive
/// (`duration_valid`, read by the caller), then one whose size is known
/// neither from the file system (`file_size`) nor from the probe.
pub fn media_from_probe(
    path: &str,
    probe: &FfprobeJson,
    duration_valid: bool,
    file_size: Option<u64>,
) -> (r: Result<MediaFacts, AppError>)
    ensures
        ({
            let v = first_of_type(probe.streams@, "video"@, 0);
            let a = first_of_type(probe.streams@, "audio"@, 0);
            if v < 0 {
                r matches Err(AppError::InvalidVideo(m)) && m@ == "no video stream in this file"@
            } else if !duration_valid {
                r matches Err(AppError::InvalidVideo(m)) && m@ == "missing duration"@
            } else if file_size is None && format_size(*probe) is None {
                r matches Err(AppError::InvalidVideo(m)) && m@ == "missing file size"@
            } else {
                let vs = probe.streams@[v];
                r matches Ok(f) && f.path@ == path@ && f.size_bytes == (match file_size {
                    Some(n) => n,
                    None => format_size(*probe).unwrap(),
                }) && f.width == vs.width && f.height == vs.height && f.frame_rate_text
                    == frame_rate_text_of(vs) && f.video_codec == vs.codec_name && f.audio_codec
                    == (if a < 0 {
                    None
                } else {
                    probe.streams@[a].codec_name
                })
            }
        }),
{
    let video: usize = match first_of_type_exec(&probe.streams, "video") {
        Some(k) => k,
        None => {
            return Err(AppError::InvalidVideo(text("no video stream in this file")));
        },
    };
    let audio = first_of_type_exec(&probe.streams, "audio");
    if !duration_valid {
        return Err(AppError::InvalidVideo(text("missing duration")));
    }
    let size: u64 = match file_size {
        Some(n) => n,
        None => {
            let parsed = match &probe.format {
                Some(f) => match &f.size {
                    Some(s) => parse_u64(s.as_str()),
                    None => None,
                },
                None => None,
            };
            match parsed {
                Some(n) => n,
                None => {
                    return Err(AppError::InvalidVideo(text("missing file size")));
                },
            }
        },
    };
    let vs = &probe.streams[video];
    let frame_rate_text = match &vs.avg_frame_rate {
        Some(a) => Some(a.clone()),
        None => copy_opt_text(&vs.r_frame_rate),
    };
    let audio_codec = match audio {
        Some(k) => copy_opt_text(&probe.streams[k].codec_name),
        None => None,
    };
    Ok(
        MediaFacts {
            path: text(path),
            size_bytes: size,
            width: vs.width,
            height: vs.height,
            frame_rate_text,
            video_codec: copy_opt_text(&vs.codec_name),
            audio_codec,
        },
    )
}

/// The ffprobe arguments for one probe: errors only, the format and
/// streams as JSON, then the path as the one input. A path that starts with
/// `-` follows a `--`, so that it is never read as an option.
pub open spec fn probe_args_spec(path: Seq<char>) -> Seq<Seq<char>> {
    let opts = seq!["-v"@, "error"@, "-print_format"@, "json"@, "-show_format"@, "-show_streams"@];
    if path.len() > 0 && path[0] == '-' {
        opts + seq!["--"@, path]
    } else {
        opts.push(path)
    }
}

/// The ffprobe arguments for one probe of `path`.
pub fn probe_args(path: &str) -> (r: Vec<String>)
    ensures
        texts_of(r) == probe_args_spec(path@),
{
    let mut r: Vec<String> = Vec::new();
    r.push(text("-v"));
    r.push(text("error"));
    r.push(text("-print_format"));
    r.push(text("json"));
    r.push(text("-show_format"));
    r.push(text("-show_streams"));
    if path.unicode_len() > 0 && path.get_char(0) == '-' {
        r.push(text("--"));
    }
    r.push(text(path));
    assert(texts_of(r) =~= probe_args_spec(path@));
    r
}

/// What ffprobe's stderr becomes in the error: the message, or the exit
/// status where it printed nothing.
pub open spec fn probe_failure_text(stderr: Seq<char>, status: Seq<char>) -> Seq<char> {
    if stderr.len() == 0 {
        "exited with "@ + status
    } else {
        stderr
    }
}

/// What a probe run ends in.
pub fn probe_outcome(run: ToolRun) -> (r: Result<(), AppError>)
    ensures
        match run {
            ToolRun::NotFound => r == Err::<(), AppError>(AppError::FfprobeNotFound),
            ToolRun::SpawnFailed(m) => r == Err::<(), AppError>(AppError::FfprobeFailed(m)),
            ToolRun::Exited { success, stderr, status } => if success {
                r == Ok::<(), AppError>(())
            } else {
                r matches Err(AppError::FfprobeFailed(m)) && m@ == probe_failure_text(
                    stderr@,
                    status@,
                )
            },
        },
{
    match run {
        ToolRun::NotFound => Err(AppError::FfprobeNotFound),
        ToolRun::SpawnFailed(m) => Err(AppError::FfprobeFailed(m)),
        ToolRun::Exited { success, stderr, status } => {
            if success {
                Ok(())
            } else if stderr.as_str().unicode_len() == 0 {
                let mut m = text("exited with ");
                m.append(status.as_str());
                Err(AppError::FfprobeFailed(m))
            } else {
                Err(AppError::FfprobeFailed(stderr))
            }
        },
    }
}

/// The error for ffprobe output that is not the JSON expected.
pub fn probe_json_error(detail: &str) -> (r: AppError)
    ensures
        r matches AppError::FfprobeFailed(m) && m@ == "couldnt parse ffprobe json: "@ + detail@,
{
    let mut m = text("couldnt parse ffprobe json: ");
    m.append(detail);
    AppError::FfprobeFailed(m)
}

} // verus!
