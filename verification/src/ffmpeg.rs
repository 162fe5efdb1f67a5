//! The ffmpeg side of a compression: the argument list of one encode, the
//! error an encode run ends in, and the steps of a whole compression as a
//! state machine whose outside work (probing, encoding, renaming, bitrate
//! arithmetic) the caller performs.
use vstd::prelude::*;
use vstd::string::*;
use crate::binaries::texts_of;
use crate::error::AppError;
use crate::models::{BitratePlan, CompressResult, CompressionSettings, VideoCodec};
use crate::output::{beside_original, beside_original_spec, temp_path, temp_path_spec};
use crate::text::{decimal, decimal_string, tail_of, tail_chars, text};

verus! {

pub open spec fn codec_name(c: VideoCodec) -> Seq<char> {
    match c {
        VideoCodec::H264 => "libx264"@,
    }
}

/// The optional downscale and frame-rate filters the settings ask for.
pub open spec fn filters_spec(s: CompressionSettings) -> Seq<Seq<char>> {
    let scale: Seq<Seq<char>> = match (s.max_width, s.max_height) {
        (Some(w), Some(h)) => seq![
            "scale='min("@ + decimal(w as nat) + ",iw)':'min("@ + decimal(h as nat)
                + ",ih)':force_original_aspect_ratio=decrease"@,
        ],
        (Some(w), None) => seq!["scale='min("@ + decimal(w as nat) + ",iw)':-2"@],
        (None, Some(h)) => seq!["scale=-2:'min("@ + decimal(h as nat) + ",ih)'"@],
        (None, None) => Seq::empty(),
    };
    match s.max_fps {
        Some(f) => scale.push("fps="@ + decimal(f as nat)),
        None => scale,
    }
}

/// Filters joined with commas.
pub open spec fn join_commas(fs: Seq<Seq<char>>) -> Seq<char>
    decreases fs.len(),
{
    if fs.len() == 0 {
        Seq::empty()
    } else if fs.len() == 1 {
        fs[0]
    } else {
        join_commas(fs.drop_last()) + ","@ + fs.last()
    }
}

/// The ffmpeg argument list for one encode of `input` into `output`.
pub open spec fn encode_args_spec(
    input: Seq<char>,
    output: Seq<char>,
    s: CompressionSettings,
    plan: BitratePlan,
) -> Seq<Seq<char>> {
    let base = seq![
        "-y"@,
        "-i"@,
        input,
        "-map"@,
        "0:v:0"@,
        "-map"@,
        "0:a?"@,
        "-c:v"@,
        codec_name(s.video_codec),
        "-b:v"@,
        decimal(plan.video_bitrate_bps as nat),
        "-maxrate"@,
        decimal(plan.video_bitrate_bps as nat),
        "-bufsize"@,
        decimal((plan.video_bitrate_bps * 2) as nat),
        "-c:a"@,
        "aac"@,
        "-b:a"@,
        decimal(plan.audio_bitrate_bps as nat),
        "-movflags"@,
        "+faststart"@,
    ];
    let fs = filters_spec(s);
    let with_vf = if fs.len() > 0 {
        base + seq!["-vf"@, join_commas(fs)]
    } else {
        base
    };
    with_vf.push(output)
}

/// Whether `s` starts with `t`.
pub open spec fn starts_with(s: Seq<char>, t: Seq<char>) -> bool {
    t.len() <= s.len() && s.subrange(0, t.len() as int) == t
}

/// Whether `s` ends with `t`.
pub open spec fn ends_with(s: Seq<char>, t: Seq<char>) -> bool {
    t.len() <= s.len() && s.subrange(s.len() - t.len(), s.len() as int) == t
}

/// The filters of an encode: a `-vf` chain stands just before the output
/// exactly when some cap is set. The chain starts with a scale filter
/// exactly when a width or height cap is set, and whenever a frame-rate cap
/// is set it ends with `fps=` and that rate, whatever the other caps are.
pub proof fn law_encode_filters(
    input: Seq<char>,
    output: Seq<char>,
    s: CompressionSettings,
    plan: BitratePlan,
)
    ensures
        ({
            let a = encode_args_spec(input, output, s, plan);
            let sized = s.max_width is Some || s.max_height is Some;
            let capped = sized || s.max_fps is Some;
            &&& a.len() == (if capped { 24int } else { 22int })
            &&& a.last() == output
            &&& a[2] == input
            &&& a[10] == decimal(plan.video_bitrate_bps as nat)
            &&& a[12] == decimal(plan.video_bitrate_bps as nat)
            &&& a[14] == decimal(2 * plan.video_bitrate_bps as nat)
            &&& a[16] == "aac"@
            &&& a[18] == decimal(plan.audio_bitrate_bps as nat)
            &&& capped ==> a[21] == "-vf"@
            &&& match (s.max_width, s.max_height) {
                (Some(w), Some(h)) => starts_with(
                    a[22],
                    "scale='min("@ + decimal(w as nat) + ",iw)':'min("@ + decimal(h as nat)
                        + ",ih)':force_original_aspect_ratio=decrease"@,
                ),
                (Some(w), None) => starts_with(a[22], "scale='min("@ + decimal(w as nat) + ",iw)':-2"@),
                (None, Some(h)) => starts_with(a[22], "scale=-2:'min("@ + decimal(h as nat) + ",ih)'"@),
                (None, None) => true,
            }
            &&& capped ==> (sized <==> starts_with(a[22], "scale="@))
            &&& capped ==> match s.max_fps {
                Some(f) => ends_with(a[22], "fps="@ + decimal(f as nat)),
                None => true,
            }
            &&& !sized ==> match s.max_fps {
                Some(f) => a[22] == "fps="@ + decimal(f as nat),
                None => true,
            }
        }),
{
    reveal_with_fuel(join_commas, 3);
    reveal_strlit("scale='min(");
    reveal_strlit("scale=-2:'min(");
    reveal_strlit("scale=");
    reveal_strlit("fps=");
    reveal_strlit(",");
    let fs = filters_spec(s);
    let sc: Seq<Seq<char>> = match (s.max_width, s.max_height) {
        (Some(w), Some(h)) => seq![
            "scale='min("@ + decimal(w as nat) + ",iw)':'min("@ + decimal(h as nat)
                + ",ih)':force_original_aspect_ratio=decrease"@,
        ],
        (Some(w), None) => seq!["scale='min("@ + decimal(w as nat) + ",iw)':-2"@],
        (None, Some(h)) => seq!["scale=-2:'min("@ + decimal(h as nat) + ",ih)'"@],
        (None, None) => Seq::empty(),
    };
    assert(sc.len() == 1 ==> starts_with(sc[0], "scale="@) && starts_with(sc[0], sc[0])) by {
        if sc.len() == 1 {
            assert(sc[0].subrange(0, 6) =~= "scale="@);
            assert(sc[0].subrange(0, sc[0].len() as int) =~= sc[0]);
        }
    }
    if fs.len() > 0 {
        let chain = join_commas(fs);
        match s.max_fps {
            Some(f) => {
                let t = "fps="@ + decimal(f as nat);
                assert(fs == sc.push(t));
                if sc.len() == 1 {
                    assert(fs.drop_last() =~= sc);
                    assert(chain == sc[0] + ","@ + t);
                    assert(chain.subrange(0, 6) =~= sc[0].subrange(0, 6));
                    assert(chain.subrange(0, sc[0].len() as int) =~= sc[0]);
                    assert(chain.subrange(chain.len() - t.len(), chain.len() as int) =~= t);
                } else {
                    assert(chain == t);
                    assert(chain.subrange(chain.len() - t.len(), chain.len() as int) =~= t);
                    assert(chain[0] == 'f');
                    if chain.len() >= 6 {
                        assert(chain.subrange(0, 6)[0] == chain[0]);
                        assert("scale="@[0] == 's');
                    }
                }
            },
            None => {
                assert(fs == sc);
                assert(chain == sc[0]);
                assert(chain.subrange(0, sc[0].len() as int) =~= sc[0]);
            },
        }
    }
}

fn concat(a: &str, b: &str) -> (r: String)
    ensures
        r@ == a@ + b@,
{
    let mut r = String::from_str(a);
    r.append(b);
    r
}

fn filters(s: &CompressionSettings) -> (r: Vec<String>)
    ensures
        texts_of(r) == filters_spec(*s),
        r.len() <= 2,
{
    let mut r: Vec<String> = Vec::new();
    match (s.max_width, s.max_height) {
        (Some(w), Some(h)) => {
            let mut f = concat("scale='min(", decimal_string(w as u64).as_str());
            f.append(",iw)':'min(");
            f.append(decimal_string(h as u64).as_str());
            f.append(",ih)':force_original_aspect_ratio=decrease");
            r.push(f);
        },
        (Some(w), None) => {
            let mut f = concat("scale='min(", decimal_string(w as u64).as_str());
            f.append(",iw)':-2");
            r.push(f);
        },
        (None, Some(h)) => {
            let mut f = concat("scale=-2:'min(", decimal_string(h as u64).as_str());
            f.append(",ih)'");
            r.push(f);
        },
        (None, None) => {},
    }
    let ghost scale = texts_of(r);
    match s.max_fps {
        Some(fps) => {
            r.push(concat("fps=", decimal_string(fps as u64).as_str()));
        },
        None => {},
    }
    assert(texts_of(r) =~= filters_spec(*s));
    r
}

/// The ffmpeg arguments for one encode: map the first video stream and any
/// audio, H.264 at the planned video bitrate (also the max rate, with a
/// buffer of twice that), AAC audio, fast start, the settings' optional
/// scale/fps filters, and the output path last.
pub fn encode_args(
    input: &str,
    output: &str,
    settings: &CompressionSettings,
    plan: &BitratePlan,
) -> (r: Vec<String>)
    requires
        plan.video_bitrate_bps * 2 <= u32::MAX,
    ensures
        texts_of(r) == encode_args_spec(input@, output@, *settings, *plan),
{
    let codec = match settings.video_codec {
        VideoCodec::H264 => "libx264",
    };
    let video: u64 = plan.video_bitrate_bps as u64;
    let mut args: Vec<String> = Vec::new();
    args.push(text("-y"));
    args.push(text("-i"));
    args.push(text(input));
    args.push(text("-map"));
    args.push(text("0:v:0"));
    args.push(text("-map"));
    args.push(text("0:a?"));
    args.push(text("-c:v"));
    args.push(text(codec));
    args.push(text("-b:v"));
    args.push(decimal_string(video));
    args.push(text("-maxrate"));
    args.push(decimal_string(video));
    args.push(text("-bufsize"));
    args.push(decimal_string((plan.video_bitrate_bps * 2) as u64));
    args.push(text("-c:a"));
    args.push(text("aac"));
    args.push(text("-b:a"));
    args.push(decimal_string(plan.audio_bitrate_bps as u64));
    args.push(text("-movflags"));
    args.push(text("+faststart"));
    let ghost base = texts_of(args);
    let fs = filters(settings);
    if fs.len() > 0 {
        args.push(text("-vf"));
        if fs.len() == 1 {
            args.push(fs[0].clone());
        } else {
            let mut joined = fs[0].clone();
            joined.append(",");
            joined.append(fs[1].as_str());
            args.push(joined);
            assert(texts_of(fs).drop_last() =~= seq![texts_of(fs)[0]]);
            assert(join_commas(texts_of(fs).drop_last()) == texts_of(fs)[0]);
        }
        assert(join_commas(texts_of(fs)) == texts_of(args).last());
    }
    args.push(text(output));
    assert(texts_of(args) =~= encode_args_spec(input@, output@, *settings, *plan));
    args
}

/// What ffmpeg's stderr becomes in the error: its last 400 characters, or
/// the exit status where it printed nothing.
pub open spec fn encode_failure_text(stderr: Seq<char>, status: Seq<char>) -> Seq<char> {
    if stderr.len() == 0 {
        "exited with "@ + status
    } else {
        tail_of(stderr, 400)
    }
}

/// The message of a failed encode, from ffmpeg's trimmed stderr and exit status.
pub fn encode_failure_message(stderr_trimmed: &str, status: &str) -> (r: String)
    ensures
        r@ == encode_failure_text(stderr_trimmed@, status@),
{
    if stderr_trimmed.unicode_len() == 0 {
        concat("exited with ", status)
    } else {
        // ffmpeg dumps a lot, keep the tail so the UI stays readable
        tail_chars(stderr_trimmed, 400)
    }
}

/// How a run of an external tool went, as far as the program looks at it.
pub enum ToolRun {
    /// The executable could not be found.
    NotFound,
    /// It could not be started for another reason, with the OS's message.
    SpawnFailed(String),
    /// It ran; `stderr` is its trimmed error output and `status` the exit
    /// status as printed.
    Exited { success: bool, stderr: String, status: String },
}

/// The ffmpeg used to encode: any failure to resolve it counts as ffmpeg
/// missing.
pub fn ffmpeg_for_encode(resolved: Result<String, AppError>) -> (r: Result<String, AppError>)
    ensures
        match resolved {
            Ok(p) => r == Ok::<String, AppError>(p),
            Err(_) => r == Err::<String, AppError>(AppError::FfmpegNotFound),
        },
{
    match resolved {
        Ok(p) => Ok(p),
        Err(_) => Err(AppError::FfmpegNotFound),
    }
}

/// What an encode run ends in. (On failure the caller removes the output.)
pub fn encode_outcome(run: ToolRun) -> (r: Result<(), AppError>)
    ensures
        match run {
            ToolRun::NotFound => r == Err::<(), AppError>(AppError::FfmpegNotFound),
            ToolRun::SpawnFailed(m) => r == Err::<(), AppError>(AppError::EncodingFailed(m)),
            ToolRun::Exited { success, stderr, status } => if success {
                r == Ok::<(), AppError>(())
            } else {
                r matches Err(AppError::EncodingFailed(m)) && m@ == encode_failure_text(
                    stderr@,
                    status@,
                )
            },
        },
{
    match run {
        ToolRun::NotFound => Err(AppError::FfmpegNotFound),
        ToolRun::SpawnFailed(m) => Err(AppError::EncodingFailed(m)),
        ToolRun::Exited { success, stderr, status } => {
            if success {
                Ok(())
            } else {
                Err(AppError::EncodingFailed(encode_failure_message(stderr.as_str(), status.as_str())))
            }
        },
    }
}

/// What the probe told about the input: its path as shown and its size.
pub struct ProbedSize {
    pub path: String,
    pub size_bytes: u64,
}

/// Where a compression stands.
#[derive(Debug, Clone, Copy, PartialEq, Eq, Structural)]
pub enum CompressStage {
    Start,
    CheckingInput,
    Probing,
    Planning,
    CheckingOutput { plan: BitratePlan },
    Encoding { plan: BitratePlan },
    Reencoding,
    Renaming { size: u64 },
    Done,
}

/// The outcome of the last piece of outside work, handed back to `step`.
pub enum CompressEvent {
    Begin,
    InputChecked { exists: bool },
    Probed(Result<ProbedSize, AppError>),
    /// The bitrate plan for the probed duration (computed by the caller).
    Planned(Result<BitratePlan, AppError>),
    OutputChecked { exists: bool },
    /// The size of the temporary file after an encode, or why it failed.
    Encoded(Result<u64, AppError>),
    /// The temporary file was renamed to the final name, or the OS's message.
    Renamed(Result<(), String>),
}

/// The next piece of outside work for the caller.
pub enum CompressAction {
    CheckInput(String),
    Probe(String),
    /// Plan the bitrates for the probed duration and the settings.
    PlanBitrates,
    CheckOutput(String),
    /// Encode the input into the temporary file with this plan.
    Encode { plan: BitratePlan },
    /// Remove the temporary file and encode again with this plan scaled
    /// down to 85 % of its video bitrate.
    RetryEncode { plan: BitratePlan },
    Rename { from: String, to: String },
    /// Stop with this result, removing the temporary file first where asked.
    Finish { result: Result<CompressResult, AppError>, remove_temp: bool },
}

/// One compression of one input: encode to a temporary file beside it, retry
/// once a bit lower if the file overshoots the target, and rename the result
/// to `{stem}-squeezed.mp4`. Inputs already under the target are skipped.
pub struct Compression {
    pub input: String,
    pub settings: CompressionSettings,
    pub temp: String,
    pub final_out: String,
    pub stage: CompressStage,
}

/// Whether `e` is the outcome the stage waits for.
pub open spec fn event_fits(stage: CompressStage, e: CompressEvent) -> bool {
    match (stage, e) {
        (CompressStage::Start, CompressEvent::Begin) => true,
        (CompressStage::CheckingInput, CompressEvent::InputChecked { .. }) => true,
        (CompressStage::Probing, CompressEvent::Probed(_)) => true,
        (CompressStage::Planning, CompressEvent::Planned(_)) => true,
        (CompressStage::CheckingOutput { .. }, CompressEvent::OutputChecked { .. }) => true,
        (CompressStage::Encoding { .. }, CompressEvent::Encoded(_)) => true,
        (CompressStage::Reencoding, CompressEvent::Encoded(_)) => true,
        (CompressStage::Renaming { .. }, CompressEvent::Renamed(_)) => true,
        _ => false,
    }
}

/// The message of a compression that still overshoots after the retry.
pub open spec fn overshoot_text(size: u64, target: u64) -> Seq<char> {
    "still "@ + decimal(size as nat) + " bytes after retry, target was "@ + decimal(target as nat)
}

impl Compression {
    /// A rename is only ever waited for with a file within the target size.
    pub open spec fn wf(&self) -> bool {
        match self.stage {
            CompressStage::Renaming { size } => size <= self.settings.target_size_bytes,
            _ => true,
        }
    }

    /// A compression of `input` with `settings`, not yet started; `windows`
    /// tells whether `\` separates path components.
    pub fn new(input: &str, settings: CompressionSettings, windows: bool) -> (r: Self)
        ensures
            r.input@ == input@,
            r.settings == settings,
            r.temp@ == temp_path_spec(input@, windows),
            r.final_out@ == beside_original_spec(input@, windows),
            r.stage == CompressStage::Start,
            r.wf(),
    {
        Compression {
            input: text(input),
            settings,
            temp: temp_path(input, windows),
            final_out: beside_original(input, windows),
            stage: CompressStage::Start,
        }
    }

    /// Takes the outcome of the last action and answers the next one.
    pub fn step(&mut self, event: CompressEvent) -> (r: CompressAction)
        requires
            event_fits(old(self).stage, event),
        ensures
            final(self).input == old(self).input,
            final(self).settings == old(self).settings,
            final(self).temp == old(self).temp,
            final(self).final_out == old(self).final_out,
            old(self).wf() ==> final(self).wf(),
            // every successful result, encoded or skipped, fits the target
            old(self).wf() ==> (r matches CompressAction::Finish { result: Ok(res), .. }
                ==> res.output_size_bytes <= old(self).settings.target_size_bytes),
            ({
                let o = *old(self);
                let n = *final(self);
                let target = o.settings.target_size_bytes;
                match (o.stage, event) {
                    (CompressStage::Start, CompressEvent::Begin) => n.stage
                        == CompressStage::CheckingInput && r == CompressAction::CheckInput(o.input),
                    (CompressStage::CheckingInput, CompressEvent::InputChecked { exists }) => if exists {
                        n.stage == CompressStage::Probing && r == CompressAction::Probe(o.input)
                    } else {
                        n.stage == CompressStage::Done && r == CompressAction::Finish {
                            result: Err(AppError::InputNotFound(o.input)),
                            remove_temp: false,
                        }
                    },
                    (CompressStage::Probing, CompressEvent::Probed(res)) => match res {
                        Err(e) => n.stage == CompressStage::Done && r == CompressAction::Finish {
                            result: Err(e),
                            remove_temp: false,
                        },
                        Ok(p) => if p.size_bytes <= target {
                            // already small enough: nothing to encode
                            n.stage == CompressStage::Done && r == CompressAction::Finish {
                                result: Ok(
                                    CompressResult {
                                        output_path: p.path,
                                        output_size_bytes: p.size_bytes,
                                        skipped: true,
                                    },
                                ),
                                remove_temp: false,
                            }
                        } else {
                            n.stage == CompressStage::Planning && r == CompressAction::PlanBitrates
                        },
                    },
                    (CompressStage::Planning, CompressEvent::Planned(res)) => match res {
                        Err(e) => n.stage == CompressStage::Done && r == CompressAction::Finish {
                            result: Err(e),
                            remove_temp: false,
                        },
                        Ok(plan) => n.stage == CompressStage::CheckingOutput { plan } && r
                            == CompressAction::CheckOutput(o.final_out),
                    },
                    (
                        CompressStage::CheckingOutput { plan },
                        CompressEvent::OutputChecked { exists },
                    ) => if exists {
                        n.stage == CompressStage::Done && r == CompressAction::Finish {
                            result: Err(AppError::OutputAlreadyExists(o.final_out)),
                            remove_temp: false,
                        }
                    } else {
                        n.stage == CompressStage::Encoding { plan } && r == CompressAction::Encode {
                            plan,
                        }
                    },
                    (CompressStage::Encoding { plan }, CompressEvent::Encoded(res)) => match res {
                        Err(e) => n.stage == CompressStage::Done && r == CompressAction::Finish {
                            result: Err(e),
                            remove_temp: false,
                        },
                        Ok(size) => if size > target {
                            n.stage == CompressStage::Reencoding && r
                                == CompressAction::RetryEncode { plan }
                        } else {
                            n.stage == CompressStage::Renaming { size } && r
                                == CompressAction::Rename { from: o.temp, to: o.final_out }
                        },
                    },
                    (CompressStage::Reencoding, CompressEvent::Encoded(res)) => match res {
                        Err(e) => n.stage == CompressStage::Done && r == CompressAction::Finish {
                            result: Err(e),
                            remove_temp: false,
                        },
                        Ok(size) => if size > target {
                            n.stage == CompressStage::Done && (r matches CompressAction::Finish {
                                result: Err(AppError::EncodingFailed(m)),
                                remove_temp: true,
                            } && m@ == overshoot_text(size, target))
                        } else {
                            n.stage == CompressStage::Renaming { size } && r
                                == CompressAction::Rename { from: o.temp, to: o.final_out }
                        },
                    },
                    (CompressStage::Renaming { size }, CompressEvent::Renamed(res)) => match res {
                        Err(m) => n.stage == CompressStage::Done && r == CompressAction::Finish {
                            result: Err(AppError::EncodingFailed(m)),
                            remove_temp: true,
                        },
                        Ok(_) => n.stage == CompressStage::Done && r == CompressAction::Finish {
                            result: Ok(
                                CompressResult {
                                    output_path: o.final_out,
                                    output_size_bytes: size,
                                    skipped: false,
                                },
                            ),
                            remove_temp: false,
                        },
                    },
                    _ => false,
                }
            }),
    {
        let target: u64 = self.settings.target_size_bytes;
        match (self.stage, event) {
            (CompressStage::Start, CompressEvent::Begin) => {
                self.stage = CompressStage::CheckingInput;
                CompressAction::CheckInput(self.input.clone())
            },
            (CompressStage::CheckingInput, CompressEvent::InputChecked { exists }) => {
                if exists {
                    self.stage = CompressStage::Probing;
                    CompressAction::Probe(self.input.clone())
                } else {
                    self.stage = CompressStage::Done;
                    CompressAction::Finish {
                        result: Err(AppError::InputNotFound(self.input.clone())),
                        remove_temp: false,
                    }
                }
            },
            (CompressStage::Probing, CompressEvent::Probed(res)) => {
                match res {
                    Err(e) => {
                        self.stage = CompressStage::Done;
                        CompressAction::Finish { result: Err(e), remove_temp: false }
                    },
                    Ok(p) => {
                        if p.size_bytes <= target {
                            self.stage = CompressStage::Done;
                            CompressAction::Finish {
                                result: Ok(
                                    CompressResult {
                                        output_path: p.path,
                                        output_size_bytes: p.size_bytes,
                                        skipped: true,
                                    },
                                ),
                                remove_temp: false,
                            }
                        } else {
                            self.stage = CompressStage::Planning;
                            CompressAction::PlanBitrates
                        }
                    },
                }
            },
            (CompressStage::Planning, CompressEvent::Planned(res)) => {
                match res {
                    Err(e) => {
                        self.stage = CompressStage::Done;
                        CompressAction::Finish { result: Err(e), remove_temp: false }
                    },
                    Ok(plan) => {
                        self.stage = CompressStage::CheckingOutput { plan };
                        CompressAction::CheckOutput(self.final_out.clone())
                    },
                }
            },
            (CompressStage::CheckingOutput { plan }, CompressEvent::OutputChecked { exists }) => {
                if exists {
                    self.stage = CompressStage::Done;
                    CompressAction::Finish {
                        result: Err(AppError::OutputAlreadyExists(self.final_out.clone())),
                        remove_temp: false,
                    }
                } else {
                    self.stage = CompressStage::Encoding { plan };
                    CompressAction::Encode { plan }
                }
            },
            (CompressStage::Encoding { plan }, CompressEvent::Encoded(res)) => {
                match res {
                    Err(e) => {
                        self.stage = CompressStage::Done;
                        CompressAction::Finish { result: Err(e), remove_temp: false }
                    },
                    Ok(size) => {
                        if size > target {
                            self.stage = CompressStage::Reencoding;
                            CompressAction::RetryEncode { plan }
                        } else {
                            self.stage = CompressStage::Renaming { size };
                            CompressAction::Rename {
                                from: self.temp.clone(),
                                to: self.final_out.clone(),
                            }
                        }
                    },
                }
            },
            (CompressStage::Reencoding, CompressEvent::Encoded(res)) => {
                match res {
                    Err(e) => {
                        self.stage = CompressStage::Done;
                        CompressAction::Finish { result: Err(e), remove_temp: false }
                    },
                    Ok(size) => {
                        if size > target {
                            self.stage = CompressStage::Done;
                            let mut m = text("still ");
                            m.append(decimal_string(size).as_str());
                            m.append(" bytes after retry, target was ");
                            m.append(decimal_string(target).as_str());
                            CompressAction::Finish {
                                result: Err(AppError::EncodingFailed(m)),
                                remove_temp: true,
                            }
                        } else {
                            self.stage = CompressStage::Renaming { size };
                            CompressAction::Rename {
                                from: self.temp.clone(),
                                to: self.final_out.clone(),
                            }
                        }
                    },
                }
            },
            (CompressStage::Renaming { size }, CompressEvent::Renamed(res)) => {
                self.stage = CompressStage::Done;
                match res {
                    Err(m) => CompressAction::Finish {
                        result: Err(AppError::EncodingFailed(m)),
                        remove_temp: true,
                    },
                    Ok(_) => CompressAction::Finish {
                        result: Ok(
                            CompressResult {
                                output_path: self.final_out.clone(),
                                output_size_bytes: size,
                                skipped: false,
                            },
                        ),
                        remove_temp: false,
                    },
                }
            },
            _ => CompressAction::PlanBitrates,
        }
    }
}

} // verus!
