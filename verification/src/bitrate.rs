//! The whole-number rules of a bitrate plan. The plan divides a byte budget
//! by a duration in fractional seconds, which the caller computes; these
//! functions hold what is decided in whole bits per second.
use vstd::prelude::*;
use crate::error::AppError;
use crate::models::{BitratePlan, CompressionSettings};

verus! {

/// Below this many bits per second x264's output is not worth having.
pub const MIN_VIDEO_BITRATE_BPS: u32 = 50_000;

/// The audio bitrate in bits per second: the setting's kbps times 1000,
/// saturating at `u32::MAX`.
pub open spec fn audio_bitrate_spec(s: CompressionSettings) -> u32 {
    if s.audio_bitrate_kbps * 1000 > u32::MAX {
        u32::MAX
    } else {
        (s.audio_bitrate_kbps * 1000) as u32
    }
}

/// The audio bitrate of the settings, in bits per second.
pub fn audio_bitrate_bps(settings: &CompressionSettings) -> (r: u32)
    ensures
        r == audio_bitrate_spec(*settings),
{
    match settings.audio_bitrate_kbps.checked_mul(1000) {
        Some(v) => v,
        None => u32::MAX,
    }
}

/// The plan for the video bitrate left once audio is paid for (whole bits
/// per second, rounded down): refused where it is too low to be useful.
pub fn plan_for_video_bitrate(video_bitrate_bps: u32, audio_bitrate_bps: u32) -> (r: Result<
    BitratePlan,
    AppError,
>)
    ensures
        video_bitrate_bps < MIN_VIDEO_BITRATE_BPS ==> r == Err::<BitratePlan, AppError>(
            AppError::TargetBitrateTooLow,
        ),
        video_bitrate_bps >= MIN_VIDEO_BITRATE_BPS ==> r == Ok::<BitratePlan, AppError>(
            BitratePlan { video_bitrate_bps, audio_bitrate_bps },
        ),
{
    // x264 gets sad / useless below this-ish
    if video_bitrate_bps < MIN_VIDEO_BITRATE_BPS {
        return Err(AppError::TargetBitrateTooLow);
    }
    Ok(BitratePlan { video_bitrate_bps, audio_bitrate_bps })
}

} // verus!
