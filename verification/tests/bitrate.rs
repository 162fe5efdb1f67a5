use squeeze::bitrate::{audio_bitrate_bps, plan_for_video_bitrate, MIN_VIDEO_BITRATE_BPS};
use squeeze::error::AppError;
use squeeze::models::{BitratePlan, CompressionSettings};

#[test]
fn audio_bitrate_in_bits() {
    let discord = CompressionSettings::discord();
    assert_eq!(audio_bitrate_bps(&discord), 128_000);
    let huge = CompressionSettings { audio_bitrate_kbps: 5_000_000, ..discord };
    assert_eq!(audio_bitrate_bps(&huge), u32::MAX);
    let none = CompressionSettings { audio_bitrate_kbps: 0, ..discord };
    assert_eq!(audio_bitrate_bps(&none), 0);
}

#[test]
fn too_low_video_bitrate_is_refused() {
    assert_eq!(MIN_VIDEO_BITRATE_BPS, 50_000);
    assert_eq!(plan_for_video_bitrate(49_999, 128_000), Err(AppError::TargetBitrateTooLow));
    assert_eq!(
        plan_for_video_bitrate(50_000, 128_000),
        Ok(BitratePlan { video_bitrate_bps: 50_000, audio_bitrate_bps: 128_000 })
    );
    assert_eq!(
        plan_for_video_bitrate(2_500_000, 96_000),
        Ok(BitratePlan { video_bitrate_bps: 2_500_000, audio_bitrate_bps: 96_000 })
    );
}
