use squeeze::models::{CompressionSettings, VideoCodec, DISCORD_TARGET_BYTES};
use squeeze::text::{decimal_string, parse_u64, tail_chars};

#[test]
fn decimal_numbers() {
    assert_eq!(decimal_string(0), "0");
    assert_eq!(decimal_string(7), "7");
    assert_eq!(decimal_string(1500000), "1500000");
    assert_eq!(decimal_string(u64::MAX), u64::MAX.to_string());
}

#[test]
fn parse_like_std() {
    for s in ["0", "42", "+42", "18446744073709551615", "18446744073709551616", "", "+", "-1", "4 2", "007"] {
        assert_eq!(parse_u64(s), s.parse::<u64>().ok(), "input {:?}", s);
    }
}

#[test]
fn tails() {
    assert_eq!(tail_chars("abcdef", 3), "def");
    assert_eq!(tail_chars("ab", 3), "ab");
    assert_eq!(tail_chars("héllo", 4), "éllo");
}

#[test]
fn discord_settings() {
    let s = CompressionSettings::discord();
    assert_eq!(s.target_size_bytes, (19.5 * 1024.0 * 1024.0) as u64);
    assert_eq!(DISCORD_TARGET_BYTES, 20_447_232);
    assert_eq!(s.video_codec, VideoCodec::H264);
    assert_eq!(s.audio_bitrate_kbps, 128);
    assert_eq!(s.max_width, None);
    assert_eq!(s.max_height, None);
    assert_eq!(s.max_fps, None);
}
