use squeeze::binaries::{
    candidates_in, ensure, ffprobe_bundled_path, first_existing, join, resolve, resolve_ffprobe,
    sidecar_file_name, sidecar_search_paths, target_triple, tool_file_name, HostArch, HostOs,
    Platform,
};
use squeeze::error::AppError;

const WIN: Platform = Platform { os: HostOs::Windows, arch: HostArch::X86_64 };
const LINUX: Platform = Platform { os: HostOs::Linux, arch: HostArch::X86_64 };
const MAC_ARM: Platform = Platform { os: HostOs::MacOs, arch: HostArch::Aarch64 };
const LINUX_ARM: Platform = Platform { os: HostOs::Linux, arch: HostArch::Aarch64 };

#[test]
fn triples_per_platform() {
    assert_eq!(target_triple(WIN), Some("x86_64-pc-windows-msvc"));
    assert_eq!(target_triple(LINUX), Some("x86_64-unknown-linux-gnu"));
    assert_eq!(target_triple(MAC_ARM), Some("aarch64-apple-darwin"));
    assert_eq!(
        target_triple(Platform { os: HostOs::MacOs, arch: HostArch::X86_64 }),
        Some("x86_64-apple-darwin")
    );
    assert_eq!(target_triple(LINUX_ARM), None);
    assert_eq!(target_triple(Platform { os: HostOs::Other, arch: HostArch::X86_64 }), None);
}

#[test]
fn tool_names() {
    assert_eq!(tool_file_name(WIN, "ffmpeg"), "ffmpeg.exe");
    assert_eq!(tool_file_name(LINUX, "ffmpeg"), "ffmpeg");
    assert_eq!(sidecar_file_name(WIN, "ffprobe"), Some("ffprobe-x86_64-pc-windows-msvc.exe".to_string()));
    assert_eq!(sidecar_file_name(MAC_ARM, "ffprobe"), Some("ffprobe-aarch64-apple-darwin".to_string()));
    assert_eq!(sidecar_file_name(LINUX_ARM, "ffprobe"), None);
}

#[test]
fn joins() {
    assert_eq!(join(LINUX, "/opt/app", "ffmpeg"), "/opt/app/ffmpeg");
    assert_eq!(join(LINUX, "/opt/app/", "ffmpeg"), "/opt/app/ffmpeg");
    assert_eq!(join(LINUX, "", "ffmpeg"), "ffmpeg");
    assert_eq!(join(WIN, r"C:\App", "ffmpeg.exe"), r"C:\App\ffmpeg.exe");
    assert_eq!(join(LINUX, "/opt", "/abs"), "/abs");
    assert_eq!(join(WIN, "C:", "ffmpeg.exe"), "C:ffmpeg.exe");
    assert_eq!(join(WIN, r"C:\App", r"\tools\ffmpeg.exe"), r"C:\tools\ffmpeg.exe");
    assert_eq!(join(WIN, r"C:\App", r"D:\ffmpeg.exe"), r"D:\ffmpeg.exe");
    assert_eq!(join(WIN, r"\\srv\share", "ffmpeg.exe"), r"\\srv\share\ffmpeg.exe");
}

#[test]
fn candidates_and_search_order() {
    assert_eq!(
        candidates_in(LINUX, "/opt/app", "ffmpeg"),
        vec!["/opt/app/ffmpeg", "/opt/app/ffmpeg-x86_64-unknown-linux-gnu"]
    );
    assert_eq!(
        sidecar_search_paths(LINUX, Some("/opt/app"), "/src/binaries", "ffprobe"),
        vec![
            "/opt/app/ffprobe",
            "/opt/app/ffprobe-x86_64-unknown-linux-gnu",
            "/src/binaries/ffprobe",
            "/src/binaries/ffprobe-x86_64-unknown-linux-gnu",
        ]
    );
    assert_eq!(
        sidecar_search_paths(LINUX, None, "/src/binaries", "ffprobe"),
        vec!["/src/binaries/ffprobe", "/src/binaries/ffprobe-x86_64-unknown-linux-gnu"]
    );
    assert!(sidecar_search_paths(LINUX_ARM, Some("/opt/app"), "/src/binaries", "ffprobe").is_empty());
}

#[test]
fn first_existing_candidate() {
    let c = vec!["a".to_string(), "b".to_string(), "c".to_string()];
    assert_eq!(first_existing(&c, &vec![false, true, true]), Some("b".to_string()));
    assert_eq!(first_existing(&c, &vec![false, false, false]), None);
    assert_eq!(first_existing(&c, &vec![false]), None);
}

#[test]
fn resolve_and_ensure() {
    assert_eq!(resolve(LINUX_ARM, "ffmpeg", Some("x".to_string())), Err(AppError::UnsupportedPlatform));
    assert_eq!(resolve(LINUX, "ffmpeg", Some("/x/ffmpeg".to_string())), Ok("/x/ffmpeg".to_string()));
    assert_eq!(resolve(LINUX, "ffprobe", None), Err(AppError::FfprobeNotFound));
    assert_eq!(resolve(LINUX, "ffmpeg", None), Err(AppError::FfmpegNotFound));
    assert_eq!(ensure(LINUX, None, None), Err(AppError::FfmpegNotFound));
    assert_eq!(ensure(LINUX, Some("a".to_string()), None), Err(AppError::FfprobeNotFound));
    assert_eq!(ensure(LINUX, Some("a".to_string()), Some("b".to_string())), Ok(()));
    assert_eq!(ensure(LINUX_ARM, Some("a".to_string()), Some("b".to_string())), Err(AppError::UnsupportedPlatform));
}

#[test]
fn ffprobe_paths() {
    assert_eq!(ffprobe_bundled_path(WIN, r"C:\src"), r"C:\src\binaries\ffprobe.exe");
    assert_eq!(resolve_ffprobe(LINUX, "/src", true), "/src/binaries/ffprobe");
    assert_eq!(resolve_ffprobe(LINUX, "/src", false), "ffprobe");
    assert_eq!(resolve_ffprobe(WIN, r"C:\src", false), "ffprobe.exe");
}
