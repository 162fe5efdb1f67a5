use squeeze::discovery::{
    discover_videos, is_source_video, is_supported_video, path_key, path_under_root, same_path,
    video_extensions, ListedEntry,
};
use squeeze::error::AppError;

#[test]
fn skips_squeezed_names() {
    assert!(!is_source_video("clip-squeezed.mp4", false));
    assert!(!is_source_video("clip.tmp-compressed.mp4", false));
    assert!(is_source_video("clip.mp4", false));
    assert!(is_source_video("CLIP.MKV", false));
}

#[test]
fn path_keys_match_slash_and_case() {
    assert!(same_path(r"C:\Clips\Peak\a.mp4", r"c:/clips/peak/a.mp4"));
}

#[test]
fn path_key_lowercases_and_uses_backslashes() {
    assert_eq!(path_key("C:/Clips/A.MP4"), r"c:\clips\a.mp4");
    assert!(!same_path("/a/b.mp4", "/a/c.mp4"));
}

#[test]
fn backup_and_unknown_files_are_not_sources() {
    assert!(!is_supported_video("clip.squeeze-backup.mov", false));
    assert!(!is_supported_video("notes.txt", false));
    assert!(!is_supported_video("movie", false));
    assert!(!is_supported_video("/videos/", false));
    assert!(is_supported_video("/videos/Holiday.WebM", false));
    assert!(is_supported_video(r"C:\videos\old.flv", true));
}

#[test]
fn video_extension_list() {
    let exts = video_extensions();
    assert_eq!(exts, vec!["mp4", "mkv", "mov", "webm", "avi", "m4v", "wmv", "flv"]);
}

#[test]
fn paths_under_roots() {
    assert!(path_under_root("/clips/a.mp4", "/clips"));
    assert!(path_under_root("/clips/a.mp4", "/clips/"));
    assert!(path_under_root("/Clips", "/clips"));
    assert!(path_under_root(r"C:\Clips\sub\a.mp4", "c:/clips"));
    assert!(!path_under_root("/clipsX/a.mp4", "/clips"));
    assert!(!path_under_root("/other/a.mp4", "/clips"));
}

fn entry(path: &str, is_file: bool) -> ListedEntry {
    ListedEntry { path: path.to_string(), is_file }
}

#[test]
fn discover_keeps_videos_in_path_order() {
    let listing = vec![
        entry("/v/b.mp4", true),
        entry("/v/a-b/c.mp4", true),
        entry("/v/a/z.mkv", true),
        entry("/v/a.mov", true),
        entry("/v/readme.txt", true),
        entry("/v/a-squeezed.mp4", true),
        entry("/v/dir.mp4", false),
    ];
    let found = discover_videos("/v", true, Ok(listing), false).expect("videos");
    assert_eq!(found, vec!["/v/a/z.mkv", "/v/a-b/c.mp4", "/v/a.mov", "/v/b.mp4"]);
}

#[test]
fn discover_orders_windows_listings_by_component() {
    let listing = vec![
        entry(r"C:\v\a b.mp4", true),
        entry(r"C:\v\a-b.mp4", true),
        entry(r"C:\v\a\x.mp4", true),
    ];
    let found = discover_videos(r"C:\v", true, Ok(listing), true).expect("videos");
    assert_eq!(found, vec![r"C:\v\a\x.mp4", r"C:\v\a b.mp4", r"C:\v\a-b.mp4"]);
}

#[test]
fn discover_orders_unix_listings_bytewise() {
    let listing = vec![entry(r"/v/a\b.mp4", true), entry("/v/a!b.mp4", true), entry("/v/a/c.mp4", true)];
    let found = discover_videos("/v", true, Ok(listing), false).expect("videos");
    assert_eq!(found, vec!["/v/a/c.mp4", "/v/a!b.mp4", r"/v/a\b.mp4"]);
}

#[test]
fn backslash_names_on_unix() {
    assert!(!is_source_video(r"x-squeezed\clip.mp4", false));
    assert!(is_source_video(r"x-squeezed\clip.mp4", true));
}

#[test]
fn discover_refuses_a_missing_folder() {
    match discover_videos("/nope", false, Ok(Vec::new()), false) {
        Err(AppError::InputNotFound(p)) => assert_eq!(p, "/nope"),
        other => panic!("unexpected {:?}", other),
    }
}

#[test]
fn discover_passes_listing_errors_on() {
    let err = AppError::EncodingFailed("cant read /v: denied".to_string());
    assert_eq!(discover_videos("/v", true, Err(err.clone()), false), Err(err));
}

#[test]
fn discover_empty_folder() {
    assert_eq!(discover_videos("/v", true, Ok(Vec::new()), false), Ok(Vec::new()));
}
