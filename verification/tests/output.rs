use squeeze::discovery::is_source_video;
use squeeze::output::{
    backup_path, beside_original, next_unique_name, replace_final_path, squeezed_candidate,
    squeezed_fallback, stem, temp_path, unique_candidate, NameStep, LAST_NUMBERED_NAME,
};

#[test]
fn replace_keeps_mp4_name() {
    assert_eq!(replace_final_path(r"C:\vids\clip.mov", true), r"C:\vids\clip.mp4");
}

#[test]
fn replace_on_plain_names() {
    assert_eq!(replace_final_path("/v/clip.mp4", false), "/v/clip.mp4");
    assert_eq!(replace_final_path("/v/clip", false), "/v/clip.mp4");
    assert_eq!(replace_final_path("/v/archive.tar.gz", false), "/v/archive.tar.mp4");
    assert_eq!(replace_final_path("/v/", false), "/v.mp4");
    assert_eq!(replace_final_path("/", false), "/");
}

#[test]
fn temp_and_final_beside_input() {
    assert_eq!(temp_path("/videos/clip.mov", false), "/videos/clip.tmp-compressed.mp4");
    assert_eq!(beside_original("/videos/clip.mov", false), "/videos/clip-squeezed.mp4");
    assert_eq!(beside_original(r"C:\videos\clip.mov", true), r"C:\videos\clip-squeezed.mp4");
    assert_eq!(beside_original("clip.mov", false), "clip-squeezed.mp4");
    assert_eq!(beside_original("/clip.mov", false), "/clip-squeezed.mp4");
    assert_eq!(beside_original("./clip.mov", false), "./clip-squeezed.mp4");
    assert_eq!(beside_original("/videos/./clip.mov/", false), "/videos/clip-squeezed.mp4");
}

#[test]
fn backup_keeps_extension() {
    assert_eq!(backup_path("/v/clip.mov", false), "/v/clip.squeeze-backup.mov");
    assert_eq!(backup_path("/v/clip", false), "/v/clip.squeeze-backup.mp4");
    assert_eq!(backup_path("/v/.hidden", false), "/v/.hidden.squeeze-backup.mp4");
}

#[test]
fn stems() {
    assert_eq!(stem("/v/archive.tar.gz", false), "archive.tar");
    assert_eq!(stem("/v/.bashrc", false), ".bashrc");
    assert_eq!(stem("/v/clip.", false), "clip");
    assert_eq!(stem("/", false), "video");
    assert_eq!(stem("", false), "video");
    assert_eq!(stem("/v/..", false), "video");
}

#[test]
fn numbered_alternatives() {
    assert_eq!(squeezed_candidate("/v/clip.mov", 2, false), "/v/clip-squeezed-2.mp4");
    assert_eq!(squeezed_candidate("/v/clip.mov", 9999, false), "/v/clip-squeezed-9999.mp4");
}

#[test]
fn fallback_has_a_random_name() {
    let a = squeezed_fallback("/v/clip.mov", false);
    let b = squeezed_fallback("/v/clip.mov", false);
    assert!(a.starts_with("/v/clip-squeezed-"));
    assert!(a.ends_with(".mp4"));
    assert_eq!(a.len(), "/v/clip-squeezed-".len() + 36 + ".mp4".len());
    assert_ne!(a, b);
}

#[test]
fn free_name_search_steps() {
    assert_eq!(unique_candidate(r"C:\vids\clip.mov", 1, true), r"C:\vids\clip-squeezed.mp4");
    assert_eq!(unique_candidate(r"C:\vids\clip.mov", 3, true), r"C:\vids\clip-squeezed-3.mp4");
    match next_unique_name("/v/clip.mov", 1, false, false) {
        NameStep::Use(p) => assert_eq!(p, "/v/clip-squeezed.mp4"),
        _ => panic!("a free name is used"),
    }
    match next_unique_name("/v/clip.mov", 1, true, false) {
        NameStep::Check { n, path } => {
            assert_eq!(n, 2);
            assert_eq!(path, "/v/clip-squeezed-2.mp4");
        }
        _ => panic!("a taken name leads on"),
    }
    match next_unique_name("/v/clip.mov", 7, false, false) {
        NameStep::Use(p) => assert_eq!(p, "/v/clip-squeezed-7.mp4"),
        _ => panic!("a free name is used"),
    }
    match next_unique_name("/v/clip.mov", LAST_NUMBERED_NAME, true, false) {
        NameStep::Use(p) => {
            assert!(p.starts_with("/v/clip-squeezed-"));
            assert_eq!(p.len(), "/v/clip-squeezed-".len() + 36 + ".mp4".len());
        }
        _ => panic!("after the last number a random name is used"),
    }
}

#[test]
fn written_files_are_never_sources() {
    for windows in [false, true] {
        for input in ["/v/clip.mov", r"C:\vids\Holiday.MKV", "/v/noext", "/", "x/.."] {
            assert!(!is_source_video(&temp_path(input, windows), windows));
            assert!(!is_source_video(&beside_original(input, windows), windows));
            assert!(!is_source_video(&squeezed_candidate(input, 2, windows), windows));
            assert!(!is_source_video(&squeezed_candidate(input, 9999, windows), windows));
            assert!(!is_source_video(&squeezed_fallback(input, windows), windows));
            assert!(!is_source_video(&backup_path(input, windows), windows));
        }
    }
    assert!(is_source_video("/v/clip.mov", false));
}

#[test]
fn numbered_names_go_to_the_parent() {
    assert_eq!(squeezed_candidate("/", 2, false), "./video-squeezed-2.mp4");
    assert_eq!(squeezed_candidate("", 2, false), "./video-squeezed-2.mp4");
    assert_eq!(squeezed_candidate("x/..", 2, false), "x/video-squeezed-2.mp4");
    assert_eq!(squeezed_candidate("..", 3, false), "video-squeezed-3.mp4");
    assert_eq!(squeezed_candidate("clip.mov", 2, false), "clip-squeezed-2.mp4");
    assert_eq!(squeezed_candidate(r"C:\vids\clip.mov", 2, true), r"C:\vids\clip-squeezed-2.mp4");
    assert_eq!(squeezed_candidate("/", 2, true), r".\video-squeezed-2.mp4");
}

#[test]
fn separators_follow_the_platform() {
    // a backslash is part of a Unix file name
    assert_eq!(beside_original(r"/v/a\b.mov", false), r"/v/a\b-squeezed.mp4");
    assert_eq!(beside_original(r"/v/a\b.mov", true), r"/v/a\b-squeezed.mp4");
    assert_eq!(stem(r"/v/a\b.mov", false), r"a\b");
    assert_eq!(stem(r"/v/a\b.mov", true), "b");
    // a pushed name is joined with the platform's separator
    assert_eq!(beside_original("C:/vids/clip.mov", true), r"C:/vids\clip-squeezed.mp4");
    assert_eq!(backup_path("/v/clip.mov", false), "/v/clip.squeeze-backup.mov");
}

#[test]
fn windows_prefixes() {
    // a UNC share with a file, and one without
    assert_eq!(beside_original(r"\\server\share\clip.mov", true), r"\\server\share\clip-squeezed.mp4");
    assert_eq!(stem(r"\\server\share", true), "video");
    assert_eq!(beside_original(r"\\server\share", true), r"\\server\share\video-squeezed.mp4");
    assert!(!is_source_video(r"\\server\share", true));
    // a drive-relative path keeps its drive without a separator
    assert_eq!(beside_original("C:clip.mov", true), "C:clip-squeezed.mp4");
    assert_eq!(temp_path(r"C:\clip.mov", true), r"C:\clip.tmp-compressed.mp4");
    assert_eq!(squeezed_candidate("C:", 2, true), r".\video-squeezed-2.mp4");
    assert_eq!(squeezed_candidate("C:clip.mov", 2, true), "C:clip-squeezed-2.mp4");
    // in a verbatim path only `\` separates
    assert_eq!(stem(r"\\?\C:\x\a/b.mov", true), "a/b");
    assert_eq!(beside_original(r"\\?\C:\x/\a.mov", true), r"\\?\C:\x/\a-squeezed.mp4");
    assert_eq!(stem(r"\\?\UNC\server\share", true), "video");
    // where `.` is a component of its own
    assert_eq!(stem(r"\\?\C:\a\.", true), "video");
    assert_eq!(stem(r"C:\a\.", true), "a");
    assert_eq!(beside_original(r"\\?\C:\a\.\b.mov", true), r"\\?\C:\a\.\b-squeezed.mp4");
    assert_eq!(squeezed_candidate(r"\\?\C:\a\.", 2, true), r"\\?\C:\a\video-squeezed-2.mp4");
    assert_eq!(stem(r"\\.\device", true), "video");
    // on Unix none of this is a prefix
    assert_eq!(stem("C:clip.mov", false), "C:clip");
}

#[test]
fn drive_paths_keep_their_outputs_apart() {
    for input in [r"C:\clips\a.mov", "C:a.mov", r"C:\a.mp4", "D:"] {
        let t = temp_path(input, true);
        let b = beside_original(input, true);
        let k = backup_path(input, true);
        let c = squeezed_candidate(input, 2, true);
        for x in [&t, &b, &k, &c] {
            assert_ne!(x.as_str(), input);
            assert!(!is_source_video(x, true));
        }
        assert_ne!(t, b);
        assert_ne!(t, k);
        assert_ne!(b, k);
        assert_ne!(c, b);
    }
}

#[test]
fn share_and_device_paths_keep_their_outputs_apart() {
    for input in [r"\\server\share\clips\a.mov", r"\\server\share", r"\\.\", r"\\.\dev\a.mov", r"\\srv\sh\.."] {
        let t = temp_path(input, true);
        let b = beside_original(input, true);
        let k = backup_path(input, true);
        let c = squeezed_candidate(input, 2, true);
        let f = squeezed_fallback(input, true);
        let r = replace_final_path(input, true);
        for x in [&t, &b, &k, &c, &f] {
            assert_ne!(x.as_str(), input);
            assert_ne!(x, &r);
            assert!(!is_source_video(x, true));
        }
        assert_ne!(t, b);
        assert_ne!(t, k);
        assert_ne!(b, k);
        assert_ne!(c, t);
        assert_ne!(c, b);
        assert_ne!(c, k);
        assert_ne!(f, c);
    }
    // a device prefix with nothing after it takes in the new name as well
    assert_eq!(beside_original(r"\\.\", true), r"\\.\video-squeezed.mp4");
    assert_eq!(temp_path(r"\\server\share\a.mov", true), r"\\server\share\a.tmp-compressed.mp4");
}

#[test]
fn verbatim_paths_keep_their_outputs_apart() {
    for input in [r"\\?\C:\clips\a.mov", r"\\?\C:\x/\a.mov", r"\\?\UNC\srv\sh\a/b.mov", r"\\?\C:\"] {
        let t = temp_path(input, true);
        let b = beside_original(input, true);
        let k = backup_path(input, true);
        let c = squeezed_candidate(input, 2, true);
        let f = squeezed_fallback(input, true);
        let r = replace_final_path(input, true);
        for x in [&t, &b, &k, &c, &f] {
            assert_ne!(x.as_str(), input);
            assert_ne!(x, &r);
            assert!(!is_source_video(x, true));
        }
        assert_ne!(t, b);
        assert_ne!(t, k);
        assert_ne!(b, k);
        assert_ne!(c, t);
        assert_ne!(c, b);
        assert_ne!(c, k);
        assert_ne!(f, c);
    }
    assert_eq!(temp_path(r"\\?\UNC\srv\sh\a.mov", true), r"\\?\UNC\srv\sh\a.tmp-compressed.mp4");
}
