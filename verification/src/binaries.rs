//! Where the bundled ffmpeg and ffprobe sidecars are looked for, and what is
//! reported when they are missing. The host platform is passed in; the
//! caller checks which candidate files exist.
use vstd::prelude::*;
use vstd::string::*;
use crate::error::AppError;
use crate::paths::{
    append_chars, head, head_exec, is_sep, is_sep_char, join_name, join_name_exec, lemma_head_bounds,
    slice_chars,
};
use crate::text::{chars_of, string_of};
use crate::text::{same_text, text};

verus! {

/// The operating system the program runs on.
#[derive(Debug, Clone, Copy, PartialEq, Eq, Structural)]
pub enum HostOs {
    Windows,
    Linux,
    MacOs,
    Other,
}

/// The processor architecture the program runs on.
#[derive(Debug, Clone, Copy, PartialEq, Eq, Structural)]
pub enum HostArch {
    X86_64,
    Aarch64,
    Other,
}

#[derive(Debug, Clone, Copy, PartialEq, Eq, Structural)]
pub struct Platform {
    pub os: HostOs,
    pub arch: HostArch,
}

/// Host triple used in the sidecar file names, where sidecars are built for
/// the platform.
pub open spec fn triple_spec(p: Platform) -> Option<Seq<char>> {
    match (p.os, p.arch) {
        (HostOs::Windows, HostArch::X86_64) => Some("x86_64-pc-windows-msvc"@),
        (HostOs::Linux, HostArch::X86_64) => Some("x86_64-unknown-linux-gnu"@),
        (HostOs::MacOs, HostArch::Aarch64) => Some("aarch64-apple-darwin"@),
        (HostOs::MacOs, HostArch::X86_64) => Some("x86_64-apple-darwin"@),
        _ => None,
    }
}

/// The host triple of the sidecars built for the platform, if any.
pub fn target_triple(p: Platform) -> (r: Option<&'static str>)
    ensures
        match r {
            Some(t) => triple_spec(p) == Some(t@),
            None => triple_spec(p) is None,
        },
{
    match (p.os, p.arch) {
        (HostOs::Windows, HostArch::X86_64) => Some("x86_64-pc-windows-msvc"),
        (HostOs::Linux, HostArch::X86_64) => Some("x86_64-unknown-linux-gnu"),
        (HostOs::MacOs, HostArch::Aarch64) => Some("aarch64-apple-darwin"),
        (HostOs::MacOs, HostArch::X86_64) => Some("x86_64-apple-darwin"),
        _ => None,
    }
}

pub open spec fn is_windows(p: Platform) -> bool {
    p.os == HostOs::Windows
}

/// The installed name of a tool: `{tool}.exe` on Windows, `{tool}` elsewhere.
pub open spec fn tool_file_name_spec(p: Platform, tool: Seq<char>) -> Seq<char> {
    if is_windows(p) {
        tool + ".exe"@
    } else {
        tool
    }
}

/// The name of a tool as built for the platform: `{tool}-{triple}`, with
/// `.exe` on Windows.
pub open spec fn sidecar_file_name_spec(p: Platform, tool: Seq<char>) -> Option<Seq<char>> {
    match triple_spec(p) {
        Some(t) => Some(
            if is_windows(p) {
                tool + "-"@ + t + ".exe"@
            } else {
                tool + "-"@ + t
            },
        ),
        None => None,
    }
}

/// `dir` joined with a file name (`Path::join`): a name with a Windows
/// prefix, or with a root elsewhere than on Windows, stands alone; on
/// Windows a rooted name keeps the folder's prefix; any other name is
/// joined with the platform's separator, unless the folder is empty, a bare
/// drive or already ends with a separator.
pub open spec fn join_spec(p: Platform, dir: Seq<char>, name: Seq<char>) -> Seq<char> {
    let w = is_windows(p);
    if head(name, w) > 0 || (!w && name.len() > 0 && name[0] == '/') {
        name
    } else if w && name.len() > 0 && is_sep(name[0], w) {
        dir.subrange(0, head(dir, w)) + name
    } else {
        join_name(dir, name, w)
    }
}

/// The installed file name of a tool.
pub fn tool_file_name(p: Platform, tool: &str) -> (r: String)
    ensures
        r@ == tool_file_name_spec(p, tool@),
{
    let mut r = String::from_str(tool);
    if let HostOs::Windows = p.os {
        r.append(".exe");
    }
    r
}

/// The triple-suffixed file name of a tool, where the platform has sidecars.
pub fn sidecar_file_name(p: Platform, tool: &str) -> (r: Option<String>)
    ensures
        match r {
            Some(s) => sidecar_file_name_spec(p, tool@) == Some(s@),
            None => sidecar_file_name_spec(p, tool@) is None,
        },
{
    let triple = target_triple(p)?;
    let mut r = String::from_str(tool);
    r.append("-");
    r.append(triple);
    if let HostOs::Windows = p.os {
        r.append(".exe");
    }
    Some(r)
}

/// `dir` joined with `name`.
pub fn join(p: Platform, dir: &str, name: &str) -> (r: String)
    ensures
        r@ == join_spec(p, dir@, name@),
{
    let w = match p.os {
        HostOs::Windows => true,
        _ => false,
    };
    let d = chars_of(dir);
    let n = chars_of(name);
    let hn: usize = head_exec(&n, w);
    if hn > 0 || (!w && n.len() > 0 && n[0] == '/') {
        return text(name);
    }
    if w && n.len() > 0 && is_sep_char(n[0], w) {
        let hd: usize = head_exec(&d, w);
        proof {
            lemma_head_bounds(d@, w);
        }
        let mut r = slice_chars(&d, 0, hd);
        append_chars(&mut r, &n);
        return string_of(&r);
    }
    string_of(&join_name_exec(&d, &n, w))
}

/// The candidate paths for a tool in one folder: the installed name, then
/// the triple-suffixed name where the platform has sidecars.
pub open spec fn candidates_in_spec(p: Platform, dir: Seq<char>, tool: Seq<char>) -> Seq<
    Seq<char>,
> {
    let first = seq![join_spec(p, dir, tool_file_name_spec(p, tool))];
    match sidecar_file_name_spec(p, tool) {
        Some(s) => first.push(join_spec(p, dir, s)),
        None => first,
    }
}

pub open spec fn texts_of(v: Vec<String>) -> Seq<Seq<char>> {
    v@.map_values(|s: String| s@)
}

/// The candidate paths for a tool in one folder.
pub fn candidates_in(p: Platform, dir: &str, tool: &str) -> (r: Vec<String>)
    ensures
        texts_of(r) == candidates_in_spec(p, dir@, tool@),
{
    let mut out: Vec<String> = Vec::new();
    // Bundled beside the app: the installer strips the target triple.
    let installed = tool_file_name(p, tool);
    out.push(join(p, dir, installed.as_str()));
    // Dev / pre-copy: triple-suffixed name from setup / CI artifacts.
    match sidecar_file_name(p, tool) {
        Some(sidecar) => {
            out.push(join(p, dir, sidecar.as_str()));
        },
        None => {},
    }
    assert(texts_of(out) =~= candidates_in_spec(p, dir@, tool@));
    out
}

/// Every place a sidecar is looked for, in order: beside the running
/// executable (where its folder is known), then the development
/// `binaries` folder. Nothing where the platform has no sidecars.
pub open spec fn search_paths_spec(
    p: Platform,
    exe_dir: Option<Seq<char>>,
    binaries_dir: Seq<char>,
    tool: Seq<char>,
) -> Seq<Seq<char>> {
    if triple_spec(p) is None {
        Seq::empty()
    } else {
        match exe_dir {
            Some(d) => candidates_in_spec(p, d, tool) + candidates_in_spec(p, binaries_dir, tool),
            None => candidates_in_spec(p, binaries_dir, tool),
        }
    }
}

/// Every place a sidecar is looked for, in order.
pub fn sidecar_search_paths(
    p: Platform,
    exe_dir: Option<&str>,
    binaries_dir: &str,
    tool: &str,
) -> (r: Vec<String>)
    ensures
        texts_of(r) == search_paths_spec(
            p,
            match exe_dir {
                Some(d) => Some(d@),
                None => None,
            },
            binaries_dir@,
            tool@,
        ),
{
    if target_triple(p).is_none() {
        let r: Vec<String> = Vec::new();
        assert(texts_of(r) =~= Seq::<Seq<char>>::empty());
        return r;
    }
    let mut out: Vec<String> = Vec::new();
    match exe_dir {
        Some(d) => {
            out = candidates_in(p, d, tool);
        },
        None => {},
    }
    let ghost first = texts_of(out);
    let mut rest = candidates_in(p, binaries_dir, tool);
    let ghost second = texts_of(rest);
    out.append(&mut rest);
    assert(texts_of(out) =~= first + second);
    out
}

/// Index of the first candidate marked as existing, or -1. Candidates past
/// the end of `exists` count as missing.
pub open spec fn first_existing_index(exists: Seq<bool>, n: nat, k: int) -> int
    decreases n - k,
{
    if k < 0 || k >= n || k >= exists.len() {
        -1
    } else if exists[k] {
        k
    } else {
        first_existing_index(exists, n, k + 1)
    }
}

/// The first candidate that exists on disk.
pub fn first_existing(candidates: &Vec<String>, exists: &Vec<bool>) -> (r: Option<String>)
    ensures
        ({
            let k = first_existing_index(exists@, candidates.len() as nat, 0);
            if k < 0 {
                r is None
            } else {
                r matches Some(s) && s@ == candidates[k]@
            }
        }),
{
    let mut k: usize = 0;
    while k < candidates.len() && k < exists.len()
        invariant
            first_existing_index(exists@, candidates.len() as nat, k as int)
                == first_existing_index(exists@, candidates.len() as nat, 0),
        decreases candidates.len() - k,
    {
        if exists[k] {
            return Some(candidates[k].clone());
        }
        k = k + 1;
    }
    None
}

/// The error for a missing tool: ffprobe has its own, every other name is
/// ffmpeg's.
pub open spec fn missing_tool_error(tool: Seq<char>) -> AppError {
    if tool == "ffprobe"@ {
        AppError::FfprobeNotFound
    } else {
        AppError::FfmpegNotFound
    }
}

/// Resolves a bundled sidecar from the result of the search (never falls
/// back to PATH): unsupported platforms are refused first.
pub fn resolve(p: Platform, tool: &str, found: Option<String>) -> (r: Result<String, AppError>)
    ensures
        triple_spec(p) is None ==> r == Err::<String, AppError>(AppError::UnsupportedPlatform),
        triple_spec(p) is Some ==> match found {
            Some(f) => r == Ok::<String, AppError>(f),
            None => r == Err::<String, AppError>(missing_tool_error(tool@)),
        },
{
    if target_triple(p).is_none() {
        return Err(AppError::UnsupportedPlatform);
    }
    match found {
        Some(f) => Ok(f),
        None => {
            if same_text(tool, "ffprobe") {
                Err(AppError::FfprobeNotFound)
            } else {
                Err(AppError::FfmpegNotFound)
            }
        },
    }
}

/// Both sidecars must be present: ffmpeg is checked first, then ffprobe.
pub fn ensure(p: Platform, ffmpeg_found: Option<String>, ffprobe_found: Option<String>) -> (r:
    Result<(), AppError>)
    ensures
        triple_spec(p) is None ==> r == Err::<(), AppError>(AppError::UnsupportedPlatform),
        triple_spec(p) is Some ==> r == (if ffmpeg_found is None {
            Err::<(), AppError>(AppError::FfmpegNotFound)
        } else if ffprobe_found is None {
            Err::<(), AppError>(AppError::FfprobeNotFound)
        } else {
            Ok::<(), AppError>(())
        }),
{
    proof {
        reveal_strlit("ffmpeg");
        reveal_strlit("ffprobe");
        assert("ffmpeg"@.len() == 6);
        assert("ffprobe"@.len() == 7);
        assert("ffmpeg"@ != "ffprobe"@);
    }
    match resolve(p, "ffmpeg", ffmpeg_found) {
        Err(e) => {
            return Err(e);
        },
        Ok(_) => {},
    }
    match resolve(p, "ffprobe", ffprobe_found) {
        Err(e) => Err(e),
        Ok(_) => Ok(()),
    }
}

/// Where ffprobe is looked for during development: `{manifest_dir}/binaries/{name}`.
pub fn ffprobe_bundled_path(p: Platform, manifest_dir: &str) -> (r: String)
    ensures
        r@ == join_spec(p, join_spec(p, manifest_dir@, "binaries"@), tool_file_name_spec(p, "ffprobe"@)),
{
    let dir = join(p, manifest_dir, "binaries");
    let name = tool_file_name(p, "ffprobe");
    join(p, dir.as_str(), name.as_str())
}

/// The ffprobe to run: the bundled one where it exists, else the bare name
/// (found on PATH).
pub fn resolve_ffprobe(p: Platform, manifest_dir: &str, bundled_exists: bool) -> (r: String)
    ensures
        r@ == (if bundled_exists {
            join_spec(p, join_spec(p, manifest_dir@, "binaries"@), tool_file_name_spec(p, "ffprobe"@))
        } else {
            tool_file_name_spec(p, "ffprobe"@)
        }),
{
    if bundled_exists {
        ffprobe_bundled_path(p, manifest_dir)
    } else {
        tool_file_name(p, "ffprobe")
    }
}

} // verus!
