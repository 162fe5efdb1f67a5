//! What the user interface's commands decide: queueing one file, and what a
//! drop (or pick) of files and folders adds to the queue.
use vstd::prelude::*;
use crate::discovery::{is_source_video_spec, is_supported_video};
use crate::error::AppError;
use crate::jobs::{
    fresh_inputs, grown_by, index_of, is_uuid_text, paths_of, queued_view, texts, EntryView,
    JobManager,
};
use crate::models::{
    opt_text, CompressionJob, DropIngestResult, JobKind, JobStatus, OutputMode, TrimSpan,
};
use crate::text::{chars_of, string_of, text};

verus! {

pub open spec fn output_mode_spec(replace: bool) -> OutputMode {
    if replace {
        OutputMode::Replace
    } else {
        OutputMode::CopyBeside
    }
}

/// Replacing the original, or writing a copy beside it.
pub fn output_mode(replace: bool) -> (r: OutputMode)
    ensures
        r == output_mode_spec(replace),
{
    if replace {
        OutputMode::Replace
    } else {
        OutputMode::CopyBeside
    }
}

/// Characters that cannot stand in a file name on some system: the path
/// separators, `<>:"|?*` and control characters.
pub open spec fn unsafe_name_char(c: char) -> bool {
    ||| c == '/'
    ||| c == '\\'
    ||| c == '<'
    ||| c == '>'
    ||| c == ':'
    ||| c == '"'
    ||| c == '|'
    ||| c == '?'
    ||| c == '*'
    ||| c < ' '
}

pub open spec fn is_edge_junk(c: char) -> bool {
    c == ' ' || c == '.'
}

/// `s` without its unsafe characters.
pub open spec fn drop_unsafe(s: Seq<char>) -> Seq<char>
    decreases s.len(),
{
    if s.len() == 0 {
        s
    } else if unsafe_name_char(s.last()) {
        drop_unsafe(s.drop_last())
    } else {
        drop_unsafe(s.drop_last()).push(s.last())
    }
}

/// Index of the first character of `s` at or after `k` that is not a space
/// or a dot (`s.len()` where there is none).
pub open spec fn first_kept(s: Seq<char>, k: int) -> int
    decreases s.len() - k,
{
    if k < 0 || k >= s.len() {
        s.len() as int
    } else if is_edge_junk(s[k]) {
        first_kept(s, k + 1)
    } else {
        k
    }
}

/// Length of `s[0..n]` once trailing spaces and dots are dropped.
pub open spec fn kept_end(s: Seq<char>, n: int) -> int
    decreases n,
{
    if n <= 0 {
        0
    } else if is_edge_junk(s[n - 1]) {
        kept_end(s, n - 1)
    } else {
        n
    }
}

/// A stem chosen by the user, made safe as a file name: unsafe characters
/// dropped, then spaces and dots trimmed from both ends.
pub open spec fn sanitize_stem_spec(name: Seq<char>) -> Seq<char> {
    let d = drop_unsafe(name);
    let a = first_kept(d, 0);
    let b = kept_end(d, d.len() as int);
    if a < b {
        d.subrange(a, b)
    } else {
        Seq::empty()
    }
}

proof fn lemma_first_kept(s: Seq<char>, k: int)
    requires
        0 <= k <= s.len(),
    ensures
        k <= first_kept(s, k) <= s.len(),
        first_kept(s, k) < s.len() ==> !is_edge_junk(s[first_kept(s, k)]),
    decreases s.len() - k,
{
    if k < s.len() && is_edge_junk(s[k]) {
        lemma_first_kept(s, k + 1);
    }
}

proof fn lemma_kept_end(s: Seq<char>, n: int)
    requires
        0 <= n <= s.len(),
    ensures
        0 <= kept_end(s, n) <= n,
        kept_end(s, n) > 0 ==> !is_edge_junk(s[kept_end(s, n) - 1]),
    decreases n,
{
    if n > 0 && is_edge_junk(s[n - 1]) {
        lemma_kept_end(s, n - 1);
    }
}

/// A stem chosen by the user, made safe as a file name.
pub fn sanitize_stem(name: &str) -> (r: String)
    ensures
        r@ == sanitize_stem_spec(name@),
{
    let v = chars_of(name);
    let mut d: Vec<char> = Vec::new();
    let mut i: usize = 0;
    while i < v.len()
        invariant
            i <= v.len(),
            d@ == drop_unsafe(v@.subrange(0, i as int)),
        decreases v.len() - i,
    {
        let c = v[i];
        let bad = c == '/' || c == '\\' || c == '<' || c == '>' || c == ':' || c == '"' || c
            == '|' || c == '?' || c == '*' || c < ' ';
        assert(v@.subrange(0, i + 1).drop_last() =~= v@.subrange(0, i as int));
        assert(v@.subrange(0, i + 1).last() == c);
        if !bad {
            d.push(c);
        }
        i = i + 1;
    }
    assert(v@.subrange(0, v.len() as int) == v@);
    let mut a: usize = 0;
    while a < d.len() && (d[a] == ' ' || d[a] == '.')
        invariant
            a <= d.len(),
            first_kept(d@, a as int) == first_kept(d@, 0),
        decreases d.len() - a,
    {
        a = a + 1;
    }
    let mut b: usize = d.len();
    while b > 0 && (d[b - 1] == ' ' || d[b - 1] == '.')
        invariant
            b <= d.len(),
            kept_end(d@, b as int) == kept_end(d@, d.len() as int),
        decreases b,
    {
        b = b - 1;
    }
    let mut r: Vec<char> = Vec::new();
    if a < b {
        let mut k: usize = a;
        while k < b
            invariant
                a <= k <= b <= d.len(),
                r@ == d@.subrange(a as int, k as int),
            decreases b - k,
        {
            r.push(d[k]);
            k = k + 1;
        }
    } else {
        assert(r@ =~= Seq::<char>::empty());
    }
    string_of(&r)
}

/// The output name the user typed, made safe; nothing where nothing is left.
pub fn clean_output_name(name: Option<String>) -> (r: Option<String>)
    ensures
        match name {
            None => r is None,
            Some(n) => if sanitize_stem_spec(n@).len() == 0 {
                r is None
            } else {
                r matches Some(c) && c@ == sanitize_stem_spec(n@)
            },
        },
{
    match name {
        None => None,
        Some(n) => {
            let c = sanitize_stem(n.as_str());
            if c.as_str().unicode_len() == 0 {
                None
            } else {
                Some(c)
            }
        },
    }
}

/// Queues one file from the trim preview: the input must exist, and a trim
/// job needs a range.
pub fn enqueue_job(
    queue: &mut JobManager,
    path: String,
    path_exists: bool,
    replace: bool,
    trim: Option<TrimSpan>,
    kind: JobKind,
    output_name: Option<String>,
) -> (r: Result<CompressionJob, AppError>)
    ensures
        !path_exists ==> r == Err::<CompressionJob, AppError>(AppError::InputNotFound(path))
            && final(queue)@ == old(queue)@,
        path_exists && kind == JobKind::Trim && trim is None ==> r == Err::<
            CompressionJob,
            AppError,
        >(AppError::InvalidTrimRange) && final(queue)@ == old(queue)@,
        path_exists && !(kind == JobKind::Trim && trim is None) ==> (r matches Ok(j) && is_uuid_text(
            j.id@,
        ) && (match output_name {
            None => j.output_name is None,
            Some(n) => if sanitize_stem_spec(n@).len() == 0 {
                j.output_name is None
            } else {
                j.output_name matches Some(c) && c@ == sanitize_stem_spec(n@)
            },
        }) && j@ == queued_view(
            j.id@,
            path@,
            output_mode_spec(replace),
            trim,
            kind,
            opt_text(j.output_name),
        ) && final(queue)@ == old(queue)@.push(EntryView { job: j@, cancel_requested: false })),
{
    if !path_exists {
        return Err(AppError::InputNotFound(path));
    }
    if let JobKind::Trim = kind {
        if trim.is_none() {
            return Err(AppError::InvalidTrimRange);
        }
    }
    let name = clean_output_name(output_name);
    Ok(queue.enqueue(path, output_mode(replace), trim, kind, name))
}

/// Retries a failed or cancelled job; any other job (or none) cannot be
/// retried.
pub fn retry_job(queue: &mut JobManager, job_id: &str) -> (r: Result<CompressionJob, AppError>)
    ensures
        ({
            let s = old(queue)@;
            let i = index_of(s, job_id@);
            if i < 0 || !(s[i].job.status == JobStatus::Failed || s[i].job.status
                == JobStatus::Cancelled) {
                (r matches Err(AppError::Io(m)) && m@ == "cant retry that job"@) && final(queue)@ == s
            } else {
                r matches Ok(j) && is_uuid_text(j.id@) && j@ == queued_view(
                    j.id@,
                    s[i].job.input_path,
                    s[i].job.output_mode,
                    s[i].job.trim,
                    s[i].job.kind,
                    s[i].job.output_name,
                ) && final(queue)@ == s.push(EntryView { job: j@, cancel_requested: false })
            }
        }),
{
    match queue.retry(job_id) {
        Some(j) => Ok(j),
        None => Err(AppError::Io(text("cant retry that job"))),
    }
}

/// One dropped path. `folder` is present exactly when the path is a folder,
/// and holds what `discover_videos` found in it (with the drop's recursive
/// setting), or why that failed.
pub struct DropPath {
    pub path: String,
    pub folder: Option<Result<Vec<String>, AppError>>,
}

/// The inputs a dropped path offers to the queue: a folder's videos, or the
/// file itself where it is a supported video.
pub open spec fn contribution(d: DropPath, windows: bool) -> Seq<Seq<char>> {
    match d.folder {
        Some(Ok(vs)) => texts(vs),
        Some(Err(_)) => Seq::empty(),
        None => if is_source_video_spec(d.path@, windows) {
            seq![d.path@]
        } else {
            Seq::empty()
        },
    }
}

pub open spec fn attempts(ds: Seq<DropPath>, windows: bool) -> Seq<Seq<char>>
    decreases ds.len(),
{
    if ds.len() == 0 {
        Seq::empty()
    } else {
        attempts(ds.drop_last(), windows) + contribution(ds.last(), windows)
    }
}

/// The dropped folders, in order.
pub open spec fn roots(ds: Seq<DropPath>) -> Seq<Seq<char>>
    decreases ds.len(),
{
    if ds.len() == 0 {
        Seq::empty()
    } else if ds.last().folder is Some {
        roots(ds.drop_last()).push(ds.last().path@)
    } else {
        roots(ds.drop_last())
    }
}

/// The last dropped file that is a supported video.
pub open spec fn last_video(ds: Seq<DropPath>, windows: bool) -> Option<Seq<char>>
    decreases ds.len(),
{
    if ds.len() == 0 {
        None
    } else if ds.last().folder is None && is_source_video_spec(ds.last().path@, windows) {
        Some(ds.last().path@)
    } else {
        last_video(ds.drop_last(), windows)
    }
}

/// Index of the first folder at or after `k` that could not be read, or -1.
pub open spec fn first_error(ds: Seq<DropPath>, k: int) -> int
    decreases ds.len() - k,
{
    if k < 0 || k >= ds.len() {
        -1
    } else if ds[k].folder matches Some(Err(_)) {
        k
    } else {
        first_error(ds, k + 1)
    }
}

pub open spec fn folder_error(d: DropPath) -> AppError {
    match d.folder {
        Some(Err(e)) => e,
        _ => AppError::Cancelled,
    }
}

/// The result of a drop, by its parts.
pub open spec fn ingest_result_is(
    r: Result<DropIngestResult, AppError>,
    added: nat,
    preview: Option<Seq<char>>,
    folder_roots: Seq<Seq<char>>,
) -> bool {
    r matches Ok(res) && res.jobs_added == added && opt_text(res.preview_path) == preview && texts(
        res.folder_roots,
    ) == folder_roots
}

pub open spec fn invalid_video_is(r: Result<DropIngestResult, AppError>, m: Seq<char>) -> bool {
    r matches Err(AppError::InvalidVideo(t)) && t@ == m
}

fn push_all(acc: &mut Vec<String>, vs: &Vec<String>)
    ensures
        texts(*final(acc)) == texts(*old(acc)) + texts(*vs),
{
    let ghost a0 = texts(*acc);
    let mut i: usize = 0;
    while i < vs.len()
        invariant
            i <= vs.len(),
            texts(*acc) == a0 + texts(*vs).subrange(0, i as int),
        decreases vs.len() - i,
    {
        let ghost before = *acc;
        acc.push(vs[i].clone());
        assert(texts(*acc) =~= texts(before).push(vs@[i as int]@));
        assert(texts(*vs).subrange(0, i + 1) =~= texts(*vs).subrange(0, i as int).push(vs@[i as int]@));
        assert(texts(*acc) =~= a0 + texts(*vs).subrange(0, i + 1));
        i = i + 1;
    }
    assert(texts(*vs).subrange(0, vs.len() as int) =~= texts(*vs));
}

fn one_text(s: &String) -> (r: Vec<String>)
    ensures
        texts(r) == seq![s@],
{
    let mut r = Vec::new();
    r.push(s.clone());
    assert(texts(r) =~= seq![s@]);
    r
}

/// What a drop of paths adds to the queue. The video engine must be ready
/// (`engine`, checked by the caller) and something must be dropped.
///
/// One folder queues its videos (none in a recursive search is an error;
/// none at the top level is kept as a root to expand later). One video
/// opens the trim preview instead of queueing. Several paths queue every
/// video among them and in their folders, skipping inputs already queued;
/// the preview opens only when no folder was dropped. `windows` tells
/// whether `\` separates path components.
pub fn ingest_paths(
    queue: &mut JobManager,
    drops: &Vec<DropPath>,
    recursive: bool,
    replace: bool,
    engine: Result<(), AppError>, windows: bool,
) -> (r: Result<DropIngestResult, AppError>)
    ensures
        ({
            let s = old(queue)@;
            let n = final(queue)@;
            let ds = drops@;
            let mode = output_mode_spec(replace);
            if engine is Err {
                r == Err::<DropIngestResult, AppError>(engine->Err_0) && n == s
            } else if ds.len() == 0 {
                invalid_video_is(r, "nothing was dropped"@) && n == s
            } else if ds.len() == 1 {
                let d = ds[0];
                match d.folder {
                    Some(Err(e)) => r == Err::<DropIngestResult, AppError>(e) && n == s,
                    Some(Ok(vs)) => if vs.len() == 0 {
                        n == s && if recursive {
                            invalid_video_is(r, "no supported videos in that folder"@)
                        } else {
                            ingest_result_is(r, 0, None, seq![d.path@])
                        }
                    } else {
                        let f = fresh_inputs(paths_of(s), texts(vs));
                        grown_by(s, n, f, mode) && ingest_result_is(r, f.len(), None, seq![d.path@])
                    },
                    None => n == s && if is_source_video_spec(d.path@, windows) {
                        ingest_result_is(r, 0, Some(d.path@), Seq::empty())
                    } else {
                        invalid_video_is(r, "that file isnt a supported video"@)
                    },
                }
            } else {
                let e = first_error(ds, 0);
                if e >= 0 {
                    r == Err::<DropIngestResult, AppError>(folder_error(ds[e])) && grown_by(
                        s,
                        n,
                        fresh_inputs(paths_of(s), attempts(ds.subrange(0, e), windows)),
                        mode,
                    )
                } else {
                    let f = fresh_inputs(paths_of(s), attempts(ds, windows));
                    let rs = roots(ds);
                    let lv = last_video(ds, windows);
                    grown_by(s, n, f, mode) && if f.len() == 0 && lv is None {
                        if rs.len() == 0 {
                            invalid_video_is(r, "no supported videos in that drop"@)
                        } else {
                            ingest_result_is(r, 0, None, rs)
                        }
                    } else {
                        ingest_result_is(
                            r,
                            f.len(),
                            if rs.len() > 0 {
                                None
                            } else {
                                lv
                            },
                            rs,
                        )
                    }
                }
            }
        }),
{
    match engine {
        Err(e) => {
            return Err(e);
        },
        Ok(_) => {},
    }
    if drops.len() == 0 {
        return Err(AppError::InvalidVideo(text("nothing was dropped")));
    }
    let mode = output_mode(replace);
    let ghost s = queue@;
    let ghost ds = drops@;
    if drops.len() == 1 {
        let only = &drops[0];
        match &only.folder {
            Some(Err(e)) => {
                return Err(e.clone());
            },
            Some(Ok(videos)) => {
                if videos.len() == 0 {
                    if recursive {
                        return Err(AppError::InvalidVideo(text("no supported videos in that folder")));
                    }
                    // keep the root so "include subfolders" can expand later
                    assert(grown_by(s, queue@, Seq::empty(), mode)) by {
                        assert(queue@.subrange(0, s.len() as int) =~= s);
                    }
                    return Ok(
                        DropIngestResult {
                            jobs_added: 0,
                            preview_path: None,
                            folder_roots: one_text(&only.path),
                        },
                    );
                }
                // folder batch: queue only, no trim preview
                let added: usize = queue.enqueue_all_new(videos, mode);
                return Ok(
                    DropIngestResult {
                        jobs_added: added,
                        preview_path: None,
                        folder_roots: one_text(&only.path),
                    },
                );
            },
            None => {
                if is_supported_video(only.path.as_str(), windows) {
                    let none: Vec<String> = Vec::new();
                    assert(texts(none) =~= Seq::<Seq<char>>::empty());
                    return Ok(
                        DropIngestResult {
                            jobs_added: 0,
                            preview_path: Some(only.path.clone()),
                            folder_roots: none,
                        },
                    );
                }
                return Err(AppError::InvalidVideo(text("that file isnt a supported video")));
            },
        }
    }
    let mut inputs: Vec<String> = Vec::new();
    let mut folder_roots: Vec<String> = Vec::new();
    let mut last: Option<String> = None;
    let mut i: usize = 0;
    assert(ds.subrange(0, 0) =~= Seq::<DropPath>::empty());
    assert(texts(inputs) =~= Seq::<Seq<char>>::empty());
    assert(texts(folder_roots) =~= Seq::<Seq<char>>::empty());
    while i < drops.len()
        invariant
            i <= drops.len(),
            ds == drops@,
            first_error(ds, i as int) == first_error(ds, 0),
            texts(inputs) == attempts(ds.subrange(0, i as int), windows),
            texts(folder_roots) == roots(ds.subrange(0, i as int)),
            opt_text(last) == last_video(ds.subrange(0, i as int), windows),
            queue@ == s,
            s == old(queue)@,
            drops.len() >= 2,
            engine is Ok,
            mode == output_mode_spec(replace),
        decreases drops.len() - i,
    {
        let ghost pre = ds.subrange(0, i as int);
        assert(ds.subrange(0, i + 1).drop_last() =~= pre);
        assert(ds.subrange(0, i + 1).last() == ds[i as int]);
        let d = &drops[i];
        match &d.folder {
            Some(Err(e)) => {
                assert(ds[i as int].folder == Some(Err::<Vec<String>, AppError>(*e)));
                assert(first_error(ds, i as int) == i);
                assert(folder_error(ds[i as int]) == *e);
                let _ = queue.enqueue_all_new(&inputs, mode);
                let err = e.clone();
                assert(err == folder_error(ds[first_error(ds, 0)]));
                assert(grown_by(
                    s,
                    queue@,
                    fresh_inputs(paths_of(s), attempts(ds.subrange(0, first_error(ds, 0)), windows)),
                    mode,
                ));
                return Err(err);
            },
            Some(Ok(videos)) => {
                folder_roots.push(d.path.clone());
                push_all(&mut inputs, videos);
                assert(texts(folder_roots) =~= roots(pre).push(d.path@));
            },
            None => {
                let ghost i0 = texts(inputs);
                if is_supported_video(d.path.as_str(), windows) {
                    last = Some(d.path.clone());
                    inputs.push(d.path.clone());
                    assert(texts(inputs) =~= i0 + seq![d.path@]);
                } else {
                    assert(i0 + Seq::<Seq<char>>::empty() =~= i0);
                }
            },
        }
        i = i + 1;
    }
    assert(ds.subrange(0, ds.len() as int) =~= ds);
    let added: usize = queue.enqueue_all_new(&inputs, mode);
    let has_roots = folder_roots.len() > 0;
    if added == 0 && last.is_none() {
        if !has_roots {
            return Err(AppError::InvalidVideo(text("no supported videos in that drop")));
        }
        // folder expand found nothing new: still fine
        return Ok(DropIngestResult { jobs_added: 0, preview_path: None, folder_roots });
    }
    // only open the trim preview for pure file drops, never for folder batches
    let preview = if has_roots {
        None
    } else {
        last
    };
    Ok(DropIngestResult { jobs_added: added, preview_path: preview, folder_roots })
}

} // verus!
