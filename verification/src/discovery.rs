//! Which files count as source videos, how paths are compared, and the
//! ordered list of videos found under a folder.
use vstd::prelude::*;
use crate::error::AppError;
use crate::paths::{
    extension, extension_exec, file_name, last_dot, lemma_last_dot_nodot, name_range_exec,
    slice_chars,
};
use crate::text::{
    ascii_lower, ascii_lower_char, ascii_lower_chars, ascii_lower_seq, chars_of, contains_chars,
    contains_seq, occurs_at, same_chars, string_of, text,
};

verus! {

/// The file extensions (lower case) that are picked up as videos.
pub open spec fn is_video_extension(ext: Seq<char>) -> bool {
    ||| ext == "mp4"@
    ||| ext == "mkv"@
    ||| ext == "mov"@
    ||| ext == "webm"@
    ||| ext == "avi"@
    ||| ext == "m4v"@
    ||| ext == "wmv"@
    ||| ext == "flv"@
}

/// The video extensions, in the order a file picker lists them.
pub open spec fn video_extension_list() -> Seq<Seq<char>> {
    seq!["mp4"@, "mkv"@, "mov"@, "webm"@, "avi"@, "m4v"@, "wmv"@, "flv"@]
}

/// The video extensions, in the order a file picker lists them.
pub fn video_extensions() -> (r: Vec<String>)
    ensures
        r.len() == video_extension_list().len(),
        forall|i: int| 0 <= i < r.len() ==> #[trigger] r[i]@ == video_extension_list()[i],
        forall|i: int| 0 <= i < r.len() ==> is_video_extension(#[trigger] r[i]@),
{
    let mut r: Vec<String> = Vec::new();
    r.push(text("mp4"));
    r.push(text("mkv"));
    r.push(text("mov"));
    r.push(text("webm"));
    r.push(text("avi"));
    r.push(text("m4v"));
    r.push(text("wmv"));
    r.push(text("flv"));
    r
}

fn is_video_extension_exec(ext: &Vec<char>) -> (r: bool)
    ensures
        r == is_video_extension(ext@),
{
    same_chars(ext, &chars_of("mp4")) || same_chars(ext, &chars_of("mkv")) || same_chars(
        ext,
        &chars_of("mov"),
    ) || same_chars(ext, &chars_of("webm")) || same_chars(ext, &chars_of("avi")) || same_chars(
        ext,
        &chars_of("m4v"),
    ) || same_chars(ext, &chars_of("wmv")) || same_chars(ext, &chars_of("flv"))
}

/// The character a path key holds in place of `c`.
pub open spec fn key_char(c: char) -> char {
    if c == '/' {
        '\\'
    } else {
        ascii_lower(c)
    }
}

/// The key two paths are compared by: `/` becomes `\` and ASCII letters
/// become lower case.
pub open spec fn path_key_spec(s: Seq<char>) -> Seq<char> {
    Seq::new(s.len(), |i: int| key_char(s[i]))
}

pub open spec fn same_path_spec(a: Seq<char>, b: Seq<char>) -> bool {
    path_key_spec(a) == path_key_spec(b)
}

/// Length of `s[0..n]` once trailing `/` and `\\` are dropped.
pub open spec fn trim_key_seps(s: Seq<char>, n: int) -> int
    decreases n,
{
    if n > 0 && (s[n - 1] == '/' || s[n - 1] == '\\') {
        trim_key_seps(s, n - 1)
    } else {
        n
    }
}

/// Whether `path` is `root` itself or lies below it, compared by path key;
/// separators at the end of `root` do not count.
pub open spec fn path_under_root_spec(path: Seq<char>, root: Seq<char>) -> bool {
    let p = path_key_spec(path);
    let r = path_key_spec(root);
    let n = trim_key_seps(r, r.len() as int);
    ||| p == r.subrange(0, n)
    ||| (n < p.len() && p.subrange(0, n) == r.subrange(0, n) && p[n] == '\\')
}

fn path_key_chars(s: &Vec<char>) -> (r: Vec<char>)
    ensures
        r@ == path_key_spec(s@),
{
    let mut r: Vec<char> = Vec::new();
    let mut i: usize = 0;
    while i < s.len()
        invariant
            i <= s.len(),
            r@ == path_key_spec(s@.subrange(0, i as int)),
        decreases s.len() - i,
    {
        let c = s[i];
        let k = if c == '/' {
            '\\'
        } else {
            ascii_lower_char(c)
        };
        r.push(k);
        i = i + 1;
        assert(r@ =~= path_key_spec(s@.subrange(0, i as int)));
    }
    assert(s@.subrange(0, s.len() as int) == s@);
    r
}

/// Compare paths in a Windows-tolerant way (slash + case).
pub fn path_key(path: &str) -> (r: String)
    ensures
        r@ == path_key_spec(path@),
{
    string_of(&path_key_chars(&chars_of(path)))
}

/// Whether two paths name the same file, by `path_key`.
pub fn same_path(a: &str, b: &str) -> (r: bool)
    ensures
        r == same_path_spec(a@, b@),
{
    same_chars(&path_key_chars(&chars_of(a)), &path_key_chars(&chars_of(b)))
}

/// Whether `path` is `root` or lies inside it.
pub fn path_under_root(path: &str, root: &str) -> (r: bool)
    ensures
        r == path_under_root_spec(path@, root@),
{
    let p = path_key_chars(&chars_of(path));
    let rk = path_key_chars(&chars_of(root));
    let mut n: usize = rk.len();
    while n > 0 && (rk[n - 1] == '/' || rk[n - 1] == '\\')
        invariant
            n <= rk.len(),
            trim_key_seps(rk@, n as int) == trim_key_seps(rk@, rk.len() as int),
        decreases n,
    {
        n = n - 1;
    }
    let head = slice_chars(&rk, 0, n);
    if same_chars(&p, &head) {
        return true;
    }
    if n < p.len() {
        let ph = slice_chars(&p, 0, n);
        same_chars(&ph, &head) && p[n] == '\\'
    } else {
        false
    }
}

/// Paths with the same key name the same file: the relation is reflexive,
/// symmetric and transitive, and a key is its own key.
pub proof fn law_same_path_is_equivalence(a: Seq<char>, b: Seq<char>, c: Seq<char>)
    ensures
        same_path_spec(a, a),
        same_path_spec(a, b) ==> same_path_spec(b, a),
        same_path_spec(a, b) && same_path_spec(b, c) ==> same_path_spec(a, c),
        path_key_spec(path_key_spec(a)) == path_key_spec(a),
        same_path_spec(a, path_key_spec(a)),
{
    let k = path_key_spec(a);
    assert forall|i: int| 0 <= i < k.len() implies #[trigger] path_key_spec(k)[i] == k[i] by {
        let c0 = a[i];
        if 'A' <= c0 && c0 <= 'Z' {
            assert(((c0 as int) + 32) as char >= 'a');
        }
    }
    assert(path_key_spec(k) =~= k);
}

/// Whether a path names a source video: its file name does not look like
/// one of the files this program writes (`.tmp-compressed.`, `-squeezed`,
/// `.squeeze-backup.`, compared in lower case), and its extension, in lower
/// case, is a video extension.
pub open spec fn is_source_video_spec(p: Seq<char>, windows: bool) -> bool {
    match (file_name(p, windows), extension(p, windows)) {
        (Some(name), Some(ext)) => {
            let n = ascii_lower_seq(name);
            &&& !contains_seq(n, ".tmp-compressed."@)
            &&& !contains_seq(n, "-squeezed"@)
            &&& !contains_seq(n, ".squeeze-backup."@)
            &&& is_video_extension(ascii_lower_seq(ext))
        },
        _ => false,
    }
}

/// A pattern holding a `-` occurs in no text without one.
proof fn lemma_no_dash_no_mark(n: Seq<char>, pat: Seq<char>, j: int)
    requires
        0 <= j < pat.len(),
        pat[j] == '-',
        forall|i: int| 0 <= i < n.len() ==> #[trigger] n[i] != '-',
    ensures
        !contains_seq(n, pat),
{
    assert forall|i: int| !occurs_at(n, pat, i) by {
        if occurs_at(n, pat, i) {
            assert(n.subrange(i, i + pat.len())[j] == n[i + j]);
        }
    }
}

/// Every extension the file picker offers is taken as a video: a file whose
/// name is a stem without dots or dashes (in any folder, on either
/// platform) followed by `.` and one of the listed extensions, in any mix
/// of upper and lower case, is a source video.
pub proof fn law_listed_extensions_are_sources(
    p: Seq<char>,
    stem: Seq<char>,
    x: Seq<char>,
    k: int,
    windows: bool,
)
    requires
        0 <= k < video_extension_list().len(),
        ascii_lower_seq(x) == video_extension_list()[k],
        stem.len() > 0,
        forall|i: int| 0 <= i < stem.len() ==> #[trigger] stem[i] != '.' && stem[i] != '-',
        file_name(p, windows) == Some(stem + "."@ + x),
    ensures
        is_source_video_spec(p, windows),
{
    reveal_strlit("mp4");
    reveal_strlit("mkv");
    reveal_strlit("mov");
    reveal_strlit("webm");
    reveal_strlit("avi");
    reveal_strlit("m4v");
    reveal_strlit("wmv");
    reveal_strlit("flv");
    reveal_strlit(".");
    reveal_strlit(".tmp-compressed.");
    reveal_strlit("-squeezed");
    reveal_strlit(".squeeze-backup.");
    let e = video_extension_list()[k];
    let a = stem.push('.');
    let name = stem + "."@ + x;
    assert(name =~= a + x);
    assert(x.len() == e.len());
    assert forall|i: int| 0 <= i < x.len() implies #[trigger] x[i] != '.' && x[i] != '-' by {
        assert(ascii_lower_seq(x)[i] == ascii_lower(x[i]));
        assert(e[i] != '.' && e[i] != '-');
    }
    lemma_last_dot_nodot(a, x);
    assert(last_dot(a, a.len() as int) == stem.len());
    let d = stem.len() as int;
    assert(name.subrange(d + 1, name.len() as int) =~= x);
    assert(extension(p, windows) == Some(x));
    let n = ascii_lower_seq(name);
    assert forall|i: int| 0 <= i < n.len() implies #[trigger] n[i] != '-' by {
        assert(n[i] == ascii_lower(name[i]));
        if i < stem.len() {
            assert(name[i] == stem[i]);
        } else if i > stem.len() {
            assert(name[i] == x[i - stem.len() - 1]);
        }
    }
    lemma_no_dash_no_mark(n, ".tmp-compressed."@, 4);
    lemma_no_dash_no_mark(n, "-squeezed"@, 0);
    lemma_no_dash_no_mark(n, ".squeeze-backup."@, 8);
}

/// Conversely, a source video's extension, in lower case, is one of those
/// the file picker offers.
pub proof fn law_sources_have_listed_extensions(p: Seq<char>, windows: bool)
    ensures
        is_source_video_spec(p, windows) ==> extension(p, windows) is Some && exists|k: int|
            0 <= k < video_extension_list().len() && ascii_lower_seq(extension(p, windows)->0)
                == #[trigger] video_extension_list()[k],
{
    if is_source_video_spec(p, windows) {
        let e = extension(p, windows)->0;
        let x = ascii_lower_seq(e);
        let l = video_extension_list();
        if x == "mp4"@ {
            assert(l[0] == x);
        } else if x == "mkv"@ {
            assert(l[1] == x);
        } else if x == "mov"@ {
            assert(l[2] == x);
        } else if x == "webm"@ {
            assert(l[3] == x);
        } else if x == "avi"@ {
            assert(l[4] == x);
        } else if x == "m4v"@ {
            assert(l[5] == x);
        } else if x == "wmv"@ {
            assert(l[6] == x);
        } else {
            assert(l[7] == x);
        }
    }
}

fn is_source_video_chars(p: &Vec<char>, windows: bool) -> (r: bool)
    ensures
        r == is_source_video_spec(p@, windows),
{
    let name = match name_range_exec(p, windows) {
        Some((a, b)) => slice_chars(p, a, b),
        None => {
            return false;
        },
    };
    let lower = ascii_lower_chars(&name);
    if contains_chars(&lower, &chars_of(".tmp-compressed.")) || contains_chars(
        &lower,
        &chars_of("-squeezed"),
    ) || contains_chars(&lower, &chars_of(".squeeze-backup.")) {
        return false;
    }
    match extension_exec(p, windows) {
        Some(ext) => is_video_extension_exec(&ascii_lower_chars(&ext)),
        None => false,
    }
}

/// Whether the file at `path` is a video this program would compress;
/// `windows` tells whether `\` separates path components.
pub fn is_source_video(path: &str, windows: bool) -> (r: bool)
    ensures
        r == is_source_video_spec(path@, windows),
{
    is_source_video_chars(&chars_of(path), windows)
}

/// Same as `is_source_video`; the name the rest of the program uses.
pub fn is_supported_video(path: &str, windows: bool) -> (r: bool)
    ensures
        r == is_source_video_spec(path@, windows),
{
    is_source_video(path, windows)
}

/// Rank of a character in path order: the separators (component
/// boundaries: `/`, and `\` on Windows) come before every other character,
/// the rest in code-point order.
pub open spec fn path_rank(c: char, windows: bool) -> int {
    if c == '/' {
        0
    } else if windows && c == '\\' {
        1
    } else {
        (c as int) + 2
    }
}

/// Path order (as `Path`'s `Ord` compares file listings): component by
/// component, a shorter component before its extensions, characters by code
/// point.
pub open spec fn path_le(a: Seq<char>, b: Seq<char>, windows: bool) -> bool
    decreases a.len(),
{
    if a.len() == 0 {
        true
    } else if b.len() == 0 {
        false
    } else if path_rank(a[0], windows) != path_rank(b[0], windows) {
        path_rank(a[0], windows) < path_rank(b[0], windows)
    } else {
        path_le(a.drop_first(), b.drop_first(), windows)
    }
}

pub open spec fn sorted_paths(s: Seq<Seq<char>>, windows: bool) -> bool {
    forall|i: int, j: int| 0 <= i < j < s.len() ==> path_le(#[trigger] s[i], #[trigger] s[j], windows)
}

pub proof fn lemma_path_le_total(a: Seq<char>, b: Seq<char>, windows: bool)
    ensures
        path_le(a, b, windows) || path_le(b, a, windows),
    decreases a.len(),
{
    if a.len() > 0 && b.len() > 0 && path_rank(a[0], windows) == path_rank(b[0], windows) {
        lemma_path_le_total(a.drop_first(), b.drop_first(), windows);
    }
}

pub proof fn lemma_path_le_trans(a: Seq<char>, b: Seq<char>, c: Seq<char>, windows: bool)
    requires
        path_le(a, b, windows),
        path_le(b, c, windows),
    ensures
        path_le(a, c, windows),
    decreases a.len(),
{
    if a.len() > 0 && path_rank(a[0], windows) == path_rank(b[0], windows) && path_rank(b[0], windows) == path_rank(c[0], windows) {
        lemma_path_le_trans(a.drop_first(), b.drop_first(), c.drop_first(), windows);
    }
}

proof fn lemma_path_le_refl(a: Seq<char>, windows: bool)
    ensures
        path_le(a, a, windows),
    decreases a.len(),
{
    if a.len() > 0 {
        lemma_path_le_refl(a.drop_first(), windows);
    }
}

proof fn lemma_path_le_antisym(a: Seq<char>, b: Seq<char>, windows: bool)
    requires
        path_le(a, b, windows),
        path_le(b, a, windows),
    ensures
        a == b,
    decreases a.len(),
{
    if a.len() > 0 && b.len() > 0 {
        lemma_rank_injective(a[0], b[0], windows);
        lemma_path_le_antisym(a.drop_first(), b.drop_first(), windows);
        assert(a =~= seq![a[0]] + a.drop_first());
        assert(b =~= seq![b[0]] + b.drop_first());
    }
}

/// Path order is a total order on paths.
pub proof fn law_path_order_is_total(windows: bool)
    ensures
        vstd::relations::total_ordering(|a: Seq<char>, b: Seq<char>| path_le(a, b, windows)),
{
    let leq = |a: Seq<char>, b: Seq<char>| path_le(a, b, windows);
    assert forall|x: Seq<char>| #[trigger] leq(x, x) by {
        lemma_path_le_refl(x, windows);
    }
    assert forall|x: Seq<char>, y: Seq<char>| #[trigger] leq(x, y) && #[trigger] leq(y, x) implies x
        == y by {
        lemma_path_le_antisym(x, y, windows);
    }
    assert forall|x: Seq<char>, y: Seq<char>, z: Seq<char>|
        #[trigger] leq(x, y) && #[trigger] leq(y, z) implies leq(x, z) by {
        lemma_path_le_trans(x, y, z, windows);
    }
    assert forall|x: Seq<char>, y: Seq<char>| #[trigger] leq(x, y) || #[trigger] leq(y, x) by {
        lemma_path_le_total(x, y, windows);
    }
}

/// There is one way to list a set of paths in path order: two sorted
/// lists of the same paths are the same list. So the videos that
/// `discover_videos` answers are fixed by the listing.
pub proof fn law_sorted_paths_are_unique(x: Seq<Seq<char>>, y: Seq<Seq<char>>, windows: bool)
    requires
        sorted_paths(x, windows),
        sorted_paths(y, windows),
        x.to_multiset() == y.to_multiset(),
    ensures
        x == y,
{
    let leq = |a: Seq<char>, b: Seq<char>| path_le(a, b, windows);
    law_path_order_is_total(windows);
    assert(vstd::relations::sorted_by(x, leq));
    assert(vstd::relations::sorted_by(y, leq));
    vstd::seq_lib::lemma_sorted_unique(x, y, leq);
}

proof fn lemma_rank_injective(x: char, y: char, windows: bool)
    ensures
        path_rank(x, windows) == path_rank(y, windows) ==> x == y,
        x != '/' && y != '/' && !(windows && x == '\\') && !(windows && y == '\\') ==> (path_rank(
            x,
            windows,
        ) < path_rank(y, windows) <==> x < y),
        x != '/' ==> path_rank(x, windows) > path_rank('/', windows),
        windows && x != '/' && x != '\\' ==> path_rank(x, windows) > path_rank('\\', windows),
{
    assert((x as int) >= 0);
    assert((y as int) >= 0);
}

fn path_le_exec(a: &Vec<char>, b: &Vec<char>, windows: bool) -> (r: bool)
    ensures
        r == path_le(a@, b@, windows),
{
    let mut i: usize = 0;
    assert(a@.skip(0) =~= a@);
    assert(b@.skip(0) =~= b@);
    while i < a.len() && i < b.len() && a[i] == b[i]
        invariant
            i <= a.len(),
            i <= b.len(),
            path_le(a@, b@, windows) == path_le(a@.skip(i as int), b@.skip(i as int), windows),
        decreases a.len() - i,
    {
        assert(a@.skip(i as int).drop_first() =~= a@.skip(i + 1));
        assert(b@.skip(i as int).drop_first() =~= b@.skip(i + 1));
        i = i + 1;
    }
    let ghost sa = a@.skip(i as int);
    let ghost sb = b@.skip(i as int);
    if i == a.len() {
        assert(sa.len() == 0);
        return true;
    }
    if i == b.len() {
        return false;
    }
    assert(sa[0] == a@[i as int]);
    assert(sb[0] == b@[i as int]);
    let x = a[i];
    let y = b[i];
    proof {
        lemma_rank_injective(x, y, windows);
        lemma_rank_injective(y, x, windows);
    }
    if x == '/' {
        true
    } else if y == '/' {
        false
    } else if windows && x == '\\' {
        true
    } else if windows && y == '\\' {
        false
    } else {
        x < y
    }
}

proof fn lemma_insert_multiset(s: Seq<Seq<char>>, i: int, x: Seq<char>)
    requires
        0 <= i <= s.len(),
    ensures
        s.insert(i, x).to_multiset() =~= s.to_multiset().insert(x),
{
    broadcast use vstd::seq_lib::group_to_multiset_ensures;
    broadcast use vstd::multiset::group_multiset_axioms;

    let t = s.insert(i, x);
    assert(t.remove(i) =~= s);
    assert(t[i] == x);
    assert(t.to_multiset().count(x) > 0);
}

/// One entry of a folder listing.
pub struct ListedEntry {
    pub path: String,
    pub is_file: bool,
}

pub open spec fn listed_video(e: ListedEntry, windows: bool) -> bool {
    e.is_file && is_source_video_spec(e.path@, windows)
}

pub open spec fn listed_video_pred(windows: bool) -> spec_fn(ListedEntry) -> bool {
    |e: ListedEntry| listed_video(e, windows)
}

/// The paths of the listed files that are source videos, in listing order.
pub open spec fn listed_videos(es: Seq<ListedEntry>, windows: bool) -> Seq<Seq<char>> {
    es.filter(listed_video_pred(windows)).map_values(|e: ListedEntry| e.path@)
}

pub open spec fn chars_views(v: Seq<Vec<char>>) -> Seq<Seq<char>> {
    v.map_values(|c: Vec<char>| c@)
}

pub open spec fn string_views(v: Seq<String>) -> Seq<Seq<char>> {
    v.map_values(|c: String| c@)
}

/// What `discover_videos` answers for a folder, given whether it is a folder
/// and its listing.
pub open spec fn discover_ok(root_is_dir: bool, listing: Result<Vec<ListedEntry>, AppError>, r: Result<
    Vec<String>,
    AppError,
>, windows: bool) -> bool {
    match listing {
        _ if !root_is_dir => false,
        Err(e) => r == Err::<Vec<String>, AppError>(e),
        Ok(es) => match r {
            Ok(v) => sorted_paths(string_views(v@), windows) && string_views(v@).to_multiset()
                == listed_videos(es@, windows).to_multiset(),
            Err(_) => false,
        },
    }
}

/// The videos in a folder, in path order. `listing` holds the files of the
/// folder (and, for a recursive search, of its subfolders) or the error met
/// while reading it; the caller does the reading. `windows` tells whether
/// `\` separates path components.
pub fn discover_videos(
    root: &str,
    root_is_dir: bool,
    listing: Result<Vec<ListedEntry>, AppError>, windows: bool,
) -> (r: Result<Vec<String>, AppError>)
    ensures
        !root_is_dir ==> (r matches Err(AppError::InputNotFound(p)) && p@ == root@),
        root_is_dir ==> discover_ok(root_is_dir, listing, r, windows),
{
    if !root_is_dir {
        return Err(AppError::InputNotFound(text(root)));
    }
    let es = match listing {
        Err(e) => {
            return Err(e);
        },
        Ok(es) => es,
    };
    // the videos, in listing order
    let ghost pred = listed_video_pred(windows);
    let mut found: Vec<Vec<char>> = Vec::new();
    let mut i: usize = 0;
    while i < es.len()
        invariant
            i <= es.len(),
            pred == listed_video_pred(windows),
            chars_views(found@) == es@.subrange(0, i as int).filter(pred).map_values(
                |e: ListedEntry| e.path@,
            ),
        decreases es.len() - i,
    {
        proof {
            es@.subrange(0, i as int).lemma_filter_push(es@[i as int], pred);
        }
        assert(es@.subrange(0, i + 1) == es@.subrange(0, i as int).push(es@[i as int]));
        let keep = es[i].is_file && is_source_video(es[i].path.as_str(), windows);
        let ghost f0 = found@;
        if keep {
            assert(pred(es@[i as int]));
            found.push(chars_of(es[i].path.as_str()));
            assert(chars_views(found@) =~= chars_views(f0).push(es@[i as int].path@));
            assert(es@.subrange(0, i as int).filter(pred).push(es@[i as int]).map_values(
                |e: ListedEntry| e.path@,
            ) =~= es@.subrange(0, i as int).filter(pred).map_values(|e: ListedEntry| e.path@).push(
                es@[i as int].path@,
            ));
        } else {
            assert(!pred(es@[i as int]));
        }
        i = i + 1;
    }
    assert(es@.subrange(0, es.len() as int) == es@);
    let ghost all = chars_views(found@);
    assert(all == listed_videos(es@, windows));
    // insertion sort in path order
    let mut sorted: Vec<Vec<char>> = Vec::new();
    let mut k: usize = 0;
    assert(chars_views(sorted@) =~= all.subrange(0, 0));
    while k < found.len()
        invariant
            k <= found.len(),
            all == chars_views(found@),
            sorted_paths(chars_views(sorted@), windows),
            chars_views(sorted@).to_multiset() == all.subrange(0, k as int).to_multiset(),
        decreases found.len() - k,
    {
        let x = &found[k];
        let ghost sv = chars_views(sorted@);
        let mut pos: usize = 0;
        while pos < sorted.len() && path_le_exec(&sorted[pos], x, windows)
            invariant
                pos <= sorted.len(),
                sv == chars_views(sorted@),
                forall|j: int| 0 <= j < pos ==> path_le(#[trigger] sv[j], x@, windows),
            decreases sorted.len() - pos,
        {
            pos = pos + 1;
        }
        if pos < sorted.len() {
            proof {
                lemma_path_le_total(sv[pos as int], x@, windows);
            }
        }
        assert forall|j: int| pos <= j < sv.len() implies path_le(x@, #[trigger] sv[j], windows) by {
            lemma_path_le_total(sv[pos as int], x@, windows);
            if j > pos {
                assert(path_le(sv[pos as int], sv[j], windows));
                lemma_path_le_trans(x@, sv[pos as int], sv[j], windows);
            }
        }
        sorted.insert(pos, x.clone());
        let ghost nv = sv.insert(pos as int, x@);
        assert(chars_views(sorted@) =~= nv);
        assert forall|a: int, b: int| 0 <= a < b < nv.len() implies path_le(
            #[trigger] nv[a],
            #[trigger] nv[b], windows,
        ) by {
            if b < pos {
            } else if a < pos && b == pos {
            } else if a < pos && b > pos {
                assert(nv[b] == sv[b - 1]);
                lemma_path_le_trans(sv[a], x@, sv[b - 1], windows);
            } else if a == pos {
                assert(nv[b] == sv[b - 1]);
            } else {
                assert(nv[a] == sv[a - 1]);
                assert(nv[b] == sv[b - 1]);
            }
        }
        proof {
            lemma_insert_multiset(sv, pos as int, x@);
            assert(all.subrange(0, k + 1) =~= all.subrange(0, k as int).push(all[k as int]));
            vstd::seq_lib::to_multiset_build(all.subrange(0, k as int), all[k as int]);
        }
        k = k + 1;
    }
    assert(all.subrange(0, found.len() as int) == all);
    // back to strings
    let mut out: Vec<String> = Vec::new();
    let mut m: usize = 0;
    while m < sorted.len()
        invariant
            m <= sorted.len(),
            string_views(out@) == chars_views(sorted@).subrange(0, m as int),
        decreases sorted.len() - m,
    {
        let ghost o0 = out@;
        out.push(string_of(&sorted[m]));
        assert(string_views(out@) =~= string_views(o0).push(sorted@[m as int]@));
        assert(chars_views(sorted@).subrange(0, m + 1) =~= chars_views(sorted@).subrange(
            0,
            m as int,
        ).push(sorted@[m as int]@));
        m = m + 1;
    }
    assert(chars_views(sorted@).subrange(0, sorted.len() as int) == chars_views(sorted@));
    Ok(out)
}

} // verus!
