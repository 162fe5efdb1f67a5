//! A model of file paths as character sequences, and the few path operations
//! the library needs: the final file name, its stem and extension, and
//! replacing the file name or the extension.
//!
//! `/` separates components everywhere; `\` does too on Windows (`w`), and
//! is an ordinary character elsewhere, as in `std::path`. A name pushed onto
//! a path is joined with the platform's main separator. On Windows a path
//! may start with a prefix (`C:`, `\\server\share`, `\\.\device`,
//! `\\?\...`) that no file name reaches into; in verbatim paths (`\\?\`)
//! only `\` separates components and `.` is a component of its own.
//! Trailing separators, and outside verbatim paths `.` components after the
//! first, are skipped when looking for the file name, as `std::path` does; a
//! final `..` (or, in a verbatim path, `.`), a lone `.`, a bare root and the
//! empty path have no file name. When `std::path` pushes a name onto a
//! verbatim path it rebuilds the path from its components and reads the
//! name as an ordinary relative path; the model joins the name as it is.
//! The two differ for a verbatim path with a doubled `\` before its last
//! component, or with a `/` in the name pushed onto it.
use vstd::prelude::*;

verus! {

/// Whether `c` separates path components (`\` only on Windows).
pub open spec fn is_sep(c: char, w: bool) -> bool {
    c == '/' || (w && c == '\\')
}

/// The separator a name is joined with: `\` on Windows, `/` elsewhere.
pub open spec fn main_sep(w: bool) -> char {
    if w {
        '\\'
    } else {
        '/'
    }
}

/// Whether `s[i..i+2]` is a drive (`C:`): an ASCII letter and a colon.
pub open spec fn is_drive_at(s: Seq<char>, i: int) -> bool {
    &&& 0 <= i
    &&& i + 1 < s.len()
    &&& (('a' <= s[i] && s[i] <= 'z') || ('A' <= s[i] && s[i] <= 'Z'))
    &&& s[i + 1] == ':'
}

/// Whether a Windows path is verbatim (starts with `\\?\`).
pub open spec fn verbatim(s: Seq<char>, w: bool) -> bool {
    w && s.len() >= 4 && s[0] == '\\' && s[1] == '\\' && s[2] == '?' && s[3] == '\\'
}

/// Whether `c` separates components within the path `s`: in a verbatim
/// path only `\` does.
pub open spec fn sep_in(s: Seq<char>, c: char, w: bool) -> bool {
    is_sep(c, w) && !(c == '/' && verbatim(s, w))
}

/// Index of the first separator in `s` at or after `i`, `s.len()` where
/// there is none; with `v` only `\` counts.
pub open spec fn next_sep(s: Seq<char>, i: int, v: bool) -> int
    decreases s.len() - i,
{
    if i < 0 || i >= s.len() {
        s.len() as int
    } else if s[i] == '\\' || (!v && s[i] == '/') {
        i
    } else {
        next_sep(s, i + 1, v)
    }
}

/// Length of the Windows prefix of `s` (0 where it has none, and always
/// elsewhere): `\\?\UNC\server\share`, `\\?\C:`, `\\?\name`, `\\.\name`,
/// `\\server\share` (both parts non-empty) or `C:`.
pub open spec fn head(s: Seq<char>, w: bool) -> int {
    if !w {
        0
    } else if verbatim(s, w) {
        if s.len() >= 8 && s[4] == 'U' && s[5] == 'N' && s[6] == 'C' && s[7] == '\\' {
            let a = next_sep(s, 8, true);
            if a >= s.len() {
                a
            } else {
                next_sep(s, a + 1, true)
            }
        } else if is_drive_at(s, 4) && (s.len() == 6 || s[6] == '\\') {
            6
        } else {
            next_sep(s, 4, true)
        }
    } else if s.len() >= 2 && is_sep(s[0], true) && is_sep(s[1], true) {
        if s.len() >= 4 && s[2] == '.' && is_sep(s[3], true) {
            next_sep(s, 4, false)
        } else {
            let a = next_sep(s, 2, false);
            if 2 < a && a < s.len() && next_sep(s, a + 1, false) > a + 1 {
                next_sep(s, a + 1, false)
            } else {
                0
            }
        }
    } else if is_drive_at(s, 0) {
        2
    } else {
        0
    }
}

/// Length of `s[0..n]` once trailing separators are dropped (never into
/// the prefix).
pub open spec fn trim_seps(s: Seq<char>, n: int, w: bool) -> int
    decreases n,
{
    if n > 0 && n > head(s, w) && sep_in(s, s[n - 1], w) {
        trim_seps(s, n - 1, w)
    } else {
        n
    }
}

/// Start of the last component of `s[0..n]`: one past the last separator,
/// or the end of the prefix.
pub open spec fn seg_start(s: Seq<char>, n: int, w: bool) -> int
    decreases n,
{
    if n <= 0 || n <= head(s, w) {
        n
    } else if sep_in(s, s[n - 1], w) {
        n
    } else {
        seg_start(s, n - 1, w)
    }
}

/// End of the file name within `s[0..n]`, or -1 where there is none.
pub open spec fn name_end(s: Seq<char>, n: int, w: bool) -> int
    decreases n,
{
    if n <= 0 || n <= head(s, w) {
        -1
    } else {
        let t = trim_seps(s, n, w);
        let j = seg_start(s, t, w);
        if t <= j {
            -1
        } else if t == j + 1 && s[j] == '.' {
            if !verbatim(s, w) && j >= head(s, w) + 1 && j - 1 < n {
                name_end(s, j - 1, w)
            } else {
                -1
            }
        } else if t == j + 2 && s[j] == '.' && s[j + 1] == '.' {
            -1
        } else {
            t
        }
    }
}

/// Where the file name of `s` starts and ends, if it has one.
pub open spec fn name_range(s: Seq<char>, w: bool) -> Option<(int, int)> {
    let e = name_end(s, s.len() as int, w);
    if e < 0 {
        None
    } else {
        Some((seg_start(s, e, w), e))
    }
}

/// The final component of `s` (`Path::file_name`).
pub open spec fn file_name(s: Seq<char>, w: bool) -> Option<Seq<char>> {
    match name_range(s, w) {
        Some((a, b)) => Some(s.subrange(a, b)),
        None => None,
    }
}

/// Index of the last `.` in `name[0..n]`, or -1.
pub open spec fn last_dot(name: Seq<char>, n: int) -> int
    decreases n,
{
    if n <= 0 {
        -1
    } else if name[n - 1] == '.' {
        n - 1
    } else {
        last_dot(name, n - 1)
    }
}

/// Length of the stem of a file name: up to its last `.`, unless that dot
/// is the first character or there is none.
pub open spec fn stem_len(name: Seq<char>) -> int {
    let d = last_dot(name, name.len() as int);
    if d <= 0 {
        name.len() as int
    } else {
        d
    }
}

/// `Path::file_stem`.
pub open spec fn file_stem(s: Seq<char>, w: bool) -> Option<Seq<char>> {
    match file_name(s, w) {
        Some(name) => Some(name.subrange(0, stem_len(name))),
        None => None,
    }
}

/// `Path::extension`: what follows the last `.` of the file name, where the
/// dot is neither absent nor the first character.
pub open spec fn extension(s: Seq<char>, w: bool) -> Option<Seq<char>> {
    match file_name(s, w) {
        Some(name) => {
            let d = last_dot(name, name.len() as int);
            if d <= 0 {
                None
            } else {
                Some(name.subrange(d + 1, name.len() as int))
            }
        },
        None => None,
    }
}

/// Length of the parent of a name that starts at `n`: trailing separators
/// and (outside verbatim paths) `.` components are dropped, but never the
/// prefix, the root after it or a leading `.`.
pub open spec fn parent_end(s: Seq<char>, n: int, w: bool) -> int
    decreases n,
{
    if n >= 2 && n >= head(s, w) + 2 && sep_in(s, s[n - 1], w) {
        parent_end(s, n - 1, w)
    } else if n >= 2 && n >= head(s, w) + 2 && s[n - 1] == '.' && sep_in(s, s[n - 2], w)
        && !verbatim(s, w) {
        parent_end(s, n - 1, w)
    } else {
        n
    }
}

/// `s` with its file name replaced by `name` (`Path::with_file_name`): the
/// parent joined with `name`; a path without a file name gets `name` pushed
/// onto it.
pub open spec fn with_file_name(s: Seq<char>, name: Seq<char>, w: bool) -> Seq<char> {
    join_name(
        match name_range(s, w) {
            Some((a, b)) => s.subrange(0, parent_end(s, a, w)),
            None => s,
        },
        name,
        w,
    )
}

/// `s` with its extension replaced by the non-empty `ext`
/// (`Path::with_extension`): everything after the stem is cut and `.ext`
/// appended; a path without a file name is left as it is.
pub open spec fn with_extension(s: Seq<char>, ext: Seq<char>, w: bool) -> Seq<char> {
    match name_range(s, w) {
        Some((a, b)) => s.subrange(0, a + stem_len(s.subrange(a, b))).push('.') + ext,
        None => s,
    }
}

/// What precedes the file name in `with_file_name(s, _, w)`: the folder part.
pub open spec fn folder_part(s: Seq<char>, w: bool) -> Seq<char> {
    with_file_name(s, Seq::empty(), w)
}

/// `Path::parent`: the path without its last component, trailing
/// separators and (outside verbatim paths) `.` components dropped but a
/// root kept; none for an empty path or a bare root.
pub open spec fn parent_of(s: Seq<char>, w: bool) -> Option<Seq<char>> {
    match name_range(s, w) {
        Some((a, b)) => Some(s.subrange(0, parent_end(s, a, w))),
        None => {
            let e = parent_end(s, s.len() as int, w);
            let h = head(s, w);
            if e <= h || (e == h + 1 && sep_in(s, s[h], w)) {
                // only a prefix, a root, or nothing
                None
            } else if e == h + 1 {
                // a lone `.`
                Some(s.subrange(0, h))
            } else {
                // the last component is `..` (or a verbatim `.`)
                Some(s.subrange(0, parent_end(s, seg_start(s, e, w), w)))
            }
        },
    }
}

/// `dir.join(name)` for a relative `name`: joined with the main separator
/// unless `dir` is empty, a bare drive (`C:`) or already ends with a
/// separator (of `dir`: in a verbatim path a final `/` is not one).
pub open spec fn join_name(dir: Seq<char>, name: Seq<char>, w: bool) -> Seq<char> {
    if dir.len() == 0 {
        name
    } else if sep_in(dir, dir.last(), w) || (w && dir.len() == 2 && is_drive_at(dir, 0)) {
        dir + name
    } else {
        dir.push(main_sep(w)) + name
    }
}

/// `name` in the folder of `s`: the parent of `s`, or `.` where it has
/// none, joined with `name`.
pub open spec fn beside_path(s: Seq<char>, name: Seq<char>, w: bool) -> Seq<char> {
    join_name(
        match parent_of(s, w) {
            Some(p) => p,
            None => "."@,
        },
        name,
        w,
    )
}

proof fn lemma_next_sep(s: Seq<char>, i: int, v: bool)
    requires
        0 <= i <= s.len(),
    ensures
        i <= next_sep(s, i, v) <= s.len(),
    decreases s.len() - i,
{
    if i < s.len() && !(s[i] == '\\' || (!v && s[i] == '/')) {
        lemma_next_sep(s, i + 1, v);
    }
}

/// The prefix lies within the path.
pub proof fn lemma_head_bounds(s: Seq<char>, w: bool)
    ensures
        0 <= head(s, w) <= s.len(),
        verbatim(s, w) ==> head(s, w) >= 4,
{
    if w {
        if verbatim(s, w) {
            lemma_next_sep(s, 4, true);
            if s.len() >= 8 {
                lemma_next_sep(s, 8, true);
                let a = next_sep(s, 8, true);
                if a < s.len() {
                    lemma_next_sep(s, a + 1, true);
                }
            }
        } else if s.len() >= 2 && is_sep(s[0], true) && is_sep(s[1], true) {
            if s.len() >= 4 {
                lemma_next_sep(s, 4, false);
            }
            lemma_next_sep(s, 2, false);
            let a = next_sep(s, 2, false);
            if a < s.len() {
                lemma_next_sep(s, a + 1, false);
            }
        }
    }
}

proof fn lemma_seg_start_tail(q: Seq<char>, j: int, k: int, w: bool)
    requires
        head(q, w) <= j <= k <= q.len(),
        j == head(q, w) || sep_in(q, q[j - 1], w),
        forall|i: int| j <= i < q.len() ==> !sep_in(q, #[trigger] q[i], w),
    ensures
        seg_start(q, k, w) == j,
    decreases k,
{
    if k > j {
        lemma_seg_start_tail(q, j, k - 1, w);
    }
}

/// A path is its folder part followed by its file name.
pub proof fn lemma_with_file_name_split(s: Seq<char>, name: Seq<char>, w: bool)
    ensures
        with_file_name(s, name, w) == folder_part(s, w) + name,
{
    let d = match name_range(s, w) {
        Some((a, b)) => s.subrange(0, parent_end(s, a, w)),
        None => s,
    };
    lemma_join_name_split(d, name, w);
}

/// A folder (empty up to the prefix, or ending with a separator) followed
/// by a plain name has that name as its file name.
pub proof fn lemma_dir_name(d: Seq<char>, name: Seq<char>, w: bool)
    requires
        head(d + name, w) == d.len() || (head(d + name, w) < d.len() && sep_in(
            d + name,
            d.last(),
            w,
        )),
        name.len() > 0,
        forall|k: int| 0 <= k < name.len() ==> !sep_in(d + name, #[trigger] name[k], w),
        name != "."@,
        name != ".."@,
    ensures
        file_name(d + name, w) == Some(name),
        name_range(d + name, w) == Some((d.len() as int, (d + name).len() as int)),
{
    let q = d + name;
    let j = d.len() as int;
    let n = q.len() as int;
    assert forall|i: int| j <= i < q.len() implies !sep_in(q, #[trigger] q[i], w) by {
        assert(q[i] == name[i - j]);
        assert(!sep_in(q, name[i - j], w));
    }
    assert(!sep_in(q, q[n - 1], w));
    assert(trim_seps(q, n, w) == n);
    if j > head(q, w) {
        assert(q[j - 1] == d.last());
    }
    lemma_seg_start_tail(q, j, n, w);
    assert(q.subrange(j, n) =~= name);
    if n == j + 1 && q[j] == '.' {
        assert(name =~= "."@) by {
            reveal_strlit(".");
        }
    }
    if n == j + 2 && q[j] == '.' && q[j + 1] == '.' {
        assert(name =~= ".."@) by {
            reveal_strlit("..");
        }
    }
    assert(name_end(q, n, w) == n);
}

/// A name joined to a folder is the folder part followed by the name; the
/// folder part is empty, a bare drive or ends with a separator.
pub proof fn lemma_join_name_split(dir: Seq<char>, name: Seq<char>, w: bool)
    ensures
        join_name(dir, name, w) == join_name(dir, Seq::empty(), w) + name,
        join_name(dir, Seq::empty(), w).len() == 0 || is_sep(
            join_name(dir, Seq::empty(), w).last(),
            w,
        ) || (w && join_name(dir, Seq::empty(), w).len() == 2 && is_drive_at(
            join_name(dir, Seq::empty(), w),
            0,
        )),
{
    assert(name =~= Seq::<char>::empty() + name);
    assert(dir + Seq::<char>::empty() =~= dir);
    assert(dir.push(main_sep(w)) + Seq::<char>::empty() =~= dir.push(main_sep(w)));
}

/// The file name lies within the path and has a non-empty stem.
pub proof fn lemma_name_range_bounds(s: Seq<char>, w: bool)
    ensures
        name_range(s, w) matches Some((a, b)) ==> 0 <= a < b <= s.len() && stem_len(
            s.subrange(a, b),
        ) >= 1,
{
    lemma_head_bounds(s, w);
    lemma_name_end(s, s.len() as int, w);
    let e = name_end(s, s.len() as int, w);
    if e >= 0 {
        lemma_seg_start(s, e, w);
        let a = seg_start(s, e, w);
        let name = s.subrange(a, e);
        lemma_last_dot(name, name.len() as int);
    }
}

/// Whether the file name of `s` starts at its beginning (or it has none).
pub open spec fn name_at_start(s: Seq<char>, w: bool) -> bool {
    match name_range(s, w) {
        Some((a, b)) => a == 0,
        None => true,
    }
}

proof fn lemma_next_sep_sep(q: Seq<char>, i: int, v: bool)
    requires
        0 <= i <= q.len(),
    ensures
        next_sep(q, i, v) == q.len() || (i <= next_sep(q, i, v) < q.len() && (q[next_sep(q, i, v)]
            == '\\' || q[next_sep(q, i, v)] == '/')),
        v && next_sep(q, i, v) < q.len() ==> q[next_sep(q, i, v)] == '\\',
    decreases q.len() - i,
{
    if i < q.len() && !(q[i] == '\\' || (!v && q[i] == '/')) {
        lemma_next_sep_sep(q, i + 1, v);
    }
}

/// A folder (empty, a bare drive, or ending with a separator) followed by
/// a name without separator characters: the name is the file name, unless
/// a prefix takes in the whole path and there is none.
pub proof fn lemma_join_file_name(d: Seq<char>, n: Seq<char>, w: bool)
    requires
        d.len() == 0 || sep_in(d + n, d.last(), w) || (w && d.len() == 2 && is_drive_at(d, 0)),
        n.len() >= 3,
        forall|k: int| 0 <= k < n.len() ==> !sep_in(d + n, #[trigger] n[k], w),
        w && d.len() == 0 ==> !is_drive_at(n, 0),
    ensures
        file_name(d + n, w) is None || file_name(d + n, w) == Some(n),
        file_name(d + n, w) is None ==> head(d + n, w) == (d + n).len(),
{
    let q = d + n;
    let h = head(q, w);
    lemma_head_bounds(q, w);
    if w {
        // every separator character of `q` lies in `d`
        assert forall|k: int| d.len() <= k < q.len() implies #[trigger] q[k] != '\\' && (q[k]
            != '/' || verbatim(q, w)) by {
            assert(q[k] == n[k - d.len()]);
            assert(!sep_in(q, n[k - d.len()], w));
        }
        if q.len() >= 4 {
            lemma_next_sep_sep(q, 4, true);
            lemma_next_sep_sep(q, 4, false);
        }
        if q.len() >= 8 {
            lemma_next_sep_sep(q, 8, true);
            let a = next_sep(q, 8, true);
            if a < q.len() {
                lemma_next_sep_sep(q, a + 1, true);
            }
        }
        if q.len() >= 2 {
            lemma_next_sep_sep(q, 2, false);
            let a = next_sep(q, 2, false);
            if a < q.len() {
                lemma_next_sep_sep(q, a + 1, false);
            }
        }
        if d.len() == 1 {
            assert(q[0] == d[0]);
        }
        if d.len() >= 2 {
            assert(q[0] == d[0] && q[1] == d[1]);
        }
        if d.len() == 0 {
            assert(q =~= n);
        }
        if verbatim(q, w) && d.len() < 6 {
            if q.len() > 6 {
                assert(q[6] == n[6 - d.len()]);
            }
        }
    }
    assert(h == q.len() || h <= d.len());
    if h == q.len() {
        assert(name_end(q, q.len() as int, w) == -1);
    } else {
        assert(n != "."@ && n != ".."@) by {
            reveal_strlit(".");
            reveal_strlit("..");
            assert("."@.len() == 1);
            assert(".."@.len() == 2);
        }
        if h < d.len() && d.len() > 0 && !(sep_in(q, d.last(), w)) {
            assert(w && d.len() == 2 && is_drive_at(d, 0));
            assert(is_drive_at(q, 0));
        }
        lemma_dir_name(d, n, w);
    }
}

/// Giving a path that is not verbatim a name without separators makes that
/// name its file name, or leaves it with none where a prefix takes in the
/// whole result; a path without a file name is never given back unchanged.
pub proof fn lemma_with_file_name_file(p: Seq<char>, n: Seq<char>, w: bool)
    requires
        n.len() >= 3,
        forall|k: int| 0 <= k < n.len() ==> !sep_in(p, #[trigger] n[k], w),
        w && name_at_start(p, w) && !is_drive_at(p, 0) ==> !is_drive_at(n, 0),
    ensures
        file_name(with_file_name(p, n, w), w) is None || file_name(with_file_name(p, n, w), w)
            == Some(n),
        file_name(p, w) is None ==> with_file_name(p, n, w) != p,
{
    lemma_head_bounds(p, w);
    let d0 = match name_range(p, w) {
        Some((a, b)) => p.subrange(0, parent_end(p, a, w)),
        None => p,
    };
    match name_range(p, w) {
        Some((a, b)) => {
            lemma_name_end(p, p.len() as int, w);
            lemma_seg_start(p, name_end(p, p.len() as int, w), w);
            lemma_parent_end(p, a, w);
            assert(d0 =~= p.subrange(0, d0.len() as int));
        },
        None => {
            assert(d0 =~= p.subrange(0, d0.len() as int));
        },
    }
    lemma_join_name_split(d0, n, w);
    let d = join_name(d0, Seq::empty(), w);
    lemma_join_prefix_facts(p, d0, n, w);
    lemma_names_keep_seps(p, d, n, w);
    lemma_join_file_name(d, n, w);
    if name_range(p, w) is None {
        assert(d.len() >= p.len());
        assert((d + n).len() > p.len());
    }
}

/// The same, for a name placed beside the path.
pub proof fn lemma_beside_path_file(p: Seq<char>, n: Seq<char>, w: bool)
    requires
        n.len() >= 3,
        forall|k: int| 0 <= k < n.len() ==> !sep_in(p, #[trigger] n[k], w),
        file_name(p, w) is None ==> forall|k: int| 0 <= k < n.len() ==> !is_sep(#[trigger] n[k], w),
        w && name_at_start(p, w) && !is_drive_at(p, 0) ==> !is_drive_at(n, 0),
    ensures
        file_name(beside_path(p, n, w), w) is None || file_name(beside_path(p, n, w), w) == Some(
            n,
        ),
        file_name(p, w) is None ==> beside_path(p, n, w) != p,
{
    lemma_head_bounds(p, w);
    let q = beside_path(p, n, w);
    match parent_of(p, w) {
        None => {
            reveal_strlit(".");
            let d0 = "."@;
            lemma_join_name_split(d0, n, w);
            let d = join_name(d0, Seq::empty(), w);
            assert(d =~= seq!['.', main_sep(w)]);
            assert(q[0] == '.');
            assert(head(q, w) == 0);
            assert forall|k: int| 0 <= k < n.len() implies !sep_in(d + n, #[trigger] n[k], w) by {
                assert(!is_sep(n[k], w));
            }
            lemma_join_file_name(d, n, w);
        },
        Some(d0) => {
            match name_range(p, w) {
                Some((a, b)) => {
                    lemma_name_end(p, p.len() as int, w);
                    lemma_seg_start(p, name_end(p, p.len() as int, w), w);
                    lemma_parent_end(p, a, w);
                },
                None => {
                    let e = parent_end(p, p.len() as int, w);
                    lemma_parent_end(p, p.len() as int, w);
                    if e > head(p, w) + 1 {
                        lemma_seg_start(p, e, w);
                        lemma_parent_end(p, seg_start(p, e, w), w);
                    }
                },
            }
            assert(d0 =~= p.subrange(0, d0.len() as int));
            lemma_join_name_split(d0, n, w);
            lemma_join_prefix_facts(p, d0, n, w);
            lemma_names_keep_seps(p, join_name(d0, Seq::empty(), w), n, w);
            lemma_join_file_name(join_name(d0, Seq::empty(), w), n, w);
            if file_name(p, w) is None && q == p {
                // all of `p` would be its prefix, which leaves it no parent
                assert(head(p, w) == p.len());
                lemma_parent_end(p, p.len() as int, w);
            }
        },
    }
}

/// A file name follows a separator or starts within the first two
/// characters (at the start, or after a drive).
pub proof fn lemma_name_after_sep(p: Seq<char>, w: bool)
    requires
        name_range(p, w) is Some,
    ensures
        name_range(p, w) matches Some((a, b)) ==> a <= 2 || sep_in(p, p[a - 1], w),
{
    lemma_head_bounds(p, w);
    lemma_name_end(p, p.len() as int, w);
    let e = name_end(p, p.len() as int, w);
    lemma_seg_start(p, e, w);
    let a = seg_start(p, e, w);
    let h = head(p, w);
    if a == h && h > 2 {
        // such a prefix ends at a separator, which no file name starts with
        assert(!sep_in(p, p[a], w));
        if p.len() >= 4 {
            lemma_next_sep_sep(p, 4, false);
        }
        lemma_next_sep_sep(p, 2, false);
        let b = next_sep(p, 2, false);
        if b < p.len() {
            lemma_next_sep_sep(p, b + 1, false);
        }
        if p.len() >= 4 {
            lemma_next_sep_sep(p, 4, true);
        }
        if p.len() >= 8 {
            lemma_next_sep_sep(p, 8, true);
            let c = next_sep(p, 8, true);
            if c < p.len() {
                lemma_next_sep_sep(p, c + 1, true);
            }
        }
    }
}

/// A name whose characters do not separate components of `p` does not
/// separate them after a folder that starts as `p` does where `p` is
/// verbatim; elsewhere it holds no separator character at all.
proof fn lemma_names_keep_seps(p: Seq<char>, d: Seq<char>, n: Seq<char>, w: bool)
    requires
        forall|k: int| 0 <= k < n.len() ==> !sep_in(p, #[trigger] n[k], w),
        verbatim(p, w) ==> d.len() >= 4 && d.subrange(0, 4) == p.subrange(0, 4),
    ensures
        forall|k: int| 0 <= k < n.len() ==> !sep_in(d + n, #[trigger] n[k], w),
{
    if verbatim(p, w) {
        let q = d + n;
        assert(q[0] == d.subrange(0, 4)[0] && q[1] == d.subrange(0, 4)[1]);
        assert(q[2] == d.subrange(0, 4)[2] && q[3] == d.subrange(0, 4)[3]);
        assert(verbatim(q, w));
    }
    assert forall|k: int| 0 <= k < n.len() implies !sep_in(d + n, #[trigger] n[k], w) by {
        assert(!sep_in(p, n[k], w));
    }
}

/// A start of a path that is not verbatim, with a name joined to it: the
/// folder part ends in a separator of the result, and where it is empty
/// the name would start the path.
proof fn lemma_join_prefix_facts(p: Seq<char>, d0: Seq<char>, n: Seq<char>, w: bool)
    requires
        verbatim(p, w) ==> d0.len() >= 4,
        d0.len() <= p.len(),
        d0 == p.subrange(0, d0.len() as int),
        n.len() >= 3,
    ensures
        ({
            let d = join_name(d0, Seq::empty(), w);
            &&& d.len() == 0 || sep_in(d + n, d.last(), w) || (w && d.len() == 2 && is_drive_at(
                d,
                0,
            ))
            &&& d.len() == 0 ==> d0.len() == 0
            &&& verbatim(p, w) ==> d.len() >= 4 && d.subrange(0, 4) == p.subrange(0, 4)
        }),
{
    lemma_join_name_split(d0, n, w);
    let d = join_name(d0, Seq::empty(), w);
    let q = d + n;
    if verbatim(p, w) {
        // the folder part is verbatim too, and ends with `\`
        assert(d0[0] == p[0] && d0[1] == p[1] && d0[2] == p[2] && d0[3] == p[3]);
        assert(verbatim(d0, w));
        assert(d.subrange(0, 4) =~= p.subrange(0, 4));
        assert(d.last() == '\\');
    } else if d.len() > 0 && !(w && d.len() == 2 && is_drive_at(d, 0)) {
        if d.last() == '/' && w {
            // a verbatim result would need `\\?\` in its first four characters
            if verbatim(q, w) {
                if d0.len() >= 4 {
                    assert(q[0] == p[0] && q[1] == p[1] && q[2] == p[2] && q[3] == p[3]);
                } else {
                    assert(d =~= d0);
                    assert(q[d.len() - 1] == '/');
                }
            }
        }
    }
}

/// For a path with a file name, the name placed beside it is the path with
/// its file name replaced.
pub proof fn lemma_beside_path_with_file_name(s: Seq<char>, name: Seq<char>, w: bool)
    requires
        name_range(s, w) is Some,
    ensures
        beside_path(s, name, w) == with_file_name(s, name, w),
{
}

/// A file name, and so its stem and extension, holds no character that
/// separates components of its path.
pub proof fn lemma_file_name_parts_no_sep(s: Seq<char>, w: bool)
    ensures
        file_name(s, w) matches Some(n) ==> forall|k: int| 0 <= k < n.len() ==> !sep_in(s, #[trigger] n[k], w),
        file_stem(s, w) matches Some(n) ==> forall|k: int| 0 <= k < n.len() ==> !sep_in(s, #[trigger] n[k], w),
        extension(s, w) matches Some(n) ==> forall|k: int| 0 <= k < n.len() ==> !sep_in(s, #[trigger] n[k], w),
{
    lemma_head_bounds(s, w);
    lemma_name_end(s, s.len() as int, w);
    let e = name_end(s, s.len() as int, w);
    if e >= 0 {
        lemma_seg_start(s, e, w);
        let a = seg_start(s, e, w);
        let name = s.subrange(a, e);
        assert forall|k: int| 0 <= k < name.len() implies !sep_in(s, #[trigger] name[k], w) by {
            assert(name[k] == s[a + k]);
            assert(!sep_in(s, s[a + k], w));
        }
        lemma_last_dot(name, name.len() as int);
        let d = last_dot(name, name.len() as int);
        let st = name.subrange(0, stem_len(name));
        assert forall|k: int| 0 <= k < st.len() implies !sep_in(s, #[trigger] st[k], w) by {
            assert(st[k] == name[k]);
        }
        if d > 0 {
            let ex = name.subrange(d + 1, name.len() as int);
            assert forall|k: int| 0 <= k < ex.len() implies !sep_in(s, #[trigger] ex[k], w) by {
                assert(ex[k] == name[d + 1 + k]);
            }
        }
    }
}

/// The stem of a file name is a prefix of it, cut at its last dot where
/// that dot is not the first character.
pub proof fn lemma_stem_len_bounds(name: Seq<char>)
    ensures
        0 <= stem_len(name) <= name.len(),
        last_dot(name, name.len() as int) > 0 ==> stem_len(name) == last_dot(name, name.len() as int),
{
    lemma_last_dot(name, name.len() as int);
}

/// The last dot of `a + b`, where `b[0..k]` has a dot, lies in `b`.
pub proof fn lemma_last_dot_concat(a: Seq<char>, b: Seq<char>, k: int)
    requires
        0 <= k <= b.len(),
        last_dot(b, k) >= 0,
    ensures
        last_dot(a + b, a.len() + k) == a.len() + last_dot(b, k),
    decreases k,
{
    if k > 0 && b[k - 1] != '.' {
        assert((a + b)[a.len() + k - 1] == b[k - 1]);
        lemma_last_dot_concat(a, b, k - 1);
    } else if k > 0 {
        assert((a + b)[a.len() + k - 1] == b[k - 1]);
    }
}

/// `last_dot(s, n)` looks at `s[0..n]` only.
proof fn lemma_last_dot_prefix(x: Seq<char>, y: Seq<char>, n: int)
    requires
        0 <= n <= x.len(),
        n <= y.len(),
        forall|i: int| 0 <= i < n ==> x[i] == y[i],
    ensures
        last_dot(x, n) == last_dot(y, n),
    decreases n,
{
    if n > 0 {
        lemma_last_dot_prefix(x, y, n - 1);
    }
}

/// Appending characters that are not dots keeps the last dot.
pub proof fn lemma_last_dot_nodot(a: Seq<char>, b: Seq<char>)
    requires
        forall|i: int| 0 <= i < b.len() ==> #[trigger] b[i] != '.',
    ensures
        last_dot(a + b, (a + b).len() as int) == last_dot(a, a.len() as int),
{
    lemma_last_dot_nodot_upto(a, b, b.len() as int);
}

proof fn lemma_last_dot_nodot_upto(a: Seq<char>, b: Seq<char>, k: int)
    requires
        0 <= k <= b.len(),
        forall|i: int| 0 <= i < b.len() ==> #[trigger] b[i] != '.',
    ensures
        last_dot(a + b, a.len() + k) == last_dot(a, a.len() as int),
    decreases k,
{
    if k > 0 {
        assert((a + b)[a.len() + k - 1] == b[k - 1]);
        lemma_last_dot_nodot_upto(a, b, k - 1);
    } else {
        assert forall|i: int| 0 <= i < a.len() implies (a + b)[i] == a[i] by {}
        lemma_last_dot_prefix(a + b, a, a.len() as int);
    }
}

/// An extension holds no dot.
pub proof fn lemma_extension_no_dot(s: Seq<char>, w: bool)
    ensures
        extension(s, w) matches Some(e) ==> forall|k: int| 0 <= k < e.len() ==> #[trigger] e[k] != '.',
{
    lemma_name_end(s, s.len() as int, w);
    if let Some(name) = file_name(s, w) {
        let d = last_dot(name, name.len() as int);
        lemma_last_dot(name, name.len() as int);
        if d > 0 {
            let e = name.subrange(d + 1, name.len() as int);
            assert forall|k: int| 0 <= k < e.len() implies #[trigger] e[k] != '.' by {
                assert(e[k] == name[d + 1 + k]);
            }
        }
    }
}

proof fn lemma_trim_seps(s: Seq<char>, n: int, w: bool)
    requires
        0 <= n <= s.len(),
    ensures
        0 <= trim_seps(s, n, w) <= n,
        n >= head(s, w) ==> trim_seps(s, n, w) >= head(s, w),
        trim_seps(s, n, w) > head(s, w) ==> !sep_in(s, s[trim_seps(s, n, w) - 1], w),
    decreases n,
{
    lemma_head_bounds(s, w);
    if n > 0 && n > head(s, w) && sep_in(s, s[n - 1], w) {
        lemma_trim_seps(s, n - 1, w);
    }
}

proof fn lemma_seg_start(s: Seq<char>, n: int, w: bool)
    requires
        0 <= n <= s.len(),
    ensures
        0 <= seg_start(s, n, w) <= n,
        n >= head(s, w) ==> seg_start(s, n, w) >= head(s, w),
        seg_start(s, n, w) > head(s, w) ==> sep_in(s, s[seg_start(s, n, w) - 1], w),
        forall|k: int| seg_start(s, n, w) <= k < n ==> !sep_in(s, #[trigger] s[k], w),
    decreases n,
{
    lemma_head_bounds(s, w);
    if n > 0 && n > head(s, w) && !sep_in(s, s[n - 1], w) {
        lemma_seg_start(s, n - 1, w);
    }
}

proof fn lemma_name_end(s: Seq<char>, n: int, w: bool)
    requires
        0 <= n <= s.len(),
    ensures
        name_end(s, n, w) <= n,
        name_end(s, n, w) >= 0 ==> head(s, w) <= seg_start(s, name_end(s, n, w), w) < name_end(
            s,
            n,
            w,
        ),
    decreases n,
{
    lemma_head_bounds(s, w);
    if n > 0 && n > head(s, w) {
        let t = trim_seps(s, n, w);
        lemma_trim_seps(s, n, w);
        let j = seg_start(s, t, w);
        lemma_seg_start(s, t, w);
        if t <= j {
        } else if t == j + 1 && s[j] == '.' {
            if !verbatim(s, w) && j >= head(s, w) + 1 && j - 1 < n {
                lemma_name_end(s, j - 1, w);
            }
        }
    }
}

proof fn lemma_last_dot(name: Seq<char>, n: int)
    requires
        0 <= n <= name.len(),
    ensures
        -1 <= last_dot(name, n) < n,
        last_dot(name, n) >= 0 ==> name[last_dot(name, n)] == '.',
        forall|k: int| last_dot(name, n) < k < n ==> #[trigger] name[k] != '.',
    decreases n,
{
    if n > 0 && name[n - 1] != '.' {
        lemma_last_dot(name, n - 1);
    }
}

pub proof fn lemma_parent_end(s: Seq<char>, n: int, w: bool)
    requires
        0 <= n <= s.len(),
    ensures
        0 <= parent_end(s, n, w) <= n,
        n >= 1 ==> parent_end(s, n, w) >= 1,
        n > head(s, w) ==> parent_end(s, n, w) > head(s, w),
        n >= head(s, w) ==> parent_end(s, n, w) >= head(s, w),
    decreases n,
{
    lemma_head_bounds(s, w);
    if n >= 2 && n >= head(s, w) + 2 && sep_in(s, s[n - 1], w) {
        lemma_parent_end(s, n - 1, w);
    } else if n >= 2 && n >= head(s, w) + 2 && s[n - 1] == '.' && sep_in(s, s[n - 2], w)
        && !verbatim(s, w) {
        lemma_parent_end(s, n - 1, w);
    }
}

/// Whether `c` is a separator on the platform.
pub fn is_sep_char(c: char, w: bool) -> (r: bool)
    ensures
        r == is_sep(c, w),
{
    c == '/' || (w && c == '\\')
}

fn main_sep_char(w: bool) -> (r: char)
    ensures
        r == main_sep(w),
{
    if w {
        '\\'
    } else {
        '/'
    }
}

fn is_drive_exec(s: &Vec<char>, i: usize) -> (r: bool)
    ensures
        r == is_drive_at(s@, i as int),
{
    i < s.len() && i + 1 < s.len() && (('a' <= s[i] && s[i] <= 'z') || ('A' <= s[i] && s[i] <= 'Z'))
        && s[i + 1] == ':'
}

fn verbatim_exec(s: &Vec<char>, w: bool) -> (r: bool)
    ensures
        r == verbatim(s@, w),
{
    w && s.len() >= 4 && s[0] == '\\' && s[1] == '\\' && s[2] == '?' && s[3] == '\\'
}

fn sep_in_char(s: &Vec<char>, c: char, w: bool) -> (r: bool)
    ensures
        r == sep_in(s@, c, w),
{
    is_sep_char(c, w) && !(c == '/' && verbatim_exec(s, w))
}

fn next_sep_exec(s: &Vec<char>, i: usize, v: bool) -> (r: usize)
    requires
        i <= s.len(),
    ensures
        r == next_sep(s@, i as int, v),
{
    let mut k: usize = i;
    while k < s.len() && !(s[k] == '\\' || (!v && s[k] == '/'))
        invariant
            i <= k <= s.len(),
            next_sep(s@, k as int, v) == next_sep(s@, i as int, v),
        decreases s.len() - k,
    {
        k = k + 1;
    }
    k
}

/// The length of the Windows prefix of `s`.
pub fn head_exec(s: &Vec<char>, w: bool) -> (r: usize)
    ensures
        r == head(s@, w),
{
    proof {
        lemma_head_bounds(s@, w);
    }
    if !w {
        0
    } else if verbatim_exec(s, w) {
        if s.len() >= 8 && s[4] == 'U' && s[5] == 'N' && s[6] == 'C' && s[7] == '\\' {
            let a: usize = next_sep_exec(s, 8, true);
            proof {
                lemma_next_sep(s@, 8, true);
            }
            if a >= s.len() {
                a
            } else {
                next_sep_exec(s, a + 1, true)
            }
        } else if is_drive_exec(s, 4) && (s.len() == 6 || s[6] == '\\') {
            6
        } else {
            next_sep_exec(s, 4, true)
        }
    } else if s.len() >= 2 && is_sep_char(s[0], true) && is_sep_char(s[1], true) {
        if s.len() >= 4 && s[2] == '.' && is_sep_char(s[3], true) {
            next_sep_exec(s, 4, false)
        } else {
            let a: usize = next_sep_exec(s, 2, false);
            proof {
                lemma_next_sep(s@, 2, false);
            }
            if 2 < a && a < s.len() {
                let b: usize = next_sep_exec(s, a + 1, false);
                if b > a + 1 {
                    b
                } else {
                    0
                }
            } else {
                0
            }
        }
    } else if is_drive_exec(s, 0) {
        2
    } else {
        0
    }
}

fn trim_seps_exec(s: &Vec<char>, n: usize, w: bool) -> (r: usize)
    requires
        n <= s.len(),
    ensures
        r == trim_seps(s@, n as int, w),
{
    let h: usize = head_exec(s, w);
    let mut k: usize = n;
    while k > h && sep_in_char(s, s[k - 1], w)
        invariant
            k <= n <= s.len(),
            h == head(s@, w),
            trim_seps(s@, k as int, w) == trim_seps(s@, n as int, w),
        decreases k,
    {
        k = k - 1;
    }
    k
}

fn seg_start_exec(s: &Vec<char>, n: usize, w: bool) -> (r: usize)
    requires
        n <= s.len(),
    ensures
        r == seg_start(s@, n as int, w),
{
    let h: usize = head_exec(s, w);
    let mut k: usize = n;
    while k > h && !sep_in_char(s, s[k - 1], w)
        invariant
            k <= n <= s.len(),
            h == head(s@, w),
            seg_start(s@, k as int, w) == seg_start(s@, n as int, w),
        decreases k,
    {
        k = k - 1;
    }
    k
}

/// Where the file name of `s` starts and ends.
pub fn name_range_exec(s: &Vec<char>, w: bool) -> (r: Option<(usize, usize)>)
    ensures
        match r {
            Some((a, b)) => name_range(s@, w) == Some((a as int, b as int)) && a < b <= s.len(),
            None => name_range(s@, w) is None,
        },
{
    let h: usize = head_exec(s, w);
    let v = verbatim_exec(s, w);
    proof {
        lemma_head_bounds(s@, w);
    }
    let mut n: usize = s.len();
    loop
        invariant
            n <= s.len(),
            h == head(s@, w),
            v == verbatim(s@, w),
            name_end(s@, n as int, w) == name_end(s@, s.len() as int, w),
        decreases n,
    {
        if n <= h {
            return None;
        }
        let t: usize = trim_seps_exec(s, n, w);
        proof {
            lemma_trim_seps(s@, n as int, w);
        }
        let j: usize = seg_start_exec(s, t, w);
        proof {
            lemma_seg_start(s@, t as int, w);
        }
        if t <= j {
            return None;
        } else if t == j + 1 && s[j] == '.' {
            if !v && j >= h + 1 {
                n = j - 1;
            } else {
                return None;
            }
        } else if t - j == 2 && s[j] == '.' && s[j + 1] == '.' {
            return None;
        } else {
            return Some((j, t));
        }
    }
}

fn last_dot_exec(name: &Vec<char>, lo: usize, hi: usize) -> (r: Option<usize>)
    requires
        lo <= hi <= name.len(),
    ensures
        ({
            let d = last_dot(name@.subrange(lo as int, hi as int), hi - lo);
            match r {
                Some(k) => d >= 0 && k == lo + d && lo <= k < hi,
                None => d < 0,
            }
        }),
{
    let ghost nm = name@.subrange(lo as int, hi as int);
    let mut k: usize = hi;
    while k > lo && name[k - 1] != '.'
        invariant
            lo <= k <= hi <= name.len(),
            nm == name@.subrange(lo as int, hi as int),
            last_dot(nm, k - lo) == last_dot(nm, hi - lo),
        decreases k,
    {
        assert(nm[k - 1 - lo] == name@[k - 1]);
        k = k - 1;
    }
    if k > lo {
        assert(nm[k - 1 - lo] == name@[k - 1]);
        proof {
            lemma_last_dot(nm, hi - lo);
        }
        Some(k - 1)
    } else {
        None
    }
}

/// Copies `s[lo..hi]`.
pub fn slice_chars(s: &Vec<char>, lo: usize, hi: usize) -> (r: Vec<char>)
    requires
        lo <= hi <= s.len(),
    ensures
        r@ == s@.subrange(lo as int, hi as int),
{
    let mut r: Vec<char> = Vec::new();
    let mut k: usize = lo;
    while k < hi
        invariant
            lo <= k <= hi <= s.len(),
            r@ == s@.subrange(lo as int, k as int),
        decreases hi - k,
    {
        r.push(s[k]);
        k = k + 1;
    }
    r
}

/// Appends all of `b` to `a`.
pub fn append_chars(a: &mut Vec<char>, b: &Vec<char>)
    ensures
        final(a)@ == old(a)@ + b@,
{
    let mut k: usize = 0;
    let ghost a0 = a@;
    while k < b.len()
        invariant
            k <= b.len(),
            a@ == a0 + b@.subrange(0, k as int),
        decreases b.len() - k,
    {
        a.push(b[k]);
        k = k + 1;
    }
    assert(b@.subrange(0, b.len() as int) == b@);
}

/// The stem of the file name of `s`.
pub fn file_stem_exec(s: &Vec<char>, w: bool) -> (r: Option<Vec<char>>)
    ensures
        match r {
            Some(v) => file_stem(s@, w) == Some(v@),
            None => file_stem(s@, w) is None,
        },
{
    match name_range_exec(s, w) {
        None => None,
        Some((a, b)) => {
            proof {
                lemma_name_end(s@, s.len() as int, w);
            }
            let d = last_dot_exec(s, a, b);
            let ghost name = s@.subrange(a as int, b as int);
            match d {
                Some(k) if k > a => {
                    let v = slice_chars(s, a, k);
                    assert(v@ == name.subrange(0, stem_len(name)));
                    Some(v)
                },
                _ => {
                    let v = slice_chars(s, a, b);
                    assert(v@ == name.subrange(0, stem_len(name)));
                    Some(v)
                },
            }
        },
    }
}

/// The extension of the file name of `s`.
pub fn extension_exec(s: &Vec<char>, w: bool) -> (r: Option<Vec<char>>)
    ensures
        match r {
            Some(v) => extension(s@, w) == Some(v@),
            None => extension(s@, w) is None,
        },
{
    match name_range_exec(s, w) {
        None => None,
        Some((a, b)) => {
            proof {
                lemma_name_end(s@, s.len() as int, w);
            }
            let d = last_dot_exec(s, a, b);
            let ghost name = s@.subrange(a as int, b as int);
            match d {
                Some(k) if k > a => {
                    proof {
                        lemma_last_dot(name, name.len() as int);
                    }
                    let v = slice_chars(s, k + 1, b);
                    assert(v@ == name.subrange(k - a + 1, name.len() as int));
                    Some(v)
                },
                _ => None,
            }
        },
    }
}

fn parent_end_exec(s: &Vec<char>, n: usize, w: bool) -> (r: usize)
    requires
        n <= s.len(),
    ensures
        r == parent_end(s@, n as int, w),
{
    let h: usize = head_exec(s, w);
    proof {
        lemma_head_bounds(s@, w);
    }
    let mut k: usize = n;
    loop
        invariant
            k <= n <= s.len(),
            h == head(s@, w),
            h <= s.len(),
            parent_end(s@, k as int, w) == parent_end(s@, n as int, w),
        decreases k,
    {
        if k >= 2 && k - 2 >= h && sep_in_char(s, s[k - 1], w) {
            k = k - 1;
        } else if k >= 2 && k - 2 >= h && s[k - 1] == '.' && sep_in_char(s, s[k - 2], w)
            && !verbatim_exec(s, w) {
            k = k - 1;
        } else {
            return k;
        }
    }
}

/// `s` with its file name replaced by `name`.
pub fn with_file_name_exec(s: &Vec<char>, name: &Vec<char>, w: bool) -> (r: Vec<char>)
    ensures
        r@ == with_file_name(s@, name@, w),
{
    let dir: Vec<char> = match name_range_exec(s, w) {
        Some((a, _b)) => {
            proof {
                lemma_name_end(s@, s.len() as int, w);
                lemma_seg_start(s@, name_end(s@, s.len() as int, w), w);
            }
            let m: usize = parent_end_exec(s, a, w);
            proof {
                lemma_parent_end(s@, a as int, w);
            }
            slice_chars(s, 0, m)
        },
        None => {
            let d = slice_chars(s, 0, s.len());
            assert(s@.subrange(0, s.len() as int) =~= s@);
            d
        },
    };
    join_name_exec(&dir, name, w)
}

/// `dir` joined with a relative `name`.
pub fn join_name_exec(dir: &Vec<char>, name: &Vec<char>, w: bool) -> (r: Vec<char>)
    ensures
        r@ == join_name(dir@, name@, w),
{
    let mut r = slice_chars(dir, 0, dir.len());
    assert(dir@.subrange(0, dir.len() as int) =~= dir@);
    if dir.len() > 0 && !sep_in_char(dir, dir[dir.len() - 1], w) && !(w && dir.len() == 2
        && is_drive_exec(dir, 0)) {
        r.push(main_sep_char(w));
    }
    append_chars(&mut r, name);
    r
}

/// `name` in the folder of `s` (its parent, or `.`).
pub fn beside_path_exec(s: &Vec<char>, name: &Vec<char>, w: bool) -> (r: Vec<char>)
    ensures
        r@ == beside_path(s@, name@, w),
{
    let dir: Vec<char> = match name_range_exec(s, w) {
        Some((a, _b)) => {
            proof {
                lemma_name_end(s@, s.len() as int, w);
                lemma_seg_start(s@, name_end(s@, s.len() as int, w), w);
            }
            let m: usize = parent_end_exec(s, a, w);
            proof {
                lemma_parent_end(s@, a as int, w);
            }
            slice_chars(s, 0, m)
        },
        None => {
            let e: usize = parent_end_exec(s, s.len(), w);
            proof {
                lemma_parent_end(s@, s.len() as int, w);
            }
            let h: usize = head_exec(s, w);
            proof {
                lemma_head_bounds(s@, w);
            }
            if e <= h || (e == h + 1 && sep_in_char(s, s[h], w)) {
                let mut d: Vec<char> = Vec::new();
                d.push('.');
                proof {
                    reveal_strlit(".");
                }
                assert(d@ =~= "."@);
                d
            } else if e == h + 1 {
                slice_chars(s, 0, h)
            } else {
                let j: usize = seg_start_exec(s, e, w);
                proof {
                    lemma_seg_start(s@, e as int, w);
                }
                let m: usize = parent_end_exec(s, j, w);
                proof {
                    lemma_parent_end(s@, j as int, w);
                }
                slice_chars(s, 0, m)
            }
        },
    };
    join_name_exec(&dir, name, w)
}

/// `s` with its extension replaced by `ext`.
pub fn with_extension_exec(s: &Vec<char>, ext: &Vec<char>, w: bool) -> (r: Vec<char>)
    ensures
        r@ == with_extension(s@, ext@, w),
{
    match name_range_exec(s, w) {
        Some((a, b)) => {
            proof {
                lemma_name_end(s@, s.len() as int, w);
                lemma_seg_start(s@, name_end(s@, s.len() as int, w), w);
            }
            let ghost name = s@.subrange(a as int, b as int);
            let d = last_dot_exec(s, a, b);
            let end: usize = match d {
                Some(k) if k > a => k,
                _ => b,
            };
            assert(end == a + stem_len(name));
            let mut r = slice_chars(s, 0, end);
            r.push('.');
            append_chars(&mut r, ext);
            r
        },
        None => slice_chars(s, 0, s.len()),
    }
}

} // verus!
