//! Where the files an encode writes go: the temporary file while it runs,
//! the finished copy beside the original, the backup kept while the
//! original is replaced, and the replacing file itself.
use vstd::prelude::*;
use crate::jobs::{is_uuid_text, random_uuid_text};
use crate::discovery::is_source_video_spec;
use crate::paths::{
    append_chars, beside_path, beside_path_exec, extension, extension_exec, file_name, file_stem,
    file_stem_exec, folder_part, is_drive_at, is_sep, join_name, last_dot, name_at_start,
    name_range, parent_end, parent_of, sep_in, stem_len, with_extension, with_extension_exec,
    with_file_name, with_file_name_exec, lemma_beside_path_file, lemma_beside_path_with_file_name,
    lemma_extension_no_dot, lemma_file_name_parts_no_sep, lemma_join_name_split,
    lemma_last_dot_concat, lemma_last_dot_nodot, lemma_name_after_sep, lemma_name_range_bounds,
    lemma_parent_end, lemma_stem_len_bounds, lemma_with_file_name_file, lemma_with_file_name_split,
};
use crate::text::{
    ascii_lower, ascii_lower_seq, chars_of, contains_seq, decimal, decimal_chars, is_digit,
    lemma_decimal_digits, lemma_decimal_value, occurs_at, string_of,
};

verus! {

/// The stem of the input's file name, `video` where it has none.
pub open spec fn stem_spec(p: Seq<char>, windows: bool) -> Seq<char> {
    match file_stem(p, windows) {
        Some(s) => s,
        None => "video"@,
    }
}

/// The suffix of a numbered (or random) name: `-squeezed-{mid}.mp4`.
pub open spec fn numbered_suffix(mid: Seq<char>) -> Seq<char> {
    "-squeezed-"@ + mid + ".mp4"@
}

/// The suffix of the backup name: `.squeeze-backup.{ext}`.
pub open spec fn backup_suffix(p: Seq<char>, windows: bool) -> Seq<char> {
    ".squeeze-backup."@ + match extension(p, windows) {
        Some(e) => e,
        None => "mp4"@,
    }
}

pub open spec fn temp_path_spec(p: Seq<char>, windows: bool) -> Seq<char> {
    with_file_name(p, stem_spec(p, windows) + ".tmp-compressed.mp4"@, windows)
}

pub open spec fn beside_original_spec(p: Seq<char>, windows: bool) -> Seq<char> {
    with_file_name(p, stem_spec(p, windows) + "-squeezed.mp4"@, windows)
}

/// `{stem}-squeezed-{n}.mp4` in the input's folder (its parent, or `.`).
pub open spec fn squeezed_candidate_spec(p: Seq<char>, n: nat, windows: bool) -> Seq<char> {
    beside_path(p, stem_spec(p, windows) + numbered_suffix(decimal(n)), windows)
}

/// `{stem}-squeezed-{u}.mp4` in the input's folder (its parent, or `.`).
pub open spec fn fallback_name_spec(p: Seq<char>, u: Seq<char>, windows: bool) -> Seq<char> {
    beside_path(p, stem_spec(p, windows) + numbered_suffix(u), windows)
}

pub open spec fn backup_path_spec(p: Seq<char>, windows: bool) -> Seq<char> {
    with_file_name(p, stem_spec(p, windows) + backup_suffix(p, windows), windows)
}

pub open spec fn replace_final_path_spec(p: Seq<char>, windows: bool) -> Seq<char> {
    with_extension(p, "mp4"@, windows)
}

fn stem_chars(input: &Vec<char>, windows: bool) -> (r: Vec<char>)
    ensures
        r@ == stem_spec(input@, windows),
{
    match file_stem_exec(input, windows) {
        Some(s) => s,
        None => chars_of("video"),
    }
}

/// The stem of the input's file name, `video` where it has none.
pub fn stem(input: &str, windows: bool) -> (r: String)
    ensures
        r@ == stem_spec(input@, windows),
{
    string_of(&stem_chars(&chars_of(input), windows))
}

fn stem_with(input: &Vec<char>, suffix: &str, windows: bool) -> (r: Vec<char>)
    ensures
        r@ == with_file_name(input@, stem_spec(input@, windows) + suffix@, windows),
{
    let mut name = stem_chars(input, windows);
    append_chars(&mut name, &chars_of(suffix));
    with_file_name_exec(input, &name, windows)
}

/// Mid-encode file: `{stem}.tmp-compressed.mp4` beside the input.
pub fn temp_path(input: &str, windows: bool) -> (r: String)
    ensures
        r@ == temp_path_spec(input@, windows),
{
    string_of(&stem_with(&chars_of(input), ".tmp-compressed.mp4", windows))
}

/// Finished copy: `{stem}-squeezed.mp4` beside the input.
pub fn beside_original(input: &str, windows: bool) -> (r: String)
    ensures
        r@ == beside_original_spec(input@, windows),
{
    string_of(&stem_with(&chars_of(input), "-squeezed.mp4", windows))
}

/// The `n`-th numbered alternative to `beside_original`, tried when that
/// file exists already: `{stem}-squeezed-{n}.mp4`.
pub fn squeezed_candidate(input: &str, n: u64, windows: bool) -> (r: String)
    ensures
        r@ == squeezed_candidate_spec(input@, n as nat, windows),
{
    let v = chars_of(input);
    let mut name = stem_chars(&v, windows);
    append_chars(&mut name, &chars_of("-squeezed-"));
    append_chars(&mut name, &decimal_chars(n));
    append_chars(&mut name, &chars_of(".mp4"));
    assert(name@ =~= stem_spec(input@, windows) + numbered_suffix(decimal(n as nat)));
    string_of(&beside_path_exec(&v, &name, windows))
}

/// The last resort when every numbered name is taken:
/// `{stem}-squeezed-{uuid}.mp4` with a random UUID.
pub fn squeezed_fallback(input: &str, windows: bool) -> (r: String)
    ensures
        exists|u: Seq<char>| is_uuid_text(u) && r@ == fallback_name_spec(input@, u, windows),
{
    let v = chars_of(input);
    let u = random_uuid_text();
    let mut name = stem_chars(&v, windows);
    append_chars(&mut name, &chars_of("-squeezed-"));
    append_chars(&mut name, &chars_of(u.as_str()));
    append_chars(&mut name, &chars_of(".mp4"));
    assert(name@ =~= stem_spec(input@, windows) + numbered_suffix(u@));
    let r = string_of(&beside_path_exec(&v, &name, windows));
    assert(is_uuid_text(u@));
    r
}

/// The name tried `n`-th for the finished copy: `beside_original` first,
/// then `{stem}-squeezed-{n}.mp4` for `n` from 2.
pub open spec fn unique_candidate_spec(p: Seq<char>, n: nat, windows: bool) -> Seq<char> {
    if n <= 1 {
        beside_original_spec(p, windows)
    } else {
        squeezed_candidate_spec(p, n, windows)
    }
}

/// The last numbered name tried before a random one is used.
pub const LAST_NUMBERED_NAME: u64 = 9_999;

/// The `n`-th name tried for the finished copy.
pub fn unique_candidate(input: &str, n: u64, windows: bool) -> (r: String)
    ensures
        r@ == unique_candidate_spec(input@, n as nat, windows),
{
    if n <= 1 {
        beside_original(input, windows)
    } else {
        squeezed_candidate(input, n, windows)
    }
}

/// What to do once it is known whether a tried name is taken.
pub enum NameStep {
    /// Write the finished copy here.
    Use(String),
    /// Find out whether this name, the `n`-th, is taken.
    Check { n: u64, path: String },
}

/// The search for a free name for the finished copy, one step: `n` is the
/// number of the name just tried and `taken` whether a file has it. A free
/// name is used; a taken one leads to the next numbered name, and after the
/// last numbered name to a random one.
pub fn next_unique_name(input: &str, n: u64, taken: bool, windows: bool) -> (r: NameStep)
    requires
        1 <= n <= LAST_NUMBERED_NAME,
    ensures
        !taken ==> (r matches NameStep::Use(p) && p@ == unique_candidate_spec(input@, n as nat, windows)),
        taken && n < LAST_NUMBERED_NAME ==> (r matches NameStep::Check { n: m, path } && m == n + 1
            && path@ == unique_candidate_spec(input@, m as nat, windows)),
        taken && n == LAST_NUMBERED_NAME ==> (r matches NameStep::Use(p) && exists|u: Seq<char>|
            is_uuid_text(u) && p@ == fallback_name_spec(input@, u, windows)),
{
    if !taken {
        NameStep::Use(unique_candidate(input, n, windows))
    } else if n < LAST_NUMBERED_NAME {
        NameStep::Check { n: n + 1, path: unique_candidate(input, n + 1, windows) }
    } else {
        NameStep::Use(squeezed_fallback(input, windows))
    }
}

/// The original, renamed aside while it is replaced:
/// `{stem}.squeeze-backup.{ext}` (`mp4` where it has no extension).
pub fn backup_path(input: &str, windows: bool) -> (r: String)
    ensures
        r@ == backup_path_spec(input@, windows),
{
    let v = chars_of(input);
    let ext = match extension_exec(&v, windows) {
        Some(e) => e,
        None => chars_of("mp4"),
    };
    let mut name = stem_chars(&v, windows);
    append_chars(&mut name, &chars_of(".squeeze-backup."));
    append_chars(&mut name, &ext);
    assert(name@ =~= stem_spec(input@, windows) + backup_suffix(input@, windows));
    string_of(&with_file_name_exec(&v, &name, windows))
}

/// Replace always lands on `.mp4` (that is what is encoded).
pub fn replace_final_path(input: &str, windows: bool) -> (r: String)
    ensures
        r@ == replace_final_path_spec(input@, windows),
{
    string_of(&with_extension_exec(&chars_of(input), &chars_of("mp4"), windows))
}

pub open spec fn no_sep(s: Seq<char>, windows: bool) -> bool {
    forall|k: int| 0 <= k < s.len() ==> !is_sep(#[trigger] s[k], windows)
}

/// No character of `s` separates components of the path `p`.
pub open spec fn no_sep_in(s: Seq<char>, p: Seq<char>, windows: bool) -> bool {
    forall|k: int| 0 <= k < s.len() ==> !sep_in(p, #[trigger] s[k], windows)
}

pub open spec fn lower_invariant(s: Seq<char>) -> bool {
    forall|k: int| 0 <= k < s.len() ==> ascii_lower(#[trigger] s[k]) == s[k]
}

proof fn lemma_stem_no_sep(p: Seq<char>, windows: bool)
    ensures
        no_sep_in(stem_spec(p, windows), p, windows),
        file_name(p, windows) is None ==> no_sep(stem_spec(p, windows), windows),
{
    lemma_file_name_parts_no_sep(p, windows);
    if file_stem(p, windows) is None {
        assert(no_sep("video"@, windows)) by {
            reveal_strlit("video");
        }
    }
}

/// What holds no separator character holds none of any path.
proof fn lemma_no_sep_in(s: Seq<char>, p: Seq<char>, windows: bool)
    requires
        no_sep(s, windows),
    ensures
        no_sep_in(s, p, windows),
{
    assert forall|k: int| 0 <= k < s.len() implies !sep_in(p, #[trigger] s[k], windows) by {
        assert(!is_sep(s[k], windows));
    }
}

/// A stem followed by a suffix holds no separator of `p` (nor any at all)
/// where neither part does.
proof fn lemma_marked_chars(p: Seq<char>, stem: Seq<char>, suffix: Seq<char>, windows: bool)
    requires
        no_sep_in(stem, p, windows),
        no_sep_in(suffix, p, windows),
    ensures
        no_sep_in(stem + suffix, p, windows),
        no_sep(stem, windows) && no_sep(suffix, windows) ==> no_sep(stem + suffix, windows),
{
    let name = stem + suffix;
    assert forall|k: int| 0 <= k < name.len() implies !sep_in(p, #[trigger] name[k], windows) by {
        if k >= stem.len() {
            assert(name[k] == suffix[k - stem.len()]);
        }
    }
    if no_sep(stem, windows) && no_sep(suffix, windows) {
        assert forall|k: int| 0 <= k < name.len() implies !is_sep(#[trigger] name[k], windows) by {
            if k >= stem.len() {
                assert(name[k] == suffix[k - stem.len()]);
            }
        }
    }
}

/// A path whose file name is `stem + suffix`, where `pat` starts the suffix
/// and is one of the marks this program puts in its own file names, is
/// never taken for a source video.
proof fn lemma_marked_name(
    q: Seq<char>,
    stem: Seq<char>,
    suffix: Seq<char>,
    pat: Seq<char>,
    windows: bool,
)
    requires
        file_name(q, windows) == Some(stem + suffix),
        pat.len() <= suffix.len(),
        suffix.subrange(0, pat.len() as int) == pat,
        lower_invariant(pat),
        pat == ".tmp-compressed."@ || pat == "-squeezed"@ || pat == ".squeeze-backup."@,
    ensures
        !is_source_video_spec(q, windows),
{
    let name = stem + suffix;
    let low = ascii_lower_seq(name);
    let i = stem.len() as int;
    assert(low.subrange(i, i + pat.len()) =~= pat) by {
        assert forall|k: int| 0 <= k < pat.len() implies #[trigger] low.subrange(i, i + pat.len())[k]
            == pat[k] by {
            assert(name[i + k] == suffix[k]);
            assert(suffix[k] == suffix.subrange(0, pat.len() as int)[k]);
        }
    }
    assert(occurs_at(low, pat, i));
    assert(contains_seq(low, pat));
}

proof fn lemma_literal_facts(windows: bool)
    ensures
        no_sep(".tmp-compressed.mp4"@, windows),
        no_sep("-squeezed.mp4"@, windows),
        no_sep("-squeezed-"@, windows),
        no_sep(".mp4"@, windows),
        no_sep(".squeeze-backup."@, windows),
        no_sep("mp4"@, windows),
        lower_invariant(".tmp-compressed."@),
        lower_invariant("-squeezed"@),
        lower_invariant(".squeeze-backup."@),
        ".tmp-compressed.mp4"@.subrange(0, 16) == ".tmp-compressed."@,
        "-squeezed.mp4"@.subrange(0, 9) == "-squeezed"@,
        "-squeezed-"@.subrange(0, 9) == "-squeezed"@,
        "-squeezed.mp4"@.len() == 13,
        "-squeezed-"@.len() == 10,
        ".squeeze-backup."@.len() == 16,
        ".tmp-compressed.mp4"@.len() == 19,
{
    reveal_strlit(".tmp-compressed.mp4");
    reveal_strlit("-squeezed.mp4");
    reveal_strlit("-squeezed-");
    reveal_strlit(".mp4");
    reveal_strlit(".squeeze-backup.");
    reveal_strlit("mp4");
    reveal_strlit(".tmp-compressed.");
    reveal_strlit("-squeezed");
    assert(".tmp-compressed.mp4"@.subrange(0, 16) =~= ".tmp-compressed."@);
    assert("-squeezed.mp4"@.subrange(0, 9) =~= "-squeezed"@);
    assert("-squeezed-"@.subrange(0, 9) =~= "-squeezed"@);
}

/// The middle of a numbered name holds no separator and does not start
/// the mark away.
proof fn lemma_numbered_suffix(mid: Seq<char>, windows: bool)
    requires
        no_sep(mid, windows),
    ensures
        no_sep(numbered_suffix(mid), windows),
        numbered_suffix(mid).subrange(0, 9) == "-squeezed"@,
        numbered_suffix(mid).len() >= 3,
{
    lemma_literal_facts(windows);
    let num = numbered_suffix(mid);
    assert(no_sep(num, windows)) by {
        assert forall|k: int| 0 <= k < num.len() implies !is_sep(#[trigger] num[k], windows) by {
            if k >= 10 && k < 10 + mid.len() {
                assert(num[k] == mid[k - 10]);
            } else if k < 10 {
                assert(num[k] == "-squeezed-"@[k]);
            } else {
                assert(num[k] == ".mp4"@[k - 10 - mid.len()]);
            }
        }
    }
    assert(num.subrange(0, 9) =~= "-squeezed"@) by {
        assert forall|k: int| 0 <= k < 9 implies #[trigger] num.subrange(0, 9)[k] == "-squeezed"@[k] by {
            assert(num[k] == "-squeezed-"@[k]);
            assert("-squeezed-"@[k] == "-squeezed-"@.subrange(0, 9)[k]);
        }
    }
}

proof fn lemma_decimal_no_sep(n: nat, windows: bool)
    ensures
        no_sep(decimal(n), windows),
{
    lemma_decimal_digits(n);
    assert forall|k: int| 0 <= k < decimal(n).len() implies !is_sep(#[trigger] decimal(n)[k], windows) by {
        assert(is_digit(decimal(n)[k]));
    }
}

proof fn lemma_uuid_no_sep(u: Seq<char>, windows: bool)
    requires
        is_uuid_text(u),
    ensures
        no_sep(u, windows),
{
    assert forall|k: int| 0 <= k < u.len() implies !is_sep(#[trigger] u[k], windows) by {
        if !(k == 8 || k == 13 || k == 18 || k == 23) {
            assert(('0' <= u[k] && u[k] <= '9') || ('a' <= u[k] && u[k] <= 'f'));
        }
    }
}

proof fn lemma_backup_suffix(p: Seq<char>, windows: bool)
    ensures
        no_sep_in(backup_suffix(p, windows), p, windows),
        extension(p, windows) is None ==> no_sep(backup_suffix(p, windows), windows),
        backup_suffix(p, windows).subrange(0, 16) == ".squeeze-backup."@,
        backup_suffix(p, windows).len() >= 16,
{
    lemma_literal_facts(windows);
    lemma_file_name_parts_no_sep(p, windows);
    let ext = match extension(p, windows) {
        Some(e) => e,
        None => "mp4"@,
    };
    let bak = backup_suffix(p, windows);
    assert(bak == ".squeeze-backup."@ + ext);
    assert(no_sep_in(bak, p, windows)) by {
        assert forall|k: int| 0 <= k < bak.len() implies !sep_in(p, #[trigger] bak[k], windows) by {
            if k >= 16 {
                assert(bak[k] == ext[k - 16]);
            } else {
                assert(bak[k] == ".squeeze-backup."@[k]);
            }
        }
    }
    if extension(p, windows) is None {
        reveal_strlit("mp4");
        assert(no_sep(bak, windows)) by {
            assert forall|k: int| 0 <= k < bak.len() implies !is_sep(#[trigger] bak[k], windows) by {
                if k >= 16 {
                    assert(bak[k] == "mp4"@[k - 16]);
                } else {
                    assert(bak[k] == ".squeeze-backup."@[k]);
                }
            }
        }
    }
    assert(bak.subrange(0, 16) =~= ".squeeze-backup."@);
}

/// A name made of the input's stem and a suffix that does not start with
/// `:` begins with no drive where the input's file name begins the input.
proof fn lemma_stem_not_drive(p: Seq<char>, suffix: Seq<char>, windows: bool)
    requires
        suffix.len() >= 1,
        suffix[0] != ':',
    ensures
        windows && name_at_start(p, windows) && !is_drive_at(p, 0) ==> !is_drive_at(
            stem_spec(p, windows) + suffix,
            0,
        ),
{
    let q = stem_spec(p, windows) + suffix;
    if name_at_start(p, windows) && windows && !is_drive_at(p, 0) {
        match name_range(p, windows) {
            None => {
                reveal_strlit("video");
                assert("video"@.len() == 5);
                assert(q[1] == "video"@[1]);
            },
            Some((a, b)) => {
                lemma_name_range_bounds(p, windows);
                let name = p.subrange(a, b);
                lemma_stem_len_bounds(name);
                let st = stem_spec(p, windows);
                assert(st == name.subrange(0, stem_len(name)));
                if st.len() >= 2 {
                    assert(st[0] == p[0] && st[1] == p[1]);
                    assert(q[0] == p[0] && q[1] == p[1]);
                } else if st.len() == 1 {
                    assert(q[1] == suffix[0]);
                }
            },
        }
    }
}

/// The file names of everything written for an input: the input's stem and
/// a suffix of the program's own, unless a prefix takes in the whole path
/// and leaves it none. Where the input has
/// no file name, none of them is the input.
proof fn lemma_output_files(p: Seq<char>, n: nat, u: Seq<char>, windows: bool)
    requires
        is_uuid_text(u),
    ensures
        file_name(temp_path_spec(p, windows), windows) is None || file_name(
            temp_path_spec(p, windows),
            windows,
        ) == Some(stem_spec(p, windows) + ".tmp-compressed.mp4"@),
        file_name(beside_original_spec(p, windows), windows) is None || file_name(
            beside_original_spec(p, windows),
            windows,
        ) == Some(stem_spec(p, windows) + "-squeezed.mp4"@),
        file_name(backup_path_spec(p, windows), windows) is None || file_name(
            backup_path_spec(p, windows),
            windows,
        ) == Some(stem_spec(p, windows) + backup_suffix(p, windows)),
        file_name(squeezed_candidate_spec(p, n, windows), windows) is None || file_name(
            squeezed_candidate_spec(p, n, windows),
            windows,
        ) == Some(stem_spec(p, windows) + numbered_suffix(decimal(n))),
        file_name(fallback_name_spec(p, u, windows), windows) is None || file_name(
            fallback_name_spec(p, u, windows),
            windows,
        ) == Some(stem_spec(p, windows) + numbered_suffix(u)),
        file_name(p, windows) is None ==> temp_path_spec(p, windows) != p && beside_original_spec(
            p,
            windows,
        ) != p && backup_path_spec(p, windows) != p && squeezed_candidate_spec(p, n, windows)
            != p && fallback_name_spec(p, u, windows) != p,
{
    lemma_literal_facts(windows);
    lemma_stem_no_sep(p, windows);
    lemma_suffix_facts(p, decimal(n), windows);
    lemma_suffix_facts(p, u, windows);
    let stem = stem_spec(p, windows);
    let tn = ".tmp-compressed.mp4"@;
    let bn = "-squeezed.mp4"@;
    let kn = backup_suffix(p, windows);
    let cn = numbered_suffix(decimal(n));
    let fname = numbered_suffix(u);
    lemma_no_sep_in(tn, p, windows);
    lemma_marked_chars(p, stem, tn, windows);
    lemma_stem_not_drive(p, tn, windows);
    lemma_with_file_name_file(p, stem + tn, windows);
    lemma_no_sep_in(bn, p, windows);
    lemma_marked_chars(p, stem, bn, windows);
    lemma_stem_not_drive(p, bn, windows);
    lemma_with_file_name_file(p, stem + bn, windows);
    lemma_backup_suffix(p, windows);
    lemma_marked_chars(p, stem, kn, windows);
    lemma_stem_not_drive(p, kn, windows);
    lemma_with_file_name_file(p, stem + kn, windows);
    lemma_decimal_no_sep(n, windows);
    lemma_numbered_suffix(decimal(n), windows);
    lemma_no_sep_in(cn, p, windows);
    lemma_marked_chars(p, stem, cn, windows);
    lemma_stem_not_drive(p, cn, windows);
    lemma_beside_path_file(p, stem + cn, windows);
    lemma_uuid_no_sep(u, windows);
    lemma_numbered_suffix(u, windows);
    lemma_no_sep_in(fname, p, windows);
    lemma_marked_chars(p, stem, fname, windows);
    lemma_stem_not_drive(p, fname, windows);
    lemma_beside_path_file(p, stem + fname, windows);
}

/// Nothing this program writes beside an input (the temporary file, the
/// finished copy, its numbered and random alternatives, the backup of a
/// replaced original) is ever picked up again as a source video.
pub proof fn law_outputs_are_not_sources(p: Seq<char>, n: nat, u: Seq<char>, windows: bool)
    requires
        is_uuid_text(u),
    ensures
        !is_source_video_spec(temp_path_spec(p, windows), windows),
        !is_source_video_spec(beside_original_spec(p, windows), windows),
        !is_source_video_spec(squeezed_candidate_spec(p, n, windows), windows),
        !is_source_video_spec(fallback_name_spec(p, u, windows), windows),
        !is_source_video_spec(backup_path_spec(p, windows), windows),
{
    lemma_literal_facts(windows);
    lemma_output_files(p, n, u, windows);
    lemma_backup_suffix(p, windows);
    lemma_decimal_no_sep(n, windows);
    lemma_numbered_suffix(decimal(n), windows);
    lemma_uuid_no_sep(u, windows);
    lemma_numbered_suffix(u, windows);
    let stem = stem_spec(p, windows);
    let t = temp_path_spec(p, windows);
    let b = beside_original_spec(p, windows);
    let c = squeezed_candidate_spec(p, n, windows);
    let f = fallback_name_spec(p, u, windows);
    let k = backup_path_spec(p, windows);
    if file_name(t, windows) is Some {
        lemma_marked_name(t, stem, ".tmp-compressed.mp4"@, ".tmp-compressed."@, windows);
    }
    if file_name(b, windows) is Some {
        lemma_marked_name(b, stem, "-squeezed.mp4"@, "-squeezed"@, windows);
    }
    if file_name(c, windows) is Some {
        lemma_marked_name(c, stem, numbered_suffix(decimal(n)), "-squeezed"@, windows);
    }
    if file_name(f, windows) is Some {
        lemma_marked_name(f, stem, numbered_suffix(u), "-squeezed"@, windows);
    }
    if file_name(k, windows) is Some {
        lemma_marked_name(k, stem, backup_suffix(p, windows), ".squeeze-backup."@, windows);
    }
}

proof fn lemma_suffix_char(stem: Seq<char>, a: Seq<char>, b: Seq<char>, i: int)
    requires
        0 <= i < a.len(),
        i < b.len(),
        a[i] != b[i],
    ensures
        stem + a != stem + b,
{
    assert((stem + a)[stem.len() + i] == a[i]);
    assert((stem + b)[stem.len() + i] == b[i]);
}

/// Two numbered (or random) names with the same stem are equal only with
/// the same middle part.
proof fn lemma_numbered_eq(stem: Seq<char>, x: Seq<char>, y: Seq<char>)
    requires
        stem + numbered_suffix(x) == stem + numbered_suffix(y),
    ensures
        x == y,
{
    reveal_strlit("-squeezed-");
    reveal_strlit(".mp4");
    assert("-squeezed-"@.len() == 10);
    assert(".mp4"@.len() == 4);
    let a = stem + numbered_suffix(x);
    let b = stem + numbered_suffix(y);
    assert(a.len() == b.len());
    assert(x.len() == y.len());
    assert forall|i: int| 0 <= i < x.len() implies x[i] == #[trigger] y[i] by {
        assert(numbered_suffix(x)[10 + i] == x[i]);
        assert(numbered_suffix(y)[10 + i] == y[i]);
        assert(a[stem.len() + 10 + i] == numbered_suffix(x)[10 + i]);
        assert(b[stem.len() + 10 + i] == numbered_suffix(y)[10 + i]);
    }
    assert(x =~= y);
}

/// The characters of the suffixes that tell them apart, and the position
/// of their last dot.
proof fn lemma_suffix_facts(p: Seq<char>, mid: Seq<char>, windows: bool)
    ensures
        ".tmp-compressed.mp4"@[0] == '.',
        ".tmp-compressed.mp4"@[1] == 't',
        ".tmp-compressed.mp4"@.len() == 19,
        "-squeezed.mp4"@[0] == '-',
        "-squeezed.mp4"@[9] == '.',
        "-squeezed.mp4"@.len() == 13,
        ".mp4"@[0] == '.',
        ".mp4"@[1] == 'm',
        ".mp4"@.len() == 4,
        numbered_suffix(mid)[0] == '-',
        numbered_suffix(mid)[9] == '-',
        numbered_suffix(mid).len() == mid.len() + 14,
        backup_suffix(p, windows)[0] == '.',
        backup_suffix(p, windows)[1] == 's',
        backup_suffix(p, windows).len() >= 16,
        last_dot(".tmp-compressed.mp4"@, 19) > 0,
        last_dot("-squeezed.mp4"@, 13) > 0,
        last_dot(numbered_suffix(mid), numbered_suffix(mid).len() as int) > 0,
        last_dot(backup_suffix(p, windows), backup_suffix(p, windows).len() as int) > 0,
{
    reveal_strlit(".tmp-compressed.mp4");
    reveal_strlit(".tmp-compressed");
    reveal_strlit("-squeezed.mp4");
    reveal_strlit("-squeezed");
    reveal_strlit("-squeezed-");
    reveal_strlit(".mp4");
    reveal_strlit(".squeeze-backup.");
    reveal_strlit(".squeeze-backup");
    reveal_strlit(".");
    reveal_strlit("mp4");
    let m4 = ".mp4"@;
    assert(last_dot(m4, 1) == 0);
    assert(last_dot(m4, 2) == 0);
    assert(last_dot(m4, 3) == 0);
    assert(last_dot(m4, 4) == 0);
    assert(last_dot("."@, 1) == 0);
    assert(".tmp-compressed.mp4"@ =~= ".tmp-compressed"@ + m4);
    lemma_last_dot_concat(".tmp-compressed"@, m4, 4);
    assert("-squeezed.mp4"@ =~= "-squeezed"@ + m4);
    lemma_last_dot_concat("-squeezed"@, m4, 4);
    let ns = numbered_suffix(mid);
    assert(ns =~= ("-squeezed-"@ + mid) + m4);
    lemma_last_dot_concat("-squeezed-"@ + mid, m4, 4);
    assert(ns[0] == "-squeezed-"@[0]);
    assert(ns[9] == "-squeezed-"@[9]);
    let ext = match extension(p, windows) {
        Some(e) => e,
        None => "mp4"@,
    };
    lemma_extension_no_dot(p, windows);
    assert forall|i: int| 0 <= i < ext.len() implies #[trigger] ext[i] != '.' by {
        if extension(p, windows) is None {
            assert("mp4"@[i] != '.');
        }
    }
    let head = ".squeeze-backup"@ + "."@;
    assert(backup_suffix(p, windows) =~= head + ext);
    assert(head =~= ".squeeze-backup."@);
    lemma_last_dot_concat(".squeeze-backup"@, "."@, 1);
    lemma_last_dot_nodot(head, ext);
    assert(backup_suffix(p, windows)[0] == head[0]);
    assert(backup_suffix(p, windows)[1] == head[1]);
}

/// A path whose file name is the input's stem and a suffix with a dot past
/// its start is not the input: the input's own file name would then have
/// a longer stem.
proof fn lemma_not_input(p: Seq<char>, q: Seq<char>, suffix: Seq<char>, windows: bool)
    requires
        file_name(q, windows) == Some(stem_spec(p, windows) + suffix),
        last_dot(suffix, suffix.len() as int) > 0,
    ensures
        q != p,
{
    if q == p {
        let name = stem_spec(p, windows) + suffix;
        let st = stem_spec(p, windows);
        assert(file_stem(p, windows) == Some(name.subrange(0, stem_len(name))));
        lemma_stem_len_bounds(name);
        assert(st.len() == stem_len(name));
        lemma_last_dot_concat(st, suffix, suffix.len() as int);
        assert(last_dot(name, name.len() as int) == st.len() + last_dot(suffix, suffix.len() as int));
    }
}

/// A folder followed by two different names gives two different paths.
proof fn lemma_prefix_ne(f: Seq<char>, x: Seq<char>, y: Seq<char>)
    requires
        x != y,
    ensures
        f + x != f + y,
{
    if f + x == f + y {
        assert((f + x).subrange(f.len() as int, (f + x).len() as int) =~= x);
        assert((f + y).subrange(f.len() as int, (f + y).len() as int) =~= y);
    }
}

/// Two paths that end with a stem and two suffixes whose `k`-th characters
/// from the end differ are different.
proof fn lemma_end_ne(f: Seq<char>, g: Seq<char>, st: Seq<char>, x: Seq<char>, y: Seq<char>, k: int)
    requires
        1 <= k <= x.len(),
        k <= y.len(),
        x[x.len() - k] != y[y.len() - k],
    ensures
        f + (st + x) != g + (st + y),
{
    let a = f + (st + x);
    let b = g + (st + y);
    assert(a[a.len() - k] == x[x.len() - k]);
    assert(b[b.len() - k] == y[y.len() - k]);
}

/// The character `k` places from the end of a numbered suffix, for `k`
/// past `.mp4`, is in its middle part.
proof fn lemma_numbered_end(mid: Seq<char>, k: int)
    requires
        5 <= k <= mid.len() + 4,
    ensures
        numbered_suffix(mid)[numbered_suffix(mid).len() - k] == mid[mid.len() - (k - 4)],
{
    reveal_strlit("-squeezed-");
    reveal_strlit(".mp4");
    assert("-squeezed-"@.len() == 10);
    assert(".mp4"@.len() == 4);
}

/// The characters near the end of the program's own suffixes that tell
/// them apart from numbered and random ones.
proof fn lemma_end_chars(p: Seq<char>, windows: bool)
    ensures
        ".tmp-compressed.mp4"@[14] == 'd',
        ".tmp-compressed.mp4"@[12] == 's',
        "-squeezed.mp4"@[8] == 'd',
        "-squeezed.mp4"@[6] == 'z',
        extension(p, windows) is None ==> backup_suffix(p, windows).len() == 19 && backup_suffix(
            p,
            windows,
        )[14] == 'p',
{
    reveal_strlit(".tmp-compressed.mp4");
    reveal_strlit("-squeezed.mp4");
    reveal_strlit(".squeeze-backup.");
    reveal_strlit("mp4");
}

/// An input with a file name is not replaced by any path made of its folder
/// part, its stem and a long enough suffix without separators: the
/// replacing file keeps the input's own folder, which ends with a separator
/// just where such a path has a character of its name.
proof fn lemma_not_replaced(p: Seq<char>, q: Seq<char>, suffix: Seq<char>, windows: bool)
    requires
        file_name(p, windows) is Some,
        q == folder_part(p, windows) + (stem_spec(p, windows) + suffix),
        no_sep_in(suffix, p, windows),
        suffix.len() >= 8,
    ensures
        q != replace_final_path_spec(p, windows),
{
    let (a, b) = match name_range(p, windows) {
        Some(r) => r,
        None => (0, 0),
    };
    lemma_name_range_bounds(p, windows);
    lemma_name_after_sep(p, windows);
    lemma_stem_no_sep(p, windows);
    lemma_parent_end(p, a, windows);
    let name = p.subrange(a, b);
    lemma_stem_len_bounds(name);
    let sl = stem_len(name);
    let st = stem_spec(p, windows);
    assert(st == name.subrange(0, sl));
    let f = folder_part(p, windows);
    let d0 = p.subrange(0, parent_end(p, a, windows));
    assert(f == join_name(d0, Seq::empty(), windows));
    assert(f.len() <= d0.len() + 1);
    let r = replace_final_path_spec(p, windows);
    reveal_strlit("mp4");
    assert(r == p.subrange(0, a + sl).push('.') + "mp4"@);
    assert(r.len() == a + sl + 4);
    if q == r {
        let i = a - 1;
        let j = i - f.len();
        assert(0 <= j < st.len() + suffix.len());
        assert(q[i] == (st + suffix)[j]);
        if j < st.len() {
            assert((st + suffix)[j] == st[j]);
        } else {
            assert((st + suffix)[j] == suffix[j - st.len()]);
        }
        assert(!sep_in(p, q[i], windows));
        assert(r[i] == p[i]);
    }
}

/// No file this program derives from an input overwrites it or another
/// derived file: the temporary file, the finished copy, the backup, every
/// numbered and random alternative differ from the input, from each other
/// and from the file that replaces the input.
pub proof fn law_outputs_never_overwrite(
    p: Seq<char>,
    n: nat,
    m: nat,
    u: Seq<char>,
    windows: bool,
)
    requires
        is_uuid_text(u),
    ensures
        temp_path_spec(p, windows) != p,
        beside_original_spec(p, windows) != p,
        backup_path_spec(p, windows) != p,
        squeezed_candidate_spec(p, n, windows) != p,
        fallback_name_spec(p, u, windows) != p,
        temp_path_spec(p, windows) != beside_original_spec(p, windows),
        temp_path_spec(p, windows) != backup_path_spec(p, windows),
        beside_original_spec(p, windows) != backup_path_spec(p, windows),
        squeezed_candidate_spec(p, n, windows) != temp_path_spec(p, windows),
        squeezed_candidate_spec(p, n, windows) != beside_original_spec(p, windows),
        squeezed_candidate_spec(p, n, windows) != backup_path_spec(p, windows),
        fallback_name_spec(p, u, windows) != temp_path_spec(p, windows),
        fallback_name_spec(p, u, windows) != beside_original_spec(p, windows),
        fallback_name_spec(p, u, windows) != backup_path_spec(p, windows),
        fallback_name_spec(p, u, windows) != squeezed_candidate_spec(p, n, windows),
        n != m ==> squeezed_candidate_spec(p, n, windows) != squeezed_candidate_spec(p, m, windows),
        temp_path_spec(p, windows) != replace_final_path_spec(p, windows),
        beside_original_spec(p, windows) != replace_final_path_spec(p, windows),
        backup_path_spec(p, windows) != replace_final_path_spec(p, windows),
        squeezed_candidate_spec(p, n, windows) != replace_final_path_spec(p, windows),
        fallback_name_spec(p, u, windows) != replace_final_path_spec(p, windows),
{
    let st = stem_spec(p, windows);
    let dn = decimal(n);
    let dm = decimal(m);
    lemma_output_files(p, n, u, windows);
    lemma_suffix_facts(p, dn, windows);
    lemma_suffix_facts(p, dm, windows);
    lemma_suffix_facts(p, u, windows);
    law_outputs_share_the_folder(p, n, u, windows);
    law_outputs_share_the_folder(p, m, u, windows);
    let t = temp_path_spec(p, windows);
    let b = beside_original_spec(p, windows);
    let k = backup_path_spec(p, windows);
    let c = squeezed_candidate_spec(p, n, windows);
    let f = fallback_name_spec(p, u, windows);
    let tn = ".tmp-compressed.mp4"@;
    let bn = "-squeezed.mp4"@;
    let kn = backup_suffix(p, windows);
    let cn = numbered_suffix(dn);
    let fname = numbered_suffix(u);
    let fp = folder_part(p, windows);
    let pf = parent_folder(p, windows);
    // none is the input
    if file_name(t, windows) is Some {
        lemma_not_input(p, t, tn, windows);
    }
    if file_name(b, windows) is Some {
        lemma_not_input(p, b, bn, windows);
    }
    if file_name(k, windows) is Some {
        lemma_not_input(p, k, kn, windows);
    }
    if file_name(c, windows) is Some {
        lemma_not_input(p, c, cn, windows);
    }
    if file_name(f, windows) is Some {
        lemma_not_input(p, f, fname, windows);
    }
    // none is another: their names differ within one folder
    lemma_suffix_char(st, tn, bn, 0);
    lemma_suffix_char(st, tn, kn, 1);
    lemma_suffix_char(st, bn, kn, 0);
    lemma_suffix_char(st, cn, tn, 0);
    lemma_suffix_char(st, cn, bn, 9);
    lemma_suffix_char(st, cn, kn, 0);
    lemma_suffix_char(st, fname, tn, 0);
    lemma_suffix_char(st, fname, bn, 9);
    lemma_suffix_char(st, fname, kn, 0);
    lemma_prefix_ne(fp, st + tn, st + bn);
    lemma_prefix_ne(fp, st + tn, st + kn);
    lemma_prefix_ne(fp, st + bn, st + kn);
    if st + fname == st + cn {
        lemma_numbered_eq(st, u, dn);
        lemma_decimal_digits(n);
        assert(is_digit(dn[8]));
    }
    lemma_prefix_ne(pf, st + fname, st + cn);
    if n != m {
        if st + cn == st + numbered_suffix(dm) {
            lemma_numbered_eq(st, dn, dm);
            lemma_decimal_value(n);
            lemma_decimal_value(m);
        }
        lemma_prefix_ne(pf, st + cn, st + numbered_suffix(dm));
    }
    // the two kinds of folder agree where the input has a file name; where
    // it has none, the ends of the names differ
    if file_name(p, windows) is Some {
        lemma_prefix_ne(fp, st + cn, st + tn);
        lemma_prefix_ne(fp, st + cn, st + bn);
        lemma_prefix_ne(fp, st + cn, st + kn);
        lemma_prefix_ne(fp, st + fname, st + tn);
        lemma_prefix_ne(fp, st + fname, st + bn);
        lemma_prefix_ne(fp, st + fname, st + kn);
    } else {
        lemma_end_chars(p, windows);
        lemma_decimal_digits(n);
        let dl = dn.len() as int;
        lemma_numbered_end(dn, 5);
        assert(is_digit(dn[dl - 1]));
        lemma_numbered_end(u, 5);
        lemma_numbered_end(u, 7);
        assert(u[35] == u[36 - 1]);
        assert(('0' <= u[35] && u[35] <= '9') || ('a' <= u[35] && u[35] <= 'f'));
        assert(('0' <= u[33] && u[33] <= '9') || ('a' <= u[33] && u[33] <= 'f'));
        lemma_end_ne(pf, fp, st, cn, tn, 5);
        lemma_end_ne(pf, fp, st, cn, bn, 5);
        lemma_end_ne(pf, fp, st, cn, kn, 5);
        lemma_end_ne(pf, fp, st, fname, tn, 7);
        lemma_end_ne(pf, fp, st, fname, bn, 7);
        lemma_end_ne(pf, fp, st, fname, kn, 5);
    }
    // none is the replacing file: that is the input itself where it has no
    // file name, and keeps the input's folder where it has one
    if file_name(p, windows) is Some {
        lemma_stem_no_sep(p, windows);
        lemma_literal_facts(windows);
        lemma_backup_suffix(p, windows);
        lemma_decimal_no_sep(n, windows);
        lemma_numbered_suffix(dn, windows);
        lemma_uuid_no_sep(u, windows);
        lemma_numbered_suffix(u, windows);
        lemma_no_sep_in(tn, p, windows);
        lemma_no_sep_in(bn, p, windows);
        lemma_no_sep_in(cn, p, windows);
        lemma_no_sep_in(fname, p, windows);
        lemma_not_replaced(p, t, tn, windows);
        lemma_not_replaced(p, b, bn, windows);
        lemma_not_replaced(p, k, kn, windows);
        lemma_not_replaced(p, c, cn, windows);
        lemma_not_replaced(p, f, fname, windows);
    }
}

/// The folder the numbered and random names go to: the input's parent, or
/// `.` where it has none.
pub open spec fn parent_folder(p: Seq<char>, windows: bool) -> Seq<char> {
    beside_path(p, Seq::empty(), windows)
}

/// Every file written for an input lands in the input's folder. The
/// temporary file, the finished copy and the backup are the input's folder
/// part followed by a file name; the numbered and random names are the
/// input's parent (or `.`) followed by a file name, which for an input with
/// a file name is that same folder part.
pub proof fn law_outputs_share_the_folder(p: Seq<char>, n: nat, u: Seq<char>, windows: bool)
    ensures
        temp_path_spec(p, windows) == folder_part(p, windows) + (stem_spec(p, windows)
            + ".tmp-compressed.mp4"@),
        beside_original_spec(p, windows) == folder_part(p, windows) + (stem_spec(p, windows)
            + "-squeezed.mp4"@),
        backup_path_spec(p, windows) == folder_part(p, windows) + (stem_spec(p, windows)
            + backup_suffix(p, windows)),
        squeezed_candidate_spec(p, n, windows) == parent_folder(p, windows) + (stem_spec(p, windows)
            + numbered_suffix(decimal(n))),
        fallback_name_spec(p, u, windows) == parent_folder(p, windows) + (stem_spec(p, windows)
            + numbered_suffix(u)),
        file_name(p, windows) is Some ==> parent_folder(p, windows) == folder_part(p, windows),
{
    let stem = stem_spec(p, windows);
    lemma_with_file_name_split(p, stem + ".tmp-compressed.mp4"@, windows);
    lemma_with_file_name_split(p, stem + "-squeezed.mp4"@, windows);
    lemma_with_file_name_split(p, stem + backup_suffix(p, windows), windows);
    let d = match parent_of(p, windows) {
        Some(q) => q,
        None => "."@,
    };
    lemma_join_name_split(d, stem + numbered_suffix(decimal(n)), windows);
    lemma_join_name_split(d, stem + numbered_suffix(u), windows);
    if file_name(p, windows) is Some {
        lemma_beside_path_with_file_name(p, Seq::empty(), windows);
    }
}

} // verus!
