//! The job list: every queued, running and finished job with its cancel
//! request, and the transitions the user interface and the worker make on it.
//!
//! Jobs are found by id; where ids repeat, the first job with the id is the
//! one a call reads or changes.
use vstd::prelude::*;
use crate::discovery::{
    law_same_path_is_equivalence, path_under_root, path_under_root_spec, same_path, same_path_spec,
};
use crate::error::{error_text, AppError};
use crate::models::{
    copy_opt_text, discord_settings, opt_text, CompressResult, CompressionJob, CompressionSettings,
    JobKind, JobStatus, JobView, OutputMode, TrimSpan, PROGRESS_DONE, PROGRESS_NONE,
};
use crate::text::{same_text, text};

verus! {

/// The shape of a job id (and of any random name part): a version-4 UUID written as 36 characters, lower
/// case hex digits in groups of 8-4-4-4-12 joined by hyphens.
pub open spec fn is_uuid_text(s: Seq<char>) -> bool {
    &&& s.len() == 36
    &&& forall|i: int|
        0 <= i < 36 ==> (if i == 8 || i == 13 || i == 18 || i == 23 {
            s[i] == '-'
        } else {
            ('0' <= #[trigger] s[i] && s[i] <= '9') || ('a' <= s[i] && s[i] <= 'f')
        })
    &&& s[14] == '4'
}

/// A fresh job id from `uuid::Uuid::new_v4()`, written out by its `Display`
/// impl (lower-case hyphenated hex, version nibble 4). Which id comes out is
/// left to the random source; only its shape is stated.
#[verifier::external_body]
pub(crate) fn random_uuid_text() -> (r: String)
    ensures
        is_uuid_text(r@),
{
    uuid::Uuid::new_v4().to_string()
}

/// A job and whether a cancel has been asked for it.
pub struct JobEntry {
    pub job: CompressionJob,
    pub cancel_requested: bool,
}

pub struct EntryView {
    pub job: JobView,
    pub cancel_requested: bool,
}

/// All jobs, in the order they were queued.
pub struct JobManager {
    entries: Vec<JobEntry>,
}

impl View for JobManager {
    type V = Seq<EntryView>;

    closed spec fn view(&self) -> Seq<EntryView> {
        entries_view(self.entries@)
    }
}

pub open spec fn entry_view(e: JobEntry) -> EntryView {
    EntryView { job: e.job@, cancel_requested: e.cancel_requested }
}

pub open spec fn entries_view(v: Seq<JobEntry>) -> Seq<EntryView> {
    v.map_values(|e: JobEntry| entry_view(e))
}

/// Index of the first entry at or after `start` whose job has id `id`, or -1.
pub open spec fn find_id(s: Seq<EntryView>, id: Seq<char>, start: int) -> int
    decreases s.len() - start,
{
    if start < 0 || start >= s.len() {
        -1
    } else if s[start].job.id == id {
        start
    } else {
        find_id(s, id, start + 1)
    }
}

/// Index of the first job with id `id`, or -1.
pub open spec fn index_of(s: Seq<EntryView>, id: Seq<char>) -> int {
    find_id(s, id, 0)
}

/// A freshly queued job.
pub open spec fn queued_view(
    id: Seq<char>,
    input_path: Seq<char>,
    output_mode: OutputMode,
    trim: Option<TrimSpan>,
    kind: JobKind,
    output_name: Option<Seq<char>>,
) -> JobView {
    JobView {
        id,
        input_path,
        output_path: None,
        status: JobStatus::Queued,
        error: None,
        progress_bits: PROGRESS_NONE,
        output_size_bytes: None,
        settings: discord_settings(),
        output_mode,
        trim,
        kind,
        output_name,
    }
}

pub open spec fn cancelled_view(j: JobView) -> JobView {
    JobView { status: JobStatus::Cancelled, error: Some("cancelled"@), ..j }
}

pub open spec fn running_view(j: JobView) -> JobView {
    JobView { status: JobStatus::Running, progress_bits: PROGRESS_NONE, error: None, ..j }
}

pub open spec fn succeeded_view(j: JobView, output_path: Seq<char>, size: u64) -> JobView {
    JobView {
        status: JobStatus::Succeeded,
        progress_bits: PROGRESS_DONE,
        output_path: Some(output_path),
        output_size_bytes: Some(size),
        error: None,
        ..j
    }
}

pub open spec fn failed_view(j: JobView, error: Seq<char>) -> JobView {
    JobView { status: JobStatus::Failed, error: Some(error), ..j }
}

/// `s` with the job at `i` replaced by `j`, its cancel request kept.
pub open spec fn with_job(s: Seq<EntryView>, i: int, j: JobView) -> Seq<EntryView> {
    s.update(i, EntryView { job: j, cancel_requested: s[i].cancel_requested })
}

pub open spec fn after_set_running(s: Seq<EntryView>, id: Seq<char>) -> Seq<EntryView> {
    let i = index_of(s, id);
    if i < 0 {
        s
    } else {
        with_job(s, i, running_view(s[i].job))
    }
}

pub open spec fn after_set_progress(s: Seq<EntryView>, id: Seq<char>, bits: u64) -> Seq<
    EntryView,
> {
    let i = index_of(s, id);
    if i < 0 {
        s
    } else {
        with_job(s, i, JobView { progress_bits: bits, ..s[i].job })
    }
}

pub open spec fn after_set_succeeded(
    s: Seq<EntryView>,
    id: Seq<char>,
    output_path: Seq<char>,
    size: u64,
) -> Seq<EntryView> {
    let i = index_of(s, id);
    if i < 0 {
        s
    } else {
        with_job(s, i, succeeded_view(s[i].job, output_path, size))
    }
}

/// A failure is recorded unless the job was already cancelled.
pub open spec fn after_set_failed(s: Seq<EntryView>, id: Seq<char>, error: Seq<char>) -> Seq<
    EntryView,
> {
    let i = index_of(s, id);
    if i < 0 || s[i].job.status == JobStatus::Cancelled {
        s
    } else {
        with_job(s, i, failed_view(s[i].job, error))
    }
}

pub open spec fn after_set_cancelled(s: Seq<EntryView>, id: Seq<char>) -> Seq<EntryView> {
    let i = index_of(s, id);
    if i < 0 {
        s
    } else {
        with_job(s, i, cancelled_view(s[i].job))
    }
}

/// A cancel asks the job to stop; a job still waiting is cancelled at once.
pub open spec fn after_cancel(s: Seq<EntryView>, id: Seq<char>) -> Seq<EntryView> {
    let i = index_of(s, id);
    if i < 0 {
        s
    } else if s[i].job.status == JobStatus::Queued {
        s.update(i, EntryView { job: cancelled_view(s[i].job), cancel_requested: true })
    } else {
        s.update(i, EntryView { job: s[i].job, cancel_requested: true })
    }
}

/// What `cancel` answers: whether the job was waiting or running.
pub open spec fn cancel_answer(s: Seq<EntryView>, id: Seq<char>) -> bool {
    let i = index_of(s, id);
    i >= 0 && (s[i].job.status == JobStatus::Queued || s[i].job.status == JobStatus::Running)
}

pub open spec fn is_active(e: EntryView) -> bool {
    e.job.status == JobStatus::Queued || e.job.status == JobStatus::Running
}

pub open spec fn active_pred() -> spec_fn(EntryView) -> bool {
    |e: EntryView| is_active(e)
}

pub open spec fn after_clear_finished(s: Seq<EntryView>) -> Seq<EntryView> {
    s.filter(active_pred())
}

/// Waiting jobs are cancelled, running ones are asked to stop.
pub open spec fn cancel_pending_entry(e: EntryView) -> EntryView {
    if e.job.status == JobStatus::Queued {
        EntryView { job: cancelled_view(e.job), cancel_requested: e.cancel_requested }
    } else if e.job.status == JobStatus::Running {
        EntryView { job: e.job, cancel_requested: true }
    } else {
        e
    }
}

pub open spec fn after_cancel_all(s: Seq<EntryView>) -> Seq<EntryView> {
    s.map_values(|e: EntryView| cancel_pending_entry(e))
}

/// Whether a waiting job gets the new trim and kind: it is queued and, where
/// folder roots are given, lies under one of them.
pub open spec fn selected_for_update(e: EntryView, roots: Option<Seq<Seq<char>>>) -> bool {
    &&& e.job.status == JobStatus::Queued
    &&& match roots {
        None => true,
        Some(rs) => exists|k: int|
            0 <= k < rs.len() && path_under_root_spec(e.job.input_path, #[trigger] rs[k]),
    }
}

pub open spec fn apply_entry(
    e: EntryView,
    trim: Option<TrimSpan>,
    kind: JobKind,
    roots: Option<Seq<Seq<char>>>,
) -> EntryView {
    if selected_for_update(e, roots) {
        EntryView { job: JobView { trim, kind, ..e.job }, cancel_requested: e.cancel_requested }
    } else {
        e
    }
}

pub open spec fn after_apply(
    s: Seq<EntryView>,
    trim: Option<TrimSpan>,
    kind: JobKind,
    roots: Option<Seq<Seq<char>>>,
) -> Seq<EntryView> {
    s.map_values(|e: EntryView| apply_entry(e, trim, kind, roots))
}

pub open spec fn texts(v: Vec<String>) -> Seq<Seq<char>> {
    v@.map_values(|s: String| s@)
}

pub open spec fn opt_texts(o: Option<Vec<String>>) -> Option<Seq<Seq<char>>> {
    match o {
        Some(v) => Some(texts(v)),
        None => None,
    }
}

/// Whether some job in `s` has the same path key as `path`.
pub open spec fn has_input(s: Seq<EntryView>, path: Seq<char>) -> bool {
    exists|k: int| 0 <= k < s.len() && same_path_spec(#[trigger] s[k].job.input_path, path)
}


/// The input paths of the jobs, in queue order.
pub open spec fn paths_of(s: Seq<EntryView>) -> Seq<Seq<char>> {
    s.map_values(|e: EntryView| e.job.input_path)
}

/// Whether some path in `ps` has the same path key as `p`.
pub open spec fn has_same_path(ps: Seq<Seq<char>>, p: Seq<char>) -> bool {
    exists|k: int| 0 <= k < ps.len() && same_path_spec(#[trigger] ps[k], p)
}

/// The inputs that `enqueue_new`, called on each in turn, actually queues
/// when the list already holds `existing`: those whose path key is neither
/// in the list nor earlier among the inputs.
pub open spec fn fresh_inputs(existing: Seq<Seq<char>>, inputs: Seq<Seq<char>>) -> Seq<Seq<char>>
    decreases inputs.len(),
{
    if inputs.len() == 0 {
        Seq::empty()
    } else {
        let prev = fresh_inputs(existing, inputs.drop_last());
        if has_same_path(existing + prev, inputs.last()) {
            prev
        } else {
            prev.push(inputs.last())
        }
    }
}

/// `new` is `old` followed by one freshly queued job (random id, given mode,
/// no trim, squeeze, no output name) for each of `inputs`, in order.
pub open spec fn grown_by(
    old: Seq<EntryView>,
    new: Seq<EntryView>,
    inputs: Seq<Seq<char>>,
    mode: OutputMode,
) -> bool {
    &&& new.len() == old.len() + inputs.len()
    &&& new.subrange(0, old.len() as int) == old
    &&& forall|k: int|
        0 <= k < inputs.len() ==> {
            let e = #[trigger] new[old.len() + k];
            &&& is_uuid_text(e.job.id)
            &&& e.job == queued_view(e.job.id, inputs[k], mode, None, JobKind::Squeeze, None)
            &&& !e.cancel_requested
        }
}

/// Index of the first queued job, or -1.
pub open spec fn first_queued_from(s: Seq<EntryView>, start: int) -> int
    decreases s.len() - start,
{
    if start < 0 || start >= s.len() {
        -1
    } else if s[start].job.status == JobStatus::Queued {
        start
    } else {
        first_queued_from(s, start + 1)
    }
}

proof fn lemma_find_id(s: Seq<EntryView>, id: Seq<char>, start: int)
    requires
        0 <= start,
    ensures
        find_id(s, id, start) == -1 || (start <= find_id(s, id, start) < s.len() && s[find_id(
            s,
            id,
            start,
        )].job.id == id),
        forall|k: int|
            start <= k < s.len() && (find_id(s, id, start) == -1 || k < find_id(s, id, start))
                ==> s[k].job.id != id,
    decreases s.len() - start,
{
    if start < s.len() && s[start].job.id != id {
        lemma_find_id(s, id, start + 1);
    }
}

proof fn lemma_first_queued(s: Seq<EntryView>, start: int)
    requires
        0 <= start,
    ensures
        first_queued_from(s, start) == -1 || (start <= first_queued_from(s, start) < s.len()
            && s[first_queued_from(s, start)].job.status == JobStatus::Queued),
        forall|k: int|
            start <= k < s.len() && (first_queued_from(s, start) == -1 || k < first_queued_from(
                s,
                start,
            )) ==> s[k].job.status != JobStatus::Queued,
    decreases s.len() - start,
{
    if start < s.len() && s[start].job.status != JobStatus::Queued {
        lemma_first_queued(s, start + 1);
    }
}

/// Whether `path` lies under one of `roots`.
fn under_any_root(path: &str, roots: &Vec<String>) -> (r: bool)
    ensures
        r == exists|k: int|
            0 <= k < texts(*roots).len() && path_under_root_spec(path@, #[trigger] texts(*roots)[k]),
{
    let mut i: usize = 0;
    while i < roots.len()
        invariant
            i <= roots.len(),
            forall|k: int| 0 <= k < i ==> !path_under_root_spec(path@, #[trigger] texts(*roots)[k]),
        decreases roots.len() - i,
    {
        if path_under_root(path, roots[i].as_str()) {
            assert(path_under_root_spec(path@, texts(*roots)[i as int]));
            return true;
        }
        i = i + 1;
    }
    false
}

/// How a job starts when the worker picks it up.
#[derive(Debug, PartialEq, Eq)]
pub enum JobStart {
    /// No job has the id.
    Missing,
    /// The job was cancelled while it waited; nothing to do.
    AlreadyCancelled,
    /// A cancel was asked before it started; it is now marked cancelled.
    CancelledBeforeStart,
    /// The job is now running; this is its state.
    Started(CompressionJob),
}

impl JobManager {
    proof fn lemma_view(&self)
        ensures
            self@.len() == self.entries.len(),
            forall|i: int|
                0 <= i < self.entries.len() ==> #[trigger] self@[i] == (EntryView {
                    job: self.entries[i].job@,
                    cancel_requested: self.entries[i].cancel_requested,
                }),
    {
    }

    /// An empty job list.
    pub fn new() -> (r: Self)
        ensures
            r@ == Seq::<EntryView>::empty(),
    {
        let r = JobManager { entries: Vec::new() };
        assert(r@ =~= Seq::<EntryView>::empty());
        r
    }

    fn index_of_exec(&self, id: &str) -> (r: Option<usize>)
        ensures
            match r {
                Some(i) => index_of(self@, id@) == i && i < self@.len(),
                None => index_of(self@, id@) == -1,
            },
    {
        proof {
            self.lemma_view();
        }
        let mut i: usize = 0;
        while i < self.entries.len()
            invariant
                i <= self.entries.len(),
                self@.len() == self.entries.len(),
                forall|k: int|
                    0 <= k < self.entries.len() ==> #[trigger] self@[k].job.id
                        == self.entries[k].job.id@,
                find_id(self@, id@, i as int) == find_id(self@, id@, 0),
            decreases self.entries.len() - i,
        {
            if same_text(self.entries[i].job.id.as_str(), id) {
                return Some(i);
            }
            i = i + 1;
        }
        None
    }

    /// Appends a queued job with the given id.
    pub fn enqueue_with_id(
        &mut self,
        id: String,
        input_path: String,
        output_mode: OutputMode,
        trim: Option<TrimSpan>,
        kind: JobKind,
        output_name: Option<String>,
    ) -> (r: CompressionJob)
        ensures
            r@ == queued_view(id@, input_path@, output_mode, trim, kind, opt_text(output_name)),
            final(self)@ == old(self)@.push(EntryView { job: r@, cancel_requested: false }),
    {
        let job = CompressionJob {
            id,
            input_path,
            output_path: None,
            status: JobStatus::Queued,
            error: None,
            progress_bits: PROGRESS_NONE,
            output_size_bytes: None,
            settings: CompressionSettings::discord(),
            output_mode,
            trim,
            kind,
            output_name,
        };
        let r = job.clone();
        self.entries.push(JobEntry { job, cancel_requested: false });
        assert(self@ =~= old(self)@.push(EntryView { job: r@, cancel_requested: false }));
        r
    }

    /// Queues a new job under a fresh random id and returns it.
    pub fn enqueue(
        &mut self,
        input_path: String,
        output_mode: OutputMode,
        trim: Option<TrimSpan>,
        kind: JobKind,
        output_name: Option<String>,
    ) -> (r: CompressionJob)
        ensures
            is_uuid_text(r.id@),
            r@ == queued_view(r.id@, input_path@, output_mode, trim, kind, opt_text(output_name)),
            final(self)@ == old(self)@.push(EntryView { job: r@, cancel_requested: false }),
    {
        let id = random_uuid_text();
        self.enqueue_with_id(id, input_path, output_mode, trim, kind, output_name)
    }

    /// Queues the input only if no job (in any state) has the same path;
    /// failed and cancelled jobs are retried, not duplicated.
    pub fn enqueue_new(
        &mut self,
        input_path: String,
        output_mode: OutputMode,
        trim: Option<TrimSpan>,
        kind: JobKind,
        output_name: Option<String>,
    ) -> (r: Option<CompressionJob>)
        ensures
            has_input(old(self)@, input_path@) ==> r is None && final(self)@ == old(self)@,
            !has_input(old(self)@, input_path@) ==> (r matches Some(j) && is_uuid_text(j.id@) && j@
                == queued_view(j.id@, input_path@, output_mode, trim, kind, opt_text(output_name))
                && final(self)@ == old(self)@.push(EntryView { job: j@, cancel_requested: false })),
    {
        proof {
            self.lemma_view();
        }
        let mut i: usize = 0;
        while i < self.entries.len()
            invariant
                i <= self.entries.len(),
                self@.len() == self.entries.len(),
                forall|k: int|
                    0 <= k < self.entries.len() ==> #[trigger] self@[k].job.input_path
                        == self.entries[k].job.input_path@,
                forall|k: int|
                    0 <= k < i ==> !same_path_spec(#[trigger] self@[k].job.input_path, input_path@),
            decreases self.entries.len() - i,
        {
            if same_path(self.entries[i].job.input_path.as_str(), input_path.as_str()) {
                assert(same_path_spec(self@[i as int].job.input_path, input_path@));
                return None;
            }
            i = i + 1;
        }
        Some(self.enqueue(input_path, output_mode, trim, kind, output_name))
    }


    /// `enqueue_new` on each input in turn (squeeze, no trim, no output
    /// name); answers how many were queued.
    pub fn enqueue_all_new(&mut self, inputs: &Vec<String>, mode: OutputMode) -> (r: usize)
        ensures
            grown_by(
                old(self)@,
                final(self)@,
                fresh_inputs(paths_of(old(self)@), texts(*inputs)),
                mode,
            ),
            r == fresh_inputs(paths_of(old(self)@), texts(*inputs)).len(),
    {
        let ghost s0 = self@;
        let ghost existing = paths_of(s0);
        let mut added: usize = 0;
        let mut i: usize = 0;
        assert(self@.subrange(0, s0.len() as int) =~= s0);
        assert(texts(*inputs).subrange(0, 0) =~= Seq::<Seq<char>>::empty());
        while i < inputs.len()
            invariant
                i <= inputs.len(),
                existing == paths_of(s0),
                grown_by(s0, self@, fresh_inputs(existing, texts(*inputs).subrange(0, i as int)), mode),
                added == fresh_inputs(existing, texts(*inputs).subrange(0, i as int)).len(),
                added <= i,
            decreases inputs.len() - i,
        {
            let ghost prefix = texts(*inputs).subrange(0, i as int);
            let ghost prev = fresh_inputs(existing, prefix);
            let ghost cur = self@;
            let ghost x = inputs@[i as int]@;
            assert(texts(*inputs).subrange(0, i + 1).drop_last() =~= prefix);
            assert(texts(*inputs).subrange(0, i + 1).last() == x);
            // the paths in the list are the old ones followed by the queued inputs
            assert(paths_of(cur) =~= existing + prev) by {
                assert forall|k: int| 0 <= k < cur.len() implies #[trigger] paths_of(cur)[k] == (
                existing + prev)[k] by {
                    if k < s0.len() {
                        assert(cur.subrange(0, s0.len() as int)[k] == cur[k]);
                    } else {
                        assert(cur[s0.len() + (k - s0.len())] == cur[k]);
                    }
                }
            }
            assert(has_input(cur, x) == has_same_path(existing + prev, x)) by {
                if has_input(cur, x) {
                    let k = choose|k: int|
                        0 <= k < cur.len() && same_path_spec(#[trigger] cur[k].job.input_path, x);
                    assert(paths_of(cur)[k] == cur[k].job.input_path);
                }
                if has_same_path(existing + prev, x) {
                    let k = choose|k: int|
                        0 <= k < (existing + prev).len() && same_path_spec(
                            #[trigger] (existing + prev)[k],
                            x,
                        );
                    assert(paths_of(cur)[k] == cur[k].job.input_path);
                }
            }
            let got = self.enqueue_new(
                inputs[i].clone(),
                mode,
                None,
                JobKind::Squeeze,
                None,
            );
            match got {
                Some(_) => {
                    added = added + 1;
                    let ghost next = prev.push(x);
                    assert(self@.subrange(0, s0.len() as int) =~= s0) by {
                        assert(forall|k: int| 0 <= k < s0.len() ==> #[trigger] self@[k] == cur[k]);
                        assert(forall|k: int| 0 <= k < s0.len() ==> cur.subrange(0, s0.len() as int)[k] == cur[k]);
                    }
                    assert forall|k: int| 0 <= k < next.len() implies {
                        let e = #[trigger] self@[s0.len() + k];
                        &&& is_uuid_text(e.job.id)
                        &&& e.job == queued_view(e.job.id, next[k], mode, None, JobKind::Squeeze, None)
                        &&& !e.cancel_requested
                    } by {
                        if k < prev.len() {
                            assert(self@[s0.len() + k] == cur[s0.len() + k]);
                        }
                    }
                },
                None => {},
            }
            i = i + 1;
        }
        assert(texts(*inputs).subrange(0, inputs.len() as int) =~= texts(*inputs));
        added
    }

    /// All jobs, in queue order.
    pub fn list(&self) -> (r: Vec<CompressionJob>)
        ensures
            r.len() == self@.len(),
            forall|i: int| 0 <= i < r.len() ==> #[trigger] r[i]@ == self@[i].job,
    {
        proof {
            self.lemma_view();
        }
        let mut r: Vec<CompressionJob> = Vec::new();
        let mut i: usize = 0;
        while i < self.entries.len()
            invariant
                i <= self.entries.len(),
                self@.len() == self.entries.len(),
                forall|k: int|
                    0 <= k < self.entries.len() ==> #[trigger] self@[k].job
                        == self.entries[k].job@,
                r.len() == i,
                forall|k: int| 0 <= k < i ==> #[trigger] r[k]@ == self@[k].job,
            decreases self.entries.len() - i,
        {
            r.push(self.entries[i].job.clone());
            i = i + 1;
        }
        r
    }

    /// The first job with the id, if any.
    pub fn find(&self, job_id: &str) -> (r: Option<CompressionJob>)
        ensures
            index_of(self@, job_id@) < 0 ==> r is None,
            index_of(self@, job_id@) >= 0 ==> (r matches Some(j) && j@ == self@[index_of(
                self@,
                job_id@,
            )].job),
    {
        proof {
            self.lemma_view();
        }
        match self.index_of_exec(job_id) {
            Some(i) => Some(self.entries[i].job.clone()),
            None => None,
        }
    }

    /// Whether a cancel was asked for the job, if there is one.
    pub fn cancel_flag(&self, job_id: &str) -> (r: Option<bool>)
        ensures
            index_of(self@, job_id@) < 0 ==> r is None,
            index_of(self@, job_id@) >= 0 ==> r == Some(
                self@[index_of(self@, job_id@)].cancel_requested,
            ),
    {
        proof {
            self.lemma_view();
        }
        match self.index_of_exec(job_id) {
            Some(i) => Some(self.entries[i].cancel_requested),
            None => None,
        }
    }

    /// Asks the job to stop. A waiting job is cancelled at once; the answer
    /// is whether the job was waiting or running.
    pub fn cancel(&mut self, job_id: &str) -> (r: bool)
        ensures
            final(self)@ == after_cancel(old(self)@, job_id@),
            r == cancel_answer(old(self)@, job_id@),
    {
        proof {
            self.lemma_view();
        }
        match self.index_of_exec(job_id) {
            None => false,
            Some(i) => {
                self.entries[i].cancel_requested = true;
                let r = match self.entries[i].job.status {
                    JobStatus::Queued => {
                        self.entries[i].job.status = JobStatus::Cancelled;
                        self.entries[i].job.error = Some(text("cancelled"));
                        true
                    },
                    JobStatus::Running => true,
                    _ => false,
                };
                proof {
                    self.lemma_view();
                }
                assert(self@ =~= after_cancel(old(self)@, job_id@));
                r
            },
        }
    }


    /// Marks the job running, with no progress and no error.
    pub fn set_running(&mut self, job_id: &str)
        ensures
            final(self)@ == after_set_running(old(self)@, job_id@),
    {
        match self.index_of_exec(job_id) {
            None => {},
            Some(i) => {
                self.entries[i].job.status = JobStatus::Running;
                self.entries[i].job.progress_bits = PROGRESS_NONE;
                self.entries[i].job.error = None;
                proof {
                    self.lemma_view();
                }
                assert(self@ =~= after_set_running(old(self)@, job_id@));
            },
        }
    }

    /// Records the progress (bit pattern of a percentage the caller has
    /// already clamped to 0..=100).
    pub fn set_progress(&mut self, job_id: &str, bits: u64)
        ensures
            final(self)@ == after_set_progress(old(self)@, job_id@, bits),
    {
        match self.index_of_exec(job_id) {
            None => {},
            Some(i) => {
                self.entries[i].job.progress_bits = bits;
                proof {
                    self.lemma_view();
                }
                assert(self@ =~= after_set_progress(old(self)@, job_id@, bits));
            },
        }
    }

    /// Marks the job done, with its output and full progress.
    pub fn set_succeeded(&mut self, job_id: &str, output_path: String, output_size_bytes: u64)
        ensures
            final(self)@ == after_set_succeeded(
                old(self)@,
                job_id@,
                output_path@,
                output_size_bytes,
            ),
    {
        match self.index_of_exec(job_id) {
            None => {},
            Some(i) => {
                self.entries[i].job.status = JobStatus::Succeeded;
                self.entries[i].job.progress_bits = PROGRESS_DONE;
                self.entries[i].job.output_path = Some(output_path);
                self.entries[i].job.output_size_bytes = Some(output_size_bytes);
                self.entries[i].job.error = None;
                proof {
                    self.lemma_view();
                }
                assert(self@ =~= after_set_succeeded(
                    old(self)@,
                    job_id@,
                    output_path@,
                    output_size_bytes,
                ));
            },
        }
    }

    /// Marks the job failed with the message, unless it was cancelled.
    pub fn set_failed(&mut self, job_id: &str, error: String)
        ensures
            final(self)@ == after_set_failed(old(self)@, job_id@, error@),
    {
        match self.index_of_exec(job_id) {
            None => {},
            Some(i) => {
                // dont overwrite a cancel we already marked
                if let JobStatus::Cancelled = self.entries[i].job.status {
                    return ;
                }
                self.entries[i].job.status = JobStatus::Failed;
                self.entries[i].job.error = Some(error);
                proof {
                    self.lemma_view();
                }
                assert(self@ =~= after_set_failed(old(self)@, job_id@, error@));
            },
        }
    }

    /// Marks the job cancelled.
    pub fn set_cancelled(&mut self, job_id: &str)
        ensures
            final(self)@ == after_set_cancelled(old(self)@, job_id@),
    {
        match self.index_of_exec(job_id) {
            None => {},
            Some(i) => {
                self.entries[i].job.status = JobStatus::Cancelled;
                self.entries[i].job.error = Some(text("cancelled"));
                proof {
                    self.lemma_view();
                }
                assert(self@ =~= after_set_cancelled(old(self)@, job_id@));
            },
        }
    }

    /// Drops every job that is neither queued nor running; answers how many
    /// were dropped.
    pub fn clear_finished(&mut self) -> (r: usize)
        ensures
            final(self)@ == after_clear_finished(old(self)@),
            r == old(self)@.len() - final(self)@.len(),
    {
        broadcast use Seq::lemma_filter_push;

        let ghost s = self@;
        let ghost pred = active_pred();
        let before: usize = self.entries.len();
        let mut kept: Vec<JobEntry> = Vec::new();
        let mut i: usize = 0;
        while i < self.entries.len()
            invariant
                i <= self.entries.len(),
                s == entries_view(self.entries@),
                s.len() == self.entries.len(),
                pred == active_pred(),
                entries_view(kept@) == s.subrange(0, i as int).filter(pred),
                kept.len() <= i,
            decreases self.entries.len() - i,
        {
            assert(s.subrange(0, i + 1) == s.subrange(0, i as int).push(s[i as int]));
            assert(s[i as int] == entry_view(self.entries@[i as int]));
            proof {
                s.subrange(0, i as int).lemma_filter_push(s[i as int], pred);
            }
            let active = match self.entries[i].job.status {
                JobStatus::Queued => true,
                JobStatus::Running => true,
                _ => false,
            };
            assert(active == is_active(s[i as int]));
            if active {
                let e = JobEntry {
                    job: self.entries[i].job.clone(),
                    cancel_requested: self.entries[i].cancel_requested,
                };
                let ghost k0 = kept@;
                kept.push(e);
                assert(entries_view(kept@) =~= entries_view(k0).push(s[i as int]));
                assert(pred(s[i as int]));
            } else {
                assert(!pred(s[i as int]));
            }
            i = i + 1;
        }
        self.entries = kept;
        assert(s.subrange(0, s.len() as int) == s);
        proof {
            s.lemma_filter_len(pred);
        }
        before - self.entries.len()
    }


    /// Cancels every waiting job and asks every running one to stop;
    /// answers how many jobs were waiting or running.
    pub fn cancel_all_pending(&mut self) -> (r: usize)
        ensures
            final(self)@ == after_cancel_all(old(self)@),
            r == old(self)@.filter(active_pred()).len(),
    {
        let ghost s = self@;
        let ghost pred = active_pred();
        let mut count: usize = 0;
        let mut i: usize = 0;
        while i < self.entries.len()
            invariant
                i <= self.entries.len(),
                s.len() == self.entries.len(),
                pred == active_pred(),
                forall|k: int|
                    0 <= k < i ==> entry_view(#[trigger] self.entries@[k]) == cancel_pending_entry(
                        s[k],
                    ),
                forall|k: int| i <= k < s.len() ==> entry_view(#[trigger] self.entries@[k]) == s[k],
                count == s.subrange(0, i as int).filter(pred).len(),
                count <= i,
            decreases self.entries.len() - i,
        {
            assert(s.subrange(0, i + 1) == s.subrange(0, i as int).push(s[i as int]));
            proof {
                s.subrange(0, i as int).lemma_filter_push(s[i as int], pred);
            }
            assert(entry_view(self.entries@[i as int]) == s[i as int]);
            let ghost before = self.entries@;
            match self.entries[i].job.status {
                JobStatus::Queued => {
                    self.entries[i].job.status = JobStatus::Cancelled;
                    self.entries[i].job.error = Some(text("cancelled"));
                    count = count + 1;
                    assert(pred(s[i as int]));
                },
                JobStatus::Running => {
                    self.entries[i].cancel_requested = true;
                    count = count + 1;
                    assert(pred(s[i as int]));
                },
                _ => {
                    assert(!pred(s[i as int]));
                },
            }
            assert(forall|k: int|
                0 <= k < s.len() && k != i ==> self.entries@[k] == before[k]);
            i = i + 1;
        }
        assert(s.subrange(0, s.len() as int) == s);
        assert(self@ =~= after_cancel_all(s)) by {
            assert forall|k: int| 0 <= k < s.len() implies #[trigger] self@[k]
                == after_cancel_all(s)[k] by {
                assert(entry_view(self.entries@[k]) == cancel_pending_entry(s[k]));
            }
        }
        count
    }

    /// Gives every waiting job (under one of `folder_roots`, where given)
    /// the trim range and kind; answers how many jobs changed.
    pub fn apply_to_queued(
        &mut self,
        trim: Option<TrimSpan>,
        kind: JobKind,
        folder_roots: Option<Vec<String>>,
    ) -> (r: usize)
        ensures
            final(self)@ == after_apply(old(self)@, trim, kind, opt_texts(folder_roots)),
            r == old(self)@.filter(
                |e: EntryView| selected_for_update(e, opt_texts(folder_roots)),
            ).len(),
    {
        let ghost s = self@;
        let ghost roots = opt_texts(folder_roots);
        let ghost pred = |e: EntryView| selected_for_update(e, roots);
        let mut count: usize = 0;
        let mut i: usize = 0;
        while i < self.entries.len()
            invariant
                i <= self.entries.len(),
                s.len() == self.entries.len(),
                roots == opt_texts(folder_roots),
                pred == (|e: EntryView| selected_for_update(e, roots)),
                forall|k: int|
                    0 <= k < i ==> entry_view(#[trigger] self.entries@[k]) == apply_entry(
                        s[k],
                        trim,
                        kind,
                        roots,
                    ),
                forall|k: int| i <= k < s.len() ==> entry_view(#[trigger] self.entries@[k]) == s[k],
                count == s.subrange(0, i as int).filter(pred).len(),
                count <= i,
            decreases self.entries.len() - i,
        {
            assert(s.subrange(0, i + 1) == s.subrange(0, i as int).push(s[i as int]));
            proof {
                s.subrange(0, i as int).lemma_filter_push(s[i as int], pred);
            }
            assert(entry_view(self.entries@[i as int]) == s[i as int]);
            let ghost before = self.entries@;
            let queued = match self.entries[i].job.status {
                JobStatus::Queued => true,
                _ => false,
            };
            let under = match &folder_roots {
                None => true,
                Some(roots_v) => {
                    let u = under_any_root(self.entries[i].job.input_path.as_str(), roots_v);
                    assert(roots == Some(texts(*roots_v)));
                    assert(s[i as int].job.input_path == self.entries@[i as int].job.input_path@);
                    assert(u == (exists|k: int|
                        0 <= k < texts(*roots_v).len() && path_under_root_spec(
                            s[i as int].job.input_path,
                            #[trigger] texts(*roots_v)[k],
                        )));
                    u
                },
            };
            assert(queued == (s[i as int].job.status == JobStatus::Queued));
            assert((queued && under) == selected_for_update(s[i as int], roots));
            if queued && under {
                self.entries[i].job.trim = trim;
                self.entries[i].job.kind = kind;
                count = count + 1;
                assert(pred(s[i as int]));
            } else {
                assert(!pred(s[i as int]));
            }
            assert(forall|k: int|
                0 <= k < s.len() && k != i ==> self.entries@[k] == before[k]);
            i = i + 1;
        }
        assert(s.subrange(0, s.len() as int) == s);
        assert(self@ =~= after_apply(s, trim, kind, roots)) by {
            assert forall|k: int| 0 <= k < s.len() implies #[trigger] self@[k] == after_apply(
                s,
                trim,
                kind,
                roots,
            )[k] by {
                assert(entry_view(self.entries@[k]) == apply_entry(s[k], trim, kind, roots));
            }
        }
        count
    }

    /// The first waiting job, if any: what the worker takes next.
    pub fn next_queued(&self) -> (r: Option<CompressionJob>)
        ensures
            first_queued_from(self@, 0) < 0 ==> r is None,
            first_queued_from(self@, 0) >= 0 ==> (r matches Some(j) && j@ == self@[first_queued_from(
                self@,
                0,
            )].job),
    {
        let mut i: usize = 0;
        while i < self.entries.len()
            invariant
                i <= self.entries.len(),
                self@.len() == self.entries.len(),
                first_queued_from(self@, i as int) == first_queued_from(self@, 0),
            decreases self.entries.len() - i,
        {
            assert(self@[i as int] == entry_view(self.entries@[i as int]));
            if let JobStatus::Queued = self.entries[i].job.status {
                return Some(self.entries[i].job.clone());
            }
            i = i + 1;
        }
        None
    }

    /// The worker picking up a job: a job cancelled while it waited is left
    /// alone; one with a pending cancel request is marked cancelled; any
    /// other is marked running.
    pub fn begin_job(&mut self, job_id: &str) -> (r: JobStart)
        ensures
            ({
                let s = old(self)@;
                let i = index_of(s, job_id@);
                if i < 0 {
                    r == JobStart::Missing && final(self)@ == s
                } else if s[i].job.status == JobStatus::Cancelled {
                    r == JobStart::AlreadyCancelled && final(self)@ == s
                } else if s[i].cancel_requested {
                    r == JobStart::CancelledBeforeStart && final(self)@ == after_set_cancelled(
                        s,
                        job_id@,
                    )
                } else {
                    final(self)@ == after_set_running(s, job_id@) && (r matches JobStart::Started(j)
                        && j@ == running_view(s[i].job))
                }
            }),
    {
        match self.index_of_exec(job_id) {
            None => JobStart::Missing,
            Some(i) => {
                assert(self@[i as int] == entry_view(self.entries@[i as int]));
                if let JobStatus::Cancelled = self.entries[i].job.status {
                    return JobStart::AlreadyCancelled;
                }
                if self.entries[i].cancel_requested {
                    self.set_cancelled(job_id);
                    return JobStart::CancelledBeforeStart;
                }
                self.set_running(job_id);
                assert(self@.len() == self.entries@.len());
                assert(self@[i as int] == entry_view(self.entries@[i as int]));
                JobStart::Started(self.entries[i].job.clone())
            },
        }
    }

    /// Records how a started job ended: success, a cancel, or a failure with
    /// the error's text.
    pub fn finish_job(
        &mut self,
        job_id: &str,
        outcome: Result<CompressResult, AppError>,
        dev_build: bool,
    )
        ensures
            match outcome {
                Ok(done) => final(self)@ == after_set_succeeded(
                    old(self)@,
                    job_id@,
                    done.output_path@,
                    done.output_size_bytes,
                ),
                Err(AppError::Cancelled) => final(self)@ == after_set_cancelled(old(self)@, job_id@),
                Err(e) => final(self)@ == after_set_failed(
                    old(self)@,
                    job_id@,
                    error_text(e, dev_build),
                ),
            },
    {
        match outcome {
            Ok(done) => self.set_succeeded(job_id, done.output_path, done.output_size_bytes),
            Err(AppError::Cancelled) => self.set_cancelled(job_id),
            Err(e) => {
                let text = e.message(dev_build);
                self.set_failed(job_id, text)
            },
        }
    }

    /// Queues a fresh copy of a failed or cancelled job.
    pub fn retry(&mut self, job_id: &str) -> (r: Option<CompressionJob>)
        ensures
            ({
                let i = index_of(old(self)@, job_id@);
                if i < 0 || !(old(self)@[i].job.status == JobStatus::Failed || old(
                    self,
                )@[i].job.status == JobStatus::Cancelled) {
                    r is None && final(self)@ == old(self)@
                } else {
                    let o = old(self)@[i].job;
                    r matches Some(j) && is_uuid_text(j.id@) && j@ == queued_view(
                        j.id@,
                        o.input_path,
                        o.output_mode,
                        o.trim,
                        o.kind,
                        o.output_name,
                    ) && final(self)@ == old(self)@.push(EntryView { job: j@, cancel_requested: false })
                }
            }),
    {
        proof {
            self.lemma_view();
        }
        match self.index_of_exec(job_id) {
            None => None,
            Some(i) => {
                match self.entries[i].job.status {
                    JobStatus::Failed | JobStatus::Cancelled => {},
                    _ => {
                        return None;
                    },
                }
                let input = self.entries[i].job.input_path.clone();
                let mode = self.entries[i].job.output_mode;
                let trim = self.entries[i].job.trim;
                let kind = self.entries[i].job.kind;
                let name = copy_opt_text(&self.entries[i].job.output_name);
                Some(self.enqueue(input, mode, trim, kind, name))
            },
        }
    }
}

/// Entries with the same ids, position by position, find the same job.
proof fn lemma_same_ids(s: Seq<EntryView>, t: Seq<EntryView>, id: Seq<char>, start: int)
    requires
        s.len() == t.len(),
        forall|k: int| 0 <= k < s.len() ==> #[trigger] s[k].job.id == t[k].job.id,
    ensures
        find_id(s, id, start) == find_id(t, id, start),
    decreases s.len() - start,
{
    if 0 <= start < s.len() && s[start].job.id != id {
        lemma_same_ids(s, t, id, start + 1);
    }
}

/// A failure reported for a job that is already cancelled changes nothing:
/// a cancel is never overwritten by the failure it caused.
pub proof fn law_failure_keeps_cancel(s: Seq<EntryView>, id: Seq<char>, error: Seq<char>)
    requires
        index_of(s, id) >= 0,
        s[index_of(s, id)].job.status == JobStatus::Cancelled,
    ensures
        after_set_failed(s, id, error) == s,
{
}

/// Cancelling a waiting job cancels it, and a failure reported afterwards
/// leaves it cancelled.
pub proof fn law_cancel_then_fail_stays_cancelled(
    s: Seq<EntryView>,
    id: Seq<char>,
    error: Seq<char>,
)
    requires
        index_of(s, id) >= 0,
        s[index_of(s, id)].job.status == JobStatus::Queued,
    ensures
        after_cancel(s, id)[index_of(s, id)].job.status == JobStatus::Cancelled,
        after_set_failed(after_cancel(s, id), id, error) == after_cancel(s, id),
{
    let i = index_of(s, id);
    lemma_find_id(s, id, 0);
    let c = after_cancel(s, id);
    assert forall|k: int| 0 <= k < s.len() implies #[trigger] s[k].job.id == c[k].job.id by {}
    lemma_same_ids(s, c, id, 0);
}

/// A cancel touches only the job it names. The answer is yes exactly when
/// that job is waiting or running; a waiting job becomes cancelled with the
/// error `cancelled`, a running one keeps its state and is asked to stop,
/// and a job that is finished, failed or already cancelled keeps its state
/// and error.
pub proof fn law_cancel_touches_only_pending(s: Seq<EntryView>, id: Seq<char>)
    ensures
        ({
            let i = index_of(s, id);
            let t = after_cancel(s, id);
            &&& t.len() == s.len()
            &&& cancel_answer(s, id) <==> (i >= 0 && (s[i].job.status == JobStatus::Queued
                || s[i].job.status == JobStatus::Running))
            &&& forall|j: int| 0 <= j < s.len() && j != i ==> #[trigger] t[j] == s[j]
            &&& i >= 0 ==> t[i].cancel_requested
            &&& i >= 0 && s[i].job.status == JobStatus::Queued ==> t[i].job == (JobView {
                status: JobStatus::Cancelled,
                error: Some("cancelled"@),
                ..s[i].job
            })
            &&& i >= 0 && s[i].job.status != JobStatus::Queued ==> t[i].job == s[i].job
        }),
{
    lemma_find_id(s, id, 0);
}

/// Cancelling everything pending changes only waiting and running jobs: a
/// waiting job becomes cancelled with the error `cancelled`, a running one
/// keeps its state and is asked to stop, and every other job (finished,
/// failed or already cancelled) is exactly as it was. The answer counts
/// the waiting and running jobs.
pub proof fn law_cancel_all_touches_only_pending(s: Seq<EntryView>)
    ensures
        after_cancel_all(s).len() == s.len(),
        forall|i: int|
            0 <= i < s.len() && s[i].job.status != JobStatus::Queued && s[i].job.status
                != JobStatus::Running ==> #[trigger] after_cancel_all(s)[i] == s[i],
        forall|i: int|
            0 <= i < s.len() && s[i].job.status == JobStatus::Running ==> #[trigger] after_cancel_all(
                s,
            )[i] == (EntryView { job: s[i].job, cancel_requested: true }),
        forall|i: int|
            0 <= i < s.len() && s[i].job.status == JobStatus::Queued ==> #[trigger] after_cancel_all(
                s,
            )[i] == (EntryView {
                job: JobView { status: JobStatus::Cancelled, error: Some("cancelled"@), ..s[i].job },
                cancel_requested: s[i].cancel_requested,
            }),
        s.filter(active_pred()).len() == s.filter(
            |e: EntryView| e.job.status == JobStatus::Queued || e.job.status == JobStatus::Running,
        ).len(),
{
    assert(active_pred() =~= (|e: EntryView|
        e.job.status == JobStatus::Queued || e.job.status == JobStatus::Running));
}

/// Stamping a trim and kind reaches every waiting job under any of the given
/// roots, wherever that root stands in the list, and nothing else: a job
/// that is not waiting, or lies under none of the roots, is left as it was.
pub proof fn law_apply_reaches_any_root(
    s: Seq<EntryView>,
    trim: Option<TrimSpan>,
    kind: JobKind,
    rs: Seq<Seq<char>>,
    i: int,
    k: int,
)
    requires
        0 <= i < s.len(),
    ensures
        after_apply(s, trim, kind, Some(rs)).len() == s.len(),
        s[i].job.status == JobStatus::Queued && 0 <= k < rs.len() && path_under_root_spec(
            s[i].job.input_path,
            rs[k],
        ) ==> after_apply(s, trim, kind, Some(rs))[i] == (EntryView {
            job: JobView { trim, kind, ..s[i].job },
            cancel_requested: s[i].cancel_requested,
        }),
        (s[i].job.status != JobStatus::Queued || forall|j: int|
            0 <= j < rs.len() ==> !path_under_root_spec(s[i].job.input_path, #[trigger] rs[j]))
            ==> after_apply(s, trim, kind, Some(rs))[i] == s[i],
        s[i].job.status == JobStatus::Queued ==> after_apply(s, trim, kind, None)[i] == (EntryView {
            job: JobView { trim, kind, ..s[i].job },
            cancel_requested: s[i].cancel_requested,
        }),
        s[i].job.status != JobStatus::Queued ==> after_apply(s, trim, kind, None)[i] == s[i],
{
    if s[i].job.status == JobStatus::Queued && 0 <= k < rs.len() && path_under_root_spec(
        s[i].job.input_path,
        rs[k],
    ) {
        assert(selected_for_update(s[i], Some(rs)));
    }
}

/// A job selected under some roots is selected under any list holding them.
proof fn lemma_selected_within(e: EntryView, rs: Seq<Seq<char>>, qs: Seq<Seq<char>>)
    requires
        forall|x: Seq<char>| rs.contains(x) ==> qs.contains(x),
    ensures
        selected_for_update(e, Some(rs)) ==> selected_for_update(e, Some(qs)),
{
    if selected_for_update(e, Some(rs)) {
        let p = e.job.input_path;
        let k = choose|k: int| 0 <= k < rs.len() && path_under_root_spec(p, #[trigger] rs[k]);
        assert(rs.contains(rs[k]));
        let j = choose|j: int| 0 <= j < qs.len() && qs[j] == rs[k];
        assert(path_under_root_spec(p, qs[j]));
        let o = Some(qs);
        assert(o->0 == qs);
        assert(path_under_root_spec(p, o->0[j]));
    }
}

/// Which jobs get the trim and kind depends only on which roots are given,
/// not on their order or repetition.
pub proof fn law_apply_ignores_root_order(
    s: Seq<EntryView>,
    trim: Option<TrimSpan>,
    kind: JobKind,
    rs: Seq<Seq<char>>,
    qs: Seq<Seq<char>>,
)
    requires
        forall|x: Seq<char>| rs.contains(x) <==> qs.contains(x),
    ensures
        after_apply(s, trim, kind, Some(rs)) == after_apply(s, trim, kind, Some(qs)),
{
    assert forall|i: int| 0 <= i < s.len() implies #[trigger] after_apply(
        s,
        trim,
        kind,
        Some(rs),
    )[i] == after_apply(s, trim, kind, Some(qs))[i] by {
        lemma_selected_within(s[i], rs, qs);
        lemma_selected_within(s[i], qs, rs);
    }
    assert(after_apply(s, trim, kind, Some(rs)) =~= after_apply(s, trim, kind, Some(qs)));
}

/// Cancelling twice is the same as cancelling once.
pub proof fn law_cancel_idempotent(s: Seq<EntryView>, id: Seq<char>)
    ensures
        after_cancel(after_cancel(s, id), id) == after_cancel(s, id),
{
    lemma_find_id(s, id, 0);
    let c = after_cancel(s, id);
    assert forall|k: int| 0 <= k < s.len() implies #[trigger] s[k].job.id == c[k].job.id by {}
    lemma_same_ids(s, c, id, 0);
    assert(after_cancel(c, id) =~= c);
}

/// After cancelling everything pending, no job is waiting, and every job
/// still running has been asked to stop.
pub proof fn law_cancel_all_leaves_nothing_queued(s: Seq<EntryView>)
    ensures
        after_cancel_all(s).len() == s.len(),
        forall|k: int|
            0 <= k < s.len() ==> #[trigger] after_cancel_all(s)[k].job.status != JobStatus::Queued,
        forall|k: int|
            0 <= k < s.len() && after_cancel_all(s)[k].job.status == JobStatus::Running
                ==> #[trigger] after_cancel_all(s)[k].cancel_requested,
{
}

/// Clearing finished jobs keeps only waiting and running jobs, and doing it
/// again changes nothing.
pub proof fn law_clear_finished_keeps_active(s: Seq<EntryView>)
    ensures
        forall|k: int|
            0 <= k < after_clear_finished(s).len() ==> is_active(
                #[trigger] after_clear_finished(s)[k],
            ),
        after_clear_finished(after_clear_finished(s)) == after_clear_finished(s),
{
    broadcast use Seq::lemma_filter_pred;

    let t = after_clear_finished(s);
    assert forall|k: int| 0 <= k < t.len() implies is_active(#[trigger] t[k]) by {
        s.lemma_filter_pred(active_pred(), k);
    }
    lemma_filter_all_active(t);
}

/// No two jobs share an id.
pub open spec fn distinct_ids(s: Seq<EntryView>) -> bool {
    forall|i: int, j: int| 0 <= i < j < s.len() ==> #[trigger] s[i].job.id != #[trigger] s[j].job.id
}

/// Clearing finished jobs drops their cancel flags with them: where ids are
/// distinct, a finished job's id is no longer found, and a waiting or
/// running job is found with its flag unchanged.
pub proof fn law_clear_finished_drops_flags(s: Seq<EntryView>, id: Seq<char>)
    requires
        distinct_ids(s),
    ensures
        ({
            let i = index_of(s, id);
            let t = after_clear_finished(s);
            &&& i < 0 ==> index_of(t, id) < 0
            &&& i >= 0 && !is_active(s[i]) ==> index_of(t, id) < 0
            &&& i >= 0 && is_active(s[i]) ==> index_of(t, id) >= 0 && t[index_of(t, id)] == s[i]
        }),
{
    let t = after_clear_finished(s);
    let i = index_of(s, id);
    lemma_find_id(s, id, 0);
    lemma_find_id(t, id, 0);
    let k = index_of(t, id);
    if k >= 0 {
        assert(t.contains(t[k]));
        s.lemma_filter_contains_rev(active_pred(), t[k]);
        let j = choose|j: int| 0 <= j < s.len() && s[j] == t[k];
        assert(s[j].job.id == id);
        s.lemma_filter_pred(active_pred(), k);
        assert(is_active(t[k]));
        if i >= 0 && j != i {
            if j < i {
                assert(s[j].job.id != s[i].job.id);
            } else {
                assert(s[i].job.id != s[j].job.id);
            }
        }
    }
    if i >= 0 && is_active(s[i]) {
        assert(active_pred()(s[i]));
        s.lemma_filter_contains(active_pred(), i);
        assert(t.contains(s[i]));
        let k2 = choose|k2: int| 0 <= k2 < t.len() && t[k2] == s[i];
        assert(t[k2].job.id == id);
    }
}

proof fn lemma_filter_all_active(t: Seq<EntryView>)
    requires
        forall|k: int| 0 <= k < t.len() ==> is_active(#[trigger] t[k]),
    ensures
        t.filter(active_pred()) == t,
    decreases t.len(),
{
    if t.len() == 0 {
        t.lemma_filter_len(active_pred());
        assert(t.filter(active_pred()) =~= t);
    } else {
        let d = t.drop_last();
        assert forall|k: int| 0 <= k < d.len() implies is_active(#[trigger] d[k]) by {
            assert(d[k] == t[k]);
        }
        lemma_filter_all_active(d);
        d.lemma_filter_push(t.last(), active_pred());
        assert(d.push(t.last()) == t);
        assert(active_pred()(t.last()));
    }
}

/// Once a job with some path is in the list, no other job with the same
/// path key is queued by `enqueue_new`.
pub proof fn law_enqueue_new_refuses_duplicates(s: Seq<EntryView>, e: EntryView, path: Seq<char>)
    requires
        same_path_spec(e.job.input_path, path),
    ensures
        has_input(s.push(e), path),
{
    assert(s.push(e)[s.len() as int] == e);
}

/// A job cancelled while it waits is never picked up as the next job.
pub proof fn law_cancelled_job_is_not_next(s: Seq<EntryView>, id: Seq<char>)
    requires
        index_of(s, id) >= 0,
        s[index_of(s, id)].job.status == JobStatus::Queued,
    ensures
        first_queued_from(after_cancel(s, id), 0) != index_of(s, id),
{
    lemma_find_id(s, id, 0);
    lemma_first_queued(after_cancel(s, id), 0);
}


proof fn lemma_has_same_path_grows(a: Seq<Seq<char>>, b: Seq<Seq<char>>, x: Seq<char>)
    requires
        has_same_path(a, x),
    ensures
        has_same_path(a + b, x),
{
    let k = choose|k: int| 0 <= k < a.len() && same_path_spec(#[trigger] a[k], x);
    assert((a + b)[k] == a[k]);
}

/// Every input offered to `enqueue_new` ends up with a match among the
/// existing paths and those it queued.
proof fn lemma_fresh_covers(existing: Seq<Seq<char>>, xs: Seq<Seq<char>>)
    ensures
        forall|k: int|
            0 <= k < xs.len() ==> has_same_path(existing + fresh_inputs(existing, xs), #[trigger] xs[k]),
    decreases xs.len(),
{
    if xs.len() > 0 {
        let d = xs.drop_last();
        let prev = fresh_inputs(existing, d);
        let f = fresh_inputs(existing, xs);
        lemma_fresh_covers(existing, d);
        let x = xs.last();
        assert forall|k: int| 0 <= k < xs.len() implies has_same_path(existing + f, #[trigger] xs[k]) by {
            if k < d.len() {
                assert(xs[k] == d[k]);
                assert(has_same_path(existing + prev, d[k]));
                if f != prev {
                    assert(f == prev.push(x));
                    assert(existing + f == (existing + prev) + seq![x]);
                    lemma_has_same_path_grows(existing + prev, seq![x], d[k]);
                }
            } else {
                if has_same_path(existing + prev, x) {
                    assert(f == prev);
                } else {
                    assert(f == prev.push(x));
                    let e = existing + f;
                    assert(e[e.len() - 1] == x);
                    law_same_path_is_equivalence(x, x, x);
                    assert(same_path_spec(e[e.len() - 1], x));
                }
            }
        }
    }
}

/// Inputs that all match some existing path queue nothing.
proof fn lemma_fresh_none(existing: Seq<Seq<char>>, xs: Seq<Seq<char>>)
    requires
        forall|k: int| 0 <= k < xs.len() ==> has_same_path(existing, #[trigger] xs[k]),
    ensures
        fresh_inputs(existing, xs).len() == 0,
    decreases xs.len(),
{
    if xs.len() > 0 {
        let d = xs.drop_last();
        assert forall|k: int| 0 <= k < d.len() implies has_same_path(existing, #[trigger] d[k]) by {
            assert(d[k] == xs[k]);
        }
        lemma_fresh_none(existing, d);
        assert(fresh_inputs(existing, d) =~= Seq::<Seq<char>>::empty());
        assert(existing + fresh_inputs(existing, d) =~= existing);
        assert(has_same_path(existing, xs[xs.len() - 1]));
    }
}

/// Offering the same inputs again (a folder dropped or re-scanned a second
/// time) queues nothing: every one of them is already in the list.
pub proof fn law_rescan_adds_nothing(
    s: Seq<EntryView>,
    n: Seq<EntryView>,
    inputs: Seq<Seq<char>>,
    mode: OutputMode,
)
    requires
        grown_by(s, n, fresh_inputs(paths_of(s), inputs), mode),
    ensures
        fresh_inputs(paths_of(n), inputs).len() == 0,
{
    let existing = paths_of(s);
    let f = fresh_inputs(existing, inputs);
    lemma_fresh_covers(existing, inputs);
    assert(paths_of(n) =~= existing + f) by {
        assert forall|k: int| 0 <= k < n.len() implies #[trigger] paths_of(n)[k] == (existing
            + f)[k] by {
            if k < s.len() {
                assert(n.subrange(0, s.len() as int)[k] == n[k]);
            } else {
                assert(n[s.len() + (k - s.len())] == n[k]);
            }
        }
    }
    lemma_fresh_none(paths_of(n), inputs);
}

/// Stamping a trim and kind onto waiting jobs keeps the list's length and
/// order, and leaves every job that is not waiting exactly as it was.
pub proof fn law_apply_touches_only_waiting(
    s: Seq<EntryView>,
    trim: Option<TrimSpan>,
    kind: JobKind,
    roots: Option<Seq<Seq<char>>>,
)
    ensures
        after_apply(s, trim, kind, roots).len() == s.len(),
        forall|k: int|
            0 <= k < s.len() ==> (#[trigger] after_apply(s, trim, kind, roots)[k]).job.id
                == s[k].job.id,
        forall|k: int|
            0 <= k < s.len() && s[k].job.status != JobStatus::Queued ==> #[trigger] after_apply(
                s,
                trim,
                kind,
                roots,
            )[k] == s[k],
{
}

/// Every waiting job has no output, no output size and no error.
pub open spec fn waiting_jobs_clean(s: Seq<EntryView>) -> bool {
    forall|k: int|
        0 <= k < s.len() && (#[trigger] s[k]).job.status == JobStatus::Queued ==> {
            &&& s[k].job.output_path is None
            &&& s[k].job.output_size_bytes is None
            &&& s[k].job.error is None
        }
}

/// A waiting job never carries a result or an error: queueing (and
/// retrying) adds clean waiting jobs, and no transition of the list gives a
/// job that stays waiting an output or an error.
pub proof fn law_waiting_jobs_stay_clean(
    s: Seq<EntryView>,
    id: Seq<char>,
    bits: u64,
    output_path: Seq<char>,
    size: u64,
    error: Seq<char>,
    trim: Option<TrimSpan>,
    kind: JobKind,
    roots: Option<Seq<Seq<char>>>,
    new_id: Seq<char>,
    input_path: Seq<char>,
    mode: OutputMode,
    output_name: Option<Seq<char>>,
)
    requires
        waiting_jobs_clean(s),
    ensures
        waiting_jobs_clean(
            s.push(
                EntryView {
                    job: queued_view(new_id, input_path, mode, trim, kind, output_name),
                    cancel_requested: false,
                },
            ),
        ),
        waiting_jobs_clean(after_cancel(s, id)),
        waiting_jobs_clean(after_set_running(s, id)),
        waiting_jobs_clean(after_set_progress(s, id, bits)),
        waiting_jobs_clean(after_set_succeeded(s, id, output_path, size)),
        waiting_jobs_clean(after_set_failed(s, id, error)),
        waiting_jobs_clean(after_set_cancelled(s, id)),
        waiting_jobs_clean(after_clear_finished(s)),
        waiting_jobs_clean(after_cancel_all(s)),
        waiting_jobs_clean(after_apply(s, trim, kind, roots)),
{
    lemma_find_id(s, id, 0);
    let t = s.push(
        EntryView {
            job: queued_view(new_id, input_path, mode, trim, kind, output_name),
            cancel_requested: false,
        },
    );
    assert forall|k: int| 0 <= k < t.len() && (#[trigger] t[k]).job.status == JobStatus::Queued implies {
        &&& t[k].job.output_path is None
        &&& t[k].job.output_size_bytes is None
        &&& t[k].job.error is None
    } by {
        if k < s.len() {
            assert(t[k] == s[k]);
        }
    }
    let c = after_clear_finished(s);
    assert forall|k: int| 0 <= k < c.len() && (#[trigger] c[k]).job.status == JobStatus::Queued implies {
        &&& c[k].job.output_path is None
        &&& c[k].job.output_size_bytes is None
        &&& c[k].job.error is None
    } by {
        assert(c.contains(c[k]));
        s.lemma_filter_contains_rev(active_pred(), c[k]);
        let j = choose|j: int| 0 <= j < s.len() && s[j] == c[k];
        assert(s[j] == c[k]);
    }
}

} // verus!
