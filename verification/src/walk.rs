//! The tree walker: a work-list state machine that visits a directory
//! tree depth-first, applies the exclusion rules and per-file
//! classification, and accumulates byte totals per language.
//!
//! The walker itself performs no I/O. It tells its driver which path to
//! probe next ([`Walker::next_action`]) and digests the outcome
//! ([`Walker::handle`]); every transition equals the pure function
//! [`step`], so the whole walk is a function of the events the tree
//! produced. Transient failures of one path are retried up to
//! [`RETRY_LIMIT`] attempts and then downgraded to a zero contribution
//! for that subtree alone.

use vstd::prelude::*;
use crate::languages::{Language, LanguageV, extract_filetype, filetype_spec};
use crate::paths::{should_skip_path, skip_spec};
use crate::sniff::{binary_spec, is_binary_sample};
use crate::totals::{ByteTotals, TotalsV, record_spec, totals_wf};

verus! {

/// How many times a path is attempted before its subtree is given up.
pub const RETRY_LIMIT: u8 = 3;

/// One pending unit of work.
#[derive(Debug, Clone)]
pub enum Task {
    /// The path still needs its metadata read.
    Visit { path: String, attempts: u8 },
    /// The path is a directory, not excluded, awaiting its child listing.
    ListDir { path: String, attempts: u8 },
    /// The path is a file of `size` bytes, awaiting its content sample.
    Sniff { path: String, size: u64 },
}

/// The mathematical image of a [`Task`].
pub enum TaskV {
    Visit { path: Seq<char>, attempts: u8 },
    ListDir { path: Seq<char>, attempts: u8 },
    Sniff { path: Seq<char>, size: u64 },
}

impl View for Task {
    type V = TaskV;

    open spec fn view(&self) -> TaskV {
        match self {
            Task::Visit { path, attempts } => TaskV::Visit { path: path@, attempts: *attempts },
            Task::ListDir { path, attempts } => TaskV::ListDir {
                path: path@,
                attempts: *attempts,
            },
            Task::Sniff { path, size } => TaskV::Sniff { path: path@, size: *size },
        }
    }
}

impl DeepView for Task {
    type V = TaskV;

    open spec fn deep_view(&self) -> TaskV {
        self.view()
    }
}

/// What the driver is asked to do next.
#[derive(Debug, Clone)]
pub enum WalkAction {
    /// Read the path's metadata and report `Stat` or `StatFailed`.
    Stat { path: String },
    /// List the directory's children and report `Listing` or `ListFailed`.
    List { path: String },
    /// Read the file's leading bytes and report `Sample` or `SampleFailed`.
    ReadSample { path: String },
    /// The walk is complete.
    Done,
}

/// The mathematical image of a [`WalkAction`].
pub enum ActionV {
    Stat { path: Seq<char> },
    List { path: Seq<char> },
    ReadSample { path: Seq<char> },
    Done,
}

impl View for WalkAction {
    type V = ActionV;

    open spec fn view(&self) -> ActionV {
        match self {
            WalkAction::Stat { path } => ActionV::Stat { path: path@ },
            WalkAction::List { path } => ActionV::List { path: path@ },
            WalkAction::ReadSample { path } => ActionV::ReadSample { path: path@ },
            WalkAction::Done => ActionV::Done,
        }
    }
}

/// What the filesystem answered.
#[derive(Debug, Clone)]
pub enum WalkEvent {
    /// Metadata was read: a file of `size` bytes, or a directory.
    Stat { is_file: bool, size: u64 },
    /// Reading metadata failed transiently.
    StatFailed,
    /// The directory's child entry names.
    Listing { names: Vec<String> },
    /// Listing the directory failed transiently.
    ListFailed,
    /// The file's leading content bytes.
    Sample { data: Vec<u8> },
    /// Reading the sample failed; the file is taken for text (fail-open).
    SampleFailed,
}

/// The mathematical image of a [`WalkEvent`].
pub enum EventV {
    Stat { is_file: bool, size: u64 },
    StatFailed,
    Listing { names: Seq<Seq<char>> },
    ListFailed,
    Sample { data: Seq<u8> },
    SampleFailed,
}

impl View for WalkEvent {
    type V = EventV;

    open spec fn view(&self) -> EventV {
        match self {
            WalkEvent::Stat { is_file, size } => EventV::Stat {
                is_file: *is_file,
                size: *size,
            },
            WalkEvent::StatFailed => EventV::StatFailed,
            WalkEvent::Listing { names } => EventV::Listing { names: names.deep_view() },
            WalkEvent::ListFailed => EventV::ListFailed,
            WalkEvent::Sample { data } => EventV::Sample { data: data@ },
            WalkEvent::SampleFailed => EventV::SampleFailed,
        }
    }
}

impl DeepView for WalkEvent {
    type V = EventV;

    open spec fn deep_view(&self) -> EventV {
        self.view()
    }
}

/// A child's path under its parent directory.
pub open spec fn child_path(parent: Seq<char>, name: Seq<char>) -> Seq<char> {
    parent + "/"@ + name
}

/// The visit tasks a directory listing pushes: reversed, so that the
/// first-listed child is popped, and hence processed, first.
pub open spec fn children_tasks(parent: Seq<char>, names: Seq<Seq<char>>) -> Seq<TaskV> {
    Seq::new(
        names.len(),
        |i: int| TaskV::Visit {
            path: child_path(parent, names[names.len() - 1 - i]),
            attempts: RETRY_LIMIT,
        },
    )
}

/// Totals after a text file at `path` of `size` bytes is classified:
/// credited to the first registry entry claiming its extension, or left
/// untouched when no entry does.
pub open spec fn add_file(t: TotalsV, langs: Seq<LanguageV>, path: Seq<char>, size: u64) -> TotalsV {
    match filetype_spec(langs, path) {
        Some(i) => if 0 <= i < t.observed.len() && i < t.counts.len() {
            record_spec(t, i, size)
        } else {
            t
        },
        None => t,
    }
}

/// The walker's transition function: the state after digesting one
/// filesystem answer. An answer that does not fit the pending task leaves
/// the state unchanged.
pub open spec fn step(w: WalkerV, e: EventV) -> WalkerV {
    if w.tasks.len() == 0 {
        w
    } else {
        let rest = w.tasks.drop_last();
        match w.tasks.last() {
            TaskV::Visit { path, attempts } => match e {
                EventV::Stat { is_file, size } => if is_file {
                    WalkerV { tasks: rest.push(TaskV::Sniff { path, size }), ..w }
                } else if !skip_spec(path) {
                    WalkerV {
                        tasks: rest.push(TaskV::ListDir { path, attempts: RETRY_LIMIT }),
                        ..w
                    }
                } else {
                    WalkerV { tasks: rest, ..w }
                },
                EventV::StatFailed => if attempts > 1 {
                    WalkerV {
                        tasks: rest.push(
                            TaskV::Visit { path, attempts: (attempts - 1) as u8 },
                        ),
                        ..w
                    }
                } else {
                    WalkerV { tasks: rest, ..w }
                },
                _ => w,
            },
            TaskV::ListDir { path, attempts } => match e {
                EventV::Listing { names } => WalkerV {
                    tasks: rest + children_tasks(path, names),
                    ..w
                },
                EventV::ListFailed => if attempts > 1 {
                    WalkerV {
                        tasks: rest.push(
                            TaskV::ListDir { path, attempts: (attempts - 1) as u8 },
                        ),
                        ..w
                    }
                } else {
                    WalkerV { tasks: rest, ..w }
                },
                _ => w,
            },
            TaskV::Sniff { path, size } => match e {
                EventV::Sample { data } => if binary_spec(data) {
                    WalkerV { tasks: rest, ..w }
                } else {
                    WalkerV { tasks: rest, totals: add_file(w.totals, w.langs, path, size), ..w }
                },
                EventV::SampleFailed => WalkerV {
                    tasks: rest,
                    totals: add_file(w.totals, w.langs, path, size),
                    ..w
                },
                _ => w,
            },
        }
    }
}

/// The state after digesting a whole sequence of answers in order.
pub open spec fn run(w: WalkerV, es: Seq<EventV>) -> WalkerV
    decreases es.len(),
{
    if es.len() == 0 {
        w
    } else {
        run(step(w, es.first()), es.drop_first())
    }
}

/// A pending task a well-formed walker may hold: a directory listing is
/// only ever pending for a path that the exclusion rules admit.
pub open spec fn task_ok(t: TaskV) -> bool {
    match t {
        TaskV::ListDir { path, .. } => !skip_spec(path),
        _ => true,
    }
}

/// Well-formedness of a walker state.
pub open spec fn walker_wf(w: WalkerV) -> bool {
    &&& totals_wf(w.totals)
    &&& w.totals.observed.len() == w.langs.len()
    &&& w.totals.counts.len() == w.langs.len()
    &&& forall|k: int| 0 <= k < w.tasks.len() ==> task_ok(#[trigger] w.tasks[k])
}

/// A fresh walk: nothing counted yet, the root awaiting its metadata.
pub open spec fn init_spec(langs: Seq<LanguageV>, root: Seq<char>) -> WalkerV {
    WalkerV {
        langs,
        tasks: seq![TaskV::Visit { path: root, attempts: RETRY_LIMIT }],
        totals: TotalsV {
            observed: Seq::new(langs.len(), |i: int| false),
            counts: Seq::new(langs.len(), |i: int| 0u64),
        },
    }
}

/// What the driver must do next, as a function of the state.
pub open spec fn action_of(w: WalkerV) -> ActionV {
    if w.tasks.len() == 0 {
        ActionV::Done
    } else {
        match w.tasks.last() {
            TaskV::Visit { path, .. } => ActionV::Stat { path },
            TaskV::ListDir { path, .. } => ActionV::List { path },
            TaskV::Sniff { path, .. } => ActionV::ReadSample { path },
        }
    }
}

/// The tree walker's state: the language registry it classifies against,
/// the pending work, and the byte totals accumulated so far.
#[derive(Debug, Clone)]
pub struct Walker {
    languages: Vec<Language>,
    tasks: Vec<Task>,
    totals: ByteTotals,
}

/// The mathematical image of a [`Walker`].
#[verifier::ext_equal]
pub struct WalkerV {
    pub langs: Seq<LanguageV>,
    pub tasks: Seq<TaskV>,
    pub totals: TotalsV,
}

impl View for Walker {
    type V = WalkerV;

    closed spec fn view(&self) -> WalkerV {
        WalkerV {
            langs: self.languages.deep_view(),
            tasks: self.tasks.deep_view(),
            totals: self.totals@,
        }
    }
}

proof fn lemma_record_spec_wf(t: TotalsV, i: int, size: u64)
    requires
        totals_wf(t),
        0 <= i < t.observed.len(),
        i < t.counts.len(),
    ensures
        totals_wf(record_spec(t, i, size)),
{
    let r = record_spec(t, i, size);
    assert forall|k: int| 0 <= k < r.observed.len() && !r.observed[k] implies r.counts[k] == 0 by {
        assert(k != i);
        assert(r.observed[k] == t.observed[k]);
        assert(r.counts[k] == t.counts[k]);
    }
}

/// One step keeps a walker well-formed.
pub proof fn lemma_step_preserves_wf(w: WalkerV, e: EventV)
    requires
        walker_wf(w),
    ensures
        walker_wf(step(w, e)),
{
    if w.tasks.len() == 0 {
        return;
    }
    let rest = w.tasks.drop_last();
    assert(forall|k: int| 0 <= k < rest.len() ==> rest[k] == w.tasks[k]);
    let s = step(w, e);
    match w.tasks.last() {
        TaskV::Visit { path, attempts } => {
            match e {
                EventV::Stat { is_file, size } => {
                    assert forall|k: int| 0 <= k < s.tasks.len() implies task_ok(
                        #[trigger] s.tasks[k],
                    ) by {}
                },
                EventV::StatFailed => {},
                _ => {},
            }
        },
        TaskV::ListDir { path, attempts } => {
            match e {
                EventV::Listing { names } => {
                    assert forall|k: int| 0 <= k < s.tasks.len() implies task_ok(
                        #[trigger] s.tasks[k],
                    ) by {
                        if k >= rest.len() {
                            assert(s.tasks[k] == children_tasks(path, names)[k - rest.len()]);
                        }
                    }
                },
                _ => {},
            }
        },
        TaskV::Sniff { path, size } => {
            match e {
                EventV::Sample { data } => {
                    if !binary_spec(data) {
                        lemma_add_file_wf(w.totals, w.langs, path, size);
                    }
                },
                EventV::SampleFailed => {
                    lemma_add_file_wf(w.totals, w.langs, path, size);
                },
                _ => {},
            }
        },
    }
}

proof fn lemma_add_file_wf(t: TotalsV, langs: Seq<LanguageV>, path: Seq<char>, size: u64)
    requires
        totals_wf(t),
    ensures
        totals_wf(add_file(t, langs, path, size)),
        add_file(t, langs, path, size).observed.len() == t.observed.len(),
        add_file(t, langs, path, size).counts.len() == t.counts.len(),
{
    match filetype_spec(langs, path) {
        Some(i) => {
            if 0 <= i < t.observed.len() && i < t.counts.len() {
                lemma_record_spec_wf(t, i, size);
            }
        },
        None => {},
    }
}

/// A whole run keeps a walker well-formed.
pub proof fn lemma_run_preserves_wf(w: WalkerV, es: Seq<EventV>)
    requires
        walker_wf(w),
    ensures
        walker_wf(run(w, es)),
    decreases es.len(),
{
    if es.len() > 0 {
        lemma_step_preserves_wf(w, es.first());
        lemma_run_preserves_wf(step(w, es.first()), es.drop_first());
    }
}

/// The walker never recurses into an excluded directory: a well-formed
/// walker never asks its driver to list a path that the exclusion rules
/// refuse, however the walk got there.
pub proof fn lemma_never_lists_excluded(w: WalkerV)
    requires
        walker_wf(w),
    ensures
        action_of(w) matches ActionV::List { path } ==> !skip_spec(path),
{
    if w.tasks.len() > 0 {
        assert(task_ok(w.tasks[w.tasks.len() - 1]));
    }
}

/// A path that fails its last remaining attempt is dropped whole: the
/// totals are untouched and exactly the tasks already pending — the
/// siblings and everything above — remain to be processed.
pub proof fn lemma_exhausted_retry_is_isolated(w: WalkerV, e: EventV)
    requires
        w.tasks.len() > 0,
        ({
            ||| (w.tasks.last() matches TaskV::Visit { attempts, .. } && attempts == 1
                && e is StatFailed)
            ||| (w.tasks.last() matches TaskV::ListDir { attempts, .. } && attempts == 1
                && e is ListFailed)
        }),
    ensures
        step(w, e).totals == w.totals,
        step(w, e).langs == w.langs,
        step(w, e).tasks == w.tasks.drop_last(),
{
}

/// A file whose sample holds a NUL byte within the sniffer's window is
/// binary: it is excluded from the totals whatever its extension.
pub proof fn lemma_binary_sample_excluded(w: WalkerV, e: EventV)
    requires
        w.tasks.len() > 0,
        w.tasks.last() is Sniff,
        e matches EventV::Sample { data } && binary_spec(data),
    ensures
        step(w, e).totals == w.totals,
{
}

/// A file with no NUL byte in the sniffer's window is counted: its full
/// byte length — not the sampled length — is credited to the language
/// its extension classifies to.
pub proof fn lemma_text_sample_counted(w: WalkerV, e: EventV, i: int)
    requires
        w.tasks.len() > 0,
        w.tasks.last() matches TaskV::Sniff { path, size } && filetype_spec(w.langs, path)
            == Some(i),
        0 <= i < w.totals.observed.len(),
        i < w.totals.counts.len(),
        e matches EventV::Sample { data } && !binary_spec(data),
    ensures
        step(w, e).totals == record_spec(
            w.totals,
            i,
            w.tasks.last()->Sniff_size,
        ),
        step(w, e).totals.observed[i],
{
}

/// Digesting the same answers from equal states ends in equal states:
/// the walk is a pure function of the tree as observed, so an unchanged
/// directory tree always yields identical totals.
pub proof fn lemma_walk_deterministic(w1: WalkerV, w2: WalkerV, es: Seq<EventV>)
    requires
        w1 == w2,
    ensures
        run(w1, es) == run(w2, es),
{
}

impl Walker {
    /// Starts a walk of `root`, classifying against `languages`.
    pub fn new(languages: Vec<Language>, root: String) -> (w: Walker)
        ensures
            w@ == init_spec(languages.deep_view(), root@),
            walker_wf(w@),
    {
        let n = languages.len();
        let totals = ByteTotals::new(n);
        let mut tasks: Vec<Task> = Vec::new();
        tasks.push(Task::Visit { path: root, attempts: RETRY_LIMIT });
        let w = Walker { languages, tasks, totals };
        proof {
            assert(w@.tasks =~= init_spec(w@.langs, root@).tasks);
            assert(w@ =~= init_spec(w@.langs, root@));
        }
        w
    }

    /// Whether every pending task has been processed.
    pub fn is_done(&self) -> (r: bool)
        ensures
            r == (self@.tasks.len() == 0),
    {
        self.tasks.len() == 0
    }

    /// The byte totals accumulated so far; final once the walk is done.
    pub fn totals(&self) -> (r: &ByteTotals)
        ensures
            r@ == self@.totals,
    {
        &self.totals
    }

    /// Surrenders the accumulated totals.
    pub fn into_totals(self) -> (r: ByteTotals)
        ensures
            r@ == self@.totals,
    {
        self.totals
    }

    /// What the driver must do next.
    pub fn next_action(&self) -> (a: WalkAction)
        ensures
            a@ == action_of(self@),
    {
        let n = self.tasks.len();
        if n == 0 {
            return WalkAction::Done;
        }
        proof {
            assert(self@.tasks.last() == self.tasks@[n - 1]@);
        }
        match &self.tasks[n - 1] {
            Task::Visit { path, .. } => WalkAction::Stat { path: path.clone() },
            Task::ListDir { path, .. } => WalkAction::List { path: path.clone() },
            Task::Sniff { path, .. } => WalkAction::ReadSample { path: path.clone() },
        }
    }

    /// Classifies a non-binary file and credits its full byte length.
    fn credit_file(&mut self, path: &str, size: u64)
        ensures
            final(self)@ == (WalkerV {
                langs: old(self)@.langs,
                tasks: old(self)@.tasks,
                totals: add_file(old(self)@.totals, old(self)@.langs, path@, size),
            }),
    {
        match extract_filetype(path, &self.languages) {
            Some(i) => {
                if i < self.totals.observed.len() && i < self.totals.counts.len() {
                    self.totals.record(i, size);
                }
                proof {
                    assert(self@ =~= (WalkerV {
                        langs: old(self)@.langs,
                        tasks: old(self)@.tasks,
                        totals: add_file(old(self)@.totals, old(self)@.langs, path@, size),
                    }));
                }
            },
            None => {
                proof {
                    assert(self@ =~= (WalkerV {
                        langs: old(self)@.langs,
                        tasks: old(self)@.tasks,
                        totals: add_file(old(self)@.totals, old(self)@.langs, path@, size),
                    }));
                }
            },
        }
    }

    /// Digests a whole recorded sequence of filesystem answers, in
    /// order. The result is exactly [`run`] of the answers: the walk is
    /// a pure function of what the tree answered, so replaying the
    /// same answers — an unchanged tree — always ends in the same state.
    pub fn run_events(&mut self, events: Vec<WalkEvent>)
        ensures
            final(self)@ == run(old(self)@, events.deep_view()),
            walker_wf(old(self)@) ==> walker_wf(final(self)@),
    {
        let ghost w0 = self@;
        let ghost evs0 = events.deep_view();
        let mut events = events;
        while events.len() > 0
            invariant
                run(w0, evs0) == run(self@, events.deep_view()),
                walker_wf(w0) ==> walker_wf(self@),
            decreases events.len(),
        {
            let ghost cur = self@;
            let ghost dv = events.deep_view();
            let e = events.remove(0);
            proof {
                assert(e@ == dv.first());
                assert(events.deep_view() =~= dv.drop_first());
            }
            self.handle(e);
        }
        proof {
            assert(events.deep_view() =~= Seq::<EventV>::empty());
        }
    }

    /// Digests one filesystem answer. An answer that does not fit the
    /// pending task leaves the walker unchanged.
    pub fn handle(&mut self, e: WalkEvent)
        ensures
            final(self)@ == step(old(self)@, e@),
            walker_wf(old(self)@) ==> walker_wf(final(self)@),
    {
        let ghost w0 = self@;
        let ghost ev = e@;
        proof {
            if walker_wf(w0) {
                lemma_step_preserves_wf(w0, ev);
            }
        }
        if self.tasks.len() == 0 {
            proof {
                assert(self@ =~= step(w0, ev));
            }
            return;
        }
        let t = self.tasks.pop().unwrap();
        let ghost tv = t@;
        proof {
            assert(tv == w0.tasks.last());
            assert(self.tasks.deep_view() =~= w0.tasks.drop_last());
        }
        match (t, e) {
            (Task::Visit { path, attempts: _ }, WalkEvent::Stat { is_file, size }) => {
                if is_file {
                    self.tasks.push(Task::Sniff { path, size });
                } else if !should_skip_path(path.as_str()) {
                    self.tasks.push(Task::ListDir { path, attempts: RETRY_LIMIT });
                }
                proof {
                    assert(self@ =~= step(w0, ev));
                }
            },
            (Task::Visit { path, attempts }, WalkEvent::StatFailed) => {
                if attempts > 1 {
                    self.tasks.push(Task::Visit { path, attempts: attempts - 1 });
                }
                proof {
                    assert(self@ =~= step(w0, ev));
                }
            },
            (Task::ListDir { path, attempts: _ }, WalkEvent::Listing { names }) => {
                let ghost rest = self.tasks.deep_view();
                let ghost pv = path@;
                let ghost nv = names.deep_view();
                let n = names.len();
                let mut k = n;
                while k > 0
                    invariant
                        k <= n,
                        n == names@.len(),
                        path@ == pv,
                        nv == names.deep_view(),
                        self.languages.deep_view() == w0.langs,
                        self.totals@ == w0.totals,
                        self.tasks.deep_view() =~= rest + children_tasks(pv, nv).subrange(
                            0,
                            n - k,
                        ),
                    decreases k,
                {
                    k = k - 1;
                    let mut child = path.clone();
                    child.append("/");
                    child.append(names[k].as_str());
                    let ghost x = TaskV::Visit { path: child_path(pv, nv[k as int]), attempts: RETRY_LIMIT };
                    let ghost before = self.tasks.deep_view();
                    proof {
                        assert(child@ == child_path(pv, nv[k as int]));
                        assert(children_tasks(pv, nv)[n - k - 1] == x);
                    }
                    self.tasks.push(Task::Visit { path: child, attempts: RETRY_LIMIT });
                    proof {
                        assert(self.tasks.deep_view() =~= before.push(x));
                        assert(before.push(x) =~= rest + children_tasks(pv, nv).subrange(
                            0,
                            n - k,
                        ));
                    }
                }
                proof {
                    assert(children_tasks(pv, nv).subrange(0, n as int) =~= children_tasks(
                        pv,
                        nv,
                    ));
                    assert(self@ =~= step(w0, ev));
                }
            },
            (Task::ListDir { path, attempts }, WalkEvent::ListFailed) => {
                if attempts > 1 {
                    self.tasks.push(Task::ListDir { path, attempts: attempts - 1 });
                }
                proof {
                    assert(self@ =~= step(w0, ev));
                }
            },
            (Task::Sniff { path, size }, WalkEvent::Sample { data }) => {
                if !is_binary_sample(&data) {
                    self.credit_file(path.as_str(), size);
                }
                proof {
                    assert(self@ =~= step(w0, ev));
                }
            },
            (Task::Sniff { path, size }, WalkEvent::SampleFailed) => {
                self.credit_file(path.as_str(), size);
                proof {
                    assert(self@ =~= step(w0, ev));
                }
            },
            (t2, _) => {
                self.tasks.push(t2);
                proof {
                    assert(self.tasks.deep_view() =~= w0.tasks);
                    assert(self@ =~= step(w0, ev));
                }
            },
        }
    }
}

} // verus!
