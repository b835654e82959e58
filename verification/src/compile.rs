//! Compiles the entries of a profile against the filesystem.
//!
//! The library does not touch the filesystem. Compiling is a dialogue: the
//! compiler asks one question about a source path, the caller answers it
//! from the filesystem, and the compiler asks the next or is done. What it
//! decides from the answers is stated by [`answered`] and [`advanced`].

use crate::attr::{AttrType, ProfileAttr, ProfileAttrView};
use crate::entries::{entries_view, EntryView, ProfileEntries};
use crate::error::{Error, ErrorView};
use crate::path::{clone_path, join, same_path, PathView};
use crate::pattern::{any_matches, PatternSet};
use vstd::prelude::*;

verus! {

/// What a target is made from, and how.
#[derive(Debug, PartialEq, Eq)]
pub struct CompiledProfile {
    pub source: Vec<String>,
    pub ty: AttrType,
}

/// The mathematical value of a [`CompiledProfile`].
pub struct CompiledView {
    pub source: PathView,
    pub ty: AttrType,
}

impl View for CompiledProfile {
    type V = CompiledView;

    open spec fn view(&self) -> CompiledView {
        CompiledView { source: self.source.deep_view(), ty: self.ty }
    }
}

/// The directories that the sources and the targets of a profile are
/// relative to.
#[derive(Debug)]
pub struct CompilerOptions {
    pub source: Vec<String>,
    pub target: Vec<String>,
}

/// One compiled action in contracts: a target and what it is made from.
pub type ActionView = (PathView, CompiledView);

/// The value of a list of compiled actions.
pub open spec fn actions_view(list: Seq<(Vec<String>, CompiledProfile)>) -> Seq<ActionView> {
    Seq::new(list.len(), |i: int| (list[i].0.deep_view(), list[i].1@))
}

/// Whether some action of the list makes `target`.
pub open spec fn has_target(actions: Seq<ActionView>, target: PathView) -> bool {
    exists|i: int| 0 <= i < actions.len() && (#[trigger] actions[i]).0 == target
}

/// Whether no two actions of the list make the same target.
pub open spec fn distinct_targets(actions: Seq<ActionView>) -> bool {
    forall|i: int, j: int|
        0 <= i < j < actions.len() ==> (#[trigger] actions[i]).0 != (#[trigger] actions[j]).0
}

/// The compiled actions of a profile: each target with what it is made
/// from, in the order in which they were decided.
#[derive(Debug)]
pub struct CompiledEntries(pub Vec<(Vec<String>, CompiledProfile)>);

impl View for CompiledEntries {
    type V = Seq<ActionView>;

    open spec fn view(&self) -> Seq<ActionView> {
        actions_view(self.0@)
    }
}

impl CompiledEntries {
    /// The actions, each a target and what it is made from.
    pub fn iter(&self) -> (r: &Vec<(Vec<String>, CompiledProfile)>)
        ensures
            actions_view(r@) == self@,
    {
        &self.0
    }

    /// Whether some action makes `target`.
    pub fn contains(&self, target: &Vec<String>) -> (r: bool)
        ensures
            r == has_target(self@, target.deep_view()),
    {
        let mut i: usize = 0;
        while i < self.0.len()
            invariant
                i <= self.0.len(),
                forall|j: int| 0 <= j < i ==> (#[trigger] self@[j]).0 != target.deep_view(),
            decreases self.0.len() - i,
        {
            if same_path(&self.0[i].0, target) {
                assert(self@[i as int].0 == target.deep_view());
                return true;
            }
            i += 1;
        }
        false
    }
}

/// A question about a source path, for the caller to answer from the
/// filesystem.
#[derive(Debug, PartialEq, Eq)]
pub enum Query {
    /// Is the path a symbolic link, and is what it stands for a directory?
    Metadata(Vec<String>),
    /// Where does the symbolic link at the path point?
    ReadLink(Vec<String>),
    /// What are the names of the entries of the directory at the path?
    ReadDir(Vec<String>),
}

/// The mathematical value of a [`Query`].
pub enum QueryView {
    Metadata(PathView),
    ReadLink(PathView),
    ReadDir(PathView),
}

impl View for Query {
    type V = QueryView;

    open spec fn view(&self) -> QueryView {
        match *self {
            Query::Metadata(p) => QueryView::Metadata(p.deep_view()),
            Query::ReadLink(p) => QueryView::ReadLink(p.deep_view()),
            Query::ReadDir(p) => QueryView::ReadDir(p.deep_view()),
        }
    }
}

/// What the filesystem said to a [`Query`].
#[derive(Debug)]
pub enum Answer {
    /// To `Metadata`: whether the path is a symbolic link, and whether what
    /// it stands for is a directory.
    Metadata { is_symlink: bool, is_dir: bool },
    /// To `ReadLink`: where the link points.
    Link(Vec<String>),
    /// To `ReadDir`: the names of the entries, in the order they were read.
    Entries(Vec<String>),
    /// To any query: it failed.
    Failed,
}

/// The mathematical value of an [`Answer`].
pub enum AnswerView {
    Metadata { is_symlink: bool, is_dir: bool },
    Link(PathView),
    Entries(Seq<Seq<char>>),
    Failed,
}

impl View for Answer {
    type V = AnswerView;

    open spec fn view(&self) -> AnswerView {
        match *self {
            Answer::Metadata { is_symlink, is_dir } => AnswerView::Metadata { is_symlink, is_dir },
            Answer::Link(p) => AnswerView::Link(p.deep_view()),
            Answer::Entries(names) => AnswerView::Entries(names.deep_view()),
            Answer::Failed => AnswerView::Failed,
        }
    }
}

/// A target that is still to be compiled from a source.
#[derive(Debug)]
pub struct Job {
    pub target: Vec<String>,
    pub source: Vec<String>,
}

/// The mathematical value of a [`Job`].
pub struct JobView {
    pub target: PathView,
    pub source: PathView,
}

impl View for Job {
    type V = JobView;

    open spec fn view(&self) -> JobView {
        JobView { target: self.target.deep_view(), source: self.source.deep_view() }
    }
}

/// The value of a list of jobs.
pub open spec fn jobs_view(list: Seq<Job>) -> Seq<JobView> {
    Seq::new(list.len(), |i: int| list[i]@)
}

/// Which query a compiler waits to have answered.
#[derive(Clone, Copy, Debug, PartialEq, Eq, Structural)]
pub enum Asked {
    Metadata,
    Link,
    Dir,
}

/// The state of a compilation in contracts.
pub struct CompilerView {
    /// Whether symbolic links can be made.
    pub symlinks: bool,
    /// The directory that sources are relative to.
    pub source_root: PathView,
    /// The directory that targets are relative to.
    pub target_root: PathView,
    /// The entries not yet begun. The last one is begun next.
    pub entries: Seq<EntryView>,
    /// The attributes of the entry that is being expanded.
    pub attr: ProfileAttrView,
    /// The jobs of that entry that are still to do. The last one is done
    /// next.
    pub pending: Seq<JobView>,
    /// The target of the job that the query is about.
    pub target: PathView,
    /// The source of the job that the query is about.
    pub source: PathView,
    /// Whether that source is known to stand for a directory.
    pub is_dir: bool,
    /// The query that waits for its answer.
    pub asked: Asked,
    /// The actions decided so far.
    pub compiled: Seq<ActionView>,
}

/// How a step of a compilation ends, in contracts.
pub enum StepView {
    /// The compiler asks a query.
    Ask(CompilerView, QueryView),
    /// The compilation is complete, with these actions.
    Done(Seq<ActionView>),
}

/// Whether directories are expanded under these attributes: they are
/// recursive, or a copy.
pub open spec fn expands(attr: ProfileAttrView) -> bool {
    attr.recursive || attr.ty == AttrType::Copy
}

/// What a compilation with no open query does next.
///
/// The last pending job whose target has no action yet is taken up with a
/// query for the metadata of its source; jobs whose target has an action
/// are dropped. Where no job is pending the last entry not yet begun is
/// begun, which fails if it is a link and links cannot be made. Where no
/// entry is left the compilation is complete.
pub open spec fn advanced(state: CompilerView) -> Result<StepView, ErrorView>
    decreases state.entries.len(), state.pending.len(),
{
    if state.pending.len() > 0 {
        let job = state.pending.last();
        let rest = CompilerView { pending: state.pending.drop_last(), ..state };
        if has_target(state.compiled, job.target) {
            advanced(rest)
        } else {
            Ok(
                StepView::Ask(
                    CompilerView {
                        target: job.target,
                        source: job.source,
                        is_dir: false,
                        asked: Asked::Metadata,
                        ..rest
                    },
                    QueryView::Metadata(job.source),
                ),
            )
        }
    } else if state.entries.len() > 0 {
        let entry = state.entries.last();
        if !state.symlinks && entry.1.ty == AttrType::Link {
            Err(ErrorView::UnsupportedSymlinks(entry.1.source))
        } else {
            advanced(
                CompilerView {
                    entries: state.entries.drop_last(),
                    attr: entry.1,
                    pending: seq![
                        JobView {
                            target: state.target_root + entry.0,
                            source: state.source_root + entry.1.source,
                        },
                    ],
                    ..state
                },
            )
        }
    } else {
        Ok(StepView::Done(state.compiled))
    }
}

/// What a compilation does once the action for the job in hand is decided:
/// the target is made from the source as the entry's type says.
pub open spec fn recorded(state: CompilerView) -> Result<StepView, ErrorView> {
    advanced(
        CompilerView {
            compiled: state.compiled.push(
                (state.target, CompiledView { source: state.source, ty: state.attr.ty }),
            ),
            ..state
        },
    )
}

/// What a compilation does once it knows the source of the job in hand and
/// whether it is a directory.
///
/// A directory is listed where the entry expands directories; it is an
/// error for a template that does not; and it is linked as a whole
/// otherwise. Anything else is one action.
pub open spec fn located(state: CompilerView, is_dir: bool) -> Result<StepView, ErrorView> {
    if is_dir && expands(state.attr) {
        Ok(
            StepView::Ask(
                CompilerView { is_dir, asked: Asked::Dir, ..state },
                QueryView::ReadDir(state.source),
            ),
        )
    } else if is_dir && state.attr.ty == AttrType::Template {
        Err(ErrorView::UnexpectedDirectoryForTemplate(state.source))
    } else {
        recorded(state)
    }
}

/// The jobs for the names from index `from` on of a directory that was
/// listed for the job at `target` and `source`, the first name last; names
/// that a pattern of `ignore` matches have no job.
pub open spec fn listed_jobs(
    target: PathView,
    source: PathView,
    ignore: Seq<Seq<char>>,
    names: Seq<Seq<char>>,
    from: nat,
) -> Seq<JobView>
    decreases names.len() - from,
{
    if from >= names.len() {
        Seq::empty()
    } else {
        let later = listed_jobs(target, source, ignore, names, from + 1);
        if any_matches(ignore, names[from as int]) {
            later
        } else {
            later.push(
                JobView {
                    target: target.push(names[from as int]),
                    source: source.push(names[from as int]),
                },
            )
        }
    }
}

/// What a compilation does with the answer to its open query.
///
/// An answer of another kind than the query asks for, and `Failed`, is a
/// failure of the query at the source in hand. A symbolic link is read,
/// once, and what it points to takes the place of the source. The entries
/// of a directory that no ignore pattern matches become jobs, in the order
/// in which they were listed.
pub open spec fn answered(state: CompilerView, answer: AnswerView) -> Result<StepView, ErrorView> {
    match (state.asked, answer) {
        (Asked::Metadata, AnswerView::Metadata { is_symlink, is_dir }) => {
            if is_symlink {
                Ok(
                    StepView::Ask(
                        CompilerView { is_dir, asked: Asked::Link, ..state },
                        QueryView::ReadLink(state.source),
                    ),
                )
            } else {
                located(state, is_dir)
            }
        },
        (Asked::Link, AnswerView::Link(to)) => located(
            CompilerView { source: to, ..state },
            state.is_dir,
        ),
        (Asked::Dir, AnswerView::Entries(names)) => advanced(
            CompilerView {
                pending: state.pending + listed_jobs(
                    state.target,
                    state.source,
                    state.attr.ignore,
                    names,
                    0,
                ),
                ..state
            },
        ),
        _ => Err(ErrorView::IoFailed(state.source)),
    }
}

/// The state in which a compilation begins: nothing is decided, nothing is
/// pending, and every entry is still to begin.
pub open spec fn initial(
    source_root: PathView,
    target_root: PathView,
    entries: Seq<EntryView>,
    symlinks: bool,
) -> CompilerView {
    CompilerView {
        symlinks,
        source_root,
        target_root,
        entries,
        attr: ProfileAttrView {
            source: Seq::empty(),
            ty: AttrType::Copy,
            recursive: false,
            ignore: Seq::empty(),
        },
        pending: Seq::empty(),
        target: Seq::empty(),
        source: Seq::empty(),
        is_dir: false,
        asked: Asked::Metadata,
        compiled: Seq::empty(),
    }
}

/// Whether a state with an open query is in order: no two actions make the
/// same target, and the target of the job in hand has no action yet.
pub open spec fn in_order(state: CompilerView) -> bool {
    distinct_targets(state.compiled) && !has_target(state.compiled, state.target)
}

/// The actions that are decided when a step ends.
pub open spec fn decided(step: StepView) -> Seq<ActionView> {
    match step {
        StepView::Ask(state, _) => state.compiled,
        StepView::Done(actions) => actions,
    }
}

/// Whether a step ends in order: with a state in order, or complete with
/// no two actions for the same target.
pub open spec fn ends_in_order(step: StepView) -> bool {
    match step {
        StepView::Ask(state, _) => in_order(state),
        StepView::Done(actions) => distinct_targets(actions),
    }
}

/// Going on without an answer decides nothing, and ends in order where no
/// two actions made the same target before.
pub proof fn lemma_advanced_in_order(state: CompilerView)
    requires
        distinct_targets(state.compiled),
    ensures
        advanced(state) is Ok ==> ends_in_order(advanced(state)->Ok_0) && decided(
            advanced(state)->Ok_0,
        ) == state.compiled,
    decreases state.entries.len(), state.pending.len(),
{
    if state.pending.len() > 0 {
        let job = state.pending.last();
        let rest = CompilerView { pending: state.pending.drop_last(), ..state };
        if has_target(state.compiled, job.target) {
            lemma_advanced_in_order(rest);
        }
    } else if state.entries.len() > 0 {
        let entry = state.entries.last();
        if !(!state.symlinks && entry.1.ty == AttrType::Link) {
            lemma_advanced_in_order(
                CompilerView {
                    entries: state.entries.drop_last(),
                    attr: entry.1,
                    pending: seq![
                        JobView {
                            target: state.target_root + entry.0,
                            source: state.source_root + entry.1.source,
                        },
                    ],
                    ..state
                },
            );
        }
    }
}

/// Every target is made by at most one action, and an action once decided
/// stays: a step from a state in order ends in order, and the actions
/// decided before it are the first of those decided after it, unchanged.
pub proof fn lemma_answered_in_order(state: CompilerView, answer: AnswerView)
    requires
        in_order(state),
    ensures
        answered(state, answer) is Ok ==> ends_in_order(answered(state, answer)->Ok_0)
            && state.compiled.is_prefix_of(decided(answered(state, answer)->Ok_0)),
{
    let added = state.compiled.push(
        (state.target, CompiledView { source: state.source, ty: state.attr.ty }),
    );
    assert(distinct_targets(added));
    assert(state.compiled.is_prefix_of(added));
    match (state.asked, answer) {
        (Asked::Metadata, AnswerView::Metadata { is_symlink, is_dir }) => {
            if !is_symlink {
                lemma_advanced_in_order(CompilerView { compiled: added, ..state });
            }
        },
        (Asked::Link, AnswerView::Link(to)) => {
            let moved = CompilerView { source: to, ..state };
            let added_moved = state.compiled.push(
                (state.target, CompiledView { source: to, ty: state.attr.ty }),
            );
            assert(distinct_targets(added_moved));
            assert(state.compiled.is_prefix_of(added_moved));
            lemma_advanced_in_order(CompilerView { compiled: added_moved, ..moved });
        },
        (Asked::Dir, AnswerView::Entries(names)) => {
            lemma_advanced_in_order(
                CompilerView {
                    pending: state.pending + listed_jobs(
                        state.target,
                        state.source,
                        state.attr.ignore,
                        names,
                        0,
                    ),
                    ..state
                },
            );
        },
        _ => {},
    }
}

/// A compilation begins in order.
pub proof fn lemma_initial_in_order(
    source_root: PathView,
    target_root: PathView,
    entries: Seq<EntryView>,
    symlinks: bool,
)
    ensures
        advanced(initial(source_root, target_root, entries, symlinks)) is Ok ==> ends_in_order(
            advanced(initial(source_root, target_root, entries, symlinks))->Ok_0,
        ),
{
    lemma_advanced_in_order(initial(source_root, target_root, entries, symlinks));
}

/// Whether `path` is `prefix` or lies below it.
pub open spec fn is_under(prefix: PathView, path: PathView) -> bool {
    prefix.len() <= path.len() && path.take(prefix.len() as int) == prefix
}

/// Whether the action comes of the entry: its target is that of the entry,
/// under the directory of the targets, or lies below it, and it is made as
/// the type of the entry says.
pub open spec fn comes_of(action: ActionView, entry: EntryView, target_root: PathView) -> bool {
    action.1.ty == entry.1.ty && is_under(target_root + entry.0, action.0)
}

/// Whether the action comes of some entry of the list.
pub open spec fn has_entry(action: ActionView, all: Seq<EntryView>, target_root: PathView) -> bool {
    exists|i: int| 0 <= i < all.len() && comes_of(action, #[trigger] all[i], target_root)
}

/// Whether every action comes of some entry of the list.
pub open spec fn all_have_entries(
    actions: Seq<ActionView>,
    all: Seq<EntryView>,
    target_root: PathView,
) -> bool {
    forall|k: int| 0 <= k < actions.len() ==> has_entry(#[trigger] actions[k], all, target_root)
}

/// Whether the target of every job is that of the entry, under the
/// directory of the targets, or lies below it.
pub open spec fn jobs_under(jobs: Seq<JobView>, entry: EntryView, target_root: PathView) -> bool {
    forall|k: int| 0 <= k < jobs.len() ==> is_under(target_root + entry.0, (#[trigger] jobs[k]).target)
}

/// Whether a state with no open query can be traced to the entries `all`
/// that the compilation began with: the entries not yet begun are the first
/// of them, every action comes of one of them, and every pending job
/// belongs to the entry begun last, whose attributes are in hand.
pub open spec fn is_traced_idle(state: CompilerView, all: Seq<EntryView>) -> bool {
    &&& state.entries.len() <= all.len()
    &&& state.entries == all.take(state.entries.len() as int)
    &&& all_have_entries(state.compiled, all, state.target_root)
    &&& state.pending.len() > 0 ==> {
        &&& state.entries.len() < all.len()
        &&& state.attr == all[state.entries.len() as int].1
        &&& jobs_under(state.pending, all[state.entries.len() as int], state.target_root)
    }
}

/// Whether a state with an open query can be traced to the entries `all`
/// that the compilation began with: as without a query, and the job in hand
/// belongs to the entry begun last, too.
pub open spec fn is_traced(state: CompilerView, all: Seq<EntryView>) -> bool {
    &&& state.entries.len() < all.len()
    &&& state.entries == all.take(state.entries.len() as int)
    &&& all_have_entries(state.compiled, all, state.target_root)
    &&& state.attr == all[state.entries.len() as int].1
    &&& jobs_under(state.pending, all[state.entries.len() as int], state.target_root)
    &&& is_under(state.target_root + all[state.entries.len() as int].0, state.target)
}

/// Whether a step ends traced: with a state that can be traced, or complete
/// with actions that each come of an entry.
pub open spec fn ends_traced(step: StepView, all: Seq<EntryView>, target_root: PathView) -> bool {
    match step {
        StepView::Ask(state, _) => is_traced(state, all) && state.target_root == target_root,
        StepView::Done(actions) => all_have_entries(actions, all, target_root),
    }
}

/// Going on without an answer from a state that can be traced ends traced.
pub proof fn lemma_advanced_traced(state: CompilerView, all: Seq<EntryView>)
    requires
        is_traced_idle(state, all),
    ensures
        advanced(state) is Ok ==> ends_traced(advanced(state)->Ok_0, all, state.target_root),
    decreases state.entries.len(), state.pending.len(),
{
    if state.pending.len() > 0 {
        let job = state.pending.last();
        let rest = CompilerView { pending: state.pending.drop_last(), ..state };
        let entry = all[state.entries.len() as int];
        assert(jobs_under(rest.pending, entry, state.target_root)) by {
            assert forall|k: int| 0 <= k < rest.pending.len() implies is_under(
                state.target_root + entry.0,
                (#[trigger] rest.pending[k]).target,
            ) by {
                assert(rest.pending[k] == state.pending[k]);
            }
        }
        if has_target(state.compiled, job.target) {
            lemma_advanced_traced(rest, all);
        }
    } else if state.entries.len() > 0 {
        let entry = state.entries.last();
        if !(!state.symlinks && entry.1.ty == AttrType::Link) {
            let n = state.entries.len() - 1;
            assert(entry == all[n]);
            let job = JobView {
                target: state.target_root + entry.0,
                source: state.source_root + entry.1.source,
            };
            let begun = CompilerView {
                entries: state.entries.drop_last(),
                attr: entry.1,
                pending: seq![job],
                ..state
            };
            assert(begun.entries =~= all.take(n));
            assert(job.target.take(job.target.len() as int) =~= job.target);
            assert(jobs_under(begun.pending, all[n], state.target_root));
            lemma_advanced_traced(begun, all);
        }
    }
}

/// Every name of a listed directory gives a job below the job that the
/// directory was listed for.
pub proof fn lemma_listed_jobs_under(
    prefix: PathView,
    target: PathView,
    source: PathView,
    ignore: Seq<Seq<char>>,
    names: Seq<Seq<char>>,
    from: nat,
)
    requires
        is_under(prefix, target),
    ensures
        forall|k: int|
            0 <= k < listed_jobs(target, source, ignore, names, from).len() ==> is_under(
                prefix,
                (#[trigger] listed_jobs(target, source, ignore, names, from)[k]).target,
            ),
    decreases names.len() - from,
{
    if from < names.len() {
        lemma_listed_jobs_under(prefix, target, source, ignore, names, from + 1);
        let later = listed_jobs(target, source, ignore, names, from + 1);
        let jobs = listed_jobs(target, source, ignore, names, from);
        let pushed = target.push(names[from as int]);
        assert(pushed.take(prefix.len() as int) =~= target.take(prefix.len() as int));
        assert forall|k: int| 0 <= k < jobs.len() implies is_under(
            prefix,
            (#[trigger] jobs[k]).target,
        ) by {
            if k < later.len() {
                assert(jobs[k] == later[k]);
            } else {
                assert(jobs[k].target == pushed);
            }
        }
    }
}

/// Every action comes of an entry: a step from a state that can be traced
/// to the entries the compilation began with ends traced to them. So the
/// target of every action is the target of an entry, under the directory
/// of the targets, or lies below it, and the action is made as that entry's
/// type says.
pub proof fn lemma_answered_traced(state: CompilerView, answer: AnswerView, all: Seq<EntryView>)
    requires
        is_traced(state, all),
    ensures
        answered(state, answer) is Ok ==> ends_traced(
            answered(state, answer)->Ok_0,
            all,
            state.target_root,
        ),
{
    let entry = all[state.entries.len() as int];
    match (state.asked, answer) {
        (Asked::Metadata, AnswerView::Metadata { is_symlink, is_dir }) => {
            if !is_symlink {
                lemma_located_traced(state, is_dir, all);
            }
        },
        (Asked::Link, AnswerView::Link(to)) => {
            lemma_located_traced(CompilerView { source: to, ..state }, state.is_dir, all);
        },
        (Asked::Dir, AnswerView::Entries(names)) => {
            let added = listed_jobs(state.target, state.source, state.attr.ignore, names, 0);
            let next = CompilerView { pending: state.pending + added, ..state };
            lemma_listed_jobs_under(
                state.target_root + entry.0,
                state.target,
                state.source,
                state.attr.ignore,
                names,
                0,
            );
            assert(jobs_under(next.pending, entry, state.target_root)) by {
                assert forall|k: int| 0 <= k < next.pending.len() implies is_under(
                    state.target_root + entry.0,
                    (#[trigger] next.pending[k]).target,
                ) by {
                    if k < state.pending.len() {
                        assert(next.pending[k] == state.pending[k]);
                    } else {
                        assert(next.pending[k] == added[k - state.pending.len()]);
                    }
                }
            }
            lemma_advanced_traced(next, all);
        },
        _ => {},
    }
}

/// Going on once the source of the job in hand is known, from a state that
/// can be traced, ends traced.
pub proof fn lemma_located_traced(state: CompilerView, is_dir: bool, all: Seq<EntryView>)
    requires
        is_traced(state, all),
    ensures
        located(state, is_dir) is Ok ==> ends_traced(
            located(state, is_dir)->Ok_0,
            all,
            state.target_root,
        ),
{
    let entry = all[state.entries.len() as int];
    let action = (state.target, CompiledView { source: state.source, ty: state.attr.ty });
    let next = CompilerView { compiled: state.compiled.push(action), ..state };
    assert(comes_of(action, entry, state.target_root));
    assert(all_have_entries(next.compiled, all, state.target_root)) by {
        assert forall|k: int| 0 <= k < next.compiled.len() implies has_entry(
            #[trigger] next.compiled[k],
            all,
            state.target_root,
        ) by {
            if k < state.compiled.len() {
                assert(next.compiled[k] == state.compiled[k]);
            }
        }
    }
    lemma_advanced_traced(next, all);
}

/// A compilation begins traced to its entries.
pub proof fn lemma_initial_traced(
    source_root: PathView,
    target_root: PathView,
    entries: Seq<EntryView>,
    symlinks: bool,
)
    ensures
        advanced(initial(source_root, target_root, entries, symlinks)) is Ok ==> ends_traced(
            advanced(initial(source_root, target_root, entries, symlinks))->Ok_0,
            entries,
            target_root,
        ),
{
    let state = initial(source_root, target_root, entries, symlinks);
    assert(entries.take(entries.len() as int) =~= entries);
    lemma_advanced_traced(state, entries);
}

/// How a dialogue goes on from where a step ended, with these answers in
/// order: each answers the query that is then open, and a compilation that
/// is complete stays so.
pub open spec fn replied(step: StepView, answers: Seq<AnswerView>) -> Result<StepView, ErrorView>
    decreases answers.len(),
{
    if answers.len() == 0 {
        Ok(step)
    } else {
        match step {
            StepView::Done(_) => Ok(step),
            StepView::Ask(state, _) => match answered(state, answers[0]) {
                Err(e) => Err(e),
                Ok(next) => replied(next, answers.skip(1)),
            },
        }
    }
}

/// Whatever the answers are, a dialogue that goes on in order and traced
/// stays so, and keeps what was decided.
pub proof fn lemma_replied(
    step: StepView,
    answers: Seq<AnswerView>,
    all: Seq<EntryView>,
    target_root: PathView,
)
    requires
        ends_in_order(step),
        ends_traced(step, all, target_root),
    ensures
        replied(step, answers) is Ok ==> {
            &&& ends_in_order(replied(step, answers)->Ok_0)
            &&& ends_traced(replied(step, answers)->Ok_0, all, target_root)
            &&& decided(step).is_prefix_of(decided(replied(step, answers)->Ok_0))
        },
    decreases answers.len(),
{
    if answers.len() > 0 {
        match step {
            StepView::Done(_) => {},
            StepView::Ask(state, _) => {
                lemma_answered_in_order(state, answers[0]);
                lemma_answered_traced(state, answers[0], all);
                if answered(state, answers[0]) is Ok {
                    let next = answered(state, answers[0])->Ok_0;
                    lemma_replied(next, answers.skip(1), all, target_root);
                }
            },
        }
    }
}

/// Over a whole dialogue, whatever the filesystem answers: no target has
/// two actions, and every action comes of an entry of the profile, with a
/// target that is the entry's or lies below it and the type of that entry.
pub proof fn lemma_dialogue(
    source_root: PathView,
    target_root: PathView,
    entries: Seq<EntryView>,
    symlinks: bool,
    answers: Seq<AnswerView>,
)
    requires
        advanced(initial(source_root, target_root, entries, symlinks)) is Ok,
    ensures
        replied(
            advanced(initial(source_root, target_root, entries, symlinks))->Ok_0,
            answers,
        ) is Ok ==> {
            let end = replied(
                advanced(initial(source_root, target_root, entries, symlinks))->Ok_0,
                answers,
            )->Ok_0;
            &&& distinct_targets(decided(end))
            &&& all_have_entries(decided(end), entries, target_root)
        },
{
    let first = advanced(initial(source_root, target_root, entries, symlinks))->Ok_0;
    lemma_initial_in_order(source_root, target_root, entries, symlinks);
    lemma_initial_traced(source_root, target_root, entries, symlinks);
    lemma_replied(first, answers, entries, target_root);
}

/// A compilation that waits for the answer to a query.
#[derive(Debug)]
pub struct Compiler {
    symlinks: bool,
    source_root: Vec<String>,
    target_root: Vec<String>,
    entries: Vec<(Vec<String>, ProfileAttr)>,
    attr: ProfileAttr,
    pending: Vec<Job>,
    target: Vec<String>,
    source: Vec<String>,
    is_dir: bool,
    asked: Asked,
    compiled: CompiledEntries,
}

impl View for Compiler {
    type V = CompilerView;

    closed spec fn view(&self) -> CompilerView {
        CompilerView {
            symlinks: self.symlinks,
            source_root: self.source_root.deep_view(),
            target_root: self.target_root.deep_view(),
            entries: entries_view(self.entries@),
            attr: self.attr@,
            pending: jobs_view(self.pending@),
            target: self.target.deep_view(),
            source: self.source.deep_view(),
            is_dir: self.is_dir,
            asked: self.asked,
            compiled: self.compiled@,
        }
    }
}

/// How a step of a compilation ends.
#[derive(Debug)]
pub enum Step {
    /// The compiler asks a query and waits for its answer.
    Ask(Compiler, Query),
    /// The compilation is complete.
    Done(CompiledEntries),
}

impl View for Step {
    type V = StepView;

    open spec fn view(&self) -> StepView {
        match *self {
            Step::Ask(compiler, query) => StepView::Ask(compiler@, query@),
            Step::Done(compiled) => StepView::Done(compiled@),
        }
    }
}

/// Goes on with a compilation that has no open query.
fn advance(machine: Compiler) -> (r: Result<Step, Error>)
    ensures
        match advanced(machine@) {
            Ok(step) => r is Ok && r->Ok_0@ == step,
            Err(e) => r is Err && r->Err_0@ == e,
        },
{
    let mut m = machine;
    loop
        invariant
            advanced(m@) == advanced(machine@),
        decreases m.entries.len(), m.pending.len(),
    {
        if m.pending.len() > 0 {
            let ghost before = m@;
            let job = m.pending.pop().unwrap();
            assert(job@ == before.pending.last());
            assert(m@.pending =~= before.pending.drop_last());
            if !m.compiled.contains(&job.target) {
                let query = Query::Metadata(clone_path(&job.source));
                m.target = job.target;
                m.source = job.source;
                m.is_dir = false;
                m.asked = Asked::Metadata;
                return Ok(Step::Ask(m, query));
            }
        } else if m.entries.len() > 0 {
            let ghost before = m@;
            let (target, attr) = m.entries.pop().unwrap();
            assert((target.deep_view(), attr@) == before.entries.last());
            assert(m@.entries =~= before.entries.drop_last());
            assert(m@.pending =~= Seq::empty());
            if !m.symlinks && attr.ty == AttrType::Link {
                return Err(Error::UnsupportedSymlinks(attr.source));
            }
            let job = Job {
                target: join(&m.target_root, &target),
                source: join(&m.source_root, &attr.source),
            };
            m.attr = attr;
            m.pending.push(job);
            assert(m@.pending =~= seq![job@]);
        } else {
            assert(m@.pending.len() == 0);
            assert(m@.entries.len() == 0);
            return Ok(Step::Done(m.compiled));
        }
    }
}

/// Decides the action for the job in hand and goes on.
fn record(machine: Compiler) -> (r: Result<Step, Error>)
    ensures
        match recorded(machine@) {
            Ok(step) => r is Ok && r->Ok_0@ == step,
            Err(e) => r is Err && r->Err_0@ == e,
        },
{
    let mut m = machine;
    let action = CompiledProfile { source: clone_path(&m.source), ty: m.attr.ty };
    let target = clone_path(&m.target);
    let ghost before = m.compiled@;
    let ghost item = (target.deep_view(), action@);
    m.compiled.0.push((target, action));
    assert(m.compiled@ =~= before.push(item));
    advance(m)
}

/// Goes on once the source of the job in hand is known.
fn locate(machine: Compiler, is_dir: bool) -> (r: Result<Step, Error>)
    ensures
        match located(machine@, is_dir) {
            Ok(step) => r is Ok && r->Ok_0@ == step,
            Err(e) => r is Err && r->Err_0@ == e,
        },
{
    let mut m = machine;
    if is_dir && (m.attr.recursive || m.attr.ty == AttrType::Copy) {
        let query = Query::ReadDir(clone_path(&m.source));
        m.is_dir = is_dir;
        m.asked = Asked::Dir;
        Ok(Step::Ask(m, query))
    } else if is_dir && m.attr.ty == AttrType::Template {
        Err(Error::UnexpectedDirectoryForTemplate(m.source))
    } else {
        record(m)
    }
}

/// One name behind a path.
fn child_path(base: &Vec<String>, name: &String) -> (r: Vec<String>)
    ensures
        r.deep_view() == base.deep_view().push(name@),
{
    let mut out = clone_path(base);
    crate::path::push_text(&mut out, name.clone());
    out
}

/// Begins to compile the entries of a profile.
///
/// It ends with the first query, or complete where nothing is to ask, and
/// in either case in order and traced to the entries: no target has two
/// actions, and every action comes of an entry.
///
/// Sources are taken relative to `options.source`, targets relative to
/// `options.target`. `symlinks` says whether symbolic links can be made
/// here. The entries are compiled from the last to the first, so that an
/// entry declared for a target is decided before a directory above it is
/// expanded, and is not decided again by that.
pub fn compile(options: &CompilerOptions, entries: ProfileEntries, symlinks: bool) -> (r: Result<
    Step,
    Error,
>)
    ensures
        match advanced(
            initial(options.source.deep_view(), options.target.deep_view(), entries@, symlinks),
        ) {
            Ok(step) => r is Ok && r->Ok_0@ == step,
            Err(e) => r is Err && r->Err_0@ == e,
        },
        r is Ok ==> ends_in_order(r->Ok_0@),
        r is Ok ==> ends_traced(r->Ok_0@, entries@, options.target.deep_view()),
{
    proof {
        lemma_initial_in_order(
            options.source.deep_view(),
            options.target.deep_view(),
            entries@,
            symlinks,
        );
        lemma_initial_traced(
            options.source.deep_view(),
            options.target.deep_view(),
            entries@,
            symlinks,
        );
    }
    let machine = Compiler {
        symlinks,
        source_root: clone_path(&options.source),
        target_root: clone_path(&options.target),
        entries: entries.0,
        attr: ProfileAttr {
            source: Vec::new(),
            ty: AttrType::Copy,
            recursive: false,
            ignore: PatternSet::empty(),
        },
        pending: Vec::new(),
        target: Vec::new(),
        source: Vec::new(),
        is_dir: false,
        asked: Asked::Metadata,
        compiled: CompiledEntries(Vec::new()),
    };
    assert(machine@.pending =~= Seq::empty());
    assert(machine@.compiled =~= Seq::empty());
    assert(machine@.attr.source =~= Seq::empty());
    assert(machine@.target =~= Seq::empty());
    assert(machine@.source =~= Seq::empty());
    advance(machine)
}

impl Compiler {
    /// Goes on with the answer to the open query.
    ///
    /// From a state in order it ends in order, and what was decided before
    /// stays as it was: no target gets a second action. From a state that
    /// can be traced to the entries the compilation began with it ends
    /// traced to them: every action comes of an entry.
    pub fn answer(self, answer: Answer) -> (r: Result<Step, Error>)
        ensures
            match answered(self@, answer@) {
                Ok(step) => r is Ok && r->Ok_0@ == step,
                Err(e) => r is Err && r->Err_0@ == e,
            },
            in_order(self@) && r is Ok ==> ends_in_order(r->Ok_0@) && self@.compiled.is_prefix_of(
                decided(r->Ok_0@),
            ),
            forall|all: Seq<EntryView>| #[trigger]
                is_traced(self@, all) && r is Ok ==> ends_traced(
                    r->Ok_0@,
                    all,
                    self@.target_root,
                ),
    {
        proof {
            if in_order(self@) {
                lemma_answered_in_order(self@, answer@);
            }
            assert forall|all: Seq<EntryView>| #[trigger]
                is_traced(self@, all) && answered(self@, answer@) is Ok implies ends_traced(
                answered(self@, answer@)->Ok_0,
                all,
                self@.target_root,
            ) by {
                lemma_answered_traced(self@, answer@, all);
            }
        }
        let mut m = self;
        match (m.asked, answer) {
            (Asked::Metadata, Answer::Metadata { is_symlink, is_dir }) => {
                if is_symlink {
                    let query = Query::ReadLink(clone_path(&m.source));
                    m.is_dir = is_dir;
                    m.asked = Asked::Link;
                    Ok(Step::Ask(m, query))
                } else {
                    locate(m, is_dir)
                }
            },
            (Asked::Link, Answer::Link(to)) => {
                let is_dir = m.is_dir;
                m.source = to;
                locate(m, is_dir)
            },
            (Asked::Dir, Answer::Entries(names)) => {
                let ghost before = m@;
                let mut i: usize = names.len();
                assert(m@.pending =~= before.pending + listed_jobs(
                    before.target,
                    before.source,
                    before.attr.ignore,
                    names.deep_view(),
                    i as nat,
                ));
                while i > 0
                    invariant
                        i <= names.len(),
                        m@ == (CompilerView { pending: m@.pending, ..before }),
                        m@.pending == before.pending + listed_jobs(
                            before.target,
                            before.source,
                            before.attr.ignore,
                            names.deep_view(),
                            i as nat,
                        ),
                    decreases i,
                {
                    i -= 1;
                    if !m.attr.ignore.is_match(names[i].as_str()) {
                        let job = Job {
                            target: child_path(&m.target, &names[i]),
                            source: child_path(&m.source, &names[i]),
                        };
                        let ghost jobs = m@.pending;
                        m.pending.push(job);
                        assert(m@.pending =~= jobs.push(job@));
                    }
                }
                advance(m)
            },
            _ => Err(Error::IoFailed(m.source)),
        }
    }
}

} // verus!
