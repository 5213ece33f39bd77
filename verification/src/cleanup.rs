//! Cleaning up sandboxes that were left behind: which there are, and how they are taken down.
//!
//! [`discover_candidates`] finds them. [`cleanup`] starts a machine that asks for one system call
//! at a time: [`Cleanup::action`] says what is to be done, and [`Cleanup::next`] takes in what
//! came of it.

use crate::mountinfo::{mount_points, read_mount_points, readable};
use crate::order::{
    lemma_stable_sort_contains, lemma_stable_sorted, stable_sort, stable_sorted, views, Order,
};
use crate::os::{classify_errno, describe_errno, errno_text, ErrnoClass};
use crate::path::{
    components, is_below, is_plain, join, joined, lemma_joined_components, lemma_path_order,
    lemma_path_transitive, path_le, path_leq, starts_with, DeepestFirst,
};
use crate::text::{
    answer, around_number, before_path, confirm, decimal, just, nothing, out_lines, push_decimal,
    shown_as_is, to_stdout, utf8_lossy, Line, LineView,
};
use crate::user::Uid;
use vstd::prelude::*;
use vstd::slice::slice_to_vec;
use vstd::string::StringExecFns;
use vstd::utf8::{encode_utf8, is_ascii_chars_encode_utf8};

verus! {

/// How a cleanup is to go about.
#[derive(Debug, Clone, Copy, PartialEq, Eq, Structural)]
pub struct CleanupOptions {
    /// Ask no questions.
    pub yes: bool,
    /// Only show what would be done.
    pub dry_run: bool,
}

/// A sandbox that was left behind.
#[derive(Debug, PartialEq, Eq)]
pub struct SandboxCandidate {
    pub path: Vec<u8>,
    /// The mount points at or below the path.
    pub mounts: Vec<Vec<u8>>,
}

/// The model of a [`SandboxCandidate`].
pub struct CandidateView {
    pub path: Seq<u8>,
    pub mounts: Seq<Seq<u8>>,
}

impl View for SandboxCandidate {
    type V = CandidateView;

    open spec fn view(&self) -> CandidateView {
        CandidateView { path: self.path@, mounts: views(self.mounts@) }
    }
}

/// A directory in which sandboxes are made.
#[derive(Debug, Clone, Copy, PartialEq, Eq, Structural)]
pub enum TempRoot {
    Tmp,
    VarTmp,
}

impl TempRoot {
    /// The path of the directory.
    pub open spec fn spec_path(self) -> Seq<char> {
        match self {
            TempRoot::Tmp => "/tmp"@,
            TempRoot::VarTmp => "/var/tmp"@,
        }
    }

    /// The path of the directory.
    pub fn path(self) -> (p: &'static str)
        ensures
            p@ == self.spec_path(),
    {
        match self {
            TempRoot::Tmp => "/tmp",
            TempRoot::VarTmp => "/var/tmp",
        }
    }
}

/// The directories in which sandboxes are looked for, in order.
pub fn temp_roots() -> (roots: Vec<TempRoot>)
    ensures
        roots@ == seq![TempRoot::Tmp, TempRoot::VarTmp],
{
    vec![TempRoot::Tmp, TempRoot::VarTmp]
}

/// What was found in one of these directories.
#[derive(Debug, PartialEq, Eq)]
pub struct FoundEntry {
    pub root: TempRoot,
    pub name: Vec<u8>,
    /// The entry is a directory, or a link to one.
    pub dir: bool,
}

/// The model of a [`FoundEntry`].
pub struct FoundView {
    pub root: TempRoot,
    pub name: Seq<u8>,
    pub dir: bool,
}

impl View for FoundEntry {
    type V = FoundView;

    open spec fn view(&self) -> FoundView {
        FoundView { root: self.root, name: self.name@, dir: self.dir }
    }
}

/// Sandboxes have names that start with `vegas-`.
pub open spec fn sandbox_name(name: Seq<u8>) -> bool {
    encode_utf8("vegas-"@).is_prefix_of(name)
}

/// Tells whether `name` is the name of a sandbox.
pub fn is_sandbox_name(name: &[u8]) -> (b: bool)
    ensures
        b == sandbox_name(name@),
{
    let prefix = "vegas-".as_bytes();
    if name.len() < prefix.len() {
        return false;
    }
    let mut i: usize = 0;
    while i < prefix.len()
        invariant
            i <= prefix@.len() <= name@.len(),
            prefix@ == encode_utf8("vegas-"@),
            forall|j: int| 0 <= j < i ==> name@[j] == prefix@[j],
        decreases prefix@.len() - i,
    {
        if name[i] != prefix[i] {
            assert(name@.take(prefix@.len() as int)[i as int] == name@[i as int]);
            return false;
        }
        i = i + 1;
    }
    assert(name@.take(prefix@.len() as int) == prefix@);
    true
}

/// Where an entry stands.
pub open spec fn found_path(e: FoundView) -> Seq<u8> {
    joined(encode_utf8(e.root.spec_path()), e.name)
}

/// The mount points among `mounts` that lie at or below `path`.
pub open spec fn mounts_below(mounts: Seq<Seq<u8>>, path: Seq<u8>) -> Seq<Seq<u8>> {
    mounts.filter(|m: Seq<u8>| is_below(m, path))
}

/// The sandboxes among the entries, in their order.
pub open spec fn candidates_of(mounts: Seq<Seq<u8>>, entries: Seq<FoundView>) -> Seq<CandidateView>
    decreases entries.len(),
{
    if entries.len() == 0 {
        Seq::empty()
    } else {
        let before = candidates_of(mounts, entries.drop_last());
        let e = entries.last();
        if sandbox_name(e.name) && e.dir {
            let path = found_path(e);
            before.push(CandidateView { path, mounts: mounts_below(mounts, path) })
        } else {
            before
        }
    }
}

/// A copy of a list of paths.
fn copy_paths(paths: &Vec<Vec<u8>>) -> (out: Vec<Vec<u8>>)
    ensures
        views(out@) == views(paths@),
{
    let mut out: Vec<Vec<u8>> = Vec::new();
    let mut i: usize = 0;
    while i < paths.len()
        invariant
            i <= paths@.len(),
            views(out@) == views(paths@).take(i as int),
        decreases paths@.len() - i,
    {
        let ghost before = views(out@);
        out.push(slice_to_vec(paths[i].as_slice()));
        assert(views(out@) == before.push(paths@[i as int]@));
        i = i + 1;
    }
    assert(views(paths@).take(i as int) == views(paths@));
    out
}

/// The mount points that lie at or below `path`.
pub fn select_mounts(mounts: &Vec<Vec<u8>>, path: &[u8]) -> (out: Vec<Vec<u8>>)
    ensures
        views(out@) == mounts_below(views(mounts@), path@),
{
    let mut out: Vec<Vec<u8>> = Vec::new();
    let ghost all = views(mounts@);
    let ghost pred = |m: Seq<u8>| is_below(m, path@);
    let mut i: usize = 0;
    proof {
        reveal(Seq::filter);
        assert(all.take(0) == Seq::<Seq<u8>>::empty());
        assert(views(out@) == all.take(0).filter(pred));
    }
    while i < mounts.len()
        invariant
            i <= mounts@.len(),
            all == views(mounts@),
            pred == (|m: Seq<u8>| is_below(m, path@)),
            views(out@) == all.take(i as int).filter(pred),
        decreases mounts@.len() - i,
    {
        let ghost before = views(out@);
        proof {
            reveal(Seq::filter);
            assert(all.take(i + 1).drop_last() == all.take(i as int));
            assert(all.take(i + 1).last() == mounts@[i as int]@);
        }
        if starts_with(mounts[i].as_slice(), path) {
            out.push(slice_to_vec(mounts[i].as_slice()));
            assert(views(out@) == before.push(mounts@[i as int]@));
        }
        i = i + 1;
    }
    assert(all.take(i as int) == all);
    out
}

/// The sandboxes among the entries, each with the mount points at or below it.
pub fn find_candidates(mounts: &Vec<Vec<u8>>, entries: &Vec<FoundEntry>) -> (out: Vec<
    SandboxCandidate,
>)
    ensures
        views(out@) == candidates_of(views(mounts@), views(entries@)),
{
    let mut out: Vec<SandboxCandidate> = Vec::new();
    let ghost all = views(entries@);
    let mut i: usize = 0;
    assert(views(out@) == candidates_of(views(mounts@), all.take(0)));
    while i < entries.len()
        invariant
            i <= entries@.len(),
            all == views(entries@),
            views(out@) == candidates_of(views(mounts@), all.take(i as int)),
        decreases entries@.len() - i,
    {
        let e = &entries[i];
        let ghost before = views(out@);
        proof {
            assert(all.take(i + 1).drop_last() == all.take(i as int));
            assert(all.take(i + 1).last() == e@);
        }
        if is_sandbox_name(e.name.as_slice()) && e.dir {
            let path = join(e.root.path().as_bytes(), e.name.as_slice());
            let below = select_mounts(mounts, path.as_slice());
            let candidate = SandboxCandidate { path, mounts: below };
            out.push(candidate);
            assert(views(out@) == before.push(candidate@));
        }
        i = i + 1;
    }
    assert(all.take(i as int) == all);
    out
}

/// Finds the sandboxes that were left behind, from the mount table and from what stands in the
/// directories in which sandboxes are made.
pub fn discover_candidates(mountinfo: &str, entries: &Vec<FoundEntry>) -> (out: Vec<
    SandboxCandidate,
>)
    requires
        readable(mountinfo@),
    ensures
        views(out@) == candidates_of(mount_points(mountinfo@), views(entries@)),
{
    let mounts = read_mount_points(mountinfo);
    find_candidates(&mounts, entries)
}

/// Ascending order of the sandboxes' paths.
pub struct ByCandidatePath;

impl Order for ByCandidatePath {
    type Item = SandboxCandidate;

    open spec fn leq(a: CandidateView, b: CandidateView) -> bool {
        path_leq(a.path, b.path)
    }

    proof fn total(a: CandidateView, b: CandidateView) {
        lemma_path_order(a.path, b.path);
    }

    proof fn transitive(a: CandidateView, b: CandidateView, c: CandidateView) {
        lemma_path_transitive(a.path, b.path, c.path);
    }

    fn le(a: &SandboxCandidate, b: &SandboxCandidate) -> (r: bool) {
        let r = path_le(a.path.as_slice(), b.path.as_slice());
        assert(a@.path == a.path@ && b@.path == b.path@);
        assert(Self::leq(a@, b@) == path_leq(a.path@, b.path@));
        r
    }
}

/// The number of mount points under all the sandboxes.
pub open spec fn total_mounts(candidates: Seq<CandidateView>) -> nat
    decreases candidates.len(),
{
    if candidates.len() == 0 {
        0
    } else {
        total_mounts(candidates.drop_last()) + candidates.last().mounts.len()
    }
}

/// The lines that show one sandbox.
pub open spec fn candidate_lines(c: CandidateView) -> Seq<Seq<char>> {
    seq!["- "@ + utf8_lossy(c.path)] + if c.mounts.len() == 0 {
        seq!["  mounts: none"@]
    } else {
        seq!["  mounts: "@ + decimal(c.mounts.len())] + Seq::new(
            c.mounts.len(),
            |i: int| "    • "@ + utf8_lossy(c.mounts[i]),
        )
    }
}

/// The lines that show the sandboxes, one after another.
pub open spec fn all_candidate_lines(candidates: Seq<CandidateView>) -> Seq<Seq<char>>
    decreases candidates.len(),
{
    if candidates.len() == 0 {
        Seq::empty()
    } else {
        all_candidate_lines(candidates.drop_last()) + candidate_lines(candidates.last())
    }
}

/// The lines that show what there is to clean up.
pub open spec fn plan(candidates: Seq<CandidateView>) -> Seq<Seq<char>> {
    seq![
        "Found "@ + decimal(candidates.len()) + " vegas sandbox directorie(s)."@,
        "Detected "@ + decimal(total_mounts(candidates))
            + " mount point(s) under these directories."@,
        ""@,
    ] + all_candidate_lines(candidates)
}

fn count_mounts(candidates: &Vec<SandboxCandidate>) -> (n: u128)
    ensures
        n == total_mounts(views(candidates@)),
{
    let mut n: u128 = 0;
    let ghost all = views(candidates@);
    let mut i: usize = 0;
    assert(all.take(0) == Seq::<CandidateView>::empty());
    while i < candidates.len()
        invariant
            i <= candidates@.len(),
            all == views(candidates@),
            n == total_mounts(all.take(i as int)),
            n <= i * 0xffff_ffff_ffff_ffff,
        decreases candidates@.len() - i,
    {
        proof {
            assert(all.take(i + 1).drop_last() == all.take(i as int));
            assert(all.take(i + 1).last() == candidates@[i as int]@);
        }
        n = n + candidates[i].mounts.len() as u128;
        i = i + 1;
    }
    assert(all.take(i as int) == all);
    n
}

/// The lines that show what there is to clean up.
pub fn print_cleanup_plan(candidates: &Vec<SandboxCandidate>) -> (lines: Vec<String>)
    ensures
        views(lines@) == plan(views(candidates@)),
        forall|i: int| 0 <= i < candidates@.len() ==> shown_as_is(#[trigger] candidates@[i].path@),
        forall|i: int, j: int|
            0 <= i < candidates@.len() && 0 <= j < candidates@[i].mounts@.len() ==> shown_as_is(
                #[trigger] candidates@[i].mounts@[j]@,
            ),
{
    let ghost all = views(candidates@);
    let mut lines: Vec<String> = Vec::new();
    lines.push(around_number("Found ", candidates.len() as u128, " vegas sandbox directorie(s)."));
    lines.push(
        around_number("Detected ", count_mounts(candidates), " mount point(s) under these directories."),
    );
    lines.push("".to_owned());
    let ghost head = views(lines@);
    let mut i: usize = 0;
    assert(all.take(0) == Seq::<CandidateView>::empty());
    assert(head + all_candidate_lines(all.take(0)) == head);
    while i < candidates.len()
        invariant
            i <= candidates@.len(),
            all == views(candidates@),
            views(lines@) == head + all_candidate_lines(all.take(i as int)),
            forall|k: int| 0 <= k < i ==> shown_as_is(#[trigger] candidates@[k].path@),
            forall|k: int, j: int|
                0 <= k < i && 0 <= j < candidates@[k].mounts@.len() ==> shown_as_is(
                    #[trigger] candidates@[k].mounts@[j]@,
                ),
        decreases candidates@.len() - i,
    {
        let c = &candidates[i];
        let ghost shown = views(lines@);
        let ghost cv = all[i as int];
        proof {
            assert(all.take(i + 1).drop_last() == all.take(i as int));
            assert(all.take(i + 1).last() == cv);
            assert(cv == c@);
        }
        lines.push(before_path("- ", c.path.as_slice()));
        if c.mounts.len() == 0 {
            lines.push("  mounts: none".to_owned());
            assert(views(lines@) == shown + candidate_lines(cv));
        } else {
            let mut count = "  mounts: ".to_owned();
            push_decimal(&mut count, c.mounts.len() as u128);
            lines.push(count);
            let ghost top = views(lines@);
            let mut j: usize = 0;
            assert(views(lines@) == top + Seq::new(
                0,
                |k: int| "    • "@ + utf8_lossy(cv.mounts[k]),
            ));
            while j < c.mounts.len()
                invariant
                    j <= c.mounts@.len(),
                    cv == c@,
                    forall|k: int| 0 <= k < j ==> shown_as_is(#[trigger] c.mounts@[k]@),
                    views(lines@) == top + Seq::new(
                        j as nat,
                        |k: int| "    • "@ + utf8_lossy(cv.mounts[k]),
                    ),
                decreases c.mounts@.len() - j,
            {
                let ghost sofar = views(lines@);
                let line = before_path("    • ", c.mounts[j].as_slice());
                lines.push(line);
                assert(views(lines@) == sofar.push(line@));
                j = j + 1;
            }
            assert(views(lines@) == shown + candidate_lines(cv));
        }
        proof {
            assert(all_candidate_lines(all.take(i + 1)) == all_candidate_lines(all.take(i as int))
                + candidate_lines(cv));
            assert(shown + candidate_lines(cv) == head + (all_candidate_lines(all.take(i as int))
                + candidate_lines(cv)));
        }
        i = i + 1;
    }
    assert(all.take(i as int) == all);
    assert(views(lines@) == plan(all));
    lines
}

/// The step that a cleanup has come to.
#[derive(Debug, Clone, Copy, PartialEq, Eq, Structural)]
pub enum CleanupPhase {
    /// The cleanup has failed.
    Failed,
    Discover,
    /// Ask whether to go ahead.
    Confirm,
    /// Unmount the mount points of a sandbox, one after another.
    Unmount,
    /// Ask whether to detach the mount points that are in use.
    ConfirmLazy,
    /// Detach the mount points that are in use, one after another.
    Detach,
    /// Remove the directory of the sandbox.
    Remove,
    /// Nothing is left to be done.
    Finished,
}

/// The state of a cleanup.
pub struct CleanupState {
    pub phase: CleanupPhase,
    pub options: CleanupOptions,
    pub candidates: Seq<CandidateView>,
    /// The sandbox that is being taken down.
    pub index: int,
    /// Its mount points, the deepest first.
    pub mounts: Seq<Seq<u8>>,
    /// The mount point that is being taken down.
    pub at: int,
    /// The mount points of the sandbox that turned out to be in use.
    pub busy: Seq<Seq<u8>>,
    pub any_errors: bool,
    /// What failed.
    pub context: Seq<char>,
}

/// The part of asking that failed.
#[derive(Debug, Clone, Copy, PartialEq, Eq, Structural)]
pub enum AskStep {
    Prompt,
    Read,
}

/// What came of the action that was asked for.
#[derive(Debug, PartialEq, Eq)]
pub enum CleanupEvent {
    /// It was done.
    Done,
    /// It failed with this error number.
    Failed { errno: i32 },
    /// The directory could not be removed, for this reason.
    NotRemoved { error: String },
    /// The mount table was read, and these entries stand in the directories in which sandboxes
    /// are made.
    Listed { mountinfo: String, entries: Vec<FoundEntry> },
    /// The user typed this line.
    Answer { line: String },
    /// The user could not be asked.
    Unanswered { step: AskStep },
}

/// The model of a [`CleanupEvent`].
pub enum CleanupEventView {
    Done,
    Failed { errno: i32 },
    NotRemoved { error: Seq<char> },
    Listed { mountinfo: Seq<char>, entries: Seq<FoundView> },
    Answer { line: Seq<char> },
    Unanswered { step: AskStep },
}

impl View for CleanupEvent {
    type V = CleanupEventView;

    open spec fn view(&self) -> CleanupEventView {
        match self {
            CleanupEvent::Done => CleanupEventView::Done,
            CleanupEvent::Failed { errno } => CleanupEventView::Failed { errno: *errno },
            CleanupEvent::NotRemoved { error } => CleanupEventView::NotRemoved { error: error@ },
            CleanupEvent::Listed { mountinfo, entries } => CleanupEventView::Listed {
                mountinfo: mountinfo@,
                entries: views(entries@),
            },
            CleanupEvent::Answer { line } => CleanupEventView::Answer { line: line@ },
            CleanupEvent::Unanswered { step } => CleanupEventView::Unanswered { step: *step },
        }
    }
}

/// What is to be done next.
#[derive(Debug, PartialEq, Eq)]
pub enum CleanupAction {
    /// Report the failure.
    Fail { context: String },
    /// Read the mount table, and list the directories in which sandboxes are made.
    List,
    /// Show the prompt and read a line.
    Ask { prompt: &'static str },
    Unmount { path: Vec<u8> },
    /// Detach the mount point now and let it go once it is no longer in use.
    Detach { path: Vec<u8> },
    /// Remove the directory with all that it holds.
    Remove { path: Vec<u8> },
    /// Nothing is left to be done.
    Finish,
}

/// The model of a [`CleanupAction`].
pub enum CleanupActionView {
    Fail { context: Seq<char> },
    List,
    Ask { prompt: Seq<char> },
    Unmount { path: Seq<u8> },
    Detach { path: Seq<u8> },
    Remove { path: Seq<u8> },
    Finish,
}

impl View for CleanupAction {
    type V = CleanupActionView;

    open spec fn view(&self) -> CleanupActionView {
        match self {
            CleanupAction::Fail { context } => CleanupActionView::Fail { context: context@ },
            CleanupAction::List => CleanupActionView::List,
            CleanupAction::Ask { prompt } => CleanupActionView::Ask { prompt: prompt@ },
            CleanupAction::Unmount { path } => CleanupActionView::Unmount { path: path@ },
            CleanupAction::Detach { path } => CleanupActionView::Detach { path: path@ },
            CleanupAction::Remove { path } => CleanupActionView::Remove { path: path@ },
            CleanupAction::Finish => CleanupActionView::Finish,
        }
    }
}

/// The user agreed by typing `line`.
pub open spec fn agreed(line: Seq<char>) -> bool {
    answer(line) == "y"@ || answer(line) == "yes"@
}

impl CleanupState {
    /// What is to be done in this state.
    pub open spec fn action(self) -> CleanupActionView {
        match self.phase {
            CleanupPhase::Failed => CleanupActionView::Fail { context: self.context },
            CleanupPhase::Discover => CleanupActionView::List,
            CleanupPhase::Confirm => CleanupActionView::Ask {
                prompt: "Proceed with unmount + directory cleanup for all items above? [y/N]: "@,
            },
            CleanupPhase::Unmount => CleanupActionView::Unmount { path: self.mounts[self.at] },
            CleanupPhase::ConfirmLazy => CleanupActionView::Ask {
                prompt: "  Apply lazy detach for busy mounts? [y/N]: "@,
            },
            CleanupPhase::Detach => CleanupActionView::Detach { path: self.busy[self.at] },
            CleanupPhase::Remove => CleanupActionView::Remove {
                path: self.candidates[self.index].path,
            },
            CleanupPhase::Finished => CleanupActionView::Finish,
        }
    }

    /// The state with another phase.
    pub open spec fn at_phase(self, phase: CleanupPhase) -> CleanupState {
        CleanupState { phase, ..self }
    }

    /// The sandbox `index` is taken up; where there is none, the cleanup is over.
    pub open spec fn enter(self, index: int) -> (CleanupState, Seq<LineView>) {
        if index >= self.candidates.len() {
            (
                CleanupState { phase: CleanupPhase::Finished, index, ..self },
                seq![
                    LineView::Stdout(
                        if self.any_errors {
                            "\nCleanup finished with warnings."@
                        } else {
                            "\nCleanup complete."@
                        },
                    ),
                ],
            )
        } else {
            let c = self.candidates[index];
            let mounts = stable_sorted::<DeepestFirst>(c.mounts);
            (
                CleanupState {
                    phase: if mounts.len() == 0 {
                        CleanupPhase::Remove
                    } else {
                        CleanupPhase::Unmount
                    },
                    index,
                    mounts,
                    at: 0,
                    busy: Seq::empty(),
                    ..self
                },
                seq![LineView::Stdout("\nCleaning "@ + utf8_lossy(c.path))],
            )
        }
    }

    /// The sandboxes were found: they are shown and, unless it is a dry run, taken down.
    pub open spec fn after_discovery(self, found: Seq<CandidateView>) -> (
        CleanupState,
        Seq<LineView>,
    ) {
        let candidates = stable_sorted::<ByCandidatePath>(found);
        let s = CleanupState { candidates, ..self };
        let shown = out_lines(plan(candidates));
        if found.len() == 0 {
            (
                s.at_phase(CleanupPhase::Finished),
                seq![LineView::Stdout("No stale vegas sandboxes found."@)],
            )
        } else if self.options.dry_run {
            (
                s.at_phase(CleanupPhase::Finished),
                shown.push(LineView::Stdout("Dry-run mode enabled. No changes were made."@)),
            )
        } else if !self.options.yes {
            (s.at_phase(CleanupPhase::Confirm), shown)
        } else {
            (s.enter(0).0, shown + s.enter(0).1)
        }
    }

    /// The unmounts of a sandbox are done, after the lines `text`: what is in use comes next.
    pub open spec fn after_unmounts(self, text: Seq<LineView>) -> (CleanupState, Seq<LineView>) {
        if self.busy.len() == 0 {
            (self.at_phase(CleanupPhase::Remove), text)
        } else if self.options.yes {
            (CleanupState { phase: CleanupPhase::Detach, at: 0, ..self }, text)
        } else {
            (
                self.at_phase(CleanupPhase::ConfirmLazy),
                text.push(
                    LineView::Stdout(
                        "  "@ + decimal(self.busy.len())
                            + " mount(s) are busy and can be lazily detached (MNT_DETACH)."@,
                    ),
                ),
            )
        }
    }

    /// One unmount is done, whatever came of it, with the line `text`.
    pub open spec fn after_unmount(self, text: LineView) -> (CleanupState, Seq<LineView>) {
        if self.at + 1 < self.mounts.len() {
            (CleanupState { at: self.at + 1, ..self }, seq![text])
        } else {
            self.after_unmounts(seq![text])
        }
    }

    /// One mount point was detached or not, with the line `text`.
    pub open spec fn after_detach(self, text: LineView) -> (CleanupState, Seq<LineView>) {
        if self.at + 1 < self.busy.len() {
            (CleanupState { at: self.at + 1, ..self }, seq![text])
        } else {
            (self.at_phase(CleanupPhase::Remove), seq![text])
        }
    }

    /// The directory was removed or not, with the line `text`.
    pub open spec fn after_remove(self, text: LineView) -> (CleanupState, Seq<LineView>) {
        let next = self.enter(self.index + 1);
        (next.0, seq![text] + next.1)
    }

    /// What follows when an action is done.
    pub open spec fn after_done(self) -> (CleanupState, Seq<LineView>) {
        match self.phase {
            CleanupPhase::Unmount => self.after_unmount(
                LineView::Stdout("  unmounted "@ + utf8_lossy(self.mounts[self.at])),
            ),
            CleanupPhase::Detach => self.after_detach(
                LineView::Stdout("  lazily detached "@ + utf8_lossy(self.busy[self.at])),
            ),
            CleanupPhase::Remove => self.after_remove(
                LineView::Stdout("  removed "@ + utf8_lossy(self.candidates[self.index].path)),
            ),
            _ => (self, Seq::empty()),
        }
    }

    /// What follows when an action has failed with the error number `errno`.
    pub open spec fn after_failure(self, errno: i32) -> (CleanupState, Seq<LineView>) {
        match self.phase {
            CleanupPhase::Discover => (
                CleanupState {
                    phase: CleanupPhase::Failed,
                    context: "Failed to read /proc/self/mountinfo"@,
                    ..self
                },
                Seq::empty(),
            ),
            CleanupPhase::Unmount => {
                let path = self.mounts[self.at];
                if errno == 16 {
                    CleanupState { busy: self.busy.push(path), ..self }.after_unmount(
                        LineView::Stdout("  busy mount "@ + utf8_lossy(path)),
                    )
                } else {
                    CleanupState { any_errors: true, ..self }.after_unmount(
                        LineView::Stderr(
                            "  warning: failed to unmount "@ + utf8_lossy(path) + ": "@
                                + errno_text(errno),
                        ),
                    )
                }
            },
            CleanupPhase::Detach => CleanupState { any_errors: true, ..self }.after_detach(
                LineView::Stderr(
                    "  warning: failed lazy detach "@ + utf8_lossy(self.busy[self.at]) + ": "@
                        + errno_text(errno),
                ),
            ),
            _ => (self, Seq::empty()),
        }
    }

    /// What follows the user's answer.
    pub open spec fn after_answer(self, line: Seq<char>) -> (CleanupState, Seq<LineView>) {
        match self.phase {
            CleanupPhase::Confirm => if agreed(line) {
                self.enter(0)
            } else {
                (
                    self.at_phase(CleanupPhase::Finished),
                    seq![LineView::Stdout("Cleanup cancelled."@)],
                )
            },
            CleanupPhase::ConfirmLazy => if agreed(line) {
                (CleanupState { phase: CleanupPhase::Detach, at: 0, ..self }, Seq::empty())
            } else {
                (self.at_phase(CleanupPhase::Remove), Seq::empty())
            },
            _ => (self, Seq::empty()),
        }
    }

    /// The state that follows when `e` came of the action, and the lines to be shown. An event
    /// that does not answer the action changes nothing.
    pub open spec fn step(self, e: CleanupEventView) -> (CleanupState, Seq<LineView>) {
        match (self.phase, e) {
            (_, CleanupEventView::Done) => self.after_done(),
            (_, CleanupEventView::Failed { errno }) => self.after_failure(errno),
            (_, CleanupEventView::Answer { line }) => self.after_answer(line),
            (
                CleanupPhase::Discover,
                CleanupEventView::Listed { mountinfo, entries },
            ) => self.after_discovery(candidates_of(mount_points(mountinfo), entries)),
            (CleanupPhase::Remove, CleanupEventView::NotRemoved { error }) => CleanupState {
                any_errors: true,
                ..self
            }.after_remove(
                LineView::Stderr(
                    "  warning: failed to remove "@ + utf8_lossy(self.candidates[self.index].path)
                        + ": "@ + error,
                ),
            ),
            (CleanupPhase::Confirm, CleanupEventView::Unanswered { step })
            | (CleanupPhase::ConfirmLazy, CleanupEventView::Unanswered { step }) => (
                CleanupState {
                    phase: CleanupPhase::Failed,
                    context: match step {
                        AskStep::Prompt => "Failed to flush stdout"@,
                        AskStep::Read => "Failed to read user input"@,
                    },
                    ..self
                },
                Seq::empty(),
            ),
            _ => (self, Seq::empty()),
        }
    }

    /// The cleanup is at work on a sandbox.
    pub open spec fn at_work(self) -> bool {
        match self.phase {
            CleanupPhase::Unmount | CleanupPhase::ConfirmLazy | CleanupPhase::Detach
            | CleanupPhase::Remove => true,
            _ => false,
        }
    }

    /// What holds in every state.
    pub open spec fn wf(self) -> bool {
        &&& 0 <= self.index
        &&& self.at_work() ==> {
            &&& !self.options.dry_run
            &&& self.index < self.candidates.len()
            &&& self.mounts == stable_sorted::<DeepestFirst>(self.candidates[self.index].mounts)
            &&& forall|i: int|
                0 <= i < self.busy.len() ==> self.mounts.contains(#[trigger] self.busy[i])
        }
        &&& self.phase == CleanupPhase::Confirm ==> !self.options.dry_run && !self.options.yes
        &&& self.phase == CleanupPhase::Unmount ==> 0 <= self.at < self.mounts.len()
        &&& self.phase == CleanupPhase::ConfirmLazy ==> self.busy.len() > 0 && !self.options.yes
        &&& self.phase == CleanupPhase::Detach ==> 0 <= self.at < self.busy.len()
    }
}

/// The state in which a cleanup starts.
pub open spec fn started(options: CleanupOptions, euid: Uid) -> CleanupState {
    CleanupState {
        phase: if euid.raw != 0 {
            CleanupPhase::Failed
        } else {
            CleanupPhase::Discover
        },
        options,
        candidates: Seq::empty(),
        index: 0,
        mounts: Seq::empty(),
        at: 0,
        busy: Seq::empty(),
        any_errors: false,
        context: if euid.raw != 0 {
            "vegas cleanup requires root privileges. Try: sudo vegas cleanup"@
        } else {
            Seq::empty()
        },
    }
}

/// A cleanup of sandboxes that were left behind.
#[derive(Debug)]
pub struct Cleanup {
    phase: CleanupPhase,
    options: CleanupOptions,
    candidates: Vec<SandboxCandidate>,
    index: usize,
    mounts: Vec<Vec<u8>>,
    at: usize,
    busy: Vec<Vec<u8>>,
    any_errors: bool,
    context: String,
}

impl View for Cleanup {
    type V = CleanupState;

    closed spec fn view(&self) -> CleanupState {
        CleanupState {
            phase: self.phase,
            options: self.options,
            candidates: views(self.candidates@),
            index: self.index as int,
            mounts: views(self.mounts@),
            at: self.at as int,
            busy: views(self.busy@),
            any_errors: self.any_errors,
            context: self.context@,
        }
    }
}

fn warning(before: &str, path: &[u8], error: &str) -> (line: Line)
    ensures
        line@ == LineView::Stderr(before@ + utf8_lossy(path@) + ": "@ + error@),
{
    let mut text = before_path(before, path);
    text.append(": ");
    text.append(error);
    Line::Stderr(text)
}

/// Starts a cleanup. It fails at once without root privileges.
pub fn cleanup(options: CleanupOptions, euid: Uid) -> (c: Cleanup)
    ensures
        c@ == started(options, euid),
        c@.wf(),
{
    let (phase, context) = if euid.raw != 0 {
        (
            CleanupPhase::Failed,
            "vegas cleanup requires root privileges. Try: sudo vegas cleanup".to_owned(),
        )
    } else {
        (CleanupPhase::Discover, String::new())
    };
    let c = Cleanup {
        phase,
        options,
        candidates: Vec::new(),
        index: 0,
        mounts: Vec::new(),
        at: 0,
        busy: Vec::new(),
        any_errors: false,
        context,
    };
    proof {
        assert(views(c.candidates@) == Seq::<CandidateView>::empty());
        assert(views(c.mounts@) == Seq::<Seq<u8>>::empty());
        assert(views(c.busy@) == Seq::<Seq<u8>>::empty());
    }
    c
}

impl Cleanup {
    /// What is to be done next.
    pub fn action(&self) -> (action: CleanupAction)
        requires
            self@.wf(),
        ensures
            action@ == self@.action(),
    {
        match self.phase {
            CleanupPhase::Failed => CleanupAction::Fail { context: self.context.clone() },
            CleanupPhase::Discover => CleanupAction::List,
            CleanupPhase::Confirm => CleanupAction::Ask {
                prompt: "Proceed with unmount + directory cleanup for all items above? [y/N]: ",
            },
            CleanupPhase::Unmount => CleanupAction::Unmount {
                path: slice_to_vec(self.mounts[self.at].as_slice()),
            },
            CleanupPhase::ConfirmLazy => CleanupAction::Ask {
                prompt: "  Apply lazy detach for busy mounts? [y/N]: ",
            },
            CleanupPhase::Detach => CleanupAction::Detach {
                path: slice_to_vec(self.busy[self.at].as_slice()),
            },
            CleanupPhase::Remove => CleanupAction::Remove {
                path: slice_to_vec(self.candidates[self.index].path.as_slice()),
            },
            CleanupPhase::Finished => CleanupAction::Finish,
        }
    }

    fn enter(self, index: usize) -> (r: (Cleanup, Vec<Line>))
        ensures
            r.0@ == self@.enter(index as int).0,
            views(r.1@) == self@.enter(index as int).1,
    {
        let mut c = self;
        c.index = index;
        if index >= c.candidates.len() {
            c.phase = CleanupPhase::Finished;
            let text = if c.any_errors {
                "\nCleanup finished with warnings.".to_owned()
            } else {
                "\nCleanup complete.".to_owned()
            };
            return (c, just(Line::Stdout(text)));
        }
        let text = before_path("\nCleaning ", c.candidates[index].path.as_slice());
        let mounts = stable_sort::<DeepestFirst>(copy_paths(&c.candidates[index].mounts));
        c.phase = if mounts.len() == 0 {
            CleanupPhase::Remove
        } else {
            CleanupPhase::Unmount
        };
        c.mounts = mounts;
        c.at = 0;
        c.busy = Vec::new();
        assert(views(c.busy@) == Seq::<Seq<u8>>::empty());
        (c, just(Line::Stdout(text)))
    }

    fn discovered(self, found: Vec<SandboxCandidate>) -> (r: (Cleanup, Vec<Line>))
        ensures
            r.0@ == self@.after_discovery(views(found@)).0,
            views(r.1@) == self@.after_discovery(views(found@)).1,
    {
        let none = found.len() == 0;
        let mut c = self;
        c.candidates = stable_sort::<ByCandidatePath>(found);
        if none {
            c.phase = CleanupPhase::Finished;
            return (c, just(Line::Stdout("No stale vegas sandboxes found.".to_owned())));
        }
        let mut lines = to_stdout(print_cleanup_plan(&c.candidates));
        let ghost shown = views(lines@);
        if c.options.dry_run {
            c.phase = CleanupPhase::Finished;
            let last = Line::Stdout("Dry-run mode enabled. No changes were made.".to_owned());
            lines.push(last);
            assert(views(lines@) == shown.push(last@));
            return (c, lines);
        }
        if !c.options.yes {
            c.phase = CleanupPhase::Confirm;
            return (c, lines);
        }
        let (c, mut more) = c.enter(0);
        let ghost rest = views(more@);
        lines.append(&mut more);
        assert(views(lines@) == shown + rest);
        (c, lines)
    }

    fn unmounted(self, line: Line) -> (r: (Cleanup, Vec<Line>))
        requires
            self@.at < self@.mounts.len(),
        ensures
            r.0@ == self@.after_unmount(line@).0,
            views(r.1@) == self@.after_unmount(line@).1,
    {
        let mut c = self;
        let mut lines = just(line);
        assert(c.at < c.mounts.len());
        if c.at + 1 < c.mounts.len() {
            c.at = c.at + 1;
        } else if c.busy.len() == 0 {
            c.phase = CleanupPhase::Remove;
        } else if c.options.yes {
            c.phase = CleanupPhase::Detach;
            c.at = 0;
        } else {
            c.phase = CleanupPhase::ConfirmLazy;
            let text = around_number(
                "  ",
                c.busy.len() as u128,
                " mount(s) are busy and can be lazily detached (MNT_DETACH).",
            );
            let ghost before = views(lines@);
            lines.push(Line::Stdout(text));
            assert(views(lines@) == before.push(LineView::Stdout(text@)));
        }
        (c, lines)
    }

    fn detached(self, line: Line) -> (r: (Cleanup, Vec<Line>))
        requires
            self@.at < self@.busy.len(),
        ensures
            r.0@ == self@.after_detach(line@).0,
            views(r.1@) == self@.after_detach(line@).1,
    {
        let mut c = self;
        assert(c.at < c.busy.len());
        if c.at + 1 < c.busy.len() {
            c.at = c.at + 1;
        } else {
            c.phase = CleanupPhase::Remove;
        }
        (c, just(line))
    }

    fn removed(self, line: Line) -> (r: (Cleanup, Vec<Line>))
        requires
            self@.index < self@.candidates.len(),
        ensures
            r.0@ == self@.after_remove(line@).0,
            views(r.1@) == self@.after_remove(line@).1,
    {
        assert(self.index < self.candidates.len());
        let index = self.index + 1;
        let (c, mut more) = self.enter(index);
        let ghost rest = views(more@);
        let mut lines = just(line);
        lines.append(&mut more);
        assert(views(lines@) == seq![line@] + rest);
        (c, lines)
    }

    fn done(self) -> (r: (Cleanup, Vec<Line>))
        requires
            self@.wf(),
        ensures
            r.0@ == self@.after_done().0,
            views(r.1@) == self@.after_done().1,
    {
        match self.phase {
            CleanupPhase::Unmount => {
                let text = before_path("  unmounted ", self.mounts[self.at].as_slice());
                self.unmounted(Line::Stdout(text))
            },
            CleanupPhase::Detach => {
                let text = before_path("  lazily detached ", self.busy[self.at].as_slice());
                self.detached(Line::Stdout(text))
            },
            CleanupPhase::Remove => {
                let text = before_path("  removed ", self.candidates[self.index].path.as_slice());
                self.removed(Line::Stdout(text))
            },
            _ => (self, nothing()),
        }
    }

    fn failed(self, errno: i32) -> (r: (Cleanup, Vec<Line>))
        requires
            self@.wf(),
        ensures
            r.0@ == self@.after_failure(errno).0,
            views(r.1@) == self@.after_failure(errno).1,
    {
        let mut c = self;
        match c.phase {
            CleanupPhase::Discover => {
                c.phase = CleanupPhase::Failed;
                c.context = "Failed to read /proc/self/mountinfo".to_owned();
                (c, nothing())
            },
            CleanupPhase::Unmount => {
                match classify_errno(errno) {
                    ErrnoClass::Busy => {
                        let path = slice_to_vec(c.mounts[c.at].as_slice());
                        let text = before_path("  busy mount ", path.as_slice());
                        let ghost busy = views(c.busy@);
                        c.busy.push(path);
                        assert(views(c.busy@) == busy.push(path@));
                        c.unmounted(Line::Stdout(text))
                    },
                    ErrnoClass::Other => {
                        let line = warning(
                            "  warning: failed to unmount ",
                            c.mounts[c.at].as_slice(),
                            describe_errno(errno).as_str(),
                        );
                        c.any_errors = true;
                        c.unmounted(line)
                    },
                }
            },
            CleanupPhase::Detach => {
                let line = warning(
                    "  warning: failed lazy detach ",
                    c.busy[c.at].as_slice(),
                    describe_errno(errno).as_str(),
                );
                c.any_errors = true;
                c.detached(line)
            },
            _ => (c, nothing()),
        }
    }

    fn answered(self, line: &str) -> (r: (Cleanup, Vec<Line>))
        ensures
            r.0@ == self@.after_answer(line@).0,
            views(r.1@) == self@.after_answer(line@).1,
    {
        let mut c = self;
        match c.phase {
            CleanupPhase::Confirm => {
                if confirm(line) {
                    return c.enter(0);
                }
                c.phase = CleanupPhase::Finished;
                (c, just(Line::Stdout("Cleanup cancelled.".to_owned())))
            },
            CleanupPhase::ConfirmLazy => {
                if confirm(line) {
                    c.phase = CleanupPhase::Detach;
                    c.at = 0;
                } else {
                    c.phase = CleanupPhase::Remove;
                }
                (c, nothing())
            },
            _ => (c, nothing()),
        }
    }

    fn unanswered(self, step: AskStep) -> (r: (Cleanup, Vec<Line>))
        requires
            self@.phase == CleanupPhase::Confirm || self@.phase == CleanupPhase::ConfirmLazy,
        ensures
            r.0@ == self@.step(CleanupEventView::Unanswered { step }).0,
            views(r.1@) == self@.step(CleanupEventView::Unanswered { step }).1,
    {
        let mut c = self;
        c.phase = CleanupPhase::Failed;
        c.context = match step {
            AskStep::Prompt => "Failed to flush stdout".to_owned(),
            AskStep::Read => "Failed to read user input".to_owned(),
        };
        (c, nothing())
    }

    /// Takes in what came of the action, and gives the lines to be shown.
    ///
    /// A mount table has to be one that can be read.
    pub fn next(self, event: CleanupEvent) -> (r: (Cleanup, Vec<Line>))
        requires
            self@.wf(),
            event matches CleanupEvent::Listed { mountinfo, .. } ==> readable(mountinfo@),
        ensures
            r.0@ == self@.step(event@).0,
            views(r.1@) == self@.step(event@).1,
            r.0@.wf(),
    {
        proof {
            lemma_step_wf(self@, event@);
        }
        match (self.phase, event) {
            (_, CleanupEvent::Done) => self.done(),
            (_, CleanupEvent::Failed { errno }) => self.failed(errno),
            (_, CleanupEvent::Answer { line }) => self.answered(line.as_str()),
            (CleanupPhase::Discover, CleanupEvent::Listed { mountinfo, entries }) => {
                self.discovered(discover_candidates(mountinfo.as_str(), &entries))
            },
            (CleanupPhase::Remove, CleanupEvent::NotRemoved { error }) => {
                let line = warning(
                    "  warning: failed to remove ",
                    self.candidates[self.index].path.as_slice(),
                    error.as_str(),
                );
                let mut c = self;
                c.any_errors = true;
                c.removed(line)
            },
            (CleanupPhase::Confirm, CleanupEvent::Unanswered { step }) => self.unanswered(step),
            (CleanupPhase::ConfirmLazy, CleanupEvent::Unanswered { step }) => self.unanswered(step),
            _ => (self, nothing()),
        }
    }
}

/// Whatever comes of an action, what holds in every state goes on to hold.
pub proof fn lemma_step_wf(s: CleanupState, e: CleanupEventView)
    requires
        s.wf(),
    ensures
        s.step(e).0.wf(),
{
    if s.phase == CleanupPhase::Unmount {
        let path = s.mounts[s.at];
        assert(s.mounts.contains(path));
        let t = CleanupState { busy: s.busy.push(path), ..s };
        assert forall|i: int| 0 <= i < t.busy.len() implies t.mounts.contains(
            #[trigger] t.busy[i],
        ) by {
            if i < s.busy.len() {
                assert(t.busy[i] == s.busy[i]);
            }
        }
    }
}

/// The state that follows `s` when the events come one after another.
pub open spec fn reached(s: CleanupState, events: Seq<CleanupEventView>) -> CleanupState
    decreases events.len(),
{
    if events.len() == 0 {
        s
    } else {
        reached(s, events.drop_last()).step(events.last()).0
    }
}

/// Whatever comes of the actions, what holds in every state goes on to hold, and the options stay.
pub proof fn lemma_reached(options: CleanupOptions, euid: Uid, events: Seq<CleanupEventView>)
    ensures
        reached(started(options, euid), events).wf(),
        reached(started(options, euid), events).options == options,
    decreases events.len(),
{
    if events.len() > 0 {
        lemma_reached(options, euid, events.drop_last());
        lemma_step_wf(reached(started(options, euid), events.drop_last()), events.last());
    }
}

/// The action changes something: it unmounts, detaches or removes.
pub open spec fn changes_something(a: CleanupActionView) -> bool {
    a is Unmount || a is Detach || a is Remove
}

/// A dry run changes nothing, whatever happens.
pub proof fn lemma_dry_run_changes_nothing(
    options: CleanupOptions,
    euid: Uid,
    events: Seq<CleanupEventView>,
)
    requires
        options.dry_run,
    ensures
        !changes_something(reached(started(options, euid), events).action()),
{
    lemma_reached(options, euid, events);
}

/// The event is an answer by which the user agreed.
pub open spec fn agrees(e: CleanupEventView) -> bool {
    e matches CleanupEventView::Answer { line } && agreed(line)
}

/// Unless questions were waived, nothing is changed before the user has agreed.
pub proof fn lemma_changes_need_consent(
    options: CleanupOptions,
    euid: Uid,
    events: Seq<CleanupEventView>,
)
    requires
        !options.yes,
        reached(started(options, euid), events).at_work(),
    ensures
        exists|i: int| 0 <= i < events.len() && agrees(#[trigger] events[i]),
    decreases events.len(),
{
    if events.len() > 0 {
        let front = events.drop_last();
        lemma_reached(options, euid, front);
        if reached(started(options, euid), front).at_work() {
            lemma_changes_need_consent(options, euid, front);
            let i = choose|i: int| 0 <= i < front.len() && agrees(#[trigger] front[i]);
            assert(events[i] == front[i]);
        } else {
            assert(agrees(events[events.len() - 1]));
        }
    }
}

/// A mount point in use is detached only where questions were waived or the user agreed to it.
pub proof fn lemma_detach_needs_consent(s: CleanupState, e: CleanupEventView)
    requires
        s.wf(),
        s.phase != CleanupPhase::Detach,
        s.step(e).0.phase == CleanupPhase::Detach,
    ensures
        s.options.yes || (s.phase == CleanupPhase::ConfirmLazy && agrees(e)),
{
}

/// Only mount points of a sandbox are unmounted or detached, only those in use are detached, and
/// only the sandbox's own directory is removed.
pub proof fn lemma_only_candidates_are_touched(s: CleanupState)
    requires
        s.wf(),
    ensures
        match s.action() {
            CleanupActionView::Unmount { path } => s.candidates[s.index].mounts.contains(path),
            CleanupActionView::Detach { path } => s.candidates[s.index].mounts.contains(path)
                && s.busy.contains(path),
            CleanupActionView::Remove { path } => path == s.candidates[s.index].path,
            _ => true,
        },
        s.at_work() ==> 0 <= s.index < s.candidates.len(),
{
    if s.at_work() {
        let mounts = s.candidates[s.index].mounts;
        lemma_stable_sorted::<DeepestFirst>(mounts);
        if s.phase == CleanupPhase::Unmount {
            assert(s.mounts.contains(s.mounts[s.at]));
            lemma_stable_sort_contains::<DeepestFirst>(mounts, s.mounts, s.mounts[s.at]);
        }
        if s.phase == CleanupPhase::Detach {
            assert(s.busy.contains(s.busy[s.at]));
            lemma_stable_sort_contains::<DeepestFirst>(mounts, s.mounts, s.busy[s.at]);
        }
    }
}

/// A mount point is unmounted before every other that it lies below.
pub proof fn lemma_deepest_first(s: CleanupState, i: int, j: int)
    requires
        s.wf(),
        s.at_work(),
        0 <= i < s.mounts.len(),
        0 <= j < s.mounts.len(),
        is_below(s.mounts[i], s.mounts[j]),
        components(s.mounts[i]) != components(s.mounts[j]),
    ensures
        i < j,
{
    let a = components(s.mounts[i]);
    let b = components(s.mounts[j]);
    lemma_stable_sorted::<DeepestFirst>(s.candidates[s.index].mounts);
    if a.len() == b.len() {
        assert(a.take(b.len() as int) == a);
    }
    if j <= i {
        assert(DeepestFirst::leq(s.mounts[j], s.mounts[i]));
    }
}

/// Every sandbox that was found is a directory `vegas-...` in one of the directories in which
/// sandboxes are made, and each of its mount points lies at or below it.
pub proof fn lemma_candidates(mounts: Seq<Seq<u8>>, entries: Seq<FoundView>, k: int)
    requires
        0 <= k < candidates_of(mounts, entries).len(),
    ensures
        ({
            let c = candidates_of(mounts, entries)[k];
            &&& exists|i: int|
                0 <= i < entries.len() && c.path == found_path(#[trigger] entries[i])
                    && sandbox_name(entries[i].name) && entries[i].dir
            &&& is_below(c.path, encode_utf8("/tmp"@)) || is_below(
                c.path,
                encode_utf8("/var/tmp"@),
            )
            &&& forall|m: Seq<u8>| #[trigger]
                c.mounts.contains(m) == (mounts.contains(m) && is_below(m, c.path))
        }),
    decreases entries.len(),
{
    let front = entries.drop_last();
    let before = candidates_of(mounts, front);
    let c = candidates_of(mounts, entries)[k];
    if k < before.len() {
        lemma_candidates(mounts, front, k);
        let i = choose|i: int|
            0 <= i < front.len() && before[k].path == found_path(#[trigger] front[i])
                && sandbox_name(front[i].name) && front[i].dir;
        assert(entries[i] == front[i]);
    } else {
        let e = entries.last();
        assert(e == entries[entries.len() - 1]);
        lemma_sandbox_name_plain(e.name);
        lemma_joined_components(encode_utf8(e.root.spec_path()), e.name);
        let pred = |m: Seq<u8>| is_below(m, c.path);
        assert forall|m: Seq<u8>| #[trigger]
            c.mounts.contains(m) == (mounts.contains(m) && is_below(m, c.path)) by {
            if c.mounts.contains(m) {
                mounts.lemma_filter_contains_rev(pred, m);
                let j = choose|j: int| 0 <= j < c.mounts.len() && c.mounts[j] == m;
                mounts.lemma_filter_pred(pred, j);
            }
            if mounts.contains(m) && is_below(m, c.path) {
                let j = choose|j: int| 0 <= j < mounts.len() && mounts[j] == m;
                mounts.lemma_filter_contains(pred, j);
            }
        }
    }
}

proof fn lemma_sandbox_name_plain(name: Seq<u8>)
    requires
        sandbox_name(name),
    ensures
        is_plain(name),
{
    let prefix = encode_utf8("vegas-"@);
    reveal_strlit("vegas-");
    is_ascii_chars_encode_utf8("vegas-"@);
    assert(prefix[0] == 118u8);
    assert(name.take(prefix.len() as int)[0] == name[0]);
}

/// `path` is a directory `vegas-...` in one of the directories in which sandboxes are made.
pub open spec fn sandbox_path(path: Seq<u8>) -> bool {
    exists|e: FoundView| #[trigger] found_path(e) == path && sandbox_name(e.name)
}

/// `c` is a sandbox, and its mount points lie at or below it.
pub open spec fn sandbox(c: CandidateView) -> bool {
    &&& sandbox_path(c.path)
    &&& forall|m: Seq<u8>| #[trigger] c.mounts.contains(m) ==> is_below(m, c.path)
}

/// Only sandboxes are ever taken up.
pub proof fn lemma_only_sandboxes_are_taken_up(
    options: CleanupOptions,
    euid: Uid,
    events: Seq<CleanupEventView>,
    k: int,
)
    requires
        0 <= k < reached(started(options, euid), events).candidates.len(),
    ensures
        sandbox(reached(started(options, euid), events).candidates[k]),
    decreases events.len(),
{
    if events.len() > 0 {
        let t = reached(started(options, euid), events.drop_last());
        let c = reached(started(options, euid), events).candidates[k];
        match (t.phase, events.last()) {
            (CleanupPhase::Discover, CleanupEventView::Listed { mountinfo, entries }) => {
                let mounts = mount_points(mountinfo);
                let found = candidates_of(mounts, entries);
                let all = stable_sorted::<ByCandidatePath>(found);
                lemma_stable_sorted::<ByCandidatePath>(found);
                assert(all.contains(c));
                lemma_stable_sort_contains::<ByCandidatePath>(found, all, c);
                let i = choose|i: int| 0 <= i < found.len() && found[i] == c;
                lemma_candidates(mounts, entries, i);
            },
            _ => {
                assert(c == t.candidates[k]);
                lemma_only_sandboxes_are_taken_up(options, euid, events.drop_last(), k);
            },
        }
    }
}

/// `path` lies at or below a sandbox.
pub open spec fn in_sandbox(path: Seq<u8>) -> bool {
    exists|q: Seq<u8>| sandbox_path(q) && #[trigger] is_below(path, q)
}

/// Whatever happens, nothing outside the sandboxes is touched: what is unmounted or detached lies
/// at or below a directory `vegas-...` of `/tmp` or `/var/tmp`, and only such a directory is
/// removed.
pub proof fn lemma_only_sandboxes_are_touched(
    options: CleanupOptions,
    euid: Uid,
    events: Seq<CleanupEventView>,
)
    ensures
        match reached(started(options, euid), events).action() {
            CleanupActionView::Unmount { path } => in_sandbox(path),
            CleanupActionView::Detach { path } => in_sandbox(path),
            CleanupActionView::Remove { path } => sandbox_path(path),
            _ => true,
        },
{
    let s = reached(started(options, euid), events);
    lemma_reached(options, euid, events);
    lemma_only_candidates_are_touched(s);
    if s.at_work() {
        lemma_only_sandboxes_are_taken_up(options, euid, events, s.index);
        let c = s.candidates[s.index];
        if s.phase == CleanupPhase::Unmount {
            assert(is_below(s.mounts[s.at], c.path));
        }
        if s.phase == CleanupPhase::Detach {
            assert(is_below(s.busy[s.at], c.path));
        }
    }
}

/// A step that went wrong is remembered to the end: the cleanup then closes with a warning.
pub proof fn lemma_errors_are_remembered(s: CleanupState, e: CleanupEventView)
    requires
        s.wf(),
    ensures
        s.any_errors ==> s.step(e).0.any_errors,
        s.phase == CleanupPhase::Unmount ==> (e matches CleanupEventView::Failed { errno }
            ==> errno != 16 ==> s.step(e).0.any_errors),
        s.phase == CleanupPhase::Detach ==> (e is Failed ==> s.step(e).0.any_errors),
        s.phase == CleanupPhase::Remove ==> (e is NotRemoved ==> s.step(e).0.any_errors),
        e is Done ==> s.step(e).0.any_errors == s.any_errors,
{
}

/// Without root privileges nothing is done.
pub proof fn lemma_only_root_cleans(
    options: CleanupOptions,
    euid: Uid,
    events: Seq<CleanupEventView>,
)
    requires
        euid.raw != 0,
    ensures
        reached(started(options, euid), events) == started(options, euid),
        started(options, euid).action() is Fail,
    decreases events.len(),
{
    if events.len() > 0 {
        lemma_only_root_cleans(options, euid, events.drop_last());
    }
}

/// Once at work, a cleanup is over only when every sandbox has been taken up.
pub proof fn lemma_all_are_taken_up(s: CleanupState, e: CleanupEventView)
    requires
        s.wf(),
        s.at_work(),
    ensures
        s.step(e).0.candidates == s.candidates,
        s.step(e).0.index == s.index || s.step(e).0.index == s.index + 1,
        s.step(e).0.index == s.index + 1 ==> s.phase == CleanupPhase::Remove,
        s.step(e).0.phase == CleanupPhase::Finished ==> s.step(e).0.index == s.candidates.len(),
{
}

} // verus!
