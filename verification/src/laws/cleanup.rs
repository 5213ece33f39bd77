//! Which sandboxes a cleanup finds, and what it does to each.

use crate::cleanup::{
    all_candidate_lines, candidate_lines, candidates_of, find_candidates, found_path, lemma_candidates,
    lemma_step_wf, mounts_below, plan, sandbox_name, started, temp_roots, total_mounts, AskStep,
    ByCandidatePath, CandidateView, CleanupAction, CleanupActionView, CleanupEvent,
    CleanupEventView, CleanupOptions, CleanupState, FoundEntry, FoundView, SandboxCandidate,
    TempRoot,
};
use crate::mountinfo::mount_points;
use crate::order::{lemma_stable_sort_contains, lemma_stable_sorted, stable_sorted, views};
use crate::os::errno_text;
use crate::path::{components, is_below, path_leq, DeepestFirst, SLASH};
use crate::text::{answer, decimal, utf8_lossy, LineView};
use crate::user::Uid;
use vstd::prelude::*;
use vstd::utf8::{encode_utf8, is_ascii_chars_encode_utf8};

verus! {

/// `name` starts with the bytes of `vegas-`.
pub open spec fn starts_as_sandbox(name: Seq<u8>) -> bool {
    &&& name.len() >= 6
    &&& name[0] == 118
    &&& name[1] == 101
    &&& name[2] == 103
    &&& name[3] == 97
    &&& name[4] == 115
    &&& name[5] == 45
}

/// The bytes of `/tmp/` or of `/var/tmp/`, and then the name.
pub open spec fn stands_at(e: FoundView) -> Seq<u8> {
    match e.root {
        TempRoot::Tmp => seq![47u8, 116u8, 109u8, 112u8, 47u8] + e.name,
        TempRoot::VarTmp => seq![47u8, 118u8, 97u8, 114u8, 47u8, 116u8, 109u8, 112u8, 47u8] + e.name,
    }
}

/// Exactly the names that start with `vegas-` are those of sandboxes.
pub proof fn lemma_sandbox_names(name: Seq<u8>)
    ensures
        sandbox_name(name) == starts_as_sandbox(name),
{
    let prefix = encode_utf8("vegas-"@);
    reveal_strlit("vegas-");
    is_ascii_chars_encode_utf8("vegas-"@);
    assert(prefix =~= seq![118u8, 101u8, 103u8, 97u8, 115u8, 45u8]);
    if sandbox_name(name) {
        let t = name.take(6);
        assert(t[0] == name[0] && t[1] == name[1] && t[2] == name[2] && t[3] == name[3] && t[4]
            == name[4] && t[5] == name[5]);
    }
    if starts_as_sandbox(name) {
        assert(name.take(6) =~= prefix);
    }
}

/// An entry stands in its directory, under its name.
pub proof fn lemma_place_of_entry(e: FoundView)
    requires
        e.name.len() > 0,
        e.name[0] != SLASH,
    ensures
        found_path(e) == stands_at(e),
{
    reveal_strlit("/tmp");
    reveal_strlit("/var/tmp");
    is_ascii_chars_encode_utf8("/tmp"@);
    is_ascii_chars_encode_utf8("/var/tmp"@);
    match e.root {
        TempRoot::Tmp => {
            assert(encode_utf8("/tmp"@) =~= seq![47u8, 116u8, 109u8, 112u8]);
            assert(found_path(e) =~= stands_at(e));
        },
        TempRoot::VarTmp => {
            assert(encode_utf8("/var/tmp"@) =~= seq![
                47u8,
                118u8,
                97u8,
                114u8,
                47u8,
                116u8,
                109u8,
                112u8,
            ]);
            assert(found_path(e) =~= stands_at(e));
        },
    }
}

/// The mount points below a path are found one by one, and none other.
pub proof fn lemma_mounts_one_by_one(
    a: Seq<Seq<u8>>,
    b: Seq<Seq<u8>>,
    m: Seq<u8>,
    path: Seq<u8>,
)
    ensures
        mounts_below(Seq::empty(), path) == Seq::<Seq<u8>>::empty(),
        mounts_below(a + b, path) == mounts_below(a, path) + mounts_below(b, path),
        is_below(m, path) ==> mounts_below(seq![m], path) == seq![m],
        !is_below(m, path) ==> mounts_below(seq![m], path) == Seq::<Seq<u8>>::empty(),
{
    Seq::filter_distributes_over_add(a, b, |m: Seq<u8>| is_below(m, path));
    reveal_with_fuel(Seq::filter, 2);
    assert(seq![m].drop_last() == Seq::<Seq<u8>>::empty());
}

/// Each entry counts by itself: the sandboxes of two listings, one behind the other, are those of
/// the first and then those of the second. A single entry gives one sandbox where it is a directory
/// with the name of one, and none elsewhere.
pub proof fn lemma_sandboxes_one_by_one(
    mounts: Seq<Seq<u8>>,
    a: Seq<FoundView>,
    b: Seq<FoundView>,
    e: FoundView,
)
    ensures
        candidates_of(mounts, Seq::empty()) == Seq::<CandidateView>::empty(),
        candidates_of(mounts, a + b) == candidates_of(mounts, a) + candidates_of(mounts, b),
        e.dir && starts_as_sandbox(e.name) ==> {
            &&& candidates_of(mounts, seq![e]).len() == 1
            &&& candidates_of(mounts, seq![e])[0].path == stands_at(e)
            &&& candidates_of(mounts, seq![e])[0].mounts == mounts_below(mounts, stands_at(e))
        },
        !(e.dir && starts_as_sandbox(e.name)) ==> candidates_of(mounts, seq![e]).len() == 0,
    decreases b.len(),
{
    reveal_with_fuel(candidates_of, 2);
    lemma_sandbox_names(e.name);
    assert(seq![e].drop_last() == Seq::<FoundView>::empty());
    if starts_as_sandbox(e.name) {
        lemma_place_of_entry(e);
    }
    if b.len() == 0 {
        assert(a + b == a);
    } else {
        assert((a + b).drop_last() == a + b.drop_last());
        assert((a + b).last() == b.last());
        lemma_sandboxes_one_by_one(mounts, a, b.drop_last(), e);
    }
}

/// The number of entries that are directories with the name of a sandbox.
pub open spec fn sandboxes_among(entries: Seq<FoundView>) -> nat {
    entries.filter(|e: FoundView| e.dir && starts_as_sandbox(e.name)).len()
}

/// As many sandboxes are found as there are directories with the name of one: none is left out,
/// however many there are.
pub proof fn lemma_no_sandbox_is_left_out(mounts: Seq<Seq<u8>>, entries: Seq<FoundView>)
    ensures
        candidates_of(mounts, entries).len() == sandboxes_among(entries),
    decreases entries.len(),
{
    reveal(Seq::filter);
    if entries.len() > 0 {
        lemma_sandbox_names(entries.last().name);
        lemma_no_sandbox_is_left_out(mounts, entries.drop_last());
    }
}

/// Every directory with the name of a sandbox is found, with exactly the mount points at or below
/// it.
pub proof fn lemma_every_sandbox_is_found(
    mounts: Seq<Seq<u8>>,
    entries: Seq<FoundView>,
    i: int,
)
    requires
        0 <= i < entries.len(),
        entries[i].dir,
        starts_as_sandbox(entries[i].name),
    ensures
        exists|k: int|
            0 <= k < candidates_of(mounts, entries).len() && (#[trigger] candidates_of(
                mounts,
                entries,
            )[k]).path == stands_at(entries[i]) && forall|m: Seq<u8>| #[trigger]
                candidates_of(mounts, entries)[k].mounts.contains(m) == (mounts.contains(m)
                    && is_below(m, stands_at(entries[i]))),
{
    let all = candidates_of(mounts, entries);
    let e = entries[i];
    let a = entries.take(i);
    let b = entries.skip(i + 1);
    assert(entries == a + seq![e] + b);
    lemma_sandboxes_one_by_one(mounts, a + seq![e], b, e);
    lemma_sandboxes_one_by_one(mounts, a, seq![e], e);
    let k = candidates_of(mounts, a).len() as int;
    assert(all[k] == candidates_of(mounts, seq![e])[0]);
    lemma_candidates(mounts, entries, k);
}

/// A cleanup starts by looking for sandboxes where it has root privileges, and elsewhere does
/// nothing.
pub proof fn lemma_start(options: CleanupOptions, euid: Uid)
    ensures
        euid.raw == 0 ==> started(options, euid).action() == CleanupActionView::List,
        euid.raw != 0 ==> started(options, euid).action() == (CleanupActionView::Fail {
            context: "vegas cleanup requires root privileges. Try: sudo vegas cleanup"@,
        }),
        started(options, euid).options == options,
        !started(options, euid).any_errors,
{
}

/// In `s` the sandbox `k` is taken up: its mount points are unmounted first, those that lie
/// deepest before the others, and without any its directory is removed.
pub open spec fn is_taken_up(s: CleanupState, k: int) -> bool {
    let c = s.candidates[k];
    &&& s.index == k
    &&& s.at == 0
    &&& s.busy.len() == 0
    &&& s.mounts.len() == c.mounts.len()
    &&& forall|m: Seq<u8>| #[trigger] s.mounts.contains(m) == c.mounts.contains(m)
    &&& forall|i: int, j: int|
        0 <= i < j < s.mounts.len() ==> components(#[trigger] s.mounts[i]).len() >= components(
            #[trigger] s.mounts[j],
        ).len()
    &&& if c.mounts.len() == 0 {
        s.action() == (CleanupActionView::Remove { path: c.path })
    } else {
        s.action() == (CleanupActionView::Unmount { path: s.mounts[0] })
    }
}

/// In `s` the sandbox `k` is taken up, or there are no more of them and the cleanup is over. `line`
/// tells so.
pub open spec fn goes_on(s: CleanupState, k: int, line: LineView) -> bool {
    if k < s.candidates.len() {
        is_taken_up(s, k) && line == LineView::Stdout(
            "\nCleaning "@ + utf8_lossy(s.candidates[k].path),
        )
    } else if s.any_errors {
        s.action() == CleanupActionView::Finish && line == LineView::Stdout(
            "\nCleanup finished with warnings."@,
        )
    } else {
        s.action() == CleanupActionView::Finish && line == LineView::Stdout("\nCleanup complete."@)
    }
}

proof fn lemma_enter(s: CleanupState, k: int)
    requires
        0 <= k,
    ensures
        s.enter(k).1.len() == 1,
        s.enter(k).0.candidates == s.candidates,
        s.enter(k).0.options == s.options,
        s.enter(k).0.any_errors == s.any_errors,
        goes_on(s.enter(k).0, k, s.enter(k).1[0]),
{
    if k < s.candidates.len() {
        let t = s.enter(k).0;
        let mounts = s.candidates[k].mounts;
        lemma_stable_sorted::<DeepestFirst>(mounts);
        assert forall|m: Seq<u8>| #[trigger] t.mounts.contains(m) == mounts.contains(m) by {
            lemma_stable_sort_contains::<DeepestFirst>(mounts, t.mounts, m);
        }
    }
}

/// `all` are the sandboxes `found`, in ascending order of their paths.
pub open spec fn are_in_order(all: Seq<CandidateView>, found: Seq<CandidateView>) -> bool {
    &&& all.len() == found.len()
    &&& forall|c: CandidateView| #[trigger] all.contains(c) == found.contains(c)
    &&& forall|i: int, j: int|
        0 <= i < j < all.len() ==> path_leq((#[trigger] all[i]).path, (#[trigger] all[j]).path)
}

/// What follows the search: without sandboxes, and in a dry run, nothing is done; else the user is
/// asked first, unless questions were waived.
pub proof fn lemma_after_the_search(
    s: CleanupState,
    mountinfo: Seq<char>,
    entries: Seq<FoundView>,
)
    requires
        s.action() == CleanupActionView::List,
    ensures
        ({
            let found = candidates_of(mount_points(mountinfo), entries);
            let (t, lines) = s.step(CleanupEventView::Listed { mountinfo, entries });
            let n = plan(t.candidates).len() as int;
            &&& are_in_order(t.candidates, found)
            &&& t.options == s.options
            &&& t.any_errors == s.any_errors
            &&& found.len() == 0 ==> t.action() == CleanupActionView::Finish && lines == seq![
                LineView::Stdout("No stale vegas sandboxes found."@),
            ]
            &&& found.len() > 0 ==> lines.len() >= n && forall|i: int|
                0 <= i < n ==> #[trigger] lines[i] == LineView::Stdout(plan(t.candidates)[i])
            &&& found.len() > 0 && s.options.dry_run ==> t.action() == CleanupActionView::Finish
                && lines.len() == n + 1 && lines[n] == LineView::Stdout(
                "Dry-run mode enabled. No changes were made."@,
            )
            &&& found.len() > 0 && !s.options.dry_run && !s.options.yes ==> lines.len() == n
                && t.action() == (CleanupActionView::Ask {
                prompt: "Proceed with unmount + directory cleanup for all items above? [y/N]: "@,
            })
            &&& found.len() > 0 && !s.options.dry_run && s.options.yes ==> lines.len() == n + 1
                && goes_on(t, 0, lines[n])
        }),
{
    let found = candidates_of(mount_points(mountinfo), entries);
    let all = stable_sorted::<ByCandidatePath>(found);
    lemma_stable_sorted::<ByCandidatePath>(found);
    assert forall|c: CandidateView| #[trigger] all.contains(c) == found.contains(c) by {
        lemma_stable_sort_contains::<ByCandidatePath>(found, all, c);
    }
    lemma_enter(CleanupState { candidates: all, ..s }, 0);
}

proof fn lemma_questions_differ()
    ensures
        "Proceed with unmount + directory cleanup for all items above? [y/N]: "@
            != "  Apply lazy detach for busy mounts? [y/N]: "@,
{
    reveal_strlit("Proceed with unmount + directory cleanup for all items above? [y/N]: ");
    reveal_strlit("  Apply lazy detach for busy mounts? [y/N]: ");
    assert("Proceed with unmount + directory cleanup for all items above? [y/N]: "@[0] == 'P');
    assert("  Apply lazy detach for busy mounts? [y/N]: "@[0] == ' ');
}

/// The sandboxes are taken up once the user has agreed, with a `y` or a `yes`, and not otherwise.
pub proof fn lemma_after_the_question(s: CleanupState, line: Seq<char>)
    requires
        s.action() == (CleanupActionView::Ask {
            prompt: "Proceed with unmount + directory cleanup for all items above? [y/N]: "@,
        }),
    ensures
        ({
            let (t, lines) = s.step(CleanupEventView::Answer { line });
            &&& lines.len() == 1
            &&& t.candidates == s.candidates
            &&& t.options == s.options
            &&& t.any_errors == s.any_errors
            &&& answer(line) == "y"@ || answer(line) == "yes"@ ==> goes_on(t, 0, lines[0])
            &&& answer(line) != "y"@ && answer(line) != "yes"@ ==> t.action()
                == CleanupActionView::Finish && lines[0] == LineView::Stdout("Cleanup cancelled."@)
        }),
{
    lemma_questions_differ();
    lemma_enter(s, 0);
}

/// What came of an unmount: nothing went wrong, or it failed with an error number.
pub open spec fn came_of_it(outcome: Option<i32>) -> CleanupEventView {
    match outcome {
        None => CleanupEventView::Done,
        Some(errno) => CleanupEventView::Failed { errno },
    }
}

/// The state that follows when the outcomes come in, one after another.
pub open spec fn after_outcomes(s: CleanupState, outcomes: Seq<Option<i32>>) -> CleanupState
    decreases outcomes.len(),
{
    if outcomes.len() == 0 {
        s
    } else {
        after_outcomes(s, outcomes.drop_last()).step(came_of_it(outcomes.last())).0
    }
}

/// The mount points whose unmount was refused because they were in use, which is error 16.
pub open spec fn refused(mounts: Seq<Seq<u8>>, outcomes: Seq<Option<i32>>) -> Seq<Seq<u8>>
    decreases outcomes.len(),
{
    if outcomes.len() == 0 {
        Seq::empty()
    } else if outcomes.last() == Some(16i32) {
        refused(mounts, outcomes.drop_last()).push(mounts[outcomes.len() - 1])
    } else {
        refused(mounts, outcomes.drop_last())
    }
}

/// Some unmount failed for another reason.
pub open spec fn went_wrong(outcomes: Seq<Option<i32>>) -> bool {
    exists|i: int| 0 <= i < outcomes.len() && #[trigger] outcomes[i] is Some && outcomes[i] != Some(16i32)
}

proof fn lemma_went_wrong(outcomes: Seq<Option<i32>>)
    requires
        outcomes.len() > 0,
    ensures
        went_wrong(outcomes) == (went_wrong(outcomes.drop_last()) || (outcomes.last() is Some
            && outcomes.last() != Some(16i32))),
{
    let front = outcomes.drop_last();
    if went_wrong(outcomes) {
        let i = choose|i: int|
            0 <= i < outcomes.len() && #[trigger] outcomes[i] is Some && outcomes[i] != Some(16i32);
        if i < front.len() {
            assert(front[i] == outcomes[i]);
        }
    }
    if went_wrong(front) {
        let i = choose|i: int|
            0 <= i < front.len() && #[trigger] front[i] is Some && front[i] != Some(16i32);
        assert(outcomes[i] == front[i]);
    }
    if outcomes.last() is Some && outcomes.last() != Some(16i32) {
        assert(outcomes[outcomes.len() - 1] is Some);
    }
}

/// The mount points of a sandbox are unmounted one after another, whatever comes of each. Then, if
/// any of them was in use, however many there were, those are detached, after a question unless
/// questions were waived; and only where none was in use the directory is removed at once.
pub proof fn lemma_unmounts_of_a_sandbox(s: CleanupState, outcomes: Seq<Option<i32>>)
    requires
        s.wf(),
        s.action() is Unmount,
        s.at == 0,
        s.busy.len() == 0,
        outcomes.len() <= s.mounts.len(),
    ensures
        ({
            let t = after_outcomes(s, outcomes);
            let busy = refused(s.mounts, outcomes);
            &&& t.candidates == s.candidates
            &&& t.index == s.index
            &&& t.options == s.options
            &&& t.mounts == s.mounts
            &&& t.busy == busy
            &&& t.any_errors == (s.any_errors || went_wrong(outcomes))
            &&& if outcomes.len() < s.mounts.len() {
                t.action() == (CleanupActionView::Unmount {
                    path: s.mounts[outcomes.len() as int],
                })
            } else if busy.len() == 0 {
                t.action() == (CleanupActionView::Remove { path: s.candidates[s.index].path })
            } else if s.options.yes {
                t.action() == (CleanupActionView::Detach { path: busy[0] }) && t.at == 0
            } else {
                t.action() == (CleanupActionView::Ask {
                    prompt: "  Apply lazy detach for busy mounts? [y/N]: "@,
                })
            }
        }),
        after_outcomes(s, outcomes).wf(),
        outcomes.len() < s.mounts.len() ==> after_outcomes(s, outcomes).at == outcomes.len(),
    decreases outcomes.len(),
{
    if outcomes.len() > 0 {
        let front = outcomes.drop_last();
        let u = after_outcomes(s, front);
        lemma_unmounts_of_a_sandbox(s, front);
        lemma_step_wf(u, came_of_it(outcomes.last()));
        lemma_went_wrong(outcomes);
    } else {
        assert(s.busy == Seq::<Seq<u8>>::empty());
    }
}

/// Every mount point that was found in use is among those to be detached.
pub proof fn lemma_refused(mounts: Seq<Seq<u8>>, outcomes: Seq<Option<i32>>, i: int)
    requires
        0 <= i < outcomes.len(),
        outcomes[i] == Some(16i32),
    ensures
        refused(mounts, outcomes).contains(mounts[i]),
        refused(mounts, outcomes).len() > 0,
    decreases outcomes.len(),
{
    let all = refused(mounts, outcomes);
    let front = outcomes.drop_last();
    if i == outcomes.len() - 1 {
        assert(all.last() == mounts[i]);
    } else {
        assert(front[i] == outcomes[i]);
        lemma_refused(mounts, front, i);
        let before = refused(mounts, front);
        let k = choose|k: int| 0 <= k < before.len() && before[k] == mounts[i];
        assert(all[k] == mounts[i]);
    }
}

/// Asked whether to detach what is in use, the user decides: with a `y` or a `yes` each of them is
/// detached, from the first on, and otherwise the directory is removed without.
pub proof fn lemma_after_the_second_question(s: CleanupState, line: Seq<char>)
    requires
        s.action() == (CleanupActionView::Ask {
            prompt: "  Apply lazy detach for busy mounts? [y/N]: "@,
        }),
    ensures
        ({
            let (t, lines) = s.step(CleanupEventView::Answer { line });
            &&& lines.len() == 0
            &&& t.candidates == s.candidates
            &&& t.index == s.index
            &&& t.options == s.options
            &&& t.busy == s.busy
            &&& t.any_errors == s.any_errors
            &&& answer(line) == "y"@ || answer(line) == "yes"@ ==> t.action() == (
            CleanupActionView::Detach { path: s.busy[0] }) && t.at == 0
            &&& answer(line) != "y"@ && answer(line) != "yes"@ ==> t.action() == (
            CleanupActionView::Remove { path: s.candidates[s.index].path })
        }),
{
    lemma_questions_differ();
}

/// What is in use is detached one after another, whatever comes of each, and then the directory is
/// removed.
pub proof fn lemma_detaches_of_a_sandbox(s: CleanupState, outcomes: Seq<Option<i32>>)
    requires
        s.wf(),
        s.action() is Detach,
        s.at == 0,
        outcomes.len() <= s.busy.len(),
    ensures
        ({
            let t = after_outcomes(s, outcomes);
            &&& t.candidates == s.candidates
            &&& t.index == s.index
            &&& t.options == s.options
            &&& t.busy == s.busy
            &&& t.any_errors == (s.any_errors || exists|i: int|
                0 <= i < outcomes.len() && #[trigger] outcomes[i] is Some)
            &&& if outcomes.len() < s.busy.len() {
                t.action() == (CleanupActionView::Detach { path: s.busy[outcomes.len() as int] })
                    && t.at == outcomes.len()
            } else {
                t.action() == (CleanupActionView::Remove { path: s.candidates[s.index].path })
            }
        }),
        after_outcomes(s, outcomes).wf(),
    decreases outcomes.len(),
{
    if outcomes.len() > 0 {
        let front = outcomes.drop_last();
        let u = after_outcomes(s, front);
        let t = after_outcomes(s, outcomes);
        lemma_detaches_of_a_sandbox(s, front);
        lemma_step_wf(u, came_of_it(outcomes.last()));
        if exists|i: int| 0 <= i < outcomes.len() && #[trigger] outcomes[i] is Some {
            let i = choose|i: int| 0 <= i < outcomes.len() && #[trigger] outcomes[i] is Some;
            if i < front.len() {
                assert(front[i] == outcomes[i]);
            }
        }
        if exists|i: int| 0 <= i < front.len() && #[trigger] front[i] is Some {
            let i = choose|i: int| 0 <= i < front.len() && #[trigger] front[i] is Some;
            assert(outcomes[i] == front[i]);
        }
        if outcomes.last() is Some {
            assert(outcomes[outcomes.len() - 1] is Some);
        }
    }
}

/// Removed or not, a sandbox is followed by the next, and the last by the end.
pub proof fn lemma_after_a_sandbox(s: CleanupState, e: CleanupEventView)
    requires
        s.wf(),
        s.action() is Remove,
        e is Done || e is NotRemoved,
    ensures
        ({
            let (t, lines) = s.step(e);
            let path = s.candidates[s.index].path;
            &&& lines.len() == 2
            &&& t.candidates == s.candidates
            &&& t.options == s.options
            &&& t.any_errors == (s.any_errors || e is NotRemoved)
            &&& e is Done ==> lines[0] == LineView::Stdout("  removed "@ + utf8_lossy(path))
            &&& e matches CleanupEventView::NotRemoved { error } ==> lines[0] == LineView::Stderr(
                "  warning: failed to remove "@ + utf8_lossy(path) + ": "@ + error,
            )
            &&& goes_on(t, s.index + 1, lines[1])
        }),
{
    lemma_enter(s, s.index + 1);
    lemma_enter(CleanupState { any_errors: true, ..s }, s.index + 1);
}

/// What is said of an unmount.
pub proof fn lemma_unmount_is_told(s: CleanupState, outcome: Option<i32>)
    requires
        s.wf(),
        s.action() is Unmount,
    ensures
        ({
            let (t, lines) = s.step(came_of_it(outcome));
            let path = s.action()->Unmount_path;
            &&& lines.len() > 0
            &&& outcome is None ==> lines[0] == LineView::Stdout("  unmounted "@ + utf8_lossy(path))
            &&& outcome == Some(16i32) ==> lines[0] == LineView::Stdout(
                "  busy mount "@ + utf8_lossy(path),
            )
            &&& outcome is Some && outcome != Some(16i32) ==> lines[0] == LineView::Stderr(
                "  warning: failed to unmount "@ + utf8_lossy(path) + ": "@ + errno_text(
                    outcome->Some_0,
                ),
            )
            &&& t.action() is Ask ==> lines.len() == 2 && lines[1] == LineView::Stdout(
                "  "@ + decimal(t.busy.len())
                    + " mount(s) are busy and can be lazily detached (MNT_DETACH)."@,
            )
            &&& !(t.action() is Ask) ==> lines.len() == 1
        }),
{
}

/// What is said of a detach.
pub proof fn lemma_detach_is_told(s: CleanupState, outcome: Option<i32>)
    requires
        s.wf(),
        s.action() is Detach,
    ensures
        ({
            let lines = s.step(came_of_it(outcome)).1;
            let path = s.action()->Detach_path;
            &&& lines.len() == 1
            &&& outcome is None ==> lines[0] == LineView::Stdout(
                "  lazily detached "@ + utf8_lossy(path),
            )
            &&& outcome matches Some(errno) ==> lines[0] == LineView::Stderr(
                "  warning: failed lazy detach "@ + utf8_lossy(path) + ": "@ + errno_text(errno),
            )
        }),
{
}

/// The cleanup fails where the mount table cannot be read, and where the user cannot be asked.
pub proof fn lemma_failures(s: CleanupState, errno: i32, step: AskStep)
    ensures
        s.action() is List ==> s.step(CleanupEventView::Failed { errno }).1.len() == 0 && s.step(
            CleanupEventView::Failed { errno },
        ).0.action() == (CleanupActionView::Fail {
            context: "Failed to read /proc/self/mountinfo"@,
        }),
        s.action() is Ask ==> s.step(CleanupEventView::Unanswered { step }).1.len() == 0 && s.step(
            CleanupEventView::Unanswered { step },
        ).0.action() == (CleanupActionView::Fail {
            context: if step == AskStep::Prompt {
                "Failed to flush stdout"@
            } else {
                "Failed to read user input"@
            },
        }),
{
}

/// The event is one that can come of the action.
pub open spec fn answers(a: CleanupActionView, e: CleanupEventView) -> bool {
    match a {
        CleanupActionView::List => e is Listed || e is Failed,
        CleanupActionView::Ask { .. } => e is Answer || e is Unanswered,
        CleanupActionView::Unmount { .. } | CleanupActionView::Detach { .. } => e is Done
            || e is Failed,
        CleanupActionView::Remove { .. } => e is Done || e is NotRemoved,
        _ => false,
    }
}

/// Any other event changes nothing and shows nothing. So a cleanup that is over, or has failed,
/// stays so.
pub proof fn lemma_stray_events(s: CleanupState, e: CleanupEventView)
    requires
        !answers(s.action(), e),
    ensures
        s.step(e) == (s, Seq::<LineView>::empty()),
{
}

/// The plan counts the sandboxes and all their mount points, and then shows each.
pub proof fn lemma_plan(candidates: Seq<CandidateView>)
    ensures
        plan(candidates).len() == 3 + all_candidate_lines(candidates).len(),
        plan(candidates)[0] == "Found "@ + decimal(candidates.len())
            + " vegas sandbox directorie(s)."@,
        plan(candidates)[1] == "Detected "@ + decimal(total_mounts(candidates))
            + " mount point(s) under these directories."@,
        plan(candidates)[2] == ""@,
        plan(candidates).skip(3) == all_candidate_lines(candidates),
{
}

/// Each sandbox is shown, and counted, by itself and in order.
pub proof fn lemma_plan_one_by_one(a: Seq<CandidateView>, b: Seq<CandidateView>, c: CandidateView)
    ensures
        total_mounts(Seq::empty()) == 0,
        total_mounts(a + b) == total_mounts(a) + total_mounts(b),
        total_mounts(seq![c]) == c.mounts.len(),
        all_candidate_lines(Seq::empty()) == Seq::<Seq<char>>::empty(),
        all_candidate_lines(a + b) == all_candidate_lines(a) + all_candidate_lines(b),
        all_candidate_lines(seq![c]) == candidate_lines(c),
    decreases b.len(),
{
    reveal_with_fuel(total_mounts, 2);
    reveal_with_fuel(all_candidate_lines, 2);
    assert(seq![c].drop_last() == Seq::<CandidateView>::empty());
    assert(all_candidate_lines(Seq::empty()) + candidate_lines(c) == candidate_lines(c));
    if b.len() == 0 {
        assert(a + b == a);
    } else {
        assert((a + b).drop_last() == a + b.drop_last());
        assert((a + b).last() == b.last());
        lemma_plan_one_by_one(a, b.drop_last(), c);
        assert(all_candidate_lines(a + b) == all_candidate_lines(a) + (all_candidate_lines(
            b.drop_last(),
        ) + candidate_lines(b.last())));
    }
}

/// A sandbox is shown by its path, the number of its mount points, and each of them in order.
pub proof fn lemma_sandbox_is_shown(c: CandidateView)
    ensures
        candidate_lines(c)[0] == "- "@ + utf8_lossy(c.path),
        c.mounts.len() == 0 ==> candidate_lines(c).len() == 2 && candidate_lines(c)[1]
            == "  mounts: none"@,
        c.mounts.len() > 0 ==> {
            &&& candidate_lines(c).len() == 2 + c.mounts.len()
            &&& candidate_lines(c)[1] == "  mounts: "@ + decimal(c.mounts.len())
            &&& forall|i: int|
                0 <= i < c.mounts.len() ==> #[trigger] candidate_lines(c)[i + 2] == "    • "@
                    + utf8_lossy(c.mounts[i])
        },
{
}

/// Events are taken for what they are.
pub proof fn lemma_what_events_say(e: CleanupEvent)
    ensures
        match e {
            CleanupEvent::Done => e@ == CleanupEventView::Done,
            CleanupEvent::Failed { errno } => e@ == (CleanupEventView::Failed { errno }),
            CleanupEvent::NotRemoved { error } => e@ == (CleanupEventView::NotRemoved {
                error: error@,
            }),
            CleanupEvent::Listed { mountinfo, entries } => e@ == (CleanupEventView::Listed {
                mountinfo: mountinfo@,
                entries: views(entries@),
            }),
            CleanupEvent::Answer { line } => e@ == (CleanupEventView::Answer { line: line@ }),
            CleanupEvent::Unanswered { step } => e@ == (CleanupEventView::Unanswered { step }),
        },
{
}

/// Actions ask for what they say, and what was found is seen as it is.
pub proof fn lemma_what_actions_say(a: CleanupAction, f: FoundEntry, c: SandboxCandidate)
    ensures
        match a {
            CleanupAction::Fail { context } => a@ == (CleanupActionView::Fail { context: context@ }),
            CleanupAction::List => a@ == CleanupActionView::List,
            CleanupAction::Ask { prompt } => a@ == (CleanupActionView::Ask { prompt: prompt@ }),
            CleanupAction::Unmount { path } => a@ == (CleanupActionView::Unmount { path: path@ }),
            CleanupAction::Detach { path } => a@ == (CleanupActionView::Detach { path: path@ }),
            CleanupAction::Remove { path } => a@ == (CleanupActionView::Remove { path: path@ }),
            CleanupAction::Finish => a@ == CleanupActionView::Finish,
        },
        f@.root == f.root,
        f@.name == f.name@,
        f@.dir == f.dir,
        c@.path == c.path@,
        c@.mounts == views(c.mounts@),
{
}

/// As many sandboxes are found in a listing as it holds directories with the name of one, and each
/// of these is among them.
pub proof fn lemma_finding(
    mounts: &Vec<Vec<u8>>,
    entries: &Vec<FoundEntry>,
    out: Vec<SandboxCandidate>,
    i: int,
)
    requires
        call_ensures(find_candidates, (mounts, entries), out),
        0 <= i < entries@.len(),
    ensures
        out@.len() == sandboxes_among(views(entries@)),
        entries@[i].dir && starts_as_sandbox(entries@[i].name@) ==> exists|k: int|
            0 <= k < out@.len() && (#[trigger] out@[k]).path@ == stands_at(entries@[i]@),
{
    let all = views(entries@);
    let found = views(out@);
    assert(all[i] == entries@[i]@);
    assert(found.len() == out@.len());
    lemma_no_sandbox_is_left_out(views(mounts@), all);
    if entries@[i].dir && starts_as_sandbox(entries@[i].name@) {
        lemma_every_sandbox_is_found(views(mounts@), all, i);
        let k = choose|k: int|
            0 <= k < found.len() && (#[trigger] found[k]).path == stands_at(all[i]);
        assert(found[k] == out@[k]@);
    }
}

/// Sandboxes are looked for in `/tmp` and in `/var/tmp`.
pub proof fn lemma_where_to_look(roots: Vec<TempRoot>)
    requires
        call_ensures(temp_roots, (), roots),
    ensures
        roots@.len() == 2,
        roots@[0] == TempRoot::Tmp,
        roots@[1] == TempRoot::VarTmp,
        TempRoot::Tmp.spec_path() == "/tmp"@,
        TempRoot::VarTmp.spec_path() == "/var/tmp"@,
{
}

} // verus!
