//! What applying changes does to a filesystem, on a model of one.
//!
//! The model knows directories, files and symbolic links by the components of their absolute
//! paths. An operation fails where something stands in its way, and for no other reason. Links on
//! the way to a path are not followed: a path that leads through one counts as absent, and nothing
//! can be made there.

use crate::apply::{
    concerns, deletion_of, lemma_finished_means_all, lemma_only_changes_are_touched, lemma_reached,
    lemma_step, reached, started, ApplyActionView, ApplyEventView, ApplyPhase, ApplyState, Deletion,
    FileKind,
};
use crate::diff::{ChangeKind, ChangeView};
use crate::path::{components, lemma_parent_components};
use vstd::prelude::*;

verus! {

/// What stands at a path.
pub enum Node {
    Dir,
    File { content: Seq<u8>, mode: u32 },
    Link { target: Seq<u8> },
}

/// A filesystem: what stands at each path, given by its components.
pub type Files = Map<Seq<Seq<u8>>, Node>;

/// The files of the upper directory, by their paths.
pub type Upper = Map<Seq<u8>, Node>;

/// Whatever stands anywhere stands in a directory.
pub open spec fn is_tree(fs: Files) -> bool {
    forall|k: Seq<Seq<u8>>| #[trigger]
        fs.contains_key(k) && k.len() > 1 ==> is_dir(fs, k.drop_last())
}

/// A directory stands at `k`.
pub open spec fn is_dir(fs: Files, k: Seq<Seq<u8>>) -> bool {
    fs.contains_key(k) && fs[k] is Dir
}

/// A symbolic link stands at `k`.
pub open spec fn is_link(fs: Files, k: Seq<Seq<u8>>) -> bool {
    fs.contains_key(k) && fs[k] is Link
}

/// What the node is when a last symbolic link is not followed.
pub open spec fn kind_of(node: Node) -> FileKind {
    match node {
        Node::Dir => FileKind::Dir,
        Node::Link { .. } => FileKind::Symlink,
        Node::File { .. } => FileKind::Other,
    }
}

/// Nothing but directories stands on the way to `k` and at `k`.
pub open spec fn way_is_free(fs: Files, k: Seq<Seq<u8>>) -> bool {
    forall|n: int| 1 <= n <= k.len() && fs.contains_key(#[trigger] k.take(n)) ==> fs[k.take(n)] is Dir
}

/// `fs` with a directory at `k`, and with those on the way to it.
pub open spec fn with_dirs(fs: Files, k: Seq<Seq<u8>>) -> Files {
    Map::new(
        |j: Seq<Seq<u8>>| fs.contains_key(j) || (j.len() > 0 && j.is_prefix_of(k)),
        |j: Seq<Seq<u8>>|
            if fs.contains_key(j) {
                fs[j]
            } else {
                Node::Dir
            },
    )
}

/// `fs` without what stands at `k` and below it.
pub open spec fn without_below(fs: Files, k: Seq<Seq<u8>>) -> Files {
    Map::new(
        |j: Seq<Seq<u8>>| fs.contains_key(j) && !k.is_prefix_of(j),
        |j: Seq<Seq<u8>>| fs[j],
    )
}

/// Something can be made at `k`: it is in a directory.
pub open spec fn has_place(fs: Files, k: Seq<Seq<u8>>) -> bool {
    k.len() > 1 && is_dir(fs, k.drop_last())
}

/// Nothing stands in the way of the operation.
pub open spec fn succeeds(fs: Files, upper: Upper, a: ApplyActionView) -> bool {
    match a {
        ApplyActionView::CreateDir { path } => way_is_free(fs, components(path)),
        ApplyActionView::RemoveFile { path } => fs.contains_key(components(path)) && !is_dir(
            fs,
            components(path),
        ),
        ApplyActionView::RemoveDir { path } => is_dir(fs, components(path)),
        ApplyActionView::Symlink { path, .. } => !fs.contains_key(components(path)) && has_place(
            fs,
            components(path),
        ),
        ApplyActionView::Copy { from, to } => {
            &&& upper.contains_key(from) && upper[from] is File
            &&& has_place(fs, components(to))
            &&& fs.contains_key(components(to)) ==> fs[components(to)] is File
        },
        ApplyActionView::SetPermissions { path, .. } => fs.contains_key(components(path)) && !(
        fs[components(path)] is Link),
        _ => true,
    }
}

/// The filesystem after the operation, where it succeeds.
pub open spec fn after(fs: Files, upper: Upper, a: ApplyActionView) -> Files {
    match a {
        ApplyActionView::CreateDir { path } => with_dirs(fs, components(path)),
        ApplyActionView::RemoveFile { path } => fs.remove(components(path)),
        ApplyActionView::RemoveDir { path } => without_below(fs, components(path)),
        ApplyActionView::Symlink { target, path } => fs.insert(
            components(path),
            Node::Link { target },
        ),
        ApplyActionView::Copy { from, to } => fs.insert(components(to), upper[from]),
        ApplyActionView::SetPermissions { path, mode } => match fs[components(path)] {
            Node::File { content, .. } => fs.insert(
                components(path),
                Node::File { content, mode },
            ),
            _ => fs,
        },
        _ => fs,
    }
}

/// `e` is what comes of the operation `a`. Whether a link leads to something is left open.
pub open spec fn answers(fs: Files, upper: Upper, a: ApplyActionView, e: ApplyEventView) -> bool {
    match a {
        ApplyActionView::Fail { .. } | ApplyActionView::Finish => false,
        ApplyActionView::Stat { path } => if upper.contains_key(path) {
            e matches ApplyEventView::Found { kind, mode } && kind == kind_of(upper[path]) && (
            upper[path] matches Node::File { mode: m, .. } ==> mode == m)
        } else {
            e is Failed
        },
        ApplyActionView::ReadLink { path } => if upper.contains_key(path) && upper[path] is Link {
            e == (ApplyEventView::Link { target: upper[path]->target })
        } else {
            e is Failed
        },
        ApplyActionView::Probe { path } => e matches ApplyEventView::Probed {
            exists,
            dir,
            symlink,
        } && symlink == is_link(fs, components(path)) && (
        symlink || (exists == fs.contains_key(components(path)) && dir == is_dir(
            fs,
            components(path),
        ))),
        _ => if succeeds(fs, upper, a) {
            e is Done
        } else {
            e is Failed
        },
    }
}

/// The filesystem after an operation of which `e` came.
pub open spec fn changed(fs: Files, upper: Upper, a: ApplyActionView, e: ApplyEventView) -> Files {
    if e is Done {
        after(fs, upper, a)
    } else {
        fs
    }
}

/// The filesystem after the events, each of which came of the operation that was asked for.
pub open spec fn world(
    fs: Files,
    upper: Upper,
    s: ApplyState,
    events: Seq<ApplyEventView>,
) -> Files
    decreases events.len(),
{
    if events.len() == 0 {
        fs
    } else {
        let front = events.drop_last();
        changed(world(fs, upper, s, front), upper, reached(s, front).action(), events.last())
    }
}

/// Each event is what comes of the operation that was asked for.
pub open spec fn happens(
    fs: Files,
    upper: Upper,
    s: ApplyState,
    events: Seq<ApplyEventView>,
) -> bool
    decreases events.len(),
{
    events.len() > 0 ==> {
        let front = events.drop_last();
        &&& happens(fs, upper, s, front)
        &&& answers(
            world(fs, upper, s, front),
            upper,
            reached(s, front).action(),
            events.last(),
        )
    }
}

/// The real place of a change.
pub open spec fn place(c: ChangeView) -> Seq<Seq<u8>> {
    components(c.real_path)
}

/// The changes concern places of their own, as those of a directory tree do: below a change there
/// are only deletions, unless it makes a directory.
pub open spec fn laid_out(upper: Upper, changes: Seq<ChangeView>) -> bool {
    &&& forall|i: int| 0 <= i < changes.len() ==> place(#[trigger] changes[i]).len() > 0
    &&& forall|i: int, j: int|
        0 <= i < changes.len() && 0 <= j < changes.len() && i != j ==> apart(
            upper,
            #[trigger] changes[i],
            #[trigger] changes[j],
        )
}

/// `d` does not stand at the place of `c`, and below it only as [`laid_out`] says.
pub open spec fn apart(upper: Upper, c: ChangeView, d: ChangeView) -> bool {
    &&& place(c) != place(d)
    &&& place(c).is_prefix_of(place(d)) ==> d.kind == ChangeKind::Deleted || (c.kind
        != ChangeKind::Deleted && upper[c.upper_path] is Dir)
}

/// The change is there: what was deleted is gone, and anything else stands in its place as it does
/// in the upper directory.
pub open spec fn settled(fs: Files, upper: Upper, c: ChangeView) -> bool {
    if c.kind == ChangeKind::Deleted {
        !fs.contains_key(place(c))
    } else {
        &&& upper.contains_key(c.upper_path)
        &&& fs.contains_key(place(c))
        &&& fs[place(c)] == upper[c.upper_path]
        &&& fs[place(c)] is Dir || place(c).len() > 1
    }
}

/// Every change is there.
pub open spec fn all_settled(fs: Files, upper: Upper, changes: Seq<ChangeView>) -> bool {
    forall|i: int| 0 <= i < changes.len() ==> settled(fs, upper, #[trigger] changes[i])
}

/// An operation leaves a tree a tree.
proof fn lemma_tree(fs: Files, upper: Upper, a: ApplyActionView)
    requires
        is_tree(fs),
        succeeds(fs, upper, a),
    ensures
        is_tree(after(fs, upper, a)),
{
    let next = after(fs, upper, a);
    assert forall|k: Seq<Seq<u8>>| #[trigger]
        next.contains_key(k) && k.len() > 1 implies is_dir(next, k.drop_last()) by {
        let up = k.drop_last();
        match a {
            ApplyActionView::CreateDir { path } => {
                let to = components(path);
                if !fs.contains_key(k) {
                    assert(k == to.take(k.len() as int));
                    assert(up == to.take(k.len() - 1));
                    assert(up.is_prefix_of(to));
                }
            },
            ApplyActionView::RemoveDir { path } => {
                let to = components(path);
                if to.is_prefix_of(up) {
                    assert(to == up.take(to.len() as int));
                    assert(to == k.take(to.len() as int));
                    assert(to.is_prefix_of(k));
                }
            },
            _ => {
                if fs.contains_key(k) {
                    assert(is_dir(fs, up));
                }
            },
        }
    }
}

/// An operation for one change leaves the others as they are.
proof fn lemma_keeps(
    fs: Files,
    upper: Upper,
    changes: Seq<ChangeView>,
    k: int,
    a: ApplyActionView,
    i: int,
)
    requires
        laid_out(upper, changes),
        0 <= k < changes.len(),
        0 <= i < changes.len(),
        i != k,
        concerns(a, changes[k]),
        succeeds(fs, upper, a),
        settled(fs, upper, changes[i]),
    ensures
        settled(after(fs, upper, a), upper, changes[i]),
{
    let c = changes[k];
    let d = changes[i];
    assert(apart(upper, c, d));
    assert(apart(upper, d, c));
    match a {
        ApplyActionView::CreateDir { path } => {
            let to = components(path);
            lemma_parent_components(c.real_path);
            assert(to == place(c) || to == place(c).drop_last());
            if place(d).is_prefix_of(to) {
                assert(place(d) == to.take(place(d).len() as int));
                assert(place(d) == place(c).take(place(d).len() as int));
                assert(place(d).is_prefix_of(place(c)));
            }
        },
        _ => {},
    }
}

/// What is known of the file in the upper directory once it has been looked at.
pub open spec fn is_known(s: ApplyState, upper: Upper) -> bool {
    let c = s.current();
    &&& upper.contains_key(c.upper_path)
    &&& s.kind == kind_of(upper[c.upper_path])
    &&& upper[c.upper_path] matches Node::File { mode, .. } ==> s.mode == mode
    &&& s.phase == ApplyPhase::Unlink || s.phase == ApplyPhase::Symlink ==> upper[c.upper_path] == (
    Node::Link { target: s.target })
}

/// The phases in which the file in the upper directory has been looked at.
pub open spec fn has_looked(phase: ApplyPhase) -> bool {
    match phase {
        ApplyPhase::MakeDir | ApplyPhase::MakeParent | ApplyPhase::ReadLink | ApplyPhase::Unlink
        | ApplyPhase::Symlink | ApplyPhase::Look | ApplyPhase::MakeWay | ApplyPhase::Copy
        | ApplyPhase::SetPermissions => true,
        _ => false,
    }
}

/// What holds while changes are applied for the first time.
pub open spec fn under_way(s: ApplyState, fs: Files, upper: Upper, changes: Seq<ChangeView>) -> bool {
    &&& s.wf()
    &&& s.changes == changes
    &&& is_tree(fs)
    &&& s.phase != ApplyPhase::Failed ==> forall|i: int|
        0 <= i < s.index ==> settled(fs, upper, #[trigger] changes[i])
    &&& has_looked(s.phase) ==> is_known(s, upper)
    &&& s.phase == ApplyPhase::SetPermissions ==> fs.contains_key(place(s.current()))
        && fs[place(s.current())] == upper[s.current().upper_path] && place(s.current()).len() > 1
    &&& s.phase == ApplyPhase::Copy ==> !is_link(fs, place(s.current()))
    &&& s.phase == ApplyPhase::RemoveDir ==> is_dir(fs, place(s.current()))
    &&& s.phase == ApplyPhase::RemoveFile ==> fs.contains_key(place(s.current())) && !is_dir(
        fs,
        place(s.current()),
    )
}

#[verifier::spinoff_prover]
proof fn lemma_under_way(
    s: ApplyState,
    fs: Files,
    upper: Upper,
    changes: Seq<ChangeView>,
    e: ApplyEventView,
)
    requires
        laid_out(upper, changes),
        under_way(s, fs, upper, changes),
        answers(fs, upper, s.action(), e),
    ensures
        under_way(s.step(e).0, changed(fs, upper, s.action(), e), upper, changes),
{
    let a = s.action();
    let t = s.step(e).0;
    let next = changed(fs, upper, a, e);
    lemma_step(s, e);
    assert(concerns(a, changes[s.index]));
    if e is Done {
        assert(succeeds(fs, upper, a));
        lemma_tree(fs, upper, a);
        assert forall|i: int| 0 <= i < s.index implies settled(next, upper, #[trigger] changes[i]) by {
            lemma_keeps(fs, upper, changes, s.index, a, i);
        }
    }
    if t.phase != ApplyPhase::Failed {
        assert forall|i: int| 0 <= i < t.index implies settled(next, upper, #[trigger] changes[i]) by {
            if i == s.index {
                let c = s.current();
                assert(c == changes[i]);
                if s.phase == ApplyPhase::MakeDir {
                    assert(place(c).take(place(c).len() as int) == place(c));
                    assert(place(c).is_prefix_of(place(c)));
                }
                if s.phase == ApplyPhase::RemoveDir {
                    assert(place(c).is_prefix_of(place(c)));
                }
            }
        }
    }
}

/// Whatever comes of the operations of a first application, what holds in its course goes on to
/// hold.
proof fn lemma_world_under_way(
    fs: Files,
    upper: Upper,
    changes: Seq<ChangeView>,
    events: Seq<ApplyEventView>,
)
    requires
        is_tree(fs),
        laid_out(upper, changes),
        happens(fs, upper, started(changes), events),
    ensures
        under_way(
            reached(started(changes), events),
            world(fs, upper, started(changes), events),
            upper,
            changes,
        ),
    decreases events.len(),
{
    if events.len() > 0 {
        let front = events.drop_last();
        lemma_world_under_way(fs, upper, changes, front);
        lemma_under_way(
            reached(started(changes), front),
            world(fs, upper, started(changes), front),
            upper,
            changes,
            events.last(),
        );
    }
}

/// Where the application of changes ends without a failure, every change is there: what was added
/// or modified stands in its place with the contents, the permissions and the target that it has
/// in the upper directory, and of what was deleted nothing is left, nor of what was below it.
pub proof fn lemma_applied_is_settled(
    fs: Files,
    upper: Upper,
    changes: Seq<ChangeView>,
    events: Seq<ApplyEventView>,
)
    requires
        is_tree(fs),
        laid_out(upper, changes),
        happens(fs, upper, started(changes), events),
        reached(started(changes), events).phase == ApplyPhase::Finished,
    ensures
        is_tree(world(fs, upper, started(changes), events)),
        all_settled(world(fs, upper, started(changes), events), upper, changes),
        forall|i: int, k: Seq<Seq<u8>>|
            0 <= i < changes.len() && (#[trigger] changes[i]).kind == ChangeKind::Deleted && place(
                changes[i],
            ).is_prefix_of(k) ==> !(#[trigger] world(
                fs,
                upper,
                started(changes),
                events,
            ).contains_key(k)),
{
    let next = world(fs, upper, started(changes), events);
    lemma_world_under_way(fs, upper, changes, events);
    lemma_finished_means_all(changes, events);
    assert forall|i: int, k: Seq<Seq<u8>>|
        0 <= i < changes.len() && (#[trigger] changes[i]).kind == ChangeKind::Deleted && place(
            changes[i],
        ).is_prefix_of(k) implies !(#[trigger] next.contains_key(k)) by {
        if next.contains_key(k) {
            lemma_on_the_way(next, k, place(changes[i]).len() as int);
            assert(place(changes[i]) == k.take(place(changes[i]).len() as int));
            assert(settled(next, upper, changes[i]));
        }
    }
}

/// On the way to whatever stands in a tree there are directories.
proof fn lemma_on_the_way(fs: Files, k: Seq<Seq<u8>>, n: int)
    requires
        is_tree(fs),
        fs.contains_key(k),
        1 <= n <= k.len(),
    ensures
        fs.contains_key(k.take(n)),
        n < k.len() ==> fs[k.take(n)] is Dir,
    decreases k.len(),
{
    if n == k.len() {
        assert(k.take(n) == k);
    } else {
        let up = k.drop_last();
        assert(is_dir(fs, up));
        lemma_on_the_way(fs, up, n);
        assert(up.take(n) == k.take(n));
        if n == up.len() {
            assert(k.take(n) == up);
        }
    }
}

/// What holds while changes are applied to a filesystem `fs0` in which they are all there: only a
/// symbolic link is away for a moment.
pub open spec fn again(
    s: ApplyState,
    fs: Files,
    fs0: Files,
    upper: Upper,
    changes: Seq<ChangeView>,
) -> bool {
    &&& s.wf()
    &&& s.changes == changes
    &&& has_looked(s.phase) ==> is_known(s, upper)
    &&& fs == if s.phase == ApplyPhase::Symlink {
        fs0.remove(place(s.current()))
    } else {
        fs0
    }
    &&& match s.phase {
        ApplyPhase::Failed | ApplyPhase::MakeWay | ApplyPhase::RemoveDir
        | ApplyPhase::RemoveFile => false,
        _ => true,
    }
}

#[verifier::spinoff_prover]
proof fn lemma_again(
    s: ApplyState,
    fs: Files,
    fs0: Files,
    upper: Upper,
    changes: Seq<ChangeView>,
    e: ApplyEventView,
)
    requires
        is_tree(fs0),
        laid_out(upper, changes),
        all_settled(fs0, upper, changes),
        again(s, fs, fs0, upper, changes),
        answers(fs, upper, s.action(), e),
    ensures
        again(s.step(e).0, changed(fs, upper, s.action(), e), fs0, upper, changes),
{
    let a = s.action();
    let c = s.current();
    let k = place(c);
    lemma_step(s, e);
    assert(settled(fs0, upper, changes[s.index]));
    assert(k.len() > 0);
    match s.phase {
        ApplyPhase::MakeDir | ApplyPhase::MakeParent => {
            let to = components(a->CreateDir_path);
            lemma_parent_components(c.real_path);
            assert forall|n: int|
                1 <= n <= to.len() && fs0.contains_key(#[trigger] to.take(n)) implies fs0[to.take(
                n,
            )] is Dir by {
                lemma_on_the_way(fs0, k, n);
                assert(to.take(n) == k.take(n));
                assert(k.take(k.len() as int) == k);
            }
            assert forall|j: Seq<Seq<u8>>| j.len() > 0 && j.is_prefix_of(to) implies
                #[trigger] fs0.contains_key(j) by {
                assert(j == to.take(j.len() as int));
                assert(to.take(j.len() as int) == k.take(j.len() as int));
                lemma_on_the_way(fs0, k, j.len() as int);
            }
            assert(with_dirs(fs0, to) =~= fs0);
            assert(way_is_free(fs0, to));
            assert(succeeds(fs0, upper, a));
            assert(e is Done);
        },
        ApplyPhase::Copy => {
            if k.len() > 1 {
                assert(is_dir(fs0, k.drop_last()));
            }
            assert(e is Done ==> fs0.insert(k, upper[c.upper_path]) =~= fs0);
        },
        ApplyPhase::SetPermissions => {
            assert(after(fs0, upper, a) =~= fs0);
        },
        ApplyPhase::Symlink => {
            assert(is_dir(fs0, k.drop_last()) ==> k.drop_last() != k);
            assert(fs0.remove(k).insert(k, upper[c.upper_path]) =~= fs0);
        },
        _ => {},
    }
}

proof fn lemma_world_again(
    fs0: Files,
    upper: Upper,
    changes: Seq<ChangeView>,
    events: Seq<ApplyEventView>,
)
    requires
        is_tree(fs0),
        laid_out(upper, changes),
        all_settled(fs0, upper, changes),
        happens(fs0, upper, started(changes), events),
    ensures
        again(
            reached(started(changes), events),
            world(fs0, upper, started(changes), events),
            fs0,
            upper,
            changes,
        ),
    decreases events.len(),
{
    if events.len() > 0 {
        let front = events.drop_last();
        lemma_world_again(fs0, upper, changes, front);
        lemma_again(
            reached(started(changes), front),
            world(fs0, upper, started(changes), front),
            fs0,
            upper,
            changes,
            events.last(),
        );
    }
}

/// The application has come to its end, well or not.
pub open spec fn is_over(s: ApplyState) -> bool {
    s.action() is Finish || s.action() is Fail
}

/// Applying the same changes twice ends as applying them once: where the first application
/// succeeds, so does the second, and it leaves everything as the first left it.
pub proof fn lemma_apply_twice(
    fs: Files,
    upper: Upper,
    changes: Seq<ChangeView>,
    first: Seq<ApplyEventView>,
    second: Seq<ApplyEventView>,
)
    requires
        is_tree(fs),
        laid_out(upper, changes),
        happens(fs, upper, started(changes), first),
        reached(started(changes), first).phase == ApplyPhase::Finished,
        happens(world(fs, upper, started(changes), first), upper, started(changes), second),
        is_over(reached(started(changes), second)),
    ensures
        reached(started(changes), second).phase == ApplyPhase::Finished,
        world(
            world(fs, upper, started(changes), first),
            upper,
            started(changes),
            second,
        ) == world(fs, upper, started(changes), first),
{
    lemma_applied_is_settled(fs, upper, changes, first);
    lemma_world_again(world(fs, upper, started(changes), first), upper, changes, second);
}

/// In the course of an application no link is followed: a file is never copied to where a symbolic
/// link stands, and permissions are never set through one.
pub proof fn lemma_no_link_is_followed(
    fs: Files,
    upper: Upper,
    changes: Seq<ChangeView>,
    events: Seq<ApplyEventView>,
)
    requires
        is_tree(fs),
        laid_out(upper, changes),
        happens(fs, upper, started(changes), events),
    ensures
        match reached(started(changes), events).action() {
            ApplyActionView::Copy { to, .. } => !is_link(
                world(fs, upper, started(changes), events),
                components(to),
            ),
            ApplyActionView::SetPermissions { path, .. } => !is_link(
                world(fs, upper, started(changes), events),
                components(path),
            ),
            _ => true,
        },
{
    lemma_world_under_way(fs, upper, changes, events);
}

/// Something that no change concerns: it stands at the place of none, and below the place of none
/// that is deleted.
pub open spec fn is_aside(changes: Seq<ChangeView>, k: Seq<Seq<u8>>) -> bool {
    forall|i: int|
        0 <= i < changes.len() ==> place(#[trigger] changes[i]) != k && (changes[i].kind
            == ChangeKind::Deleted ==> !place(changes[i]).is_prefix_of(k))
}

/// Whatever happens, what no change concerns stays as it is.
pub proof fn lemma_others_stay(
    fs: Files,
    upper: Upper,
    changes: Seq<ChangeView>,
    events: Seq<ApplyEventView>,
    k: Seq<Seq<u8>>,
)
    requires
        happens(fs, upper, started(changes), events),
        fs.contains_key(k),
        is_aside(changes, k),
    ensures
        world(fs, upper, started(changes), events).contains_key(k),
        world(fs, upper, started(changes), events)[k] == fs[k],
    decreases events.len(),
{
    if events.len() > 0 {
        let front = events.drop_last();
        lemma_others_stay(fs, upper, changes, front, k);
        lemma_only_changes_are_touched(changes, front);
        let s = reached(started(changes), front);
        assert(concerns(s.action(), changes[s.index]));
    }
}

/// How many more operations there can be at most.
pub open spec fn steps_left(s: ApplyState) -> int {
    let rank: int = match s.phase {
        ApplyPhase::Stat | ApplyPhase::Probe => 10,
        ApplyPhase::MakeParent => 9,
        ApplyPhase::ReadLink | ApplyPhase::Look => 8,
        ApplyPhase::Unlink | ApplyPhase::MakeWay => 7,
        ApplyPhase::Symlink | ApplyPhase::Copy | ApplyPhase::MakeDir => 6,
        ApplyPhase::SetPermissions | ApplyPhase::RemoveDir
        | ApplyPhase::RemoveFile => 5,
        ApplyPhase::Failed | ApplyPhase::Finished => 0,
    };
    if rank == 0 {
        0
    } else {
        (s.changes.len() - s.index - 1) * 10 + rank
    }
}

/// Every application comes to its end: as long as it is not over something comes of the operation
/// that is asked for, and each brings the end nearer.
#[verifier::spinoff_prover]
pub proof fn lemma_application_ends(
    fs: Files,
    upper: Upper,
    changes: Seq<ChangeView>,
    events: Seq<ApplyEventView>,
)
    requires
        happens(fs, upper, started(changes), events),
    ensures
        events.len() + steps_left(reached(started(changes), events)) <= changes.len() * 10,
        0 <= steps_left(reached(started(changes), events)),
        !is_over(reached(started(changes), events)) ==> exists|e: ApplyEventView|
            happens(fs, upper, started(changes), #[trigger] events.push(e)),
    decreases events.len(),
{
    let s = reached(started(changes), events);
    lemma_reached(changes, events);
    if events.len() > 0 {
        let front = events.drop_last();
        lemma_application_ends(fs, upper, changes, front);
        lemma_reached(changes, front);
    }
    if !is_over(s) {
        let w = world(fs, upper, started(changes), events);
        let a = s.action();
        let e = match a {
            ApplyActionView::Stat { path } => if upper.contains_key(path) {
                ApplyEventView::Found {
                    kind: kind_of(upper[path]),
                    mode: match upper[path] {
                        Node::File { mode, .. } => mode,
                        _ => 0,
                    },
                }
            } else {
                ApplyEventView::Failed
            },
            ApplyActionView::ReadLink { path } => if upper.contains_key(path)
                && upper[path] is Link {
                ApplyEventView::Link { target: upper[path]->target }
            } else {
                ApplyEventView::Failed
            },
            ApplyActionView::Probe { path } => ApplyEventView::Probed {
                exists: w.contains_key(components(path)),
                dir: is_dir(w, components(path)),
                symlink: is_link(w, components(path)),
            },
            _ => if succeeds(w, upper, a) {
                ApplyEventView::Done
            } else {
                ApplyEventView::Failed
            },
        };
        assert(answers(w, upper, a, e));
        assert(events.push(e).drop_last() == events);
        assert(happens(fs, upper, started(changes), events.push(e)));
    }
}

/// A deletion never fails.
proof fn lemma_deletion_succeeds(
    fs: Files,
    upper: Upper,
    c: ChangeView,
    events: Seq<ApplyEventView>,
)
    requires
        is_tree(fs),
        c.kind == ChangeKind::Deleted,
        place(c).len() > 0,
        happens(fs, upper, started(seq![c]), events),
    ensures
        reached(started(seq![c]), events).phase != ApplyPhase::Failed,
    decreases events.len(),
{
    if events.len() > 0 {
        let front = events.drop_last();
        lemma_deletion_succeeds(fs, upper, c, front);
        lemma_world_under_way(fs, upper, seq![c], front);
    }
}

/// Two deletions in a row are as good as one. Whatever stood at the path, or nothing, the first
/// succeeds and leaves nothing there nor below; the second succeeds and changes nothing.
pub proof fn lemma_delete_twice(
    fs: Files,
    upper: Upper,
    c: ChangeView,
    first: Seq<ApplyEventView>,
    second: Seq<ApplyEventView>,
)
    requires
        is_tree(fs),
        c.kind == ChangeKind::Deleted,
        place(c).len() > 0,
        happens(fs, upper, started(seq![c]), first),
        is_over(reached(started(seq![c]), first)),
        happens(world(fs, upper, started(seq![c]), first), upper, started(seq![c]), second),
        is_over(reached(started(seq![c]), second)),
    ensures
        reached(started(seq![c]), first).phase == ApplyPhase::Finished,
        forall|k: Seq<Seq<u8>>|
            place(c).is_prefix_of(k) ==> !(#[trigger] world(
                fs,
                upper,
                started(seq![c]),
                first,
            ).contains_key(k)),
        reached(started(seq![c]), second).phase == ApplyPhase::Finished,
        world(
            world(fs, upper, started(seq![c]), first),
            upper,
            started(seq![c]),
            second,
        ) == world(fs, upper, started(seq![c]), first),
{
    let changes = seq![c];
    lemma_deletion_succeeds(fs, upper, c, first);
    lemma_applied_is_settled(fs, upper, changes, first);
    assert(changes[0] == c);
    lemma_apply_twice(fs, upper, changes, first, second);
}

/// The operation that deletes what stands at `path`.
pub open spec fn removal(deletion: Deletion, path: Seq<u8>) -> Option<ApplyActionView> {
    match deletion {
        Deletion::Nothing => None,
        Deletion::RemoveDir => Some(ApplyActionView::RemoveDir { path }),
        Deletion::RemoveFile => Some(ApplyActionView::RemoveFile { path }),
    }
}

/// The filesystem once what stands at `path` has been deleted in this way.
pub open spec fn once_deleted(
    fs: Files,
    upper: Upper,
    deletion: Deletion,
    path: Seq<u8>,
) -> Files {
    match removal(deletion, path) {
        Some(a) => after(fs, upper, a),
        None => fs,
    }
}

/// What is found when one looks at `path`.
pub open spec fn is_found(fs: Files, path: Seq<u8>, exists: bool, dir: bool, symlink: bool) -> bool {
    answers(
        fs,
        Map::empty(),
        ApplyActionView::Probe { path },
        ApplyEventView::Probed { exists, dir, symlink },
    )
}

/// Whatever stands at a path, a file, a directory with all that it holds, a symbolic link or
/// nothing: the way in which it is to be deleted succeeds and leaves nothing there nor below, and
/// a second deletion finds that it has nothing to do.
pub proof fn lemma_delete_file_twice(
    fs: Files,
    upper: Upper,
    path: Seq<u8>,
    exists: bool,
    dir: bool,
    symlink: bool,
    exists_again: bool,
    dir_again: bool,
    symlink_again: bool,
)
    requires
        is_tree(fs),
        components(path).len() > 0,
        is_found(fs, path, exists, dir, symlink),
        is_found(
            once_deleted(fs, upper, deletion_of(exists, dir, symlink), path),
            path,
            exists_again,
            dir_again,
            symlink_again,
        ),
    ensures
        removal(deletion_of(exists, dir, symlink), path) matches Some(a) ==> succeeds(fs, upper, a),
        is_tree(once_deleted(fs, upper, deletion_of(exists, dir, symlink), path)),
        forall|k: Seq<Seq<u8>>|
            components(path).is_prefix_of(k) ==> !(#[trigger] once_deleted(
                fs,
                upper,
                deletion_of(exists, dir, symlink),
                path,
            ).contains_key(k)),
        deletion_of(exists_again, dir_again, symlink_again) == Deletion::Nothing,
{
    let deletion = deletion_of(exists, dir, symlink);
    let next = once_deleted(fs, upper, deletion, path);
    let to = components(path);
    if let Some(a) = removal(deletion, path) {
        lemma_tree(fs, upper, a);
    }
    assert(to.is_prefix_of(to));
    assert(!next.contains_key(to));
    assert forall|k: Seq<Seq<u8>>| to.is_prefix_of(k) implies !(#[trigger] next.contains_key(k)) by {
        if next.contains_key(k) {
            lemma_on_the_way(next, k, to.len() as int);
            assert(to == k.take(to.len() as int));
        }
    }
}

} // verus!
