//! What is done to the real filesystem for each change, and what is said of it.

use crate::apply::{
    deletion_of, heading, started, ApplyAction, ApplyActionView, ApplyEvent, ApplyEventView,
    ApplyState, Deletion, FileKind,
};
use crate::diff::{ChangeKind, ChangeView};
use crate::path::parent_of;
use crate::text::{decimal, utf8_lossy};
use vstd::prelude::*;

verus! {

/// In `s` the change `k` is taken up by looking at what there is: in the upper directory for what
/// was written, in its place for what was deleted. Behind the last change nothing is left to do.
pub open spec fn takes_up(s: ApplyState, k: int) -> bool {
    &&& s.index == k
    &&& if k >= s.changes.len() {
        s.action() == ApplyActionView::Finish
    } else if s.changes[k].kind == ChangeKind::Deleted {
        s.action() == (ApplyActionView::Probe { path: s.changes[k].real_path })
    } else {
        s.action() == (ApplyActionView::Stat { path: s.changes[k].upper_path })
    }
}

/// The state is at the start of the change behind the one of `s`, and `lines` are `told` and,
/// behind the last change, that all is done.
pub open spec fn is_applied(
    s: ApplyState,
    next: (ApplyState, Seq<Seq<char>>),
    told: Seq<Seq<char>>,
) -> bool {
    &&& next.0.changes == s.changes
    &&& takes_up(next.0, s.index + 1)
    &&& if s.index + 1 >= s.changes.len() {
        next.1 == told + seq!["Done."@]
    } else {
        next.1 == told
    }
}

/// The next operation is `a`, for the same change, and nothing is said.
pub open spec fn asks_for(
    s: ApplyState,
    next: (ApplyState, Seq<Seq<char>>),
    a: ApplyActionView,
) -> bool {
    &&& next.0.changes == s.changes
    &&& next.0.index == s.index
    &&& next.0.action() == a
    &&& next.1.len() == 0
}

/// The failure of the operation ends it all, with `context`.
pub open spec fn fails_with(s: ApplyState, context: Seq<char>) -> bool {
    &&& s.step(ApplyEventView::Failed).0.action() == (ApplyActionView::Fail { context })
    &&& s.step(ApplyEventView::Failed).1.len() == 0
}

/// What is said of a file or a link that was written.
pub open spec fn written(c: ChangeView) -> Seq<Seq<char>> {
    seq![
        if c.kind == ChangeKind::Added {
            "  ~ "@ + utf8_lossy(c.real_path) + " [added]"@
        } else {
            "  ~ "@ + utf8_lossy(c.real_path) + " [modified]"@
        },
    ]
}

/// The changes are taken up from the first on, after a heading that counts them.
pub proof fn lemma_start(changes: Seq<ChangeView>)
    ensures
        started(changes).changes == changes,
        started(changes).wf(),
        takes_up(started(changes), 0),
        changes.len() == 0 ==> heading(changes) == seq!["Nothing to apply."@],
        changes.len() > 0 ==> heading(changes) == seq![
            "Applying "@ + decimal(changes.len()) + " change(s) to the real filesystem…"@,
        ],
{
}

/// A file, once it was looked at in the upper directory: its directory is made where it has one,
/// a symbolic link in its place is removed, it is copied, and it gets its permissions.
pub proof fn lemma_course_of_a_file(
    s: ApplyState,
    mode: u32,
    exists: bool,
    dir: bool,
    symlink: bool,
)
    requires
        s.wf(),
        s.action() is Stat,
    ensures
        ({
            let c = s.changes[s.index];
            let up = parent_of(c.real_path);
            let n1 = s.step(ApplyEventView::Found { kind: FileKind::Other, mode });
            let n2 = if up is Some {
                n1.0.step(ApplyEventView::Done)
            } else {
                n1
            };
            let n3 = n2.0.step(ApplyEventView::Probed { exists, dir, symlink });
            let n4 = if symlink {
                n3.0.step(ApplyEventView::Done)
            } else {
                n3
            };
            let n5 = n4.0.step(ApplyEventView::Done);
            let n6 = n5.0.step(ApplyEventView::Done);
            &&& fails_with(s, "Cannot stat upper file "@ + utf8_lossy(c.upper_path))
            &&& up is Some ==> asks_for(s, n1, ApplyActionView::CreateDir { path: up->Some_0 })
            &&& up is Some ==> fails_with(
                n1.0,
                "Cannot create parent dir "@ + utf8_lossy(up->Some_0),
            )
            &&& asks_for(s, n2, ApplyActionView::Probe { path: c.real_path })
            &&& symlink ==> asks_for(s, n3, ApplyActionView::RemoveFile { path: c.real_path })
            &&& symlink ==> fails_with(n3.0, "Cannot remove "@ + utf8_lossy(c.real_path))
            &&& asks_for(s, n4, ApplyActionView::Copy { from: c.upper_path, to: c.real_path })
            &&& fails_with(
                n4.0,
                "Cannot copy "@ + utf8_lossy(c.upper_path) + " → "@ + utf8_lossy(c.real_path),
            )
            &&& asks_for(s, n5, ApplyActionView::SetPermissions { path: c.real_path, mode })
            &&& fails_with(n5.0, "Cannot set permissions on "@ + utf8_lossy(c.real_path))
            &&& is_applied(s, n6, written(c))
        }),
{
}

/// A symbolic link: its directory is made where it has one, what it points to is read, whatever
/// file stands in its place makes way or not, and it is made anew.
pub proof fn lemma_course_of_a_link(s: ApplyState, mode: u32, target: Seq<u8>, e: ApplyEventView)
    requires
        s.wf(),
        s.action() is Stat,
        e is Done || e is Failed,
    ensures
        ({
            let c = s.changes[s.index];
            let up = parent_of(c.real_path);
            let n1 = s.step(ApplyEventView::Found { kind: FileKind::Symlink, mode });
            let n2 = if up is Some {
                n1.0.step(ApplyEventView::Done)
            } else {
                n1
            };
            let n3 = n2.0.step(ApplyEventView::Link { target });
            let n4 = n3.0.step(e);
            let n5 = n4.0.step(ApplyEventView::Done);
            &&& up is Some ==> asks_for(s, n1, ApplyActionView::CreateDir { path: up->Some_0 })
            &&& up is Some ==> fails_with(
                n1.0,
                "Cannot create parent dir "@ + utf8_lossy(up->Some_0),
            )
            &&& asks_for(s, n2, ApplyActionView::ReadLink { path: c.upper_path })
            &&& fails_with(n2.0, "Cannot read symlink "@ + utf8_lossy(c.upper_path))
            &&& asks_for(s, n3, ApplyActionView::RemoveFile { path: c.real_path })
            &&& asks_for(s, n4, ApplyActionView::Symlink { target, path: c.real_path })
            &&& fails_with(
                n4.0,
                "Cannot create symlink "@ + utf8_lossy(c.real_path) + " -> "@ + utf8_lossy(target),
            )
            &&& is_applied(s, n5, written(c))
        }),
{
}

/// A directory: what stands in its place and is none makes way, and it is created with those above
/// it.
pub proof fn lemma_course_of_a_directory(
    s: ApplyState,
    mode: u32,
    exists: bool,
    dir: bool,
    symlink: bool,
)
    requires
        s.wf(),
        s.action() is Stat,
    ensures
        ({
            let c = s.changes[s.index];
            let in_the_way = symlink || (exists && !dir);
            let n1 = s.step(ApplyEventView::Found { kind: FileKind::Dir, mode });
            let n2 = n1.0.step(ApplyEventView::Probed { exists, dir, symlink });
            let n3 = if in_the_way {
                n2.0.step(ApplyEventView::Done)
            } else {
                n2
            };
            let n4 = n3.0.step(ApplyEventView::Done);
            &&& asks_for(s, n1, ApplyActionView::Probe { path: c.real_path })
            &&& in_the_way ==> asks_for(s, n2, ApplyActionView::RemoveFile { path: c.real_path })
            &&& in_the_way ==> fails_with(n2.0, "Cannot remove "@ + utf8_lossy(c.real_path))
            &&& asks_for(s, n3, ApplyActionView::CreateDir { path: c.real_path })
            &&& fails_with(n3.0, "Cannot create directory "@ + utf8_lossy(c.real_path))
            &&& is_applied(s, n4, seq!["  + "@ + utf8_lossy(c.real_path) + " [directory]"@])
        }),
{
}

/// A deletion: a symbolic link is removed itself, a directory with all that it holds, any other
/// file as such, and for what is already gone nothing is done or said.
pub proof fn lemma_course_of_a_deletion(s: ApplyState, exists: bool, dir: bool, symlink: bool)
    requires
        s.wf(),
        s.action() is Probe,
        s.changes[s.index].kind == ChangeKind::Deleted,
    ensures
        ({
            let c = s.changes[s.index];
            let n1 = s.step(ApplyEventView::Probed { exists, dir, symlink });
            let n2 = n1.0.step(ApplyEventView::Done);
            let told = seq!["  - "@ + utf8_lossy(c.real_path) + " [deleted]"@];
            if !exists && !symlink {
                is_applied(s, n1, Seq::empty())
            } else if dir && !symlink {
                &&& asks_for(s, n1, ApplyActionView::RemoveDir { path: c.real_path })
                &&& fails_with(n1.0, "Cannot remove directory "@ + utf8_lossy(c.real_path))
                &&& is_applied(s, n2, told)
            } else {
                &&& asks_for(s, n1, ApplyActionView::RemoveFile { path: c.real_path })
                &&& fails_with(n1.0, "Cannot remove "@ + utf8_lossy(c.real_path))
                &&& is_applied(s, n2, told)
            }
        }),
{
    assert(Seq::<Seq<char>>::empty() + seq!["Done."@] =~= seq!["Done."@]);
}

/// How what stands at a path is deleted, case by case.
pub proof fn lemma_ways_to_delete(exists: bool, dir: bool)
    ensures
        deletion_of(exists, dir, true) == Deletion::RemoveFile,
        deletion_of(false, dir, false) == Deletion::Nothing,
        deletion_of(true, true, false) == Deletion::RemoveDir,
        deletion_of(true, false, false) == Deletion::RemoveFile,
{
}

/// The event is one that can come of the operation.
pub open spec fn answers(a: ApplyActionView, e: ApplyEventView) -> bool {
    match a {
        ApplyActionView::Fail { .. } | ApplyActionView::Finish => false,
        ApplyActionView::Stat { .. } => e is Found || e is Failed,
        ApplyActionView::ReadLink { .. } => e is Link || e is Failed,
        ApplyActionView::Probe { .. } => e is Probed,
        _ => e is Done || e is Failed,
    }
}

/// Any other event changes nothing and shows nothing.
pub proof fn lemma_stray_events(s: ApplyState, e: ApplyEventView)
    requires
        !answers(s.action(), e),
    ensures
        s.step(e) == (s, Seq::<Seq<char>>::empty()),
{
}

/// Events are taken for what they are.
pub proof fn lemma_what_events_say(e: ApplyEvent)
    ensures
        match e {
            ApplyEvent::Done => e@ == ApplyEventView::Done,
            ApplyEvent::Failed => e@ == ApplyEventView::Failed,
            ApplyEvent::Found { kind, mode } => e@ == (ApplyEventView::Found { kind, mode }),
            ApplyEvent::Link { target } => e@ == (ApplyEventView::Link { target: target@ }),
            ApplyEvent::Probed { exists, dir, symlink } => e@ == (ApplyEventView::Probed {
                exists,
                dir,
                symlink,
            }),
        },
{
}

/// Operations ask for what they say.
pub proof fn lemma_what_actions_say(a: ApplyAction)
    ensures
        match a {
            ApplyAction::Fail { context } => a@ == (ApplyActionView::Fail { context: context@ }),
            ApplyAction::Stat { path } => a@ == (ApplyActionView::Stat { path: path@ }),
            ApplyAction::CreateDir { path } => a@ == (ApplyActionView::CreateDir { path: path@ }),
            ApplyAction::ReadLink { path } => a@ == (ApplyActionView::ReadLink { path: path@ }),
            ApplyAction::RemoveFile { path } => a@ == (ApplyActionView::RemoveFile { path: path@ }),
            ApplyAction::RemoveDir { path } => a@ == (ApplyActionView::RemoveDir { path: path@ }),
            ApplyAction::Symlink { target, path } => a@ == (ApplyActionView::Symlink {
                target: target@,
                path: path@,
            }),
            ApplyAction::Copy { from, to } => a@ == (ApplyActionView::Copy { from: from@, to: to@ }),
            ApplyAction::SetPermissions { path, mode } => a@ == (ApplyActionView::SetPermissions {
                path: path@,
                mode,
            }),
            ApplyAction::Probe { path } => a@ == (ApplyActionView::Probe { path: path@ }),
            ApplyAction::Finish => a@ == ApplyActionView::Finish,
        },
{
}

} // verus!
