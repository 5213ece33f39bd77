//! Applying the collected changes to the real filesystem, as a machine that asks for one
//! operation at a time.
//!
//! [`apply_changes`] starts the machine. [`Apply::action`] says what is to be done, and
//! [`Apply::next`] takes in what came of it. The changes are applied in their order, and the
//! first operation that fails ends it all.

use crate::diff::{Change, ChangeKind, ChangeView};
use crate::order::views;
use crate::path::{parent, parent_of};
use crate::text::{
    around_number, around_path, before_path, decimal, display_path, just, nothing, utf8_lossy,
};
use vstd::prelude::*;
use vstd::slice::slice_to_vec;
use vstd::string::StringExecFns;

verus! {

/// What a path leads to when a last symbolic link is not followed.
#[derive(Debug, Clone, Copy, PartialEq, Eq, Structural)]
pub enum FileKind {
    Dir,
    Symlink,
    Other,
}

/// The step that has been come to.
#[derive(Debug, Clone, Copy, PartialEq, Eq, Structural)]
pub enum ApplyPhase {
    /// An operation has failed.
    Failed,
    /// Look at the file in the upper directory.
    Stat,
    /// Create the directory that was added.
    MakeDir,
    /// Create the directory that the file stands in.
    MakeParent,
    ReadLink,
    /// Make way for a symbolic link; that may fail.
    Unlink,
    Symlink,
    /// Look what stands where the file or the directory is to be.
    Look,
    /// Make way, so that no link is followed and no file is in the way of a directory.
    MakeWay,
    Copy,
    SetPermissions,
    /// Look at what is to be deleted.
    Probe,
    RemoveDir,
    RemoveFile,
    /// Every change has been applied.
    Finished,
}

/// The state of an application of changes.
pub struct ApplyState {
    pub phase: ApplyPhase,
    pub changes: Seq<ChangeView>,
    /// The change that is being applied.
    pub index: int,
    /// What the file in the upper directory is.
    pub kind: FileKind,
    /// The permissions of the file in the upper directory.
    pub mode: u32,
    /// What the symbolic link in the upper directory points to.
    pub target: Seq<u8>,
    /// What failed.
    pub context: Seq<char>,
}

/// What came of the operation that was asked for.
#[derive(Debug, PartialEq, Eq)]
pub enum ApplyEvent {
    /// It was done.
    Done,
    /// It failed.
    Failed,
    /// The file in the upper directory is of this kind and has these permissions.
    Found { kind: FileKind, mode: u32 },
    /// The symbolic link points here.
    Link { target: Vec<u8> },
    /// Whether something exists at the path, whether it is a directory, both with links followed,
    /// and whether it is a symbolic link.
    Probed { exists: bool, dir: bool, symlink: bool },
}

/// The model of an [`ApplyEvent`].
pub enum ApplyEventView {
    Done,
    Failed,
    Found { kind: FileKind, mode: u32 },
    Link { target: Seq<u8> },
    Probed { exists: bool, dir: bool, symlink: bool },
}

impl View for ApplyEvent {
    type V = ApplyEventView;

    open spec fn view(&self) -> ApplyEventView {
        match self {
            ApplyEvent::Done => ApplyEventView::Done,
            ApplyEvent::Failed => ApplyEventView::Failed,
            ApplyEvent::Found { kind, mode } => ApplyEventView::Found { kind: *kind, mode: *mode },
            ApplyEvent::Link { target } => ApplyEventView::Link { target: target@ },
            ApplyEvent::Probed { exists, dir, symlink } => ApplyEventView::Probed {
                exists: *exists,
                dir: *dir,
                symlink: *symlink,
            },
        }
    }
}

/// The operation that is to be done next.
#[derive(Debug, PartialEq, Eq)]
pub enum ApplyAction {
    /// Report that the last operation failed.
    Fail { context: String },
    /// Tell the kind and the permissions of the file, without following a last link.
    Stat { path: Vec<u8> },
    /// Create the directory and those above it that do not exist.
    CreateDir { path: Vec<u8> },
    ReadLink { path: Vec<u8> },
    /// Remove the file.
    RemoveFile { path: Vec<u8> },
    /// Remove the directory with all that it holds.
    RemoveDir { path: Vec<u8> },
    /// Create a symbolic link at `path` that points to `target`.
    Symlink { target: Vec<u8>, path: Vec<u8> },
    /// Copy the contents of one file to another.
    Copy { from: Vec<u8>, to: Vec<u8> },
    SetPermissions { path: Vec<u8>, mode: u32 },
    /// Tell whether the path exists, is a directory and is a symbolic link.
    Probe { path: Vec<u8> },
    /// Nothing is left to be done.
    Finish,
}

/// The model of an [`ApplyAction`].
pub enum ApplyActionView {
    Fail { context: Seq<char> },
    Stat { path: Seq<u8> },
    CreateDir { path: Seq<u8> },
    ReadLink { path: Seq<u8> },
    RemoveFile { path: Seq<u8> },
    RemoveDir { path: Seq<u8> },
    Symlink { target: Seq<u8>, path: Seq<u8> },
    Copy { from: Seq<u8>, to: Seq<u8> },
    SetPermissions { path: Seq<u8>, mode: u32 },
    Probe { path: Seq<u8> },
    Finish,
}

impl View for ApplyAction {
    type V = ApplyActionView;

    open spec fn view(&self) -> ApplyActionView {
        match self {
            ApplyAction::Fail { context } => ApplyActionView::Fail { context: context@ },
            ApplyAction::Stat { path } => ApplyActionView::Stat { path: path@ },
            ApplyAction::CreateDir { path } => ApplyActionView::CreateDir { path: path@ },
            ApplyAction::ReadLink { path } => ApplyActionView::ReadLink { path: path@ },
            ApplyAction::RemoveFile { path } => ApplyActionView::RemoveFile { path: path@ },
            ApplyAction::RemoveDir { path } => ApplyActionView::RemoveDir { path: path@ },
            ApplyAction::Symlink { target, path } => ApplyActionView::Symlink {
                target: target@,
                path: path@,
            },
            ApplyAction::Copy { from, to } => ApplyActionView::Copy { from: from@, to: to@ },
            ApplyAction::SetPermissions { path, mode } => ApplyActionView::SetPermissions {
                path: path@,
                mode: *mode,
            },
            ApplyAction::Probe { path } => ApplyActionView::Probe { path: path@ },
            ApplyAction::Finish => ApplyActionView::Finish,
        }
    }
}

/// What it takes to delete what stands at a path.
#[derive(Debug, Clone, Copy, PartialEq, Eq, Structural)]
pub enum Deletion {
    /// It is already gone.
    Nothing,
    /// It is a directory, and goes with all that it holds.
    RemoveDir,
    /// It is a file or a symbolic link.
    RemoveFile,
}

/// What it takes to delete what stands at a path: whether it exists and whether it is a directory,
/// both with links followed, and whether it is a symbolic link.
pub open spec fn deletion_of(exists: bool, dir: bool, symlink: bool) -> Deletion {
    if symlink {
        Deletion::RemoveFile
    } else if !exists {
        Deletion::Nothing
    } else if dir {
        Deletion::RemoveDir
    } else {
        Deletion::RemoveFile
    }
}

/// Decides how what stands at a path is to be deleted. What is already gone is no error, and a
/// symbolic link goes itself, never what it leads to.
pub fn delete_file(exists: bool, dir: bool, symlink: bool) -> (deletion: Deletion)
    ensures
        deletion == deletion_of(exists, dir, symlink),
{
    if !exists && !symlink {
        Deletion::Nothing
    } else if dir && !symlink {
        Deletion::RemoveDir
    } else {
        Deletion::RemoveFile
    }
}

impl ApplyState {
    /// The change that is being applied.
    pub open spec fn current(self) -> ChangeView {
        self.changes[self.index]
    }

    /// What is to be done in this state.
    pub open spec fn action(self) -> ApplyActionView {
        let c = self.current();
        match self.phase {
            ApplyPhase::Failed => ApplyActionView::Fail { context: self.context },
            ApplyPhase::Stat => ApplyActionView::Stat { path: c.upper_path },
            ApplyPhase::MakeDir => ApplyActionView::CreateDir { path: c.real_path },
            ApplyPhase::MakeParent => ApplyActionView::CreateDir {
                path: parent_of(c.real_path)->Some_0,
            },
            ApplyPhase::ReadLink => ApplyActionView::ReadLink { path: c.upper_path },
            ApplyPhase::Unlink => ApplyActionView::RemoveFile { path: c.real_path },
            ApplyPhase::Symlink => ApplyActionView::Symlink {
                target: self.target,
                path: c.real_path,
            },
            ApplyPhase::Look => ApplyActionView::Probe { path: c.real_path },
            ApplyPhase::MakeWay => ApplyActionView::RemoveFile { path: c.real_path },
            ApplyPhase::Copy => ApplyActionView::Copy { from: c.upper_path, to: c.real_path },
            ApplyPhase::SetPermissions => ApplyActionView::SetPermissions {
                path: c.real_path,
                mode: self.mode,
            },
            ApplyPhase::Probe => ApplyActionView::Probe { path: c.real_path },
            ApplyPhase::RemoveDir => ApplyActionView::RemoveDir { path: c.real_path },
            ApplyPhase::RemoveFile => ApplyActionView::RemoveFile { path: c.real_path },
            ApplyPhase::Finished => ApplyActionView::Finish,
        }
    }

    /// What is said of a failure of the operation, where it counts.
    pub open spec fn failure(self) -> Option<Seq<char>> {
        let c = self.current();
        let src = utf8_lossy(c.upper_path);
        let dst = utf8_lossy(c.real_path);
        match self.phase {
            ApplyPhase::Stat => Some("Cannot stat upper file "@ + src),
            ApplyPhase::MakeDir => Some("Cannot create directory "@ + dst),
            ApplyPhase::MakeParent => Some(
                "Cannot create parent dir "@ + utf8_lossy(parent_of(c.real_path)->Some_0),
            ),
            ApplyPhase::ReadLink => Some("Cannot read symlink "@ + src),
            ApplyPhase::Symlink => Some(
                "Cannot create symlink "@ + dst + " -> "@ + utf8_lossy(self.target),
            ),
            ApplyPhase::MakeWay => Some("Cannot remove "@ + dst),
            ApplyPhase::Copy => Some("Cannot copy "@ + src + " → "@ + dst),
            ApplyPhase::SetPermissions => Some("Cannot set permissions on "@ + dst),
            ApplyPhase::RemoveDir => Some("Cannot remove directory "@ + dst),
            ApplyPhase::RemoveFile => Some("Cannot remove "@ + dst),
            _ => None,
        }
    }

    /// The state with another phase.
    pub open spec fn at_phase(self, phase: ApplyPhase) -> ApplyState {
        ApplyState { phase, ..self }
    }

    /// The state at the start of the change `index`, or at the end where there is none.
    pub open spec fn enter(self, index: int) -> ApplyState {
        if index >= self.changes.len() {
            ApplyState { phase: ApplyPhase::Finished, index, ..self }
        } else if self.changes[index].kind == ChangeKind::Deleted {
            ApplyState { phase: ApplyPhase::Probe, index, ..self }
        } else {
            ApplyState { phase: ApplyPhase::Stat, index, ..self }
        }
    }

    /// The change is applied: the line `text` is shown, and the next change is taken up.
    pub open spec fn applied(self, text: Seq<Seq<char>>) -> (ApplyState, Seq<Seq<char>>) {
        let next = self.enter(self.index + 1);
        if next.phase == ApplyPhase::Finished {
            (next, text + seq!["Done."@])
        } else {
            (next, text)
        }
    }

    /// The line for a file that was copied or linked.
    pub open spec fn copied_line(self) -> Seq<char> {
        let c = self.current();
        if c.kind == ChangeKind::Added {
            "  ~ "@ + utf8_lossy(c.real_path) + " [added]"@
        } else {
            "  ~ "@ + utf8_lossy(c.real_path) + " [modified]"@
        }
    }

    /// The step at which the file itself is taken up, once its directory exists.
    pub open spec fn write_phase(self) -> ApplyPhase {
        if self.kind == FileKind::Symlink {
            ApplyPhase::ReadLink
        } else {
            ApplyPhase::Look
        }
    }

    /// The step at which the file or the directory is made, once nothing is in its way.
    pub open spec fn make_phase(self) -> ApplyPhase {
        if self.kind == FileKind::Dir {
            ApplyPhase::MakeDir
        } else {
            ApplyPhase::Copy
        }
    }

    /// What stands in the place of the file or the directory has to make way: a symbolic link, and
    /// for a directory anything that is none.
    pub open spec fn has_obstacle(self, exists: bool, dir: bool, symlink: bool) -> bool {
        symlink || (self.kind == FileKind::Dir && exists && !dir)
    }

    /// What follows when an operation is done.
    pub open spec fn after_done(self) -> (ApplyState, Seq<Seq<char>>) {
        let dst = utf8_lossy(self.current().real_path);
        match self.phase {
            ApplyPhase::MakeDir => self.applied(seq!["  + "@ + dst + " [directory]"@]),
            ApplyPhase::MakeParent => (self.at_phase(self.write_phase()), Seq::empty()),
            ApplyPhase::Unlink => (self.at_phase(ApplyPhase::Symlink), Seq::empty()),
            ApplyPhase::Symlink => self.applied(seq![self.copied_line()]),
            ApplyPhase::MakeWay => (self.at_phase(self.make_phase()), Seq::empty()),
            ApplyPhase::Copy => (self.at_phase(ApplyPhase::SetPermissions), Seq::empty()),
            ApplyPhase::SetPermissions => self.applied(seq![self.copied_line()]),
            ApplyPhase::RemoveDir => self.applied(seq!["  - "@ + dst + " [deleted]"@]),
            ApplyPhase::RemoveFile => self.applied(seq!["  - "@ + dst + " [deleted]"@]),
            _ => (self, Seq::empty()),
        }
    }

    /// What follows when an operation has failed.
    pub open spec fn after_failure(self) -> (ApplyState, Seq<Seq<char>>) {
        if self.phase == ApplyPhase::Unlink {
            (self.at_phase(ApplyPhase::Symlink), Seq::empty())
        } else {
            match self.failure() {
                Some(context) => (
                    ApplyState { phase: ApplyPhase::Failed, context, ..self },
                    Seq::empty(),
                ),
                None => (self, Seq::empty()),
            }
        }
    }

    /// What follows when the file in the upper directory was found.
    pub open spec fn after_stat(self, kind: FileKind, mode: u32) -> (ApplyState, Seq<Seq<char>>) {
        let s = ApplyState { kind, mode, ..self };
        if kind == FileKind::Dir {
            (s.at_phase(ApplyPhase::Look), Seq::empty())
        } else if parent_of(self.current().real_path) is Some {
            (s.at_phase(ApplyPhase::MakeParent), Seq::empty())
        } else {
            (s.at_phase(s.write_phase()), Seq::empty())
        }
    }

    /// What follows when it is known what there is to delete.
    pub open spec fn after_probe(self, exists: bool, dir: bool, symlink: bool) -> (
        ApplyState,
        Seq<Seq<char>>,
    ) {
        match deletion_of(exists, dir, symlink) {
            Deletion::Nothing => self.applied(Seq::empty()),
            Deletion::RemoveDir => (self.at_phase(ApplyPhase::RemoveDir), Seq::empty()),
            Deletion::RemoveFile => (self.at_phase(ApplyPhase::RemoveFile), Seq::empty()),
        }
    }

    /// The state that follows when `e` came of the operation, and the lines to be shown. An event
    /// that does not answer the operation changes nothing.
    pub open spec fn step(self, e: ApplyEventView) -> (ApplyState, Seq<Seq<char>>) {
        match (self.phase, e) {
            (_, ApplyEventView::Done) => self.after_done(),
            (_, ApplyEventView::Failed) => self.after_failure(),
            (ApplyPhase::Stat, ApplyEventView::Found { kind, mode }) => self.after_stat(kind, mode),
            (ApplyPhase::ReadLink, ApplyEventView::Link { target }) => (
                ApplyState { phase: ApplyPhase::Unlink, target, ..self },
                Seq::empty(),
            ),
            (ApplyPhase::Look, ApplyEventView::Probed { exists, dir, symlink }) => (
                self.at_phase(
                    if self.has_obstacle(exists, dir, symlink) {
                        ApplyPhase::MakeWay
                    } else {
                        self.make_phase()
                    },
                ),
                Seq::empty(),
            ),
            (ApplyPhase::Probe, ApplyEventView::Probed { exists, dir, symlink }) => {
                self.after_probe(exists, dir, symlink)
            },
            _ => (self, Seq::empty()),
        }
    }

    /// What holds in every state.
    pub open spec fn wf(self) -> bool {
        &&& 0 <= self.index <= self.changes.len()
        &&& self.phase != ApplyPhase::Finished ==> self.index < self.changes.len()
        &&& self.phase == ApplyPhase::MakeParent ==> parent_of(self.current().real_path) is Some
        &&& match self.phase {
            ApplyPhase::Failed | ApplyPhase::Finished => true,
            ApplyPhase::Probe | ApplyPhase::RemoveDir
            | ApplyPhase::RemoveFile => self.current().kind == ChangeKind::Deleted,
            _ => self.current().kind != ChangeKind::Deleted,
        }
        &&& self.phase == ApplyPhase::MakeDir ==> self.kind == FileKind::Dir
        &&& match self.phase {
            ApplyPhase::ReadLink | ApplyPhase::Unlink | ApplyPhase::Symlink => self.kind
                == FileKind::Symlink,
            ApplyPhase::Look | ApplyPhase::MakeWay => self.kind != FileKind::Symlink,
            ApplyPhase::Copy | ApplyPhase::SetPermissions => self.kind == FileKind::Other,
            ApplyPhase::MakeParent => self.kind != FileKind::Dir,
            _ => true,
        }
    }
}

/// The state in which the application of `changes` starts.
pub open spec fn started(changes: Seq<ChangeView>) -> ApplyState {
    ApplyState {
        phase: ApplyPhase::Finished,
        changes,
        index: 0,
        kind: FileKind::Other,
        mode: 0,
        target: Seq::empty(),
        context: Seq::empty(),
    }.enter(0)
}

/// The lines that are shown before the first operation.
pub open spec fn heading(changes: Seq<ChangeView>) -> Seq<Seq<char>> {
    if changes.len() == 0 {
        seq!["Nothing to apply."@]
    } else {
        seq!["Applying "@ + decimal(changes.len()) + " change(s) to the real filesystem…"@]
    }
}

/// An application of changes.
#[derive(Debug)]
pub struct Apply<'a> {
    phase: ApplyPhase,
    changes: &'a Vec<Change>,
    index: usize,
    kind: FileKind,
    mode: u32,
    target: Vec<u8>,
    context: String,
}

impl<'a> View for Apply<'a> {
    type V = ApplyState;

    closed spec fn view(&self) -> ApplyState {
        ApplyState {
            phase: self.phase,
            changes: views(self.changes@),
            index: self.index as int,
            kind: self.kind,
            mode: self.mode,
            target: self.target@,
            context: self.context@,
        }
    }
}

/// Starts to apply the changes captured in the upper directory to the real filesystem, and gives
/// the lines to be shown.
///
/// Added and modified files are copied from the upper directory to their places on the real
/// filesystem. Deleted files are removed from it.
pub fn apply_changes<'a>(changes: &'a Vec<Change>) -> (r: (Apply<'a>, Vec<String>))
    ensures
        r.0@ == started(views(changes@)),
        views(r.1@) == heading(views(changes@)),
        r.0@.wf(),
{
    let start = Apply {
        phase: ApplyPhase::Finished,
        changes,
        index: 0,
        kind: FileKind::Other,
        mode: 0,
        target: Vec::new(),
        context: String::new(),
    };
    let apply = start.enter(0);
    if changes.len() == 0 {
        (apply, just("Nothing to apply.".to_owned()))
    } else {
        let text = around_number(
            "Applying ",
            changes.len() as u128,
            " change(s) to the real filesystem…",
        );
        (apply, just(text))
    }
}

impl<'a> Apply<'a> {
    fn enter(self, index: usize) -> (r: Apply<'a>)
        ensures
            r@ == self@.enter(index as int),
    {
        let mut r = self;
        r.index = index;
        if index >= r.changes.len() {
            r.phase = ApplyPhase::Finished;
        } else if r.changes[index].kind == ChangeKind::Deleted {
            r.phase = ApplyPhase::Probe;
        } else {
            r.phase = ApplyPhase::Stat;
        }
        r
    }

    /// What is to be done next.
    pub fn action(&self) -> (action: ApplyAction)
        requires
            self@.wf(),
        ensures
            action@ == self@.action(),
    {
        if self.phase == ApplyPhase::Finished {
            return ApplyAction::Finish;
        }
        let c = &self.changes[self.index];
        let dst = c.real_path.as_slice();
        let src = c.upper_path.as_slice();
        match self.phase {
            ApplyPhase::Failed => ApplyAction::Fail { context: self.context.clone() },
            ApplyPhase::Stat => ApplyAction::Stat { path: slice_to_vec(src) },
            ApplyPhase::MakeDir => ApplyAction::CreateDir { path: slice_to_vec(dst) },
            ApplyPhase::MakeParent => match parent(dst) {
                Some(path) => ApplyAction::CreateDir { path },
                None => ApplyAction::Finish,
            },
            ApplyPhase::ReadLink => ApplyAction::ReadLink { path: slice_to_vec(src) },
            ApplyPhase::Unlink => ApplyAction::RemoveFile { path: slice_to_vec(dst) },
            ApplyPhase::Symlink => ApplyAction::Symlink {
                target: slice_to_vec(self.target.as_slice()),
                path: slice_to_vec(dst),
            },
            ApplyPhase::Look => ApplyAction::Probe { path: slice_to_vec(dst) },
            ApplyPhase::MakeWay => ApplyAction::RemoveFile { path: slice_to_vec(dst) },
            ApplyPhase::Copy => ApplyAction::Copy {
                from: slice_to_vec(src),
                to: slice_to_vec(dst),
            },
            ApplyPhase::SetPermissions => ApplyAction::SetPermissions {
                path: slice_to_vec(dst),
                mode: self.mode,
            },
            ApplyPhase::Probe => ApplyAction::Probe { path: slice_to_vec(dst) },
            ApplyPhase::RemoveDir => ApplyAction::RemoveDir { path: slice_to_vec(dst) },
            ApplyPhase::RemoveFile => ApplyAction::RemoveFile { path: slice_to_vec(dst) },
            ApplyPhase::Finished => ApplyAction::Finish,
        }
    }

    fn to_phase(self, phase: ApplyPhase) -> (r: (Apply<'a>, Vec<String>))
        ensures
            r.0@ == self@.at_phase(phase),
            views(r.1@) == Seq::<Seq<char>>::empty(),
    {
        let mut r = self;
        r.phase = phase;
        (r, nothing())
    }

    fn advance(self, shown: Vec<String>) -> (r: (Apply<'a>, Vec<String>))
        requires
            self@.index < self@.changes.len(),
        ensures
            r.0@ == self@.applied(views(shown@)).0,
            views(r.1@) == self@.applied(views(shown@)).1,
    {
        let mut lines = shown;
        assert(self.index < self.changes.len());
        let index = self.index + 1;
        let r = self.enter(index);
        if r.phase == ApplyPhase::Finished {
            let ghost earlier = views(lines@);
            lines.push("Done.".to_owned());
            assert(views(lines@) == earlier + seq!["Done."@]);
        }
        (r, lines)
    }

    fn written(self) -> (r: (Apply<'a>, Vec<String>))
        requires
            self@.index < self@.changes.len(),
        ensures
            r.0@ == self@.applied(seq![self@.copied_line()]).0,
            views(r.1@) == self@.applied(seq![self@.copied_line()]).1,
    {
        let c = &self.changes[self.index];
        let line = if c.kind == ChangeKind::Added {
            around_path("  ~ ", c.real_path.as_slice(), " [added]")
        } else {
            around_path("  ~ ", c.real_path.as_slice(), " [modified]")
        };
        self.advance(just(line))
    }

    fn deleted(self) -> (r: (Apply<'a>, Vec<String>))
        requires
            self@.index < self@.changes.len(),
        ensures
            r.0@ == self@.applied(
                seq!["  - "@ + utf8_lossy(self@.current().real_path) + " [deleted]"@],
            ).0,
            views(r.1@) == self@.applied(
                seq!["  - "@ + utf8_lossy(self@.current().real_path) + " [deleted]"@],
            ).1,
    {
        let line = around_path(
            "  - ",
            self.changes[self.index].real_path.as_slice(),
            " [deleted]",
        );
        self.advance(just(line))
    }

    /// Goes on to write the file itself.
    fn apply_file(self) -> (r: (Apply<'a>, Vec<String>))
        ensures
            r.0@ == self@.at_phase(self@.write_phase()),
            views(r.1@) == Seq::<Seq<char>>::empty(),
    {
        if self.kind == FileKind::Symlink {
            self.to_phase(ApplyPhase::ReadLink)
        } else {
            self.to_phase(ApplyPhase::Look)
        }
    }

    /// Goes on to make the file or the directory.
    fn make(self) -> (r: (Apply<'a>, Vec<String>))
        ensures
            r.0@ == self@.at_phase(self@.make_phase()),
            views(r.1@) == Seq::<Seq<char>>::empty(),
    {
        if self.kind == FileKind::Dir {
            self.to_phase(ApplyPhase::MakeDir)
        } else {
            self.to_phase(ApplyPhase::Copy)
        }
    }

    fn done(self) -> (r: (Apply<'a>, Vec<String>))
        requires
            self@.wf(),
        ensures
            r.0@ == self@.after_done().0,
            views(r.1@) == self@.after_done().1,
    {
        match self.phase {
            ApplyPhase::MakeDir => {
                let line = around_path(
                    "  + ",
                    self.changes[self.index].real_path.as_slice(),
                    " [directory]",
                );
                self.advance(just(line))
            },
            ApplyPhase::MakeParent => self.apply_file(),
            ApplyPhase::Unlink => self.to_phase(ApplyPhase::Symlink),
            ApplyPhase::Symlink => self.written(),
            ApplyPhase::MakeWay => self.make(),
            ApplyPhase::Copy => self.to_phase(ApplyPhase::SetPermissions),
            ApplyPhase::SetPermissions => self.written(),
            ApplyPhase::RemoveDir => self.deleted(),
            ApplyPhase::RemoveFile => self.deleted(),
            _ => (self, nothing()),
        }
    }

    fn complaint(&self) -> (text: Option<String>)
        requires
            self@.wf(),
        ensures
            match (text, self@.failure()) {
                (Some(s), Some(t)) => s@ == t,
                (None, None) => true,
                _ => false,
            },
    {
        if self.phase == ApplyPhase::Finished {
            return None;
        }
        let c = &self.changes[self.index];
        let src = c.upper_path.as_slice();
        let dst = c.real_path.as_slice();
        match self.phase {
            ApplyPhase::Stat => Some(before_path("Cannot stat upper file ", src)),
            ApplyPhase::MakeDir => Some(before_path("Cannot create directory ", dst)),
            ApplyPhase::MakeParent => match parent(dst) {
                Some(up) => Some(before_path("Cannot create parent dir ", up.as_slice())),
                None => None,
            },
            ApplyPhase::ReadLink => Some(before_path("Cannot read symlink ", src)),
            ApplyPhase::Symlink => {
                let mut text = around_path("Cannot create symlink ", dst, " -> ");
                text.append(display_path(self.target.as_slice()).as_str());
                Some(text)
            },
            ApplyPhase::MakeWay => Some(before_path("Cannot remove ", dst)),
            ApplyPhase::Copy => {
                let mut text = around_path("Cannot copy ", src, " → ");
                text.append(display_path(dst).as_str());
                Some(text)
            },
            ApplyPhase::SetPermissions => Some(before_path("Cannot set permissions on ", dst)),
            ApplyPhase::RemoveDir => Some(before_path("Cannot remove directory ", dst)),
            ApplyPhase::RemoveFile => Some(before_path("Cannot remove ", dst)),
            _ => None,
        }
    }

    fn failed(self) -> (r: (Apply<'a>, Vec<String>))
        requires
            self@.wf(),
        ensures
            r.0@ == self@.after_failure().0,
            views(r.1@) == self@.after_failure().1,
    {
        if self.phase == ApplyPhase::Unlink {
            return self.to_phase(ApplyPhase::Symlink);
        }
        match self.complaint() {
            Some(context) => {
                let mut r = self;
                r.phase = ApplyPhase::Failed;
                r.context = context;
                (r, nothing())
            },
            None => (self, nothing()),
        }
    }

    fn found(self, kind: FileKind, mode: u32) -> (r: (Apply<'a>, Vec<String>))
        requires
            self@.index < self@.changes.len(),
        ensures
            r.0@ == self@.after_stat(kind, mode).0,
            views(r.1@) == self@.after_stat(kind, mode).1,
    {
        let mut r = self;
        r.kind = kind;
        r.mode = mode;
        if kind == FileKind::Dir {
            r.to_phase(ApplyPhase::Look)
        } else if parent(r.changes[r.index].real_path.as_slice()).is_some() {
            r.to_phase(ApplyPhase::MakeParent)
        } else {
            r.apply_file()
        }
    }

    /// Goes on to delete what stands at the path.
    fn probed(self, exists: bool, dir: bool, symlink: bool) -> (r: (Apply<'a>, Vec<String>))
        requires
            self@.index < self@.changes.len(),
        ensures
            r.0@ == self@.after_probe(exists, dir, symlink).0,
            views(r.1@) == self@.after_probe(exists, dir, symlink).1,
    {
        match delete_file(exists, dir, symlink) {
            Deletion::Nothing => self.advance(nothing()),
            Deletion::RemoveDir => self.to_phase(ApplyPhase::RemoveDir),
            Deletion::RemoveFile => self.to_phase(ApplyPhase::RemoveFile),
        }
    }

    /// Takes in what came of the operation, and gives the lines to be shown.
    pub fn next(self, event: ApplyEvent) -> (r: (Apply<'a>, Vec<String>))
        requires
            self@.wf(),
        ensures
            r.0@ == self@.step(event@).0,
            views(r.1@) == self@.step(event@).1,
            r.0@.wf(),
    {
        match (self.phase, event) {
            (_, ApplyEvent::Done) => self.done(),
            (_, ApplyEvent::Failed) => self.failed(),
            (ApplyPhase::Stat, ApplyEvent::Found { kind, mode }) => self.found(kind, mode),
            (ApplyPhase::ReadLink, ApplyEvent::Link { target }) => {
                let mut r = self;
                r.phase = ApplyPhase::Unlink;
                r.target = target;
                (r, nothing())
            },
            (ApplyPhase::Look, ApplyEvent::Probed { exists, dir, symlink }) => {
                if symlink || (self.kind == FileKind::Dir && exists && !dir) {
                    self.to_phase(ApplyPhase::MakeWay)
                } else {
                    self.make()
                }
            },
            (ApplyPhase::Probe, ApplyEvent::Probed { exists, dir, symlink }) => self.probed(
                exists,
                dir,
                symlink,
            ),
            _ => (self, nothing()),
        }
    }
}

/// The state that follows `s` when the events come one after another.
pub open spec fn reached(s: ApplyState, events: Seq<ApplyEventView>) -> ApplyState
    decreases events.len(),
{
    if events.len() == 0 {
        s
    } else {
        reached(s, events.drop_last()).step(events.last()).0
    }
}

/// Whatever comes of the operations, what holds in every state goes on to hold, the changes stay
/// what they are, and they are taken up one after another.
pub proof fn lemma_step(s: ApplyState, e: ApplyEventView)
    requires
        s.wf(),
    ensures
        s.step(e).0.wf(),
        s.step(e).0.changes == s.changes,
        s.step(e).0.index == s.index || s.step(e).0.index == s.index + 1,
{
}

/// Whatever comes of the operations, what holds in every state goes on to hold, and the changes
/// stay what they are.
pub proof fn lemma_reached(changes: Seq<ChangeView>, events: Seq<ApplyEventView>)
    ensures
        reached(started(changes), events).wf(),
        reached(started(changes), events).changes == changes,
    decreases events.len(),
{
    if events.len() > 0 {
        lemma_reached(changes, events.drop_last());
        lemma_step(reached(started(changes), events.drop_last()), events.last());
    }
}

/// The operation concerns the change `c` and nothing else: it reads only the path in the upper
/// directory, and writes only the real path and the directories that lead to it. For a deletion
/// nothing is written; for anything else no directory is removed.
pub open spec fn concerns(a: ApplyActionView, c: ChangeView) -> bool {
    match a {
        ApplyActionView::Fail { .. } | ApplyActionView::Finish => true,
        ApplyActionView::Probe { path } => path == c.real_path,
        ApplyActionView::RemoveDir { path } => c.kind == ChangeKind::Deleted && path == c.real_path,
        ApplyActionView::RemoveFile { path } => path == c.real_path,
        ApplyActionView::Stat { path } => c.kind != ChangeKind::Deleted && path == c.upper_path,
        ApplyActionView::ReadLink { path } => c.kind != ChangeKind::Deleted && path
            == c.upper_path,
        ApplyActionView::CreateDir { path } => c.kind != ChangeKind::Deleted && (path
            == c.real_path || parent_of(c.real_path) == Some(path)),
        ApplyActionView::Symlink { path, .. } => c.kind != ChangeKind::Deleted && path
            == c.real_path,
        ApplyActionView::Copy { from, to } => c.kind != ChangeKind::Deleted && from == c.upper_path
            && to == c.real_path,
        ApplyActionView::SetPermissions { path, .. } => c.kind != ChangeKind::Deleted && path
            == c.real_path,
    }
}

/// Whatever comes of the operations, the next one concerns one of the changes.
pub proof fn lemma_only_changes_are_touched(changes: Seq<ChangeView>, events: Seq<ApplyEventView>)
    ensures
        ({
            let s = reached(started(changes), events);
            ||| s.action() is Finish
            ||| 0 <= s.index < changes.len() && concerns(s.action(), changes[s.index])
        }),
{
    lemma_reached(changes, events);
}

/// It is over without a failure only when every change has been taken up.
pub proof fn lemma_finished_means_all(changes: Seq<ChangeView>, events: Seq<ApplyEventView>)
    ensures
        reached(started(changes), events).phase == ApplyPhase::Finished ==> reached(
            started(changes),
            events,
        ).index == changes.len(),
    decreases events.len(),
{
    if events.len() > 0 {
        let s = reached(started(changes), events.drop_last());
        lemma_reached(changes, events.drop_last());
        lemma_finished_means_all(changes, events.drop_last());
        lemma_step(s, events.last());
    }
}

/// After an operation that failed nothing more is done.
pub proof fn lemma_failure_is_final(s: ApplyState, events: Seq<ApplyEventView>)
    requires
        s.phase == ApplyPhase::Failed,
    ensures
        reached(s, events) == s,
    decreases events.len(),
{
    if events.len() > 0 {
        lemma_failure_is_final(s, events.drop_last());
    }
}

/// A failure ends it all, except where a file had to make way for a symbolic link. Looking at what
/// stands at a path does not fail.
pub proof fn lemma_failure_ends(s: ApplyState)
    requires
        s.wf(),
        s.phase != ApplyPhase::Finished,
        s.phase != ApplyPhase::Unlink,
        s.phase != ApplyPhase::Look,
        s.phase != ApplyPhase::Probe,
    ensures
        s.step(ApplyEventView::Failed).0.phase == ApplyPhase::Failed,
{
}

/// A symbolic link is removed itself, never the directory that it points to.
pub proof fn lemma_links_are_not_followed(s: ApplyState, exists: bool, dir: bool)
    requires
        s.wf(),
        s.phase == ApplyPhase::Probe,
    ensures
        s.step(ApplyEventView::Probed { exists, dir, symlink: true }).0.action()
            == (ApplyActionView::RemoveFile { path: s.current().real_path }),
{
}

/// A file is copied to its place, where its directory is made first, and gets its permissions. A
/// symbolic link that stands in that place is removed before, so that nothing is copied to where
/// it leads.
pub proof fn lemma_file_is_copied(s: ApplyState, mode: u32, exists: bool, dir: bool, symlink: bool)
    requires
        s.wf(),
        s.phase == ApplyPhase::Stat,
        parent_of(s.current().real_path) is Some,
    ensures
        ({
            let c = s.current();
            let s1 = s.step(ApplyEventView::Found { kind: FileKind::Other, mode }).0;
            let s2 = s1.step(ApplyEventView::Done).0;
            let s3 = s2.step(ApplyEventView::Probed { exists, dir, symlink }).0;
            let s4 = if symlink {
                s3.step(ApplyEventView::Done).0
            } else {
                s3
            };
            let s5 = s4.step(ApplyEventView::Done).0;
            &&& s1.action() == (ApplyActionView::CreateDir {
                path: parent_of(c.real_path)->Some_0,
            })
            &&& s2.action() == (ApplyActionView::Probe { path: c.real_path })
            &&& symlink ==> s3.action() == (ApplyActionView::RemoveFile { path: c.real_path })
            &&& s4.action() == (ApplyActionView::Copy { from: c.upper_path, to: c.real_path })
            &&& s5.action() == (ApplyActionView::SetPermissions { path: c.real_path, mode })
            &&& s5.step(ApplyEventView::Done).0.index == s.index + 1
        }),
{
}

/// A file is copied only where no symbolic link stood in its place, or where that was removed.
pub proof fn lemma_copy_follows_no_link(s: ApplyState, e: ApplyEventView)
    requires
        s.wf(),
        !(s.action() is Copy),
        s.step(e).0.action() is Copy,
    ensures
        s.action() == (ApplyActionView::Probe { path: s.current().real_path }) && (
        e matches ApplyEventView::Probed { symlink, .. } && !symlink) || s.action() == (
        ApplyActionView::RemoveFile { path: s.current().real_path }) && e is Done,
        s.step(e).0.index == s.index,
{
}

/// A symbolic link is made anew in its place, with the target that it has in the upper directory,
/// and whether or not something had to make way for it.
pub proof fn lemma_link_is_recreated(s: ApplyState, mode: u32, target: Seq<u8>, e: ApplyEventView)
    requires
        s.wf(),
        s.phase == ApplyPhase::Stat,
        parent_of(s.current().real_path) is Some,
        e is Done || e is Failed,
    ensures
        ({
            let c = s.current();
            let s1 = s.step(ApplyEventView::Found { kind: FileKind::Symlink, mode }).0;
            let s2 = s1.step(ApplyEventView::Done).0;
            let s3 = s2.step(ApplyEventView::Link { target }).0;
            let s4 = s3.step(e).0;
            &&& s1.action() == (ApplyActionView::CreateDir {
                path: parent_of(c.real_path)->Some_0,
            })
            &&& s2.action() == (ApplyActionView::ReadLink { path: c.upper_path })
            &&& s3.action() == (ApplyActionView::RemoveFile { path: c.real_path })
            &&& s4.action() == (ApplyActionView::Symlink { target, path: c.real_path })
            &&& s4.step(ApplyEventView::Done).0.index == s.index + 1
        }),
{
}

/// A directory is created in its place, once a symbolic link or a file that stands there has made
/// way.
pub proof fn lemma_directory_is_created(
    s: ApplyState,
    mode: u32,
    exists: bool,
    dir: bool,
    symlink: bool,
)
    requires
        s.wf(),
        s.phase == ApplyPhase::Stat,
    ensures
        ({
            let path = s.current().real_path;
            let obstacle = symlink || (exists && !dir);
            let s1 = s.step(ApplyEventView::Found { kind: FileKind::Dir, mode }).0;
            let s2 = s1.step(ApplyEventView::Probed { exists, dir, symlink }).0;
            let s3 = if obstacle {
                s2.step(ApplyEventView::Done).0
            } else {
                s2
            };
            &&& s1.action() == (ApplyActionView::Probe { path })
            &&& obstacle ==> s2.action() == (ApplyActionView::RemoveFile { path })
            &&& s3.action() == (ApplyActionView::CreateDir { path })
            &&& s3.step(ApplyEventView::Done).0.index == s.index + 1
        }),
{
}

/// What stands at a path that was deleted is removed: a directory with all that it holds, and
/// anything else as a file.
pub proof fn lemma_deletion_removes(s: ApplyState, exists: bool, dir: bool, symlink: bool)
    requires
        s.wf(),
        s.phase == ApplyPhase::Probe,
        exists || symlink,
    ensures
        ({
            let path = s.current().real_path;
            let s1 = s.step(ApplyEventView::Probed { exists, dir, symlink }).0;
            &&& s1.action() == if dir && !symlink {
                ApplyActionView::RemoveDir { path }
            } else {
                ApplyActionView::RemoveFile { path }
            }
            &&& s1.step(ApplyEventView::Done).0.index == s.index + 1
        }),
{
}

/// A deletion of what is already gone asks for nothing.
pub proof fn lemma_gone_is_deleted(s: ApplyState, dir: bool)
    requires
        s.wf(),
        s.phase == ApplyPhase::Probe,
    ensures
        s.step(ApplyEventView::Probed { exists: false, dir, symlink: false }).0 == s.enter(
            s.index + 1,
        ),
{
}

} // verus!
