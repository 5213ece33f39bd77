//! The program for ordinary users: when it is in charge, and what it does without a command, which
//! is to offer root to make itself run with root's privileges.
//!
//! [`handle_empty_command`] starts a machine that asks for one system call at a time:
//! [`Setuid::action`] says what is to be done, and [`Setuid::next`] takes in what came of it.

use crate::order::views;
use crate::os::opt_text;
use crate::path::{component_spans, components, lemma_spans, same_bytes, span_views, spans};
use crate::text::{answer, before_path, confirm, just, nothing, utf8_lossy};
use crate::user::{Gid, Uid};
use vstd::prelude::*;
use vstd::slice::{slice_subrange, slice_to_vec};
use vstd::utf8::encode_utf8;

verus! {

/// The step that has been come to.
#[derive(Debug, Clone, Copy, PartialEq, Eq, Structural)]
pub enum SetuidPhase {
    Failed,
    /// Find the program's own file.
    FindExe,
    Ask,
    Chown,
    /// Look at the file before its permissions are set.
    Stat,
    Chmod,
    Finished,
}

/// The state of the offer.
pub struct SetuidState {
    pub phase: SetuidPhase,
    /// The program's own file.
    pub exe: Seq<u8>,
    /// What failed, where more is to be said than the cause.
    pub context: Option<Seq<char>>,
}

/// What came of the action that was asked for.
#[derive(Debug, PartialEq, Eq)]
pub enum SetuidEvent {
    Done,
    Failed,
    /// The program's own file stands here.
    Exe { path: Vec<u8> },
    /// The user typed this line.
    Answer { line: String },
}

/// The model of a [`SetuidEvent`].
pub enum SetuidEventView {
    Done,
    Failed,
    Exe { path: Seq<u8> },
    Answer { line: Seq<char> },
}

impl View for SetuidEvent {
    type V = SetuidEventView;

    open spec fn view(&self) -> SetuidEventView {
        match self {
            SetuidEvent::Done => SetuidEventView::Done,
            SetuidEvent::Failed => SetuidEventView::Failed,
            SetuidEvent::Exe { path } => SetuidEventView::Exe { path: path@ },
            SetuidEvent::Answer { line } => SetuidEventView::Answer { line: line@ },
        }
    }
}

/// What is to be done next.
#[derive(Debug, PartialEq, Eq)]
pub enum SetuidAction {
    /// Report the failure: the context, where there is one, around its cause.
    Fail { context: Option<String> },
    /// Tell where the program's own file stands.
    FindExe,
    /// Show the prompt and read a line.
    Ask { prompt: &'static str },
    Chown { path: Vec<u8>, uid: Uid, gid: Gid },
    /// Look at the file.
    Stat { path: Vec<u8> },
    Chmod { path: Vec<u8>, mode: u32 },
    /// Nothing is left to be done.
    Finish,
}

/// The model of a [`SetuidAction`].
pub enum SetuidActionView {
    Fail { context: Option<Seq<char>> },
    FindExe,
    Ask { prompt: Seq<char> },
    Chown { path: Seq<u8>, uid: Uid, gid: Gid },
    Stat { path: Seq<u8> },
    Chmod { path: Seq<u8>, mode: u32 },
    Finish,
}

impl View for SetuidAction {
    type V = SetuidActionView;

    open spec fn view(&self) -> SetuidActionView {
        match self {
            SetuidAction::Fail { context } => SetuidActionView::Fail {
                context: opt_text(*context),
            },
            SetuidAction::FindExe => SetuidActionView::FindExe,
            SetuidAction::Ask { prompt } => SetuidActionView::Ask { prompt: prompt@ },
            SetuidAction::Chown { path, uid, gid } => SetuidActionView::Chown {
                path: path@,
                uid: *uid,
                gid: *gid,
            },
            SetuidAction::Stat { path } => SetuidActionView::Stat { path: path@ },
            SetuidAction::Chmod { path, mode } => SetuidActionView::Chmod {
                path: path@,
                mode: *mode,
            },
            SetuidAction::Finish => SetuidActionView::Finish,
        }
    }
}

impl SetuidState {
    /// What is to be done in this state. The mode is set-user-id, all for the owner, and read and
    /// execute for the others.
    pub open spec fn action(self) -> SetuidActionView {
        match self.phase {
            SetuidPhase::Failed => SetuidActionView::Fail { context: self.context },
            SetuidPhase::FindExe => SetuidActionView::FindExe,
            SetuidPhase::Ask => SetuidActionView::Ask {
                prompt: "Apply root:root + mode 4755? [y/N]: "@,
            },
            SetuidPhase::Chown => SetuidActionView::Chown {
                path: self.exe,
                uid: Uid { raw: 0 },
                gid: Gid { raw: 0 },
            },
            SetuidPhase::Stat => SetuidActionView::Stat { path: self.exe },
            SetuidPhase::Chmod => SetuidActionView::Chmod { path: self.exe, mode: 0o4755 },
            SetuidPhase::Finished => SetuidActionView::Finish,
        }
    }

    /// The state with another phase.
    pub open spec fn at_phase(self, phase: SetuidPhase) -> SetuidState {
        SetuidState { phase, ..self }
    }

    /// What is said of a failure beside its cause.
    pub open spec fn failure(self) -> Option<Seq<char>> {
        match self.phase {
            SetuidPhase::FindExe => Some("Failed to resolve current executable path"@),
            SetuidPhase::Chown => Some("Failed to chown root:root for "@ + utf8_lossy(self.exe)),
            SetuidPhase::Stat => Some("Failed to read metadata for "@ + utf8_lossy(self.exe)),
            SetuidPhase::Chmod => Some("Failed to chmod 4755 for "@ + utf8_lossy(self.exe)),
            _ => None,
        }
    }

    /// What follows when an action is done.
    pub open spec fn after_done(self) -> (SetuidState, Seq<Seq<char>>) {
        match self.phase {
            SetuidPhase::Chown => (self.at_phase(SetuidPhase::Stat), Seq::empty()),
            SetuidPhase::Stat => (self.at_phase(SetuidPhase::Chmod), Seq::empty()),
            SetuidPhase::Chmod => (
                self.at_phase(SetuidPhase::Finished),
                seq!["Done. Set owner root:root and mode 4755 on "@ + utf8_lossy(self.exe)],
            ),
            _ => (self, Seq::empty()),
        }
    }

    /// The state that follows when `e` came of the action, and the lines to be shown. An event
    /// that does not answer the action changes nothing.
    pub open spec fn step(self, e: SetuidEventView) -> (SetuidState, Seq<Seq<char>>) {
        match (self.phase, e) {
            (_, SetuidEventView::Done) => self.after_done(),
            (SetuidPhase::Failed, SetuidEventView::Failed) => (self, Seq::empty()),
            (SetuidPhase::Finished, SetuidEventView::Failed) => (self, Seq::empty()),
            (_, SetuidEventView::Failed) => (
                SetuidState { phase: SetuidPhase::Failed, context: self.failure(), ..self },
                Seq::empty(),
            ),
            (SetuidPhase::FindExe, SetuidEventView::Exe { path }) => (
                SetuidState { phase: SetuidPhase::Ask, exe: path, ..self },
                seq![
                    "No command provided."@,
                    "You are running as root. Set setuid permissions automatically on this binary?"@,
                    "  Target: "@ + utf8_lossy(path),
                ],
            ),
            (SetuidPhase::Ask, SetuidEventView::Answer { line }) => if answer(line) == "y"@
                || answer(line) == "yes"@ {
                (self.at_phase(SetuidPhase::Chown), Seq::empty())
            } else {
                (self.at_phase(SetuidPhase::Finished), seq!["Skipped."@])
            },
            _ => (self, Seq::empty()),
        }
    }
}

/// The state in which the offer starts: it is made to root alone.
pub open spec fn started(uid: Uid) -> SetuidState {
    SetuidState {
        phase: if uid.raw != 0 {
            SetuidPhase::Failed
        } else {
            SetuidPhase::FindExe
        },
        exe: Seq::empty(),
        context: if uid.raw != 0 {
            Some("No command specified. Usage: vegas-user -- <command> [args...]"@)
        } else {
            None
        },
    }
}

/// The program was started under the name `vegas-user`.
pub open spec fn is_vegas_user(program: Seq<u8>) -> bool {
    components(program).len() > 0 && components(program).last() == encode_utf8("vegas-user"@)
}

/// Tells whether the command has to run as the calling user, whatever the caller asks for. That is
/// so for `vegas-user`, and for every program that runs with the privileges of another user: the
/// name that a program is started under is the caller's to choose.
pub fn locks_identity(program: &[u8], uid: Uid, euid: Uid) -> (b: bool)
    ensures
        b == (is_vegas_user(program@) || uid.raw != euid.raw),
{
    if uid.raw != euid.raw {
        return true;
    }
    let pieces = component_spans(program);
    proof {
        lemma_spans(program@);
        assert(span_views(pieces@).len() == pieces@.len());
    }
    let n = pieces.len();
    if n == 0 {
        return false;
    }
    assert(span_views(pieces@)[n - 1] == spans(program@)[n - 1]);
    let last = slice_subrange(program, pieces[n - 1].0, pieces[n - 1].1);
    assert(last@ == components(program@).last());
    same_bytes(last, "vegas-user".as_bytes())
}

/// The offer to set up the program's own file.
#[derive(Debug)]
pub struct Setuid {
    phase: SetuidPhase,
    exe: Vec<u8>,
    context: Option<String>,
}

impl View for Setuid {
    type V = SetuidState;

    closed spec fn view(&self) -> SetuidState {
        SetuidState {
            phase: self.phase,
            exe: self.exe@,
            context: opt_text(self.context),
        }
    }
}

/// Answers a call without a command: with an error, or for root with the offer.
pub fn handle_empty_command(uid: Uid) -> (s: Setuid)
    ensures
        s@ == started(uid),
{
    if uid.raw != 0 {
        Setuid {
            phase: SetuidPhase::Failed,
            exe: Vec::new(),
            context: Some(
                "No command specified. Usage: vegas-user -- <command> [args...]".to_owned(),
            ),
        }
    } else {
        Setuid { phase: SetuidPhase::FindExe, exe: Vec::new(), context: None }
    }
}

impl Setuid {
    /// What is to be done next.
    pub fn action(&self) -> (action: SetuidAction)
        ensures
            action@ == self@.action(),
    {
        match self.phase {
            SetuidPhase::Failed => SetuidAction::Fail {
                context: match &self.context {
                    Some(text) => Some(text.clone()),
                    None => None,
                },
            },
            SetuidPhase::FindExe => SetuidAction::FindExe,
            SetuidPhase::Ask => SetuidAction::Ask {
                prompt: "Apply root:root + mode 4755? [y/N]: ",
            },
            SetuidPhase::Chown => SetuidAction::Chown {
                path: slice_to_vec(self.exe.as_slice()),
                uid: Uid { raw: 0 },
                gid: Gid { raw: 0 },
            },
            SetuidPhase::Stat => SetuidAction::Stat { path: slice_to_vec(self.exe.as_slice()) },
            SetuidPhase::Chmod => SetuidAction::Chmod {
                path: slice_to_vec(self.exe.as_slice()),
                mode: 0o4755,
            },
            SetuidPhase::Finished => SetuidAction::Finish,
        }
    }

    /// Goes through the steps that set up the file.
    fn setup_setuid_binary(self) -> (r: (Setuid, Vec<String>))
        ensures
            r.0@ == self@.after_done().0,
            views(r.1@) == self@.after_done().1,
    {
        let mut s = self;
        match s.phase {
            SetuidPhase::Chown => {
                s.phase = SetuidPhase::Stat;
                (s, nothing())
            },
            SetuidPhase::Stat => {
                s.phase = SetuidPhase::Chmod;
                (s, nothing())
            },
            SetuidPhase::Chmod => {
                s.phase = SetuidPhase::Finished;
                let text = before_path(
                    "Done. Set owner root:root and mode 4755 on ",
                    s.exe.as_slice(),
                );
                (s, just(text))
            },
            _ => (s, nothing()),
        }
    }

    fn failed(self) -> (r: (Setuid, Vec<String>))
        ensures
            r.0@ == self@.step(SetuidEventView::Failed).0,
            views(r.1@) == self@.step(SetuidEventView::Failed).1,
    {
        let mut s = self;
        let context = match s.phase {
            SetuidPhase::Failed => {
                return (s, nothing());
            },
            SetuidPhase::Finished => {
                return (s, nothing());
            },
            SetuidPhase::FindExe => Some("Failed to resolve current executable path".to_owned()),
            SetuidPhase::Chown => Some(
                before_path("Failed to chown root:root for ", s.exe.as_slice()),
            ),
            SetuidPhase::Stat => Some(
                before_path("Failed to read metadata for ", s.exe.as_slice()),
            ),
            SetuidPhase::Chmod => Some(before_path("Failed to chmod 4755 for ", s.exe.as_slice())),
            SetuidPhase::Ask => None,
        };
        s.phase = SetuidPhase::Failed;
        s.context = context;
        (s, nothing())
    }

    /// Takes in what came of the action, and gives the lines to be shown.
    pub fn next(self, event: SetuidEvent) -> (r: (Setuid, Vec<String>))
        ensures
            r.0@ == self@.step(event@).0,
            views(r.1@) == self@.step(event@).1,
    {
        match (self.phase, event) {
            (_, SetuidEvent::Done) => self.setup_setuid_binary(),
            (_, SetuidEvent::Failed) => self.failed(),
            (SetuidPhase::FindExe, SetuidEvent::Exe { path }) => {
                let mut lines: Vec<String> = Vec::new();
                lines.push("No command provided.".to_owned());
                lines.push(
                    "You are running as root. Set setuid permissions automatically on this binary?".to_owned(),
                );
                lines.push(before_path("  Target: ", path.as_slice()));
                assert(views(lines@) == self@.step(event@).1);
                let mut s = self;
                s.phase = SetuidPhase::Ask;
                s.exe = path;
                (s, lines)
            },
            (SetuidPhase::Ask, SetuidEvent::Answer { line }) => {
                let mut s = self;
                if confirm(line.as_str()) {
                    s.phase = SetuidPhase::Chown;
                    (s, nothing())
                } else {
                    s.phase = SetuidPhase::Finished;
                    (s, just("Skipped.".to_owned()))
                }
            },
            _ => (self, nothing()),
        }
    }
}

/// The state that follows `s` when the events come one after another.
pub open spec fn reached(s: SetuidState, events: Seq<SetuidEventView>) -> SetuidState
    decreases events.len(),
{
    if events.len() == 0 {
        s
    } else {
        reached(s, events.drop_last()).step(events.last()).0
    }
}

/// The event is an answer by which the user agreed.
pub open spec fn agrees(e: SetuidEventView) -> bool {
    e matches SetuidEventView::Answer { line } && (answer(line) == "y"@ || answer(line) == "yes"@)
}

/// The event tells that the program's own file stands at `path`.
pub open spec fn names_exe(e: SetuidEventView, path: Seq<u8>) -> bool {
    e matches SetuidEventView::Exe { path: p } && p == path
}

/// The file is being set up.
pub open spec fn at_work(phase: SetuidPhase) -> bool {
    phase == SetuidPhase::Chown || phase == SetuidPhase::Stat || phase == SetuidPhase::Chmod
}

proof fn lemma_exe_is_known(uid: Uid, events: Seq<SetuidEventView>)
    requires
        reached(started(uid), events).phase == SetuidPhase::Ask || at_work(
            reached(started(uid), events).phase,
        ),
    ensures
        uid.raw == 0,
        exists|i: int|
            0 <= i < events.len() && names_exe(
                #[trigger] events[i],
                reached(started(uid), events).exe,
            ),
    decreases events.len(),
{
    if events.len() > 0 {
        let front = events.drop_last();
        let t = reached(started(uid), front);
        let exe = reached(started(uid), events).exe;
        if t.phase == SetuidPhase::Ask || at_work(t.phase) {
            lemma_exe_is_known(uid, front);
            let i = choose|i: int| 0 <= i < front.len() && names_exe(#[trigger] front[i], t.exe);
            assert(events[i] == front[i]);
            assert(names_exe(events[i], exe));
        } else {
            lemma_only_root_is_asked(uid, front);
            assert(names_exe(events[events.len() - 1], exe));
        }
    }
}

/// Whoever is not root gets an error, whatever happens.
pub proof fn lemma_only_root_is_asked(uid: Uid, events: Seq<SetuidEventView>)
    ensures
        uid.raw != 0 ==> reached(started(uid), events) == started(uid),
        uid.raw != 0 ==> started(uid).action() is Fail,
    decreases events.len(),
{
    if events.len() > 0 {
        lemma_only_root_is_asked(uid, events.drop_last());
    }
}

/// The program's own file and no other is handed to root and made to run as root, and only where
/// root said yes.
pub proof fn lemma_setuid_needs_consent(uid: Uid, events: Seq<SetuidEventView>)
    requires
        at_work(reached(started(uid), events).phase),
    ensures
        uid.raw == 0,
        exists|i: int| 0 <= i < events.len() && agrees(#[trigger] events[i]),
        exists|i: int|
            0 <= i < events.len() && names_exe(
                #[trigger] events[i],
                reached(started(uid), events).exe,
            ),
        match reached(started(uid), events).action() {
            SetuidActionView::Chown { path, .. } => path == reached(started(uid), events).exe,
            SetuidActionView::Stat { path } => path == reached(started(uid), events).exe,
            SetuidActionView::Chmod { path, .. } => path == reached(started(uid), events).exe,
            _ => false,
        },
    decreases events.len(),
{
    lemma_exe_is_known(uid, events);
    if events.len() > 0 {
        let front = events.drop_last();
        if at_work(reached(started(uid), front).phase) {
            lemma_setuid_needs_consent(uid, front);
            let i = choose|i: int| 0 <= i < front.len() && agrees(#[trigger] front[i]);
            assert(events[i] == front[i]);
        } else {
            assert(agrees(events[events.len() - 1]));
        }
    }
}

/// The file gets the mode by which it runs as its owner only once it belongs to root.
pub proof fn lemma_owner_before_mode(uid: Uid, events: Seq<SetuidEventView>)
    requires
        reached(started(uid), events).phase == SetuidPhase::Stat || reached(
            started(uid),
            events,
        ).phase == SetuidPhase::Chmod,
    ensures
        exists|i: int|
            0 <= i < events.len() && #[trigger] events[i] is Done && reached(
                started(uid),
                events.take(i),
            ).phase == SetuidPhase::Chown,
    decreases events.len(),
{
    if events.len() > 0 {
        let front = events.drop_last();
        let p = reached(started(uid), front).phase;
        if p == SetuidPhase::Stat || p == SetuidPhase::Chmod {
            lemma_owner_before_mode(uid, front);
            let i = choose|i: int|
                0 <= i < front.len() && #[trigger] front[i] is Done && reached(
                    started(uid),
                    front.take(i),
                ).phase == SetuidPhase::Chown;
            assert(front.take(i) == events.take(i));
            assert(events[i] == front[i]);
        } else {
            assert(events.take(events.len() - 1) == front);
            assert(events[events.len() - 1] is Done);
        }
    }
}

} // verus!
