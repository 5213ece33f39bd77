//! A run of a command in an overlay sandbox, as a machine that asks for one system call at a time.
//!
//! [`run`] checks the request and starts the machine. [`Run::action`] says what is to be done,
//! and [`Run::next`] takes in what came of it. The machine forks with the process that drives it:
//! the child sets up the overlay and executes the command, the parent waits, shows what changed
//! and asks what is to become of the changes.

use crate::diff::{
    all_below, collect_changes, collected, display_changes, summary, Change, ChangeView, EntryView,
    UpperEntry,
};
use crate::order::views;
use crate::os::{describe_errno, errno_text, name_signal, opt_text, signal_name};
use crate::path::{
    is_below, is_plain, join, joined, lemma_below_transitive, lemma_joined_components,
};
use crate::text::{
    answer, before_path, concat, decimal, decimal_signed, display_path, is_c_string, just, nothing,
    nul_at, nul_position, out_lines, push_decimal, push_decimal_signed, read_answer, shown_as_is, spells,
    to_stdout, utf8_lossy, Line, LineView, NumberFault,
};
use crate::user::{
    calling_user, chosen_user, drop_privileges, lemma_chosen_user_text, number_or, opt_view, parse_user_spec, stays_root,
    user_text, Gid, Uid, UserSpecError,
};
use vstd::prelude::*;
use vstd::slice::slice_to_vec;
use vstd::string::StringExecFns;
use vstd::utf8::{encode_utf8, is_ascii_chars, is_ascii_chars_encode_utf8};

verus! {

/// What the current process knows of itself before a run.
#[derive(Debug, PartialEq, Eq)]
pub struct Process {
    /// The effective user id, which decides on the privileges.
    pub euid: Uid,
    /// The real user id.
    pub uid: Uid,
    /// The real group id.
    pub gid: Gid,
    /// The value of `SUDO_UID`, where it is set.
    pub sudo_uid: Option<String>,
    /// The value of `SUDO_GID`, where it is set.
    pub sudo_gid: Option<String>,
    /// The working directory, where it is known.
    pub cwd: Option<Vec<u8>>,
}

/// The view of an optional path.
pub open spec fn opt_path(p: Option<Vec<u8>>) -> Option<Seq<u8>> {
    match p {
        Some(v) => Some(v@),
        None => None,
    }
}

/// The user who called, as the process `p` sees it.
pub open spec fn caller_of(p: Process) -> (Uid, Gid) {
    (
        Uid { raw: number_or(opt_text(p.sudo_uid), p.uid.raw) },
        Gid { raw: number_or(opt_text(p.sudo_gid), p.gid.raw) },
    )
}

/// How the sandboxed command ended.
#[derive(Debug, Clone, Copy, PartialEq, Eq, Structural)]
pub enum WaitStatus {
    /// It exited with this code.
    Exited(i32),
    /// It was killed by the signal with this number.
    Signaled(i32),
    Other,
}

/// The step that a run has come to.
#[derive(Debug, Clone, Copy, PartialEq, Eq, Structural)]
pub enum RunPhase {
    /// The run has failed.
    Failed,
    MakeTemp,
    MakeUpper,
    MakeWork,
    MakeMerged,
    Fork,
    /// The child enters a mount namespace of its own.
    Unshare,
    /// The child cuts its mounts off from those of the host.
    MakePrivate,
    MountOverlay,
    BindProc,
    BindDev,
    BindSys,
    Chroot,
    ChdirRoot,
    ChdirCwd,
    SetGid,
    SetUid,
    Exec,
    /// The child gives up.
    Exit,
    /// The parent waits for the child.
    Wait,
    Collect,
    Ask,
    Apply,
    Keep,
    /// The run is over; the temporary directory may go.
    Finished,
}

/// The state of a run.
pub struct RunView {
    pub phase: RunPhase,
    pub command: Seq<Seq<char>>,
    pub uid: Uid,
    pub gid: Gid,
    pub cwd: Option<Seq<u8>>,
    /// The temporary directory.
    pub base: Seq<u8>,
    pub changes: Seq<ChangeView>,
    /// What failed, where more is to be said than the cause.
    pub context: Option<Seq<char>>,
    /// The cause of a failure that no system call reported.
    pub cause: Option<NumberFault>,
}

/// What came of the action that was asked for.
#[derive(Debug, PartialEq, Eq)]
pub enum RunEvent {
    /// It was done.
    Done,
    /// It failed with this error number.
    Failed { errno: i32 },
    /// The temporary directory was created here.
    TempDir { path: Vec<u8> },
    /// The process was forked, and this is the child.
    InChild,
    /// The process was forked, and this is the parent.
    InParent,
    Waited { status: WaitStatus },
    /// These entries were found below the upper directory.
    Walked { entries: Vec<UpperEntry> },
    /// The user typed this line.
    Answer { line: String },
}

/// The model of a [`RunEvent`].
pub enum RunEventView {
    Done,
    Failed { errno: i32 },
    TempDir { path: Seq<u8> },
    InChild,
    InParent,
    Waited { status: WaitStatus },
    Walked { entries: Seq<EntryView> },
    Answer { line: Seq<char> },
}

impl View for RunEvent {
    type V = RunEventView;

    open spec fn view(&self) -> RunEventView {
        match self {
            RunEvent::Done => RunEventView::Done,
            RunEvent::Failed { errno } => RunEventView::Failed { errno: *errno },
            RunEvent::TempDir { path } => RunEventView::TempDir { path: path@ },
            RunEvent::InChild => RunEventView::InChild,
            RunEvent::InParent => RunEventView::InParent,
            RunEvent::Waited { status } => RunEventView::Waited { status: *status },
            RunEvent::Walked { entries } => RunEventView::Walked { entries: views(entries@) },
            RunEvent::Answer { line } => RunEventView::Answer { line: line@ },
        }
    }
}

/// What is to be done next.
#[derive(Debug, PartialEq, Eq)]
pub enum RunAction {
    /// Report the failure: the context, where there is one, around its cause.
    Fail { context: Option<String>, cause: Option<NumberFault> },
    /// Create a temporary directory whose name starts with the prefix.
    CreateTempDir { prefix: &'static str },
    /// Create the directory and those above it that do not exist.
    CreateDir { path: Vec<u8> },
    Fork,
    /// Enter a new mount namespace.
    Unshare,
    /// Remount the path, and all that is mounted below it, as private: no mount made there reaches
    /// another namespace.
    MakePrivate { path: Vec<u8> },
    /// Mount a filesystem, or bind a tree recursively.
    Mount {
        source: Vec<u8>,
        target: Vec<u8>,
        fs_type: Option<&'static str>,
        bind: bool,
        data: Option<String>,
    },
    Chroot { path: Vec<u8> },
    Chdir { path: Vec<u8> },
    SetGid { gid: Gid },
    SetUid { uid: Uid },
    /// Replace the process by the program.
    Exec { program: String, args: Vec<String> },
    Exit { code: i32 },
    /// Wait for the child to end.
    Wait,
    /// Look at everything below the directory.
    Walk { upper: Vec<u8> },
    /// Show the prompt and read a line.
    Ask { prompt: &'static str },
    /// Apply the collected changes to the real filesystem.
    Apply,
    /// Keep the temporary directory.
    Keep,
    /// Nothing is left to be done.
    Finish,
}

/// The model of a [`RunAction`].
pub enum RunActionView {
    Fail { context: Option<Seq<char>>, cause: Option<NumberFault> },
    CreateTempDir { prefix: Seq<char> },
    CreateDir { path: Seq<u8> },
    Fork,
    Unshare,
    MakePrivate { path: Seq<u8> },
    Mount {
        source: Seq<u8>,
        target: Seq<u8>,
        fs_type: Option<Seq<char>>,
        bind: bool,
        data: Option<Seq<char>>,
    },
    Chroot { path: Seq<u8> },
    Chdir { path: Seq<u8> },
    SetGid { gid: Gid },
    SetUid { uid: Uid },
    Exec { program: Seq<char>, args: Seq<Seq<char>> },
    Exit { code: i32 },
    Wait,
    Walk { upper: Seq<u8> },
    Ask { prompt: Seq<char> },
    Apply,
    Keep,
    Finish,
}

impl View for RunAction {
    type V = RunActionView;

    open spec fn view(&self) -> RunActionView {
        match self {
            RunAction::Fail { context, cause } => RunActionView::Fail {
                context: opt_text(*context),
                cause: *cause,
            },
            RunAction::CreateTempDir { prefix } => RunActionView::CreateTempDir {
                prefix: prefix@,
            },
            RunAction::CreateDir { path } => RunActionView::CreateDir { path: path@ },
            RunAction::Fork => RunActionView::Fork,
            RunAction::Unshare => RunActionView::Unshare,
            RunAction::MakePrivate { path } => RunActionView::MakePrivate { path: path@ },
            RunAction::Mount { source, target, fs_type, bind, data } => RunActionView::Mount {
                source: source@,
                target: target@,
                fs_type: opt_view(*fs_type),
                bind: *bind,
                data: opt_text(*data),
            },
            RunAction::Chroot { path } => RunActionView::Chroot { path: path@ },
            RunAction::Chdir { path } => RunActionView::Chdir { path: path@ },
            RunAction::SetGid { gid } => RunActionView::SetGid { gid: *gid },
            RunAction::SetUid { uid } => RunActionView::SetUid { uid: *uid },
            RunAction::Exec { program, args } => RunActionView::Exec {
                program: program@,
                args: views(args@),
            },
            RunAction::Exit { code } => RunActionView::Exit { code: *code },
            RunAction::Wait => RunActionView::Wait,
            RunAction::Walk { upper } => RunActionView::Walk { upper: upper@ },
            RunAction::Ask { prompt } => RunActionView::Ask { prompt: prompt@ },
            RunAction::Apply => RunActionView::Apply,
            RunAction::Keep => RunActionView::Keep,
            RunAction::Finish => RunActionView::Finish,
        }
    }
}

/// The words of a command line, with a space between them.
pub open spec fn command_line(command: Seq<Seq<char>>) -> Seq<char>
    decreases command.len(),
{
    if command.len() == 0 {
        Seq::empty()
    } else if command.len() == 1 {
        command[0]
    } else {
        command_line(command.drop_last()) + " "@ + command.last()
    }
}

/// The directory `name` in the temporary directory.
pub open spec fn inside(base: Seq<u8>, name: Seq<char>) -> Seq<u8> {
    joined(base, encode_utf8(name))
}

/// The options of the overlay: the root below, changes to `upper`, and `work` for the kernel.
pub open spec fn overlay_options(base: Seq<u8>) -> Seq<char> {
    "lowerdir=/,upperdir="@ + utf8_lossy(inside(base, "upper"@)) + ",workdir="@ + utf8_lossy(
        inside(base, "work"@),
    )
}

/// The binding of the live tree `/name` into the sandbox.
pub open spec fn binding(base: Seq<u8>, name: Seq<char>) -> RunActionView {
    RunActionView::Mount {
        source: joined(encode_utf8("/"@), encode_utf8(name)),
        target: joined(inside(base, "merged"@), encode_utf8(name)),
        fs_type: None,
        bind: true,
        data: None,
    }
}

/// Where in the command a zero byte stands: in which word, and where in that word.
#[derive(Debug, Clone, Copy, PartialEq, Eq, Structural)]
pub struct NulFound {
    pub word: usize,
    pub position: usize,
}

/// The first word from `i` on that holds a zero byte; the number of words where there is none.
pub open spec fn nul_word(command: Seq<Seq<char>>, i: int) -> int
    decreases command.len() - i,
{
    if i >= command.len() || !is_c_string(encode_utf8(command[i])) {
        i
    } else {
        nul_word(command, i + 1)
    }
}

/// Every word can be handed to the system.
pub open spec fn all_c_strings(command: Seq<Seq<char>>) -> bool {
    forall|i: int| 0 <= i < command.len() ==> is_c_string(encode_utf8(#[trigger] command[i]))
}

/// What a run in the state `s` asks for.
pub open spec fn action_of(s: RunView) -> RunActionView {
    match s.phase {
        RunPhase::Failed => RunActionView::Fail { context: s.context, cause: s.cause },
        RunPhase::MakeTemp => RunActionView::CreateTempDir { prefix: "vegas-"@ },
        RunPhase::MakeUpper => RunActionView::CreateDir { path: inside(s.base, "upper"@) },
        RunPhase::MakeWork => RunActionView::CreateDir { path: inside(s.base, "work"@) },
        RunPhase::MakeMerged => RunActionView::CreateDir { path: inside(s.base, "merged"@) },
        RunPhase::Fork => RunActionView::Fork,
        RunPhase::Unshare => RunActionView::Unshare,
        RunPhase::MakePrivate => RunActionView::MakePrivate { path: encode_utf8("/"@) },
        RunPhase::MountOverlay => RunActionView::Mount {
            source: encode_utf8("overlay"@),
            target: inside(s.base, "merged"@),
            fs_type: Some("overlay"@),
            bind: false,
            data: Some(overlay_options(s.base)),
        },
        RunPhase::BindProc => binding(s.base, "proc"@),
        RunPhase::BindDev => binding(s.base, "dev"@),
        RunPhase::BindSys => binding(s.base, "sys"@),
        RunPhase::Chroot => RunActionView::Chroot { path: inside(s.base, "merged"@) },
        RunPhase::ChdirRoot => RunActionView::Chdir { path: encode_utf8("/"@) },
        RunPhase::ChdirCwd => RunActionView::Chdir { path: s.cwd->Some_0 },
        RunPhase::SetGid => RunActionView::SetGid { gid: s.gid },
        RunPhase::SetUid => RunActionView::SetUid { uid: s.uid },
        RunPhase::Exec => RunActionView::Exec {
            program: s.command[0],
            args: s.command,
        },
        RunPhase::Exit => RunActionView::Exit { code: 1 },
        RunPhase::Wait => RunActionView::Wait,
        RunPhase::Collect => RunActionView::Walk { upper: inside(s.base, "upper"@) },
        RunPhase::Ask => RunActionView::Ask { prompt: "Choice [a/k/d]: "@ },
        RunPhase::Apply => RunActionView::Apply,
        RunPhase::Keep => RunActionView::Keep,
        RunPhase::Finished => RunActionView::Finish,
    }
}

/// A failure in this phase ends the run with an error.
pub open spec fn is_parent_phase(phase: RunPhase) -> bool {
    match phase {
        RunPhase::MakeTemp | RunPhase::MakeUpper | RunPhase::MakeWork | RunPhase::MakeMerged
        | RunPhase::Fork | RunPhase::Wait | RunPhase::Collect | RunPhase::Ask
        | RunPhase::Apply => true,
        _ => false,
    }
}

/// What is said of a failure in this phase beside its cause.
pub open spec fn parent_context(phase: RunPhase) -> Option<Seq<char>> {
    match phase {
        RunPhase::MakeTemp => Some("Failed to create temporary directory"@),
        RunPhase::MakeUpper => Some("Failed to create upper dir"@),
        RunPhase::MakeWork => Some("Failed to create work dir"@),
        RunPhase::MakeMerged => Some("Failed to create merged dir"@),
        RunPhase::Fork => Some("fork(2) failed"@),
        RunPhase::Wait => Some("waitpid failed"@),
        _ => None,
    }
}

/// What the child says of a failure in this phase before it names the error and gives up.
pub open spec fn child_complaint(s: RunView) -> Option<Seq<char>> {
    match s.phase {
        RunPhase::Unshare => Some("vegas: unshare(CLONE_NEWNS) failed: "@),
        RunPhase::MakePrivate => Some(
            "vegas: Failed to set up sandbox: Failed to make mounts private: "@,
        ),
        RunPhase::MountOverlay => Some(
            "vegas: Failed to set up sandbox: Failed to mount overlayfs. Make sure the kernel has CONFIG_OVERLAY_FS enabled.: "@,
        ),
        RunPhase::BindProc => Some(
            "vegas: Failed to set up sandbox: Failed to bind-mount /proc: "@,
        ),
        RunPhase::BindDev => Some("vegas: Failed to set up sandbox: Failed to bind-mount /dev: "@),
        RunPhase::BindSys => Some("vegas: Failed to set up sandbox: Failed to bind-mount /sys: "@),
        RunPhase::Chroot => Some("vegas: Failed to set up sandbox: chroot(2) failed: "@),
        RunPhase::ChdirRoot => Some("vegas: Failed to set up sandbox: chdir(\"/\") failed: "@),
        RunPhase::SetGid => Some("vegas: Failed to drop privileges: setgid failed: "@),
        RunPhase::SetUid => Some("vegas: Failed to drop privileges: setuid failed: "@),
        RunPhase::Exec => Some("vegas: exec '"@ + s.command[0] + "' failed: "@),
        _ => None,
    }
}

/// The state `s` with another phase.
pub open spec fn at_phase(s: RunView, phase: RunPhase) -> RunView {
    RunView { phase, ..s }
}

/// What is said of a word of the command that holds a zero byte.
pub open spec fn nul_complaint(word: int, position: int) -> Seq<char> {
    (if word == 0 {
        "vegas: invalid command name: nul byte found in provided data at position: "@
    } else {
        "vegas: invalid argument: nul byte found in provided data at position: "@
    }) + decimal(position as nat)
}

/// The child is ready to execute the command; it gives up where a word of the command cannot be
/// handed to the system.
pub open spec fn ready_to_exec(s: RunView) -> (RunView, Seq<LineView>) {
    if all_c_strings(s.command) {
        (at_phase(s, RunPhase::Exec), Seq::empty())
    } else {
        let word = nul_word(s.command, 0);
        (
            at_phase(s, RunPhase::Exit),
            seq![
                LineView::Stderr(nul_complaint(word, nul_at(encode_utf8(s.command[word]), 0))),
            ],
        )
    }
}

/// The child is in the sandbox; it gives up root unless the command is to run as root.
pub open spec fn ready_to_drop(s: RunView) -> (RunView, Seq<LineView>) {
    if stays_root(s.uid, s.gid) {
        ready_to_exec(s)
    } else {
        (at_phase(s, RunPhase::SetGid), Seq::empty())
    }
}

/// What follows when an action is done.
pub open spec fn after_done(s: RunView) -> (RunView, Seq<LineView>) {
    match s.phase {
        RunPhase::MakeUpper => (at_phase(s, RunPhase::MakeWork), Seq::empty()),
        RunPhase::MakeWork => (at_phase(s, RunPhase::MakeMerged), Seq::empty()),
        RunPhase::MakeMerged => (at_phase(s, RunPhase::Fork), Seq::empty()),
        RunPhase::Unshare => (at_phase(s, RunPhase::MakePrivate), Seq::empty()),
        RunPhase::MakePrivate => (at_phase(s, RunPhase::MountOverlay), Seq::empty()),
        RunPhase::MountOverlay => (at_phase(s, RunPhase::BindProc), Seq::empty()),
        RunPhase::BindProc => (at_phase(s, RunPhase::BindDev), Seq::empty()),
        RunPhase::BindDev => (at_phase(s, RunPhase::BindSys), Seq::empty()),
        RunPhase::BindSys => (at_phase(s, RunPhase::Chroot), Seq::empty()),
        RunPhase::Chroot => (at_phase(s, RunPhase::ChdirRoot), Seq::empty()),
        RunPhase::ChdirRoot => if s.cwd is Some {
            (at_phase(s, RunPhase::ChdirCwd), Seq::empty())
        } else {
            ready_to_drop(s)
        },
        RunPhase::ChdirCwd => ready_to_drop(s),
        RunPhase::SetGid => (at_phase(s, RunPhase::SetUid), Seq::empty()),
        RunPhase::SetUid => ready_to_exec(s),
        RunPhase::Apply => (at_phase(s, RunPhase::Finished), Seq::empty()),
        RunPhase::Keep => (at_phase(s, RunPhase::Finished), Seq::empty()),
        _ => (s, Seq::empty()),
    }
}

/// What follows when an action has failed. A working directory that is gone is no failure.
pub open spec fn after_failure(s: RunView, errno: i32) -> (RunView, Seq<LineView>) {
    if is_parent_phase(s.phase) {
        (
            RunView {
                phase: RunPhase::Failed,
                context: parent_context(s.phase),
                cause: None,
                ..s
            },
            Seq::empty(),
        )
    } else if s.phase == RunPhase::ChdirCwd {
        ready_to_drop(s)
    } else {
        match child_complaint(s) {
            Some(text) => (
                at_phase(s, RunPhase::Exit),
                seq![LineView::Stderr(text + errno_text(errno))],
            ),
            None => (s, Seq::empty()),
        }
    }
}

/// The line that says how the command ended, where there is one to say.
pub open spec fn status_line(status: WaitStatus, name: Option<Seq<char>>) -> Seq<Seq<char>> {
    match status {
        WaitStatus::Exited(code) => seq!["  Exit code: "@ + decimal_signed(code as int)],
        WaitStatus::Signaled(_) => match name {
            Some(n) => seq!["  Killed by signal: "@ + n],
            None => Seq::empty(),
        },
        WaitStatus::Other => Seq::empty(),
    }
}

/// The name of the signal that ended the command, where one did.
pub open spec fn name_of(status: WaitStatus) -> Option<Seq<char>> {
    match status {
        WaitStatus::Signaled(raw) => signal_name(raw),
        _ => None,
    }
}

/// What is shown when the command has ended.
pub open spec fn exit_report(status: WaitStatus, name: Option<Seq<char>>) -> Seq<Seq<char>> {
    seq!["\n─── vegas: sandbox exited ───────────────────────────────"@] + status_line(status, name)
}

/// What is shown before the user is asked about the changes.
pub open spec fn menu(base: Seq<u8>) -> Seq<Seq<char>> {
    seq![
        ""@,
        "What would you like to do with these changes?"@,
        "  [a] Apply  – copy changes to the real filesystem"@,
        "  [k] Keep   – save the sandbox at "@ + utf8_lossy(base),
        "  [d] Discard – throw away all changes (default)"@,
    ]
}

/// What the user wants to become of the changes.
#[derive(Debug, Clone, Copy, PartialEq, Eq, Structural)]
pub enum Choice {
    Apply,
    Keep,
    Discard,
}

/// The choice that the user made by typing `line`. Whatever is not understood discards.
pub open spec fn choice_of(line: Seq<char>) -> Choice {
    if answer(line) == "a"@ {
        Choice::Apply
    } else if answer(line) == "k"@ {
        Choice::Keep
    } else {
        Choice::Discard
    }
}

/// What follows the user's choice.
pub open spec fn after_answer(s: RunView, line: Seq<char>) -> (RunView, Seq<LineView>) {
    match choice_of(line) {
        Choice::Apply => (at_phase(s, RunPhase::Apply), Seq::empty()),
        Choice::Keep => (
            at_phase(s, RunPhase::Keep),
            seq![LineView::Stdout("Sandbox kept at: "@ + utf8_lossy(s.base))],
        ),
        Choice::Discard => (
            at_phase(s, RunPhase::Finished),
            seq![LineView::Stdout("Changes discarded."@)],
        ),
    }
}

/// What follows when the entries below the upper directory are known: the changes that they
/// record are shown, and where there are any the user is asked.
pub open spec fn after_walk(s: RunView, entries: Seq<EntryView>) -> (RunView, Seq<LineView>) {
    let upper = inside(s.base, "upper"@);
    let changes = collected(upper, entries);
    if !all_below(upper, entries) {
        (
            RunView {
                phase: RunPhase::Failed,
                context: Some("prefix not found"@),
                cause: None,
                ..s
            },
            Seq::empty(),
        )
    } else if changes.len() == 0 {
        (RunView { phase: RunPhase::Finished, changes, ..s }, out_lines(summary(changes)))
    } else {
        (
            RunView { phase: RunPhase::Ask, changes, ..s },
            out_lines(summary(changes) + menu(s.base)),
        )
    }
}

/// The state that follows `s` when `e` came of the action asked for, and the lines to be shown.
/// An event that does not answer the action changes nothing.
pub open spec fn step(s: RunView, e: RunEventView) -> (RunView, Seq<LineView>) {
    match (s.phase, e) {
        (_, RunEventView::Done) => after_done(s),
        (_, RunEventView::Failed { errno }) => after_failure(s, errno),
        (RunPhase::MakeTemp, RunEventView::TempDir { path }) => (
            RunView { phase: RunPhase::MakeUpper, base: path, ..s },
            Seq::empty(),
        ),
        (RunPhase::Fork, RunEventView::InChild) => (at_phase(s, RunPhase::Unshare), Seq::empty()),
        (RunPhase::Fork, RunEventView::InParent) => (at_phase(s, RunPhase::Wait), Seq::empty()),
        (RunPhase::Wait, RunEventView::Waited { status }) => (
            at_phase(s, RunPhase::Collect),
            out_lines(exit_report(status, name_of(status))),
        ),
        (RunPhase::Collect, RunEventView::Walked { entries }) => after_walk(s, entries),
        (RunPhase::Ask, RunEventView::Answer { line }) => after_answer(s, line),
        _ => (s, Seq::empty()),
    }
}

/// What holds in every state of a run.
pub open spec fn wf(s: RunView) -> bool {
    &&& s.phase != RunPhase::Failed ==> s.command.len() > 0
    &&& s.phase == RunPhase::ChdirCwd ==> s.cwd is Some
    &&& s.phase == RunPhase::SetGid || s.phase == RunPhase::SetUid ==> !stays_root(s.uid, s.gid)
    &&& s.phase == RunPhase::Exec ==> all_c_strings(s.command)
    &&& s.phase == RunPhase::Ask || s.phase == RunPhase::Apply || s.phase == RunPhase::Keep
        ==> s.changes.len() > 0
}

/// The state in which a request fails before anything is done.
pub open spec fn refused(
    command: Seq<Seq<char>>,
    context: Seq<char>,
    cause: Option<NumberFault>,
) -> RunView {
    RunView {
        phase: RunPhase::Failed,
        command,
        uid: Uid { raw: 0 },
        gid: Gid { raw: 0 },
        cwd: None,
        base: Seq::empty(),
        changes: Seq::empty(),
        context: Some(context),
        cause,
    }
}

/// The state that a run starts in.
pub open spec fn started(
    command: Seq<Seq<char>>,
    root: bool,
    user_spec: Option<Seq<char>>,
    process: Process,
) -> RunView {
    if command.len() == 0 {
        refused(command, "No command specified"@, None)
    } else if process.euid.raw != 0 {
        refused(
            command,
            "vegas requires root privileges.\nTry: sudo vegas run -- "@ + command_line(command),
            None,
        )
    } else {
        match chosen_user(root, user_spec, caller_of(process)) {
            Err(e) => refused(
                command,
                e.spec_message(user_spec->Some_0),
                Some(
                    match e {
                        UserSpecError::InvalidUid(fault) => fault,
                        UserSpecError::InvalidGid(fault) => fault,
                    },
                ),
            ),
            Ok((uid, gid)) => RunView {
                phase: RunPhase::MakeTemp,
                command,
                uid,
                gid,
                cwd: opt_path(process.cwd),
                base: Seq::empty(),
                changes: Seq::empty(),
                context: None,
                cause: None,
            },
        }
    }
}

/// A run of a command in the sandbox.
#[derive(Debug)]
pub struct Run {
    phase: RunPhase,
    command: Vec<String>,
    uid: Uid,
    gid: Gid,
    cwd: Option<Vec<u8>>,
    base: Vec<u8>,
    changes: Vec<Change>,
    context: Option<String>,
    cause: Option<NumberFault>,
}

impl View for Run {
    type V = RunView;

    closed spec fn view(&self) -> RunView {
        RunView {
            phase: self.phase,
            command: views(self.command@),
            uid: self.uid,
            gid: self.gid,
            cwd: opt_path(self.cwd),
            base: self.base@,
            changes: views(self.changes@),
            context: opt_text(self.context),
            cause: self.cause,
        }
    }
}

fn write_command_line(command: &Vec<String>) -> (text: String)
    ensures
        text@ == command_line(views(command@)),
{
    let mut text = String::new();
    let ghost words = views(command@);
    let mut i: usize = 0;
    assert(words.take(0) == Seq::<Seq<char>>::empty());
    while i < command.len()
        invariant
            i <= command@.len(),
            words == views(command@),
            text@ == command_line(words.take(i as int)),
        decreases command@.len() - i,
    {
        proof {
            assert(words.take(i + 1).drop_last() == words.take(i as int));
        }
        if i > 0 {
            text.append(" ");
        }
        text.append(command[i].as_str());
        i = i + 1;
    }
    assert(words.take(i as int) == words);
    text
}

fn as_opt_str(s: &Option<String>) -> (t: Option<&str>)
    ensures
        opt_view(t) == opt_text(*s),
{
    match s {
        Some(text) => Some(text.as_str()),
        None => None,
    }
}

fn refuse(command: Vec<String>, context: String, cause: Option<NumberFault>) -> (run: Run)
    ensures
        run@ == refused(views(command@), context@, cause),
{
    let run = Run {
        phase: RunPhase::Failed,
        command,
        uid: Uid { raw: 0 },
        gid: Gid { raw: 0 },
        cwd: None,
        base: Vec::new(),
        changes: Vec::new(),
        context: Some(context),
        cause,
    };
    assert(views(run.changes@) == Seq::<ChangeView>::empty());
    run
}

/// Starts a run of `command` in an overlay sandbox.
///
/// `root` asks for user 0 inside the sandbox. Without it `user_spec` names the user, as `uid` or
/// `uid:gid`; without a specification, or with an empty one, the command runs as the original
/// calling user. The run fails at once without a command, without root privileges, and with a
/// specification that cannot be read.
pub fn run(
    command: Vec<String>,
    root: bool,
    user_spec: Option<&str>,
    process: Process,
) -> (run: Run)
    ensures
        run@ == started(views(command@), root, opt_view(user_spec), process),
        wf(run@),
{
    if command.len() == 0 {
        return refuse(command, "No command specified".to_owned(), None);
    }
    if process.euid.raw != 0 {
        let line = write_command_line(&command);
        let text = concat(
            "vegas requires root privileges.\nTry: sudo vegas run -- ",
            line.as_str(),
        );
        return refuse(command, text, None);
    }
    let caller = calling_user(
        as_opt_str(&process.sudo_uid),
        as_opt_str(&process.sudo_gid),
        process.uid,
        process.gid,
    );
    assert(caller == caller_of(process));
    match parse_user_spec(root, user_spec, caller) {
        Err(e) => {
            match user_spec {
                Some(s) => refuse(command, e.message(s), Some(e.fault())),
                None => refuse(command, e.message(""), Some(e.fault())),
            }
        },
        Ok((uid, gid)) => {
            let run = Run {
                phase: RunPhase::MakeTemp,
                command,
                uid,
                gid,
                cwd: process.cwd,
                base: Vec::new(),
                changes: Vec::new(),
                context: None,
                cause: None,
            };
            assert(views(run.changes@) == Seq::<ChangeView>::empty());
            run
        },
    }
}

/// Reads the user's choice.
pub fn read_choice(line: &str) -> (choice: Choice)
    ensures
        choice == choice_of(line@),
{
    let said = read_answer(line);
    if spells(said.as_slice(), "a") {
        Choice::Apply
    } else if spells(said.as_slice(), "k") {
        Choice::Keep
    } else {
        Choice::Discard
    }
}

/// The lines that say how the command ended; `name` is the name of the signal, if one did it.
pub fn report_exit(status: WaitStatus, name: Option<&str>) -> (lines: Vec<String>)
    ensures
        views(lines@) == exit_report(status, opt_view(name)),
{
    let mut lines: Vec<String> = Vec::new();
    lines.push("\n─── vegas: sandbox exited ───────────────────────────────".to_owned());
    match status {
        WaitStatus::Exited(code) => {
            let mut line = "  Exit code: ".to_owned();
            push_decimal_signed(&mut line, code);
            lines.push(line);
        },
        WaitStatus::Signaled(_) => {
            if let Some(n) = name {
                lines.push(concat("  Killed by signal: ", n));
            }
        },
        WaitStatus::Other => {},
    }
    assert(views(lines@) == exit_report(status, opt_view(name)));
    lines
}

/// The menu that is shown before the user is asked about the changes.
pub fn show_menu(base: &[u8]) -> (lines: Vec<String>)
    ensures
        views(lines@) == menu(base@),
        shown_as_is(base@),
{
    let mut lines: Vec<String> = Vec::new();
    lines.push("".to_owned());
    lines.push("What would you like to do with these changes?".to_owned());
    lines.push("  [a] Apply  – copy changes to the real filesystem".to_owned());
    lines.push(before_path("  [k] Keep   – save the sandbox at ", base));
    lines.push("  [d] Discard – throw away all changes (default)".to_owned());
    assert(views(lines@) == menu(base@));
    lines
}

/// The arguments to execute `command` with: all its words, in their order. Where a word holds a
/// zero byte there are none, and the first such word is told.
pub fn exec_command(command: &Vec<String>) -> (args: Result<Vec<String>, NulFound>)
    ensures
        args is Ok == all_c_strings(views(command@)),
        args matches Ok(words) ==> views(words@) == views(command@),
        args matches Err(at) ==> {
            &&& at.word < command@.len()
            &&& at.word == nul_word(views(command@), 0)
            &&& at.position == nul_at(encode_utf8(command@[at.word as int]@), 0)
        },
{
    let mut args: Vec<String> = Vec::new();
    let ghost words = views(command@);
    let mut i: usize = 0;
    while i < command.len()
        invariant
            i <= command@.len(),
            words == views(command@),
            nul_word(words, 0) == nul_word(words, i as int),
            forall|j: int| 0 <= j < i ==> is_c_string(encode_utf8(#[trigger] words[j])),
            views(args@) == words.take(i as int),
        decreases command@.len() - i,
    {
        let ghost before = views(args@);
        assert(words[i as int] == command@[i as int]@);
        if let Some(position) = nul_position(command[i].as_str().as_bytes()) {
            return Err(NulFound { word: i, position });
        }
        args.push(command[i].clone());
        assert(views(args@) == before.push(command@[i as int]@));
        i = i + 1;
    }
    assert(words.take(i as int) == words);
    Ok(args)
}

impl Run {
    /// The changes that were collected.
    pub fn changes(&self) -> (changes: &Vec<Change>)
        ensures
            views(changes@) == self@.changes,
    {
        &self.changes
    }

    fn inside_base(&self, name: &str) -> (path: Vec<u8>)
        ensures
            path@ == inside(self@.base, name@),
    {
        join(self.base.as_slice(), name.as_bytes())
    }

    fn bind(&self, name: &str) -> (action: RunAction)
        ensures
            action@ == binding(self@.base, name@),
    {
        RunAction::Mount {
            source: join("/".as_bytes(), name.as_bytes()),
            target: join(self.inside_base("merged").as_slice(), name.as_bytes()),
            fs_type: None,
            bind: true,
            data: None,
        }
    }

    /// The mount of the overlay, with its options.
    fn setup_sandbox(&self) -> (action: RunAction)
        requires
            self@.phase == RunPhase::MountOverlay,
        ensures
            action@ == action_of(self@),
    {
        let mut options = "lowerdir=/,upperdir=".to_owned();
        options.append(display_path(self.inside_base("upper").as_slice()).as_str());
        options.append(",workdir=");
        options.append(display_path(self.inside_base("work").as_slice()).as_str());
        RunAction::Mount {
            source: slice_to_vec("overlay".as_bytes()),
            target: self.inside_base("merged"),
            fs_type: Some("overlay"),
            bind: false,
            data: Some(options),
        }
    }

    /// What is to be done next.
    pub fn action(&self) -> (action: RunAction)
        requires
            wf(self@),
        ensures
            action@ == action_of(self@),
    {
        match self.phase {
            RunPhase::Failed => RunAction::Fail {
                context: match &self.context {
                    Some(text) => Some(text.clone()),
                    None => None,
                },
                cause: self.cause,
            },
            RunPhase::MakeTemp => RunAction::CreateTempDir { prefix: "vegas-" },
            RunPhase::MakeUpper => RunAction::CreateDir { path: self.inside_base("upper") },
            RunPhase::MakeWork => RunAction::CreateDir { path: self.inside_base("work") },
            RunPhase::MakeMerged => RunAction::CreateDir { path: self.inside_base("merged") },
            RunPhase::Fork => RunAction::Fork,
            RunPhase::Unshare => RunAction::Unshare,
            RunPhase::MakePrivate => RunAction::MakePrivate { path: slice_to_vec("/".as_bytes()) },
            RunPhase::MountOverlay => self.setup_sandbox(),
            RunPhase::BindProc => self.bind("proc"),
            RunPhase::BindDev => self.bind("dev"),
            RunPhase::BindSys => self.bind("sys"),
            RunPhase::Chroot => RunAction::Chroot { path: self.inside_base("merged") },
            RunPhase::ChdirRoot => RunAction::Chdir { path: slice_to_vec("/".as_bytes()) },
            RunPhase::ChdirCwd => match &self.cwd {
                Some(path) => RunAction::Chdir { path: slice_to_vec(path.as_slice()) },
                None => RunAction::Chdir { path: Vec::new() },
            },
            RunPhase::SetGid => RunAction::SetGid { gid: self.gid },
            RunPhase::SetUid => RunAction::SetUid { uid: self.uid },
            RunPhase::Exec => RunAction::Exec {
                program: self.command[0].clone(),
                args: match exec_command(&self.command) {
                    Ok(args) => args,
                    Err(_) => Vec::new(),
                },
            },
            RunPhase::Exit => RunAction::Exit { code: 1 },
            RunPhase::Wait => RunAction::Wait,
            RunPhase::Collect => RunAction::Walk { upper: self.inside_base("upper") },
            RunPhase::Ask => RunAction::Ask { prompt: "Choice [a/k/d]: " },
            RunPhase::Apply => RunAction::Apply,
            RunPhase::Keep => RunAction::Keep,
            RunPhase::Finished => RunAction::Finish,
        }
    }

    fn to_phase(self, phase: RunPhase) -> (r: (Run, Vec<Line>))
        ensures
            r.0@ == at_phase(self@, phase),
            views(r.1@) == Seq::<LineView>::empty(),
    {
        let mut run = self;
        run.phase = phase;
        (run, nothing())
    }

    fn to_exec(self) -> (r: (Run, Vec<Line>))
        ensures
            r.0@ == ready_to_exec(self@).0,
            views(r.1@) == ready_to_exec(self@).1,
    {
        match exec_command(&self.command) {
            Ok(_) => self.to_phase(RunPhase::Exec),
            Err(at) => {
                let mut text = if at.word == 0 {
                    "vegas: invalid command name: nul byte found in provided data at position: ".to_owned()
                } else {
                    "vegas: invalid argument: nul byte found in provided data at position: ".to_owned()
                };
                push_decimal(&mut text, at.position as u128);
                let (run, _) = self.to_phase(RunPhase::Exit);
                (run, just(Line::Stderr(text)))
            },
        }
    }

    fn to_drop(self) -> (r: (Run, Vec<Line>))
        ensures
            r.0@ == ready_to_drop(self@).0,
            views(r.1@) == ready_to_drop(self@).1,
    {
        if drop_privileges(self.uid, self.gid) {
            self.to_phase(RunPhase::SetGid)
        } else {
            self.to_exec()
        }
    }

    fn done(self) -> (r: (Run, Vec<Line>))
        requires
            wf(self@),
        ensures
            r.0@ == after_done(self@).0,
            views(r.1@) == after_done(self@).1,
    {
        match self.phase {
            RunPhase::MakeUpper => self.to_phase(RunPhase::MakeWork),
            RunPhase::MakeWork => self.to_phase(RunPhase::MakeMerged),
            RunPhase::MakeMerged => self.to_phase(RunPhase::Fork),
            RunPhase::Unshare => self.to_phase(RunPhase::MakePrivate),
            RunPhase::MakePrivate => self.to_phase(RunPhase::MountOverlay),
            RunPhase::MountOverlay => self.to_phase(RunPhase::BindProc),
            RunPhase::BindProc => self.to_phase(RunPhase::BindDev),
            RunPhase::BindDev => self.to_phase(RunPhase::BindSys),
            RunPhase::BindSys => self.to_phase(RunPhase::Chroot),
            RunPhase::Chroot => self.to_phase(RunPhase::ChdirRoot),
            RunPhase::ChdirRoot => if self.cwd.is_some() {
                self.to_phase(RunPhase::ChdirCwd)
            } else {
                self.to_drop()
            },
            RunPhase::ChdirCwd => self.to_drop(),
            RunPhase::SetGid => self.to_phase(RunPhase::SetUid),
            RunPhase::SetUid => self.to_exec(),
            RunPhase::Apply => self.to_phase(RunPhase::Finished),
            RunPhase::Keep => self.to_phase(RunPhase::Finished),
            _ => (self, nothing()),
        }
    }

    fn complaint(&self) -> (text: Option<String>)
        requires
            wf(self@),
        ensures
            opt_text(text) == child_complaint(self@),
    {
        match self.phase {
            RunPhase::Unshare => Some("vegas: unshare(CLONE_NEWNS) failed: ".to_owned()),
            RunPhase::MakePrivate => Some(
                "vegas: Failed to set up sandbox: Failed to make mounts private: ".to_owned(),
            ),
            RunPhase::MountOverlay => Some(
                "vegas: Failed to set up sandbox: Failed to mount overlayfs. Make sure the kernel has CONFIG_OVERLAY_FS enabled.: ".to_owned(),
            ),
            RunPhase::BindProc => Some(
                "vegas: Failed to set up sandbox: Failed to bind-mount /proc: ".to_owned(),
            ),
            RunPhase::BindDev => Some(
                "vegas: Failed to set up sandbox: Failed to bind-mount /dev: ".to_owned(),
            ),
            RunPhase::BindSys => Some(
                "vegas: Failed to set up sandbox: Failed to bind-mount /sys: ".to_owned(),
            ),
            RunPhase::Chroot => Some(
                "vegas: Failed to set up sandbox: chroot(2) failed: ".to_owned(),
            ),
            RunPhase::ChdirRoot => Some(
                "vegas: Failed to set up sandbox: chdir(\"/\") failed: ".to_owned(),
            ),
            RunPhase::SetGid => Some(
                "vegas: Failed to drop privileges: setgid failed: ".to_owned(),
            ),
            RunPhase::SetUid => Some(
                "vegas: Failed to drop privileges: setuid failed: ".to_owned(),
            ),
            RunPhase::Exec => {
                let mut text = concat("vegas: exec '", self.command[0].as_str());
                text.append("' failed: ");
                Some(text)
            },
            _ => None,
        }
    }

    fn fail(self, context: Option<String>) -> (r: (Run, Vec<Line>))
        ensures
            r.0@ == (RunView {
                phase: RunPhase::Failed,
                context: opt_text(context),
                cause: None,
                ..self@
            }),
            views(r.1@) == Seq::<LineView>::empty(),
    {
        let mut run = self;
        run.phase = RunPhase::Failed;
        run.context = context;
        run.cause = None;
        (run, nothing())
    }

    fn failed(self, errno: i32) -> (r: (Run, Vec<Line>))
        requires
            wf(self@),
        ensures
            r.0@ == after_failure(self@, errno).0,
            views(r.1@) == after_failure(self@, errno).1,
    {
        match self.phase {
            RunPhase::MakeTemp => self.fail(
                Some("Failed to create temporary directory".to_owned()),
            ),
            RunPhase::MakeUpper => self.fail(Some("Failed to create upper dir".to_owned())),
            RunPhase::MakeWork => self.fail(Some("Failed to create work dir".to_owned())),
            RunPhase::MakeMerged => self.fail(Some("Failed to create merged dir".to_owned())),
            RunPhase::Fork => self.fail(Some("fork(2) failed".to_owned())),
            RunPhase::Wait => self.fail(Some("waitpid failed".to_owned())),
            RunPhase::Collect => self.fail(None),
            RunPhase::Ask => self.fail(None),
            RunPhase::Apply => self.fail(None),
            RunPhase::ChdirCwd => self.to_drop(),
            _ => match self.complaint() {
                Some(text) => {
                    let line = concat(text.as_str(), describe_errno(errno).as_str());
                    let (run, _) = self.to_phase(RunPhase::Exit);
                    (run, just(Line::Stderr(line)))
                },
                None => (self, nothing()),
            },
        }
    }

    fn waited(self, status: WaitStatus) -> (r: (Run, Vec<Line>))
        ensures
            r.0@ == at_phase(self@, RunPhase::Collect),
            views(r.1@) == out_lines(exit_report(status, name_of(status))),
    {
        let name = match status {
            WaitStatus::Signaled(raw) => name_signal(raw),
            _ => None,
        };
        let lines = to_stdout(report_exit(status, as_opt_str(&name)));
        let (run, _) = self.to_phase(RunPhase::Collect);
        (run, lines)
    }

    fn walked(self, entries: Vec<UpperEntry>) -> (r: (Run, Vec<Line>))
        ensures
            r.0@ == after_walk(self@, views(entries@)).0,
            views(r.1@) == after_walk(self@, views(entries@)).1,
    {
        let changes = match collect_changes(self.inside_base("upper").as_slice(), &entries) {
            Ok(changes) => changes,
            Err(_) => {
                return self.fail(Some("prefix not found".to_owned()));
            },
        };
        let mut texts = display_changes(&changes);
        let mut run = self;
        if changes.len() == 0 {
            run.phase = RunPhase::Finished;
        } else {
            run.phase = RunPhase::Ask;
            let ghost shown = views(texts@);
            let mut rest = show_menu(run.base.as_slice());
            let ghost more = views(rest@);
            texts.append(&mut rest);
            assert(views(texts@) == shown + more);
        }
        run.changes = changes;
        (run, to_stdout(texts))
    }

    fn answered(self, line: &str) -> (r: (Run, Vec<Line>))
        ensures
            r.0@ == after_answer(self@, line@).0,
            views(r.1@) == after_answer(self@, line@).1,
    {
        match read_choice(line) {
            Choice::Apply => self.to_phase(RunPhase::Apply),
            Choice::Keep => {
                let text = before_path("Sandbox kept at: ", self.base.as_slice());
                let (run, _) = self.to_phase(RunPhase::Keep);
                (run, just(Line::Stdout(text)))
            },
            Choice::Discard => {
                let (run, _) = self.to_phase(RunPhase::Finished);
                (run, just(Line::Stdout("Changes discarded.".to_owned())))
            },
        }
    }

    /// Takes in what came of the action, and gives the lines to be shown.
    pub fn next(self, event: RunEvent) -> (r: (Run, Vec<Line>))
        requires
            wf(self@),
        ensures
            r.0@ == step(self@, event@).0,
            views(r.1@) == step(self@, event@).1,
            wf(r.0@),
    {
        match (self.phase, event) {
            (_, RunEvent::Done) => self.done(),
            (_, RunEvent::Failed { errno }) => self.failed(errno),
            (RunPhase::MakeTemp, RunEvent::TempDir { path }) => {
                let mut run = self;
                run.phase = RunPhase::MakeUpper;
                run.base = path;
                (run, nothing())
            },
            (RunPhase::Fork, RunEvent::InChild) => self.to_phase(RunPhase::Unshare),
            (RunPhase::Fork, RunEvent::InParent) => self.to_phase(RunPhase::Wait),
            (RunPhase::Wait, RunEvent::Waited { status }) => self.waited(status),
            (RunPhase::Collect, RunEvent::Walked { entries }) => self.walked(entries),
            (RunPhase::Ask, RunEvent::Answer { line }) => self.answered(line.as_str()),
            _ => (self, nothing()),
        }
    }
}

/// The state that follows `s` when the events come one after another.
pub open spec fn reached(s: RunView, events: Seq<RunEventView>) -> RunView
    decreases events.len(),
{
    if events.len() == 0 {
        s
    } else {
        step(reached(s, events.drop_last()), events.last()).0
    }
}

/// Whatever comes of the actions, what holds in every state goes on to hold, and the command and
/// the user that it runs as stay what they are.
pub proof fn lemma_reached(s: RunView, events: Seq<RunEventView>)
    requires
        wf(s),
    ensures
        wf(reached(s, events)),
        reached(s, events).command == s.command,
        reached(s, events).uid == s.uid,
        reached(s, events).gid == s.gid,
        reached(s, events).cwd == s.cwd,
    decreases events.len(),
{
    if events.len() > 0 {
        lemma_reached(s, events.drop_last());
    }
}

/// Without a command, and without root privileges, nothing is done.
pub proof fn lemma_refusal_is_final(
    command: Seq<Seq<char>>,
    root: bool,
    user_spec: Option<Seq<char>>,
    process: Process,
    events: Seq<RunEventView>,
)
    requires
        command.len() == 0 || process.euid.raw != 0,
    ensures
        reached(started(command, root, user_spec, process), events) == started(
            command,
            root,
            user_spec,
            process,
        ),
        action_of(started(command, root, user_spec, process)) is Fail,
    decreases events.len(),
{
    if events.len() > 0 {
        lemma_refusal_is_final(command, root, user_spec, process, events.drop_last());
    }
}

/// The event is the user's choice to apply the changes.
pub open spec fn chooses_to_apply(e: RunEventView) -> bool {
    e matches RunEventView::Answer { line } && choice_of(line) == Choice::Apply
}

/// The changes are applied to the real filesystem only where the user chose that.
pub proof fn lemma_apply_needs_choice(s: RunView, events: Seq<RunEventView>)
    requires
        s.phase != RunPhase::Apply,
        reached(s, events).phase == RunPhase::Apply,
    ensures
        exists|i: int| 0 <= i < events.len() && chooses_to_apply(#[trigger] events[i]),
    decreases events.len(),
{
    if events.len() > 0 {
        let front = events.drop_last();
        if reached(s, front).phase == RunPhase::Apply {
            lemma_apply_needs_choice(s, front);
            let i = choose|i: int| 0 <= i < front.len() && chooses_to_apply(#[trigger] front[i]);
            assert(events[i] == front[i]);
        } else {
            assert(chooses_to_apply(events[events.len() - 1]));
        }
    }
}

/// The changes `changes` are those that the entries of the event record below `upper`.
pub open spec fn tells_changes(e: RunEventView, upper: Seq<u8>, changes: Seq<ChangeView>) -> bool {
    e matches RunEventView::Walked { entries } && all_below(upper, entries) && changes == collected(
        upper,
        entries,
    )
}

/// The phases in which it is up to the user what becomes of the changes.
pub open spec fn has_changes(phase: RunPhase) -> bool {
    phase == RunPhase::Ask || phase == RunPhase::Apply || phase == RunPhase::Keep
}

/// The changes that the user decides on, and that are applied, are those that the upper directory
/// of this very run records.
pub proof fn lemma_changes_are_recorded(s: RunView, events: Seq<RunEventView>)
    requires
        !has_changes(s.phase),
        has_changes(reached(s, events).phase),
    ensures
        exists|i: int|
            0 <= i < events.len() && tells_changes(
                #[trigger] events[i],
                inside(reached(s, events).base, "upper"@),
                reached(s, events).changes,
            ),
    decreases events.len(),
{
    if events.len() > 0 {
        let front = events.drop_last();
        let t = reached(s, front);
        let upper = inside(reached(s, events).base, "upper"@);
        if has_changes(t.phase) {
            lemma_changes_are_recorded(s, front);
            let i = choose|i: int|
                0 <= i < front.len() && tells_changes(
                    #[trigger] front[i],
                    inside(t.base, "upper"@),
                    t.changes,
                );
            assert(events[i] == front[i]);
            assert(tells_changes(events[i], upper, reached(s, events).changes));
        } else {
            assert(tells_changes(
                events[events.len() - 1],
                upper,
                reached(s, events).changes,
            ));
        }
    }
}

/// In the course of the events, the action of the phase `phase` was done.
pub open spec fn was_done(s: RunView, events: Seq<RunEventView>, phase: RunPhase) -> bool {
    exists|i: int|
        0 <= i < events.len() && #[trigger] events[i] is Done && reached(s, events.take(i)).phase
            == phase
}

proof fn lemma_was_done_now(s: RunView, events: Seq<RunEventView>, phase: RunPhase)
    requires
        events.len() > 0,
        events.last() is Done,
        reached(s, events.drop_last()).phase == phase,
    ensures
        was_done(s, events, phase),
{
    assert(events.take(events.len() - 1) == events.drop_last());
    assert(events[events.len() - 1] is Done);
}

proof fn lemma_was_done_before(s: RunView, events: Seq<RunEventView>, phase: RunPhase)
    requires
        events.len() > 0,
        was_done(s, events.drop_last(), phase),
    ensures
        was_done(s, events, phase),
{
    let front = events.drop_last();
    let i = choose|i: int|
        0 <= i < front.len() && #[trigger] front[i] is Done && reached(s, front.take(i)).phase
            == phase;
    assert(front.take(i) == events.take(i));
    assert(events[i] == front[i]);
}

/// The child works on the sandbox or in it.
pub open spec fn in_namespace(phase: RunPhase) -> bool {
    match phase {
        RunPhase::MakePrivate | RunPhase::MountOverlay | RunPhase::BindProc | RunPhase::BindDev
        | RunPhase::BindSys | RunPhase::Chroot => true,
        _ => in_sandbox(phase),
    }
}

/// The child works in the sandbox.
pub open spec fn in_sandbox(phase: RunPhase) -> bool {
    match phase {
        RunPhase::ChdirRoot | RunPhase::ChdirCwd | RunPhase::SetGid | RunPhase::SetUid
        | RunPhase::Exec => true,
        _ => false,
    }
}

/// How far the child has come with the sandbox: the steps count from 0, and all that happens
/// inside comes after them. What is not the child's is negative.
pub open spec fn setup_rank(phase: RunPhase) -> int {
    match phase {
        RunPhase::Unshare => 0,
        RunPhase::MakePrivate => 1,
        RunPhase::MountOverlay => 2,
        RunPhase::BindProc => 3,
        RunPhase::BindDev => 4,
        RunPhase::BindSys => 5,
        RunPhase::Chroot => 6,
        _ => if in_sandbox(phase) {
            7
        } else {
            -1
        },
    }
}

/// The sandbox is set up step by step: none is taken before the one before it was done.
pub proof fn lemma_setup_in_order(s: RunView, events: Seq<RunEventView>, phase: RunPhase)
    requires
        !in_namespace(s.phase),
        0 <= setup_rank(phase) < setup_rank(reached(s, events).phase),
    ensures
        was_done(s, events, phase),
    decreases events.len(),
{
    if events.len() > 0 {
        let front = events.drop_last();
        let p = reached(s, front).phase;
        if setup_rank(phase) < setup_rank(p) {
            lemma_setup_in_order(s, front, phase);
            lemma_was_done_before(s, events, phase);
        } else {
            assert(p == phase);
            lemma_was_done_now(s, events, phase);
        }
    }
}

/// Filesystems are mounted only in a mount namespace of their own and only once all mounts there
/// are private, so that none reaches the host; and mounts are made private only in that namespace.
pub proof fn lemma_mounts_are_private(s: RunView, events: Seq<RunEventView>)
    requires
        !in_namespace(s.phase),
        action_of(reached(s, events)) is Mount || action_of(reached(s, events)) is MakePrivate,
    ensures
        was_done(s, events, RunPhase::Unshare),
        action_of(reached(s, events)) is Mount ==> was_done(s, events, RunPhase::MakePrivate),
{
    lemma_setup_in_order(s, events, RunPhase::Unshare);
    if action_of(reached(s, events)) is Mount {
        lemma_setup_in_order(s, events, RunPhase::MakePrivate);
    }
}

/// The command is executed only inside the sandbox: in a mount namespace of its own, cut off from
/// that of the host, the overlay is mounted, the live `/proc`, `/dev` and `/sys` are bound into
/// it, and it is the root.
#[verifier::spinoff_prover]
pub proof fn lemma_command_is_confined(s: RunView, events: Seq<RunEventView>)
    requires
        !in_namespace(s.phase),
        action_of(reached(s, events)) is Exec,
    ensures
        was_done(s, events, RunPhase::Unshare),
        was_done(s, events, RunPhase::MakePrivate),
        was_done(s, events, RunPhase::MountOverlay),
        was_done(s, events, RunPhase::BindProc),
        was_done(s, events, RunPhase::BindDev),
        was_done(s, events, RunPhase::BindSys),
        was_done(s, events, RunPhase::Chroot),
{
    assert(was_done(s, events, RunPhase::Unshare)) by {
        lemma_setup_in_order(s, events, RunPhase::Unshare);
    }
    assert(was_done(s, events, RunPhase::MakePrivate)) by {
        lemma_setup_in_order(s, events, RunPhase::MakePrivate);
    }
    assert(was_done(s, events, RunPhase::MountOverlay)) by {
        lemma_setup_in_order(s, events, RunPhase::MountOverlay);
    }
    assert(was_done(s, events, RunPhase::BindProc)) by {
        lemma_setup_in_order(s, events, RunPhase::BindProc);
    }
    assert(was_done(s, events, RunPhase::BindDev)) by {
        lemma_setup_in_order(s, events, RunPhase::BindDev);
    }
    assert(was_done(s, events, RunPhase::BindSys)) by {
        lemma_setup_in_order(s, events, RunPhase::BindSys);
    }
    assert(was_done(s, events, RunPhase::Chroot)) by {
        lemma_setup_in_order(s, events, RunPhase::Chroot);
    }
}

/// The phases of the child.
pub open spec fn is_child(phase: RunPhase) -> bool {
    setup_rank(phase) >= 0 || phase == RunPhase::Exit
}

/// The phases in which the parent is once the child is there, and those in which a run is over.
pub open spec fn is_waiting_parent(phase: RunPhase) -> bool {
    match phase {
        RunPhase::Wait | RunPhase::Collect | RunPhase::Ask | RunPhase::Apply | RunPhase::Keep
        | RunPhase::Finished | RunPhase::Failed => true,
        _ => false,
    }
}

/// The child executes the command or exits: it never shows, applies or keeps the changes.
pub proof fn lemma_child_stays_child(s: RunView, events: Seq<RunEventView>)
    requires
        is_child(s.phase),
    ensures
        is_child(reached(s, events).phase),
    decreases events.len(),
{
    if events.len() > 0 {
        lemma_child_stays_child(s, events.drop_last());
    }
}

/// The parent never mounts anything and never executes the command.
pub proof fn lemma_parent_stays_parent(s: RunView, events: Seq<RunEventView>)
    requires
        is_waiting_parent(s.phase),
    ensures
        is_waiting_parent(reached(s, events).phase),
    decreases events.len(),
{
    if events.len() > 0 {
        lemma_parent_stays_parent(s, events.drop_last());
    }
}

/// Unless the command is to run as root, root is given up before it is executed: the group first,
/// then the user.
pub proof fn lemma_root_is_given_up(s: RunView, events: Seq<RunEventView>)
    requires
        wf(s),
        !in_namespace(s.phase),
        !stays_root(s.uid, s.gid),
        reached(s, events).phase == RunPhase::SetUid || reached(s, events).phase == RunPhase::Exec,
    ensures
        was_done(s, events, RunPhase::SetGid),
        reached(s, events).phase == RunPhase::Exec ==> was_done(s, events, RunPhase::SetUid),
    decreases events.len(),
{
    if events.len() > 0 {
        let front = events.drop_last();
        lemma_reached(s, front);
        let p = reached(s, front).phase;
        if p == RunPhase::SetUid || p == RunPhase::Exec {
            lemma_root_is_given_up(s, front);
            lemma_was_done_before(s, events, RunPhase::SetGid);
            if p == RunPhase::Exec {
                lemma_was_done_before(s, events, RunPhase::SetUid);
            } else if reached(s, events).phase == RunPhase::Exec {
                lemma_was_done_now(s, events, RunPhase::SetUid);
            }
        } else {
            lemma_was_done_now(s, events, RunPhase::SetGid);
        }
    }
}

/// Whoever runs a command under a specification of themselves runs it as themselves, whatever
/// privileges the program has and whatever the environment says.
pub proof fn lemma_identity_is_locked(
    command: Seq<Seq<char>>,
    process: Process,
    events: Seq<RunEventView>,
)
    ensures
        ({
            let spec = user_text(process.uid, process.gid);
            let s = started(command, false, Some(spec), process);
            match action_of(reached(s, events)) {
                RunActionView::SetGid { gid } => gid == process.gid,
                RunActionView::SetUid { uid } => uid == process.uid,
                RunActionView::Exec { .. } => stays_root(process.uid, process.gid) || (was_done(
                    s,
                    events,
                    RunPhase::SetGid,
                ) && was_done(s, events, RunPhase::SetUid)),
                _ => true,
            }
        }),
{
    let spec = user_text(process.uid, process.gid);
    let s = started(command, false, Some(spec), process);
    lemma_chosen_user_text(process.uid, process.gid, caller_of(process));
    lemma_reached(s, events);
    if s.phase == RunPhase::Failed {
        lemma_parent_stays_parent(s, events);
    } else if action_of(reached(s, events)) is Exec && !stays_root(process.uid, process.gid) {
        lemma_root_is_given_up(s, events);
    }
}

proof fn lemma_inside(base: Seq<u8>, name: Seq<char>)
    requires
        is_ascii_chars(name),
        name.len() > 0,
        name[0] != '/',
        name[0] != '.',
    ensures
        is_plain(encode_utf8(name)),
        is_below(inside(base, name), base),
{
    is_ascii_chars_encode_utf8(name);
    lemma_joined_components(base, encode_utf8(name));
}

/// Directories are made, and filesystems mounted, only below the temporary directory.
pub proof fn lemma_stays_inside(s: RunView)
    ensures
        match action_of(s) {
            RunActionView::CreateDir { path } => is_below(path, s.base),
            RunActionView::Mount { target, .. } => is_below(target, s.base),
            RunActionView::Chroot { path } => is_below(path, s.base),
            RunActionView::Walk { upper } => is_below(upper, s.base),
            _ => true,
        },
{
    reveal_strlit("upper");
    reveal_strlit("work");
    reveal_strlit("merged");
    reveal_strlit("proc");
    reveal_strlit("dev");
    reveal_strlit("sys");
    lemma_inside(s.base, "upper"@);
    lemma_inside(s.base, "work"@);
    lemma_inside(s.base, "merged"@);
    let merged = inside(s.base, "merged"@);
    lemma_inside(merged, "proc"@);
    lemma_inside(merged, "dev"@);
    lemma_inside(merged, "sys"@);
    lemma_below_transitive(inside(merged, "proc"@), merged, s.base);
    lemma_below_transitive(inside(merged, "dev"@), merged, s.base);
    lemma_below_transitive(inside(merged, "sys"@), merged, s.base);
}

} // verus!
