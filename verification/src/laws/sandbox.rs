//! What a run does, from the request to the end.

use crate::diff::{all_below, collected, summary, EntryView};
use crate::laws::text::lemma_first_nul;
use crate::order::views;
use crate::os::{errno_text, opt_text, signal_name};
use crate::path::SLASH;
use crate::sandbox::{
    action_of, command_line, exec_command, exit_report, lemma_reached, nul_word, reached, started,
    step, wf, NulFound, Process, RunAction, RunActionView, RunEvent, RunEventView, RunPhase,
    RunView, WaitStatus,
};
use crate::text::{answer, decimal, decimal_signed, is_c_string, utf8_lossy, LineView};
use crate::user::{named_user, number_or, Gid, Uid, UserSpecError};
use vstd::prelude::*;
use vstd::utf8::{encode_utf8, is_ascii_chars_encode_utf8};

verus! {

/// The line on standard error.
pub open spec fn complains(lines: Seq<LineView>, text: Seq<char>) -> bool {
    lines == seq![LineView::Stderr(text)]
}

/// The texts, each as a line on standard output.
pub open spec fn prints(lines: Seq<LineView>, texts: Seq<Seq<char>>) -> bool {
    &&& lines.len() == texts.len()
    &&& forall|i: int| 0 <= i < texts.len() ==> #[trigger] lines[i] == LineView::Stdout(texts[i])
}

/// `name` in the directory `base`.
pub open spec fn entry_of(base: Seq<u8>, name: Seq<char>) -> Seq<u8> {
    if base.len() == 0 || base.last() == SLASH {
        base + encode_utf8(name)
    } else {
        base + seq![SLASH] + encode_utf8(name)
    }
}

/// Whatever happens, the program that is executed is the first word of the request, and its
/// arguments are all the words of the request in their order.
pub proof fn lemma_request_is_executed(
    command: Seq<Seq<char>>,
    root: bool,
    user_spec: Option<Seq<char>>,
    process: Process,
    events: Seq<RunEventView>,
)
    ensures
        ({
            let s = started(command, root, user_spec, process);
            action_of(reached(s, events)) matches RunActionView::Exec { program, args } ==> {
                &&& command.len() > 0
                &&& program == command[0]
                &&& args == command
                &&& forall|i: int|
                    0 <= i < command.len() ==> !encode_utf8(#[trigger] command[i]).contains(0u8)
            }
        }),
{
    let s = started(command, root, user_spec, process);
    lemma_reached(s, events);
}

/// A request is refused exactly where there is no command, where the privileges are missing, and
/// where a user is named that cannot be read. Otherwise a temporary directory is made.
pub proof fn lemma_requests_accepted(
    command: Seq<Seq<char>>,
    root: bool,
    user_spec: Option<Seq<char>>,
    process: Process,
)
    ensures
        ({
            let a = action_of(started(command, root, user_spec, process));
            let misnamed = !root && user_spec is Some && user_spec->Some_0.len() > 0 && named_user(
                user_spec->Some_0,
            ) is Err;
            if command.len() == 0 {
                a == (RunActionView::Fail { context: Some("No command specified"@), cause: None })
            } else if process.euid.raw != 0 {
                a == (RunActionView::Fail {
                    context: Some(
                        "vegas requires root privileges.\nTry: sudo vegas run -- "@ + command_line(
                            command,
                        ),
                    ),
                    cause: None,
                })
            } else if misnamed {
                match named_user(user_spec->Some_0)->Err_0 {
                    UserSpecError::InvalidUid(fault) => a == (RunActionView::Fail {
                        context: Some("Invalid uid in --user '"@ + user_spec->Some_0 + "'"@),
                        cause: Some(fault),
                    }),
                    UserSpecError::InvalidGid(fault) => a == (RunActionView::Fail {
                        context: Some("Invalid gid in --user '"@ + user_spec->Some_0 + "'"@),
                        cause: Some(fault),
                    }),
                }
            } else {
                a == (RunActionView::CreateTempDir { prefix: "vegas-"@ })
            }
        }),
{
}

/// The words of a command line stand in their order, with a space between each two.
pub proof fn lemma_command_line(command: Seq<Seq<char>>, word: Seq<char>)
    ensures
        command_line(seq![word]) == word,
        command.len() > 0 ==> command_line(command.push(word)) == command_line(command) + " "@
            + word,
        command_line(Seq::empty()) == Seq::<char>::empty(),
{
    assert(command.push(word).drop_last() == command);
}

/// The user and the group that a request asks for: root on demand, else those that are named, else
/// those of the caller as sudo tells them, else those of the process.
pub open spec fn asked_for(
    root: bool,
    user_spec: Option<Seq<char>>,
    process: Process,
    uid: Uid,
    gid: Gid,
) -> bool {
    if root {
        uid.raw == 0 && gid.raw == 0
    } else if user_spec is Some && user_spec->Some_0.len() > 0 {
        named_user(user_spec->Some_0) == Ok::<(Uid, Gid), UserSpecError>((uid, gid))
    } else {
        &&& uid.raw == number_or(opt_text(process.sudo_uid), process.uid.raw)
        &&& gid.raw == number_or(opt_text(process.sudo_gid), process.gid.raw)
    }
}

/// Whatever happens, the group and the user that are taken on are those asked for, and they are
/// taken on exactly where they are not root's.
pub proof fn lemma_runs_as_asked(
    command: Seq<Seq<char>>,
    root: bool,
    user_spec: Option<Seq<char>>,
    process: Process,
    events: Seq<RunEventView>,
)
    ensures
        ({
            let s = reached(started(command, root, user_spec, process), events);
            &&& action_of(started(command, root, user_spec, process)) is Fail || asked_for(
                root,
                user_spec,
                process,
                s.uid,
                s.gid,
            )
            &&& action_of(s) matches RunActionView::SetGid { gid } ==> gid == s.gid && (s.uid.raw
                != 0 || s.gid.raw != 0)
            &&& action_of(s) matches RunActionView::SetUid { uid } ==> uid == s.uid && (s.uid.raw
                != 0 || s.gid.raw != 0)
        }),
{
    let s = started(command, root, user_spec, process);
    lemma_reached(s, events);
}

/// Where every step succeeds, the temporary directory gets its three directories, and the process
/// forks.
pub proof fn lemma_preparation(
    command: Seq<Seq<char>>,
    root: bool,
    user_spec: Option<Seq<char>>,
    process: Process,
    base: Seq<u8>,
)
    requires
        !(action_of(started(command, root, user_spec, process)) is Fail),
    ensures
        ({
            let s0 = started(command, root, user_spec, process);
            let s1 = step(s0, RunEventView::TempDir { path: base });
            let s2 = step(s1.0, RunEventView::Done);
            let s3 = step(s2.0, RunEventView::Done);
            let s4 = step(s3.0, RunEventView::Done);
            &&& action_of(s1.0) == (RunActionView::CreateDir { path: entry_of(base, "upper"@) })
            &&& action_of(s2.0) == (RunActionView::CreateDir { path: entry_of(base, "work"@) })
            &&& action_of(s3.0) == (RunActionView::CreateDir { path: entry_of(base, "merged"@) })
            &&& action_of(s4.0) is Fork
            &&& s4.0.base == base && s4.0.command == command && s4.0.cwd == (match process.cwd {
                Some(path) => Some(path@),
                None => None,
            })
            &&& s1.1.len() + s2.1.len() + s3.1.len() + s4.1.len() == 0
        }),
{
    lemma_names_are_relative();
}

proof fn lemma_names_are_relative()
    ensures
        forall|name: Seq<char>|
            (name == "upper"@ || name == "work"@ || name == "merged"@ || name == "proc"@ || name
                == "dev"@ || name == "sys"@) ==> (#[trigger] encode_utf8(name)).len() > 0
                && encode_utf8(name)[0] != SLASH,
        encode_utf8("/"@) == seq![SLASH],
{
    reveal_strlit("upper");
    reveal_strlit("work");
    reveal_strlit("merged");
    reveal_strlit("proc");
    reveal_strlit("dev");
    reveal_strlit("sys");
    reveal_strlit("/");
    is_ascii_chars_encode_utf8("upper"@);
    is_ascii_chars_encode_utf8("work"@);
    is_ascii_chars_encode_utf8("merged"@);
    is_ascii_chars_encode_utf8("proc"@);
    is_ascii_chars_encode_utf8("dev"@);
    is_ascii_chars_encode_utf8("sys"@);
    is_ascii_chars_encode_utf8("/"@);
    assert(encode_utf8("/"@) =~= seq![SLASH]);
}

/// The live tree `/name` bound into the merged directory.
pub open spec fn binds(a: RunActionView, base: Seq<u8>, name: Seq<char>) -> bool {
    a == RunActionView::Mount {
        source: seq![SLASH] + encode_utf8(name),
        target: entry_of(entry_of(base, "merged"@), name),
        fs_type: None,
        bind: true,
        data: None,
    }
}

/// Where every step succeeds, the child enters a namespace of its own, makes it private, mounts
/// the overlay of the root, binds the live trees, and steps into the merged directory.
pub proof fn lemma_setup(s: RunView)
    requires
        action_of(s) is Fork,
    ensures
        ({
            let s1 = step(s, RunEventView::InChild);
            let s2 = step(s1.0, RunEventView::Done);
            let s3 = step(s2.0, RunEventView::Done);
            let s4 = step(s3.0, RunEventView::Done);
            let s5 = step(s4.0, RunEventView::Done);
            let s6 = step(s5.0, RunEventView::Done);
            let s7 = step(s6.0, RunEventView::Done);
            let s8 = step(s7.0, RunEventView::Done);
            &&& action_of(s1.0) is Unshare
            &&& action_of(s2.0) == (RunActionView::MakePrivate { path: seq![SLASH] })
            &&& action_of(s3.0) == RunActionView::Mount {
                source: encode_utf8("overlay"@),
                target: entry_of(s.base, "merged"@),
                fs_type: Some("overlay"@),
                bind: false,
                data: Some(
                    "lowerdir=/,upperdir="@ + utf8_lossy(entry_of(s.base, "upper"@)) + ",workdir="@
                        + utf8_lossy(entry_of(s.base, "work"@)),
                ),
            }
            &&& binds(action_of(s4.0), s.base, "proc"@)
            &&& binds(action_of(s5.0), s.base, "dev"@)
            &&& binds(action_of(s6.0), s.base, "sys"@)
            &&& action_of(s7.0) == (RunActionView::Chroot { path: entry_of(s.base, "merged"@) })
            &&& s8.0 == RunView { phase: RunPhase::ChdirRoot, ..s }
            &&& action_of(s8.0) == (RunActionView::Chdir { path: seq![SLASH] })
            &&& s1.1.len() + s2.1.len() + s3.1.len() + s4.1.len() + s5.1.len() + s6.1.len()
                + s7.1.len() + s8.1.len() == 0
        }),
{
    lemma_names_are_relative();
    let merged = entry_of(s.base, "merged"@);
    assert(merged.last() != SLASH) by {
        reveal_strlit("merged");
        is_ascii_chars_encode_utf8("merged"@);
        assert(merged.last() == encode_utf8("merged"@).last());
    }
}

/// Inside, the working directory is restored where it is known and can be; root is given up where
/// it is not asked for, the group first; and the command is executed, where all of it can be
/// handed to the system.
pub proof fn lemma_entry(s: RunView, back: RunEventView)
    requires
        wf(s),
        s.phase == RunPhase::ChdirRoot,
        back is Done || back is Failed,
    ensures
        ({
            let t = step(s, RunEventView::Done);
            let u = if s.cwd is Some {
                step(t.0, back)
            } else {
                t
            };
            let v = if s.uid.raw == 0 && s.gid.raw == 0 {
                u
            } else {
                step(step(u.0, RunEventView::Done).0, RunEventView::Done)
            };
            &&& s.cwd is Some ==> action_of(t.0) == (RunActionView::Chdir {
                path: s.cwd->Some_0,
            }) && t.1.len() == 0
            &&& s.uid.raw != 0 || s.gid.raw != 0 ==> {
                &&& action_of(u.0) == (RunActionView::SetGid { gid: s.gid })
                &&& action_of(step(u.0, RunEventView::Done).0) == (RunActionView::SetUid {
                    uid: s.uid,
                })
                &&& u.1.len() == 0 && step(u.0, RunEventView::Done).1.len() == 0
            }
            &&& if forall|i: int|
                0 <= i < s.command.len() ==> !encode_utf8(#[trigger] s.command[i]).contains(0u8) {
                action_of(v.0) == (RunActionView::Exec {
                    program: s.command[0],
                    args: s.command,
                }) && v.1.len() == 0
            } else {
                action_of(v.0) == (RunActionView::Exit { code: 1 }) && v.1.len() == 1
                    && v.1[0] is Stderr
            }
        }),
{
}

/// The word that keeps a command from being executed is the first that holds a zero byte, and the
/// child says where that byte stands, whether or not it had to give up root.
pub proof fn lemma_unfit_word(s: RunView, back: RunEventView, word: int, at: int)
    requires
        wf(s),
        s.phase == RunPhase::ChdirRoot,
        back is Done || back is Failed,
        0 <= word < s.command.len(),
        forall|i: int| 0 <= i < word ==> !encode_utf8(#[trigger] s.command[i]).contains(0u8),
        0 <= at < encode_utf8(s.command[word]).len(),
        encode_utf8(s.command[word])[at] == 0u8,
        !encode_utf8(s.command[word]).take(at).contains(0u8),
    ensures
        ({
            let t = step(s, RunEventView::Done);
            let u = if s.cwd is Some {
                step(t.0, back)
            } else {
                t
            };
            let v = if s.uid.raw == 0 && s.gid.raw == 0 {
                u
            } else {
                step(step(u.0, RunEventView::Done).0, RunEventView::Done)
            };
            &&& action_of(v.0) == (RunActionView::Exit { code: 1 })
            &&& complains(
                v.1,
                (if word == 0 {
                    "vegas: invalid command name: nul byte found in provided data at position: "@
                } else {
                    "vegas: invalid argument: nul byte found in provided data at position: "@
                }) + decimal(at as nat),
            )
        }),
{
    let w = encode_utf8(s.command[word]);
    assert(w.contains(w[at]));
    assert(!is_c_string(encode_utf8(s.command[word])));
    lemma_nul_word(s.command, 0, word);
    lemma_first_nul(w, at);
}

proof fn lemma_nul_word(command: Seq<Seq<char>>, i: int, word: int)
    requires
        0 <= i <= word < command.len(),
        forall|k: int| 0 <= k < word ==> !encode_utf8(#[trigger] command[k]).contains(0u8),
        encode_utf8(command[word]).contains(0u8),
    ensures
        nul_word(command, i) == word,
    decreases word - i,
{
    if i < word {
        lemma_nul_word(command, i + 1, word);
    }
}

/// Where a step of the child fails, it says which and why, and exits; only a working directory
/// that cannot be restored is passed over.
pub proof fn lemma_child_failure(s: RunView, errno: i32)
    requires
        wf(s),
    ensures
        ({
            let t = step(s, RunEventView::Failed { errno });
            let gives_up = |text: Seq<char>|
                action_of(t.0) == (RunActionView::Exit { code: 1 }) && complains(
                    t.1,
                    text + errno_text(errno),
                );
            &&& action_of(s) is Unshare ==> gives_up("vegas: unshare(CLONE_NEWNS) failed: "@)
            &&& action_of(s) is MakePrivate ==> gives_up(
                "vegas: Failed to set up sandbox: Failed to make mounts private: "@,
            )
            &&& s.phase == RunPhase::MountOverlay ==> gives_up(
                "vegas: Failed to set up sandbox: Failed to mount overlayfs. Make sure the kernel has CONFIG_OVERLAY_FS enabled.: "@,
            )
            &&& s.phase == RunPhase::BindProc ==> gives_up(
                "vegas: Failed to set up sandbox: Failed to bind-mount /proc: "@,
            )
            &&& s.phase == RunPhase::BindDev ==> gives_up(
                "vegas: Failed to set up sandbox: Failed to bind-mount /dev: "@,
            )
            &&& s.phase == RunPhase::BindSys ==> gives_up(
                "vegas: Failed to set up sandbox: Failed to bind-mount /sys: "@,
            )
            &&& action_of(s) is Chroot ==> gives_up(
                "vegas: Failed to set up sandbox: chroot(2) failed: "@,
            )
            &&& s.phase == RunPhase::ChdirRoot ==> gives_up(
                "vegas: Failed to set up sandbox: chdir(\"/\") failed: "@,
            )
            &&& action_of(s) is SetGid ==> gives_up(
                "vegas: Failed to drop privileges: setgid failed: "@,
            )
            &&& action_of(s) is SetUid ==> gives_up(
                "vegas: Failed to drop privileges: setuid failed: "@,
            )
            &&& action_of(s) matches RunActionView::Exec { program, .. } ==> gives_up(
                "vegas: exec '"@ + program + "' failed: "@,
            )
            &&& s.phase == RunPhase::ChdirCwd ==> t == step(s, RunEventView::Done)
        }),
{
}

/// Where a step of the parent fails, the run fails with what is said of that step, and nothing is
/// printed.
pub proof fn lemma_parent_failure(s: RunView, errno: i32)
    ensures
        ({
            let t = step(s, RunEventView::Failed { errno });
            let fails = |context: Option<Seq<char>>|
                action_of(t.0) == (RunActionView::Fail { context, cause: None }) && t.1.len() == 0;
            &&& action_of(s) is CreateTempDir ==> fails(
                Some("Failed to create temporary directory"@),
            )
            &&& s.phase == RunPhase::MakeUpper ==> fails(Some("Failed to create upper dir"@))
            &&& s.phase == RunPhase::MakeWork ==> fails(Some("Failed to create work dir"@))
            &&& s.phase == RunPhase::MakeMerged ==> fails(Some("Failed to create merged dir"@))
            &&& action_of(s) is Fork ==> fails(Some("fork(2) failed"@))
            &&& action_of(s) is Wait ==> fails(Some("waitpid failed"@))
            &&& action_of(s) is Walk ==> fails(None)
            &&& action_of(s) is Ask ==> fails(None)
            &&& action_of(s) is Apply ==> fails(None)
        }),
{
}

/// The parent waits for the child, says how the command ended, and looks at the upper directory.
pub proof fn lemma_end_is_reported(s: RunView, status: WaitStatus)
    requires
        action_of(s) is Fork,
    ensures
        ({
            let t = step(s, RunEventView::InParent);
            let u = step(t.0, RunEventView::Waited { status });
            let head = "\n─── vegas: sandbox exited ───────────────────────────────"@;
            &&& action_of(t.0) is Wait && t.1.len() == 0
            &&& action_of(u.0) == (RunActionView::Walk { upper: entry_of(s.base, "upper"@) })
            &&& u.0 == RunView { phase: RunPhase::Collect, ..s }
            &&& match status {
                WaitStatus::Exited(code) => prints(
                    u.1,
                    seq![head, "  Exit code: "@ + decimal_signed(code as int)],
                ),
                WaitStatus::Signaled(raw) => match signal_name(raw) {
                    Some(name) => prints(u.1, seq![head, "  Killed by signal: "@ + name]),
                    None => prints(u.1, seq![head]),
                },
                WaitStatus::Other => prints(u.1, seq![head]),
            }
        }),
{
    lemma_names_are_relative();
}

/// Once the upper directory has been looked at, the user is asked exactly where something
/// changed, and it is over exactly where nothing did. All that changed is shown, and with it what
/// there is to choose from.
pub proof fn lemma_asked_where_something_changed(s: RunView, entries: Seq<EntryView>)
    requires
        action_of(s) is Walk,
        all_below(entry_of(s.base, "upper"@), entries),
    ensures
        ({
            let upper = entry_of(s.base, "upper"@);
            let t = step(s, RunEventView::Walked { entries });
            let changes = collected(upper, entries);
            &&& action_of(t.0) is Ask == (changes.len() >= 1)
            &&& action_of(t.0) is Finish == (changes.len() == 0)
            &&& action_of(t.0) is Ask ==> action_of(t.0) == (RunActionView::Ask {
                prompt: "Choice [a/k/d]: "@,
            })
            &&& t.0.changes == changes
            &&& t.0.base == s.base
            &&& changes.len() == 0 ==> prints(t.1, summary(changes))
            &&& changes.len() >= 1 ==> prints(
                t.1,
                summary(changes) + seq![
                    ""@,
                    "What would you like to do with these changes?"@,
                    "  [a] Apply  – copy changes to the real filesystem"@,
                    "  [k] Keep   – save the sandbox at "@ + utf8_lossy(s.base),
                    "  [d] Discard – throw away all changes (default)"@,
                ],
            )
        }),
{
    lemma_names_are_relative();
    lemma_phase_of_walk(s);
}

proof fn lemma_phase_of_walk(s: RunView)
    requires
        action_of(s) is Walk,
    ensures
        s.phase == RunPhase::Collect,
{
}

/// Entries outside the upper directory end the run.
pub proof fn lemma_strays_end_the_run(s: RunView, entries: Seq<EntryView>)
    requires
        action_of(s) is Walk,
        !all_below(entry_of(s.base, "upper"@), entries),
    ensures
        action_of(step(s, RunEventView::Walked { entries }).0) == (RunActionView::Fail {
            context: Some("prefix not found"@),
            cause: None,
        }),
        step(s, RunEventView::Walked { entries }).1.len() == 0,
{
    lemma_names_are_relative();
    lemma_phase_of_walk(s);
}

/// The changes are applied exactly where the answer is `a`, the sandbox is kept exactly where it
/// is `k`, and every other answer throws the changes away. What is applied is what was shown.
pub proof fn lemma_choice_is_followed(s: RunView, line: Seq<char>)
    requires
        action_of(s) is Ask,
    ensures
        ({
            let t = step(s, RunEventView::Answer { line });
            let u = step(t.0, RunEventView::Done);
            &&& action_of(t.0) is Apply == (answer(line) == "a"@)
            &&& action_of(t.0) is Keep == (answer(line) == "k"@)
            &&& action_of(t.0) is Finish == (answer(line) != "a"@ && answer(line) != "k"@)
            &&& t.0.changes == s.changes && t.0.base == s.base
            &&& action_of(t.0) is Apply ==> t.1.len() == 0
            &&& action_of(t.0) is Keep ==> prints(
                t.1,
                seq!["Sandbox kept at: "@ + utf8_lossy(s.base)],
            )
            &&& action_of(t.0) is Finish ==> prints(t.1, seq!["Changes discarded."@])
            &&& action_of(t.0) is Apply || action_of(t.0) is Keep ==> action_of(u.0) is Finish
                && u.1.len() == 0
        }),
{
    reveal_strlit("a");
    reveal_strlit("k");
    assert("a"@[0] == 'a' && "k"@[0] == 'k');
}

/// Only an event that answers the action changes anything: nothing else does.
pub proof fn lemma_other_events_are_idle(s: RunView, e: RunEventView)
    requires
        match e {
            RunEventView::Done => action_of(s) is Fail || action_of(s) is Finish || action_of(s) is Exit
                || action_of(s) is CreateTempDir || action_of(s) is Fork || action_of(s) is Exec
                || action_of(s) is Wait || action_of(s) is Walk || action_of(s) is Ask,
            RunEventView::Failed { .. } => action_of(s) is Fail || action_of(s) is Finish
                || action_of(s) is Exit || action_of(s) is Keep,
            RunEventView::TempDir { .. } => !(action_of(s) is CreateTempDir),
            RunEventView::InChild | RunEventView::InParent => !(action_of(s) is Fork),
            RunEventView::Waited { .. } => !(action_of(s) is Wait),
            RunEventView::Walked { .. } => !(action_of(s) is Walk),
            RunEventView::Answer { .. } => !(action_of(s) is Ask),
        },
    ensures
        step(s, e).0 == s,
        step(s, e).1.len() == 0,
{
}

/// Events are taken for what they are.
pub proof fn lemma_what_events_say(e: RunEvent)
    ensures
        match e {
            RunEvent::Done => e@ == RunEventView::Done,
            RunEvent::Failed { errno } => e@ == (RunEventView::Failed { errno }),
            RunEvent::TempDir { path } => e@ == (RunEventView::TempDir { path: path@ }),
            RunEvent::InChild => e@ == RunEventView::InChild,
            RunEvent::InParent => e@ == RunEventView::InParent,
            RunEvent::Waited { status } => e@ == (RunEventView::Waited { status }),
            RunEvent::Walked { entries } => e@ == (RunEventView::Walked {
                entries: views(entries@),
            }),
            RunEvent::Answer { line } => e@ == (RunEventView::Answer { line: line@ }),
        },
{
}

/// Actions ask for what they say.
pub proof fn lemma_what_actions_say(a: RunAction)
    ensures
        match a {
            RunAction::Fail { context, cause } => a@ == (RunActionView::Fail {
                context: match context {
                    Some(text) => Some(text@),
                    None => None,
                },
                cause,
            }),
            RunAction::CreateTempDir { prefix } => a@ == (RunActionView::CreateTempDir {
                prefix: prefix@,
            }),
            RunAction::CreateDir { path } => a@ == (RunActionView::CreateDir { path: path@ }),
            RunAction::Fork => a@ == RunActionView::Fork,
            RunAction::Unshare => a@ == RunActionView::Unshare,
            RunAction::MakePrivate { path } => a@ == (RunActionView::MakePrivate { path: path@ }),
            RunAction::Mount { source, target, fs_type, bind, data } => a@ == (
            RunActionView::Mount {
                source: source@,
                target: target@,
                fs_type: match fs_type {
                    Some(text) => Some(text@),
                    None => None,
                },
                bind,
                data: match data {
                    Some(text) => Some(text@),
                    None => None,
                },
            }),
            RunAction::Chroot { path } => a@ == (RunActionView::Chroot { path: path@ }),
            RunAction::Chdir { path } => a@ == (RunActionView::Chdir { path: path@ }),
            RunAction::SetGid { gid } => a@ == (RunActionView::SetGid { gid }),
            RunAction::SetUid { uid } => a@ == (RunActionView::SetUid { uid }),
            RunAction::Exec { program, args } => a@ == (RunActionView::Exec {
                program: program@,
                args: views(args@),
            }),
            RunAction::Exit { code } => a@ == (RunActionView::Exit { code }),
            RunAction::Wait => a@ == RunActionView::Wait,
            RunAction::Walk { upper } => a@ == (RunActionView::Walk { upper: upper@ }),
            RunAction::Ask { prompt } => a@ == (RunActionView::Ask { prompt: prompt@ }),
            RunAction::Apply => a@ == RunActionView::Apply,
            RunAction::Keep => a@ == RunActionView::Keep,
            RunAction::Finish => a@ == RunActionView::Finish,
        },
{
}

/// A command can be executed exactly where no word of it holds a zero byte, and is then handed on
/// word by word. Else the first such word is named, and where in it the first zero byte stands.
pub proof fn lemma_handing_on(command: &Vec<String>, args: Result<Vec<String>, NulFound>)
    requires
        call_ensures(exec_command, (command,), args),
    ensures
        args is Ok == forall|i: int|
            0 <= i < command@.len() ==> !encode_utf8((#[trigger] command@[i])@).contains(0u8),
        args matches Ok(words) ==> words@.len() == command@.len() && forall|i: int|
            0 <= i < words@.len() ==> (#[trigger] words@[i])@ == command@[i]@,
        args matches Err(found) ==> {
            &&& found.word < command@.len()
            &&& encode_utf8(command@[found.word as int]@).contains(0u8)
            &&& forall|i: int|
                0 <= i < found.word ==> !encode_utf8((#[trigger] command@[i])@).contains(0u8)
        },
{
    let all = views(command@);
    if args is Err {
        lemma_nul_word_is_first(all, 0);
        let k = args->Err_0.word as int;
        assert(all[k] == command@[k]@);
        assert forall|i: int| 0 <= i < k implies !encode_utf8(
            (#[trigger] command@[i])@,
        ).contains(0u8) by {
            assert(is_c_string(encode_utf8(all[i])));
        }
    }
    if let Ok(words) = args {
        assert forall|i: int| 0 <= i < words@.len() implies (#[trigger] words@[i])@
            == command@[i]@ by {
            assert(views(words@)[i] == all[i]);
        }
        assert(views(words@).len() == all.len());
        assert forall|i: int| 0 <= i < command@.len() implies !encode_utf8(
            (#[trigger] command@[i])@,
        ).contains(0u8) by {
            assert(is_c_string(encode_utf8(all[i])));
        }
    }
}

proof fn lemma_nul_word_is_first(command: Seq<Seq<char>>, i: int)
    requires
        0 <= i <= command.len(),
    ensures
        i <= nul_word(command, i) <= command.len(),
        nul_word(command, i) < command.len() ==> !is_c_string(
            encode_utf8(command[nul_word(command, i)]),
        ),
        forall|j: int|
            i <= j < nul_word(command, i) ==> is_c_string(encode_utf8(#[trigger] command[j])),
    decreases command.len() - i,
{
    if i < command.len() && is_c_string(encode_utf8(command[i])) {
        lemma_nul_word_is_first(command, i + 1);
    }
}

/// How the end of a command is told, whatever name its signal has.
pub proof fn lemma_report_of_the_end(status: WaitStatus, name: Option<Seq<char>>)
    ensures
        ({
            let lines = exit_report(status, name);
            let head = "\n─── vegas: sandbox exited ───────────────────────────────"@;
            match (status, name) {
                (WaitStatus::Exited(code), _) => lines == seq![
                    head,
                    "  Exit code: "@ + decimal_signed(code as int),
                ],
                (WaitStatus::Signaled(_), Some(n)) => lines == seq![
                    head,
                    "  Killed by signal: "@ + n,
                ],
                _ => lines == seq![head],
            }
        }),
{
}

} // verus!
