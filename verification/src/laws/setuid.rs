//! What the program for ordinary users does without a command.

use crate::path::components;
use crate::setuid::{
    is_vegas_user, locks_identity, started, SetuidAction, SetuidActionView, SetuidEvent, SetuidEventView,
    SetuidState,
};
use crate::text::{answer, utf8_lossy};
use crate::user::{Gid, Uid};
use vstd::prelude::*;
use vstd::utf8::{encode_utf8, is_ascii_chars_encode_utf8};

verus! {

/// Root is told where the program's file stands and asked. After a `y` or a `yes` the file is
/// given to root and its group, looked at, and given the mode 4755; after anything else it is left
/// as it is.
pub proof fn lemma_course_of_the_offer(uid: Uid, path: Seq<u8>, line: Seq<char>)
    requires
        uid.raw == 0,
    ensures
        ({
            let s = started(uid);
            let n1 = s.step(SetuidEventView::Exe { path });
            let n2 = n1.0.step(SetuidEventView::Answer { line });
            let n3 = n2.0.step(SetuidEventView::Done);
            let n4 = n3.0.step(SetuidEventView::Done);
            let n5 = n4.0.step(SetuidEventView::Done);
            &&& s.action() == SetuidActionView::FindExe
            &&& n1.0.action() == (SetuidActionView::Ask {
                prompt: "Apply root:root + mode 4755? [y/N]: "@,
            })
            &&& n1.1 == seq![
                "No command provided."@,
                "You are running as root. Set setuid permissions automatically on this binary?"@,
                "  Target: "@ + utf8_lossy(path),
            ]
            &&& answer(line) != "y"@ && answer(line) != "yes"@ ==> n2.0.action()
                == SetuidActionView::Finish && n2.1 == seq!["Skipped."@]
            &&& answer(line) == "y"@ || answer(line) == "yes"@ ==> {
                &&& n2.0.action() == (SetuidActionView::Chown {
                    path,
                    uid: Uid { raw: 0 },
                    gid: Gid { raw: 0 },
                })
                &&& n3.0.action() == (SetuidActionView::Stat { path })
                &&& n4.0.action() == (SetuidActionView::Chmod { path, mode: 2541 })
                &&& n5.0.action() == SetuidActionView::Finish
                &&& n2.1.len() == 0 && n3.1.len() == 0 && n4.1.len() == 0
                &&& n5.1 == seq!["Done. Set owner root:root and mode 4755 on "@ + utf8_lossy(path)]
            }
        }),
{
}

/// Whoever is not root is told how to call the program.
pub proof fn lemma_no_offer(uid: Uid)
    requires
        uid.raw != 0,
    ensures
        started(uid).action() == (SetuidActionView::Fail {
            context: Some("No command specified. Usage: vegas-user -- <command> [args...]"@),
        }),
{
}

/// Each step that fails ends the offer, and says what failed.
pub proof fn lemma_failures(s: SetuidState)
    ensures
        ({
            let (t, lines) = s.step(SetuidEventView::Failed);
            &&& lines.len() == 0
            &&& match s.action() {
                SetuidActionView::Fail { .. } | SetuidActionView::Finish => t == s,
                SetuidActionView::FindExe => t.action() == (SetuidActionView::Fail {
                    context: Some("Failed to resolve current executable path"@),
                }),
                SetuidActionView::Ask { .. } => t.action() == (SetuidActionView::Fail {
                    context: None,
                }),
                SetuidActionView::Chown { path, .. } => t.action() == (SetuidActionView::Fail {
                    context: Some("Failed to chown root:root for "@ + utf8_lossy(path)),
                }),
                SetuidActionView::Stat { path } => t.action() == (SetuidActionView::Fail {
                    context: Some("Failed to read metadata for "@ + utf8_lossy(path)),
                }),
                SetuidActionView::Chmod { path, .. } => t.action() == (SetuidActionView::Fail {
                    context: Some("Failed to chmod 4755 for "@ + utf8_lossy(path)),
                }),
            }
        }),
{
}

/// The event is one that can come of the action.
pub open spec fn answers(a: SetuidActionView, e: SetuidEventView) -> bool {
    match a {
        SetuidActionView::Fail { .. } | SetuidActionView::Finish => false,
        SetuidActionView::FindExe => e is Exe || e is Failed,
        SetuidActionView::Ask { .. } => e is Answer || e is Failed,
        _ => e is Done || e is Failed,
    }
}

/// Any other event changes nothing and shows nothing.
pub proof fn lemma_stray_events(s: SetuidState, e: SetuidEventView)
    requires
        !answers(s.action(), e),
    ensures
        s.step(e) == (s, Seq::<Seq<char>>::empty()),
{
}

/// The program is in charge where the last component of the name that it was started under is
/// `vegas-user`.
pub proof fn lemma_own_name(program: Seq<u8>)
    ensures
        is_vegas_user(program) == (components(program).len() > 0 && components(program).last()
            == seq![118u8, 101u8, 103u8, 97u8, 115u8, 45u8, 117u8, 115u8, 101u8, 114u8]),
{
    reveal_strlit("vegas-user");
    is_ascii_chars_encode_utf8("vegas-user"@);
    assert(encode_utf8("vegas-user"@) =~= seq![
        118u8,
        101u8,
        103u8,
        97u8,
        115u8,
        45u8,
        117u8,
        115u8,
        101u8,
        114u8,
    ]);
}

/// Events are taken for what they are.
pub proof fn lemma_what_events_say(e: SetuidEvent)
    ensures
        match e {
            SetuidEvent::Done => e@ == SetuidEventView::Done,
            SetuidEvent::Failed => e@ == SetuidEventView::Failed,
            SetuidEvent::Exe { path } => e@ == (SetuidEventView::Exe { path: path@ }),
            SetuidEvent::Answer { line } => e@ == (SetuidEventView::Answer { line: line@ }),
        },
{
}

/// Actions ask for what they say.
pub proof fn lemma_what_actions_say(a: SetuidAction)
    ensures
        match a {
            SetuidAction::Fail { context: None } => a@ == (SetuidActionView::Fail { context: None }),
            SetuidAction::Fail { context: Some(text) } => a@ == (SetuidActionView::Fail {
                context: Some(text@),
            }),
            SetuidAction::FindExe => a@ == SetuidActionView::FindExe,
            SetuidAction::Ask { prompt } => a@ == (SetuidActionView::Ask { prompt: prompt@ }),
            SetuidAction::Chown { path, uid, gid } => a@ == (SetuidActionView::Chown {
                path: path@,
                uid,
                gid,
            }),
            SetuidAction::Stat { path } => a@ == (SetuidActionView::Stat { path: path@ }),
            SetuidAction::Chmod { path, mode } => a@ == (SetuidActionView::Chmod {
                path: path@,
                mode,
            }),
            SetuidAction::Finish => a@ == SetuidActionView::Finish,
        },
{
}

/// Whoever runs with the privileges of another user, and whoever calls the program by its own name,
/// runs the command as the calling user.
pub proof fn lemma_who_is_locked(program: &[u8], uid: Uid, euid: Uid, b: bool)
    requires
        call_ensures(locks_identity, (program, uid, euid), b),
    ensures
        uid.raw != euid.raw ==> b,
        uid.raw == euid.raw ==> b == is_vegas_user(program@),
{
}

} // verus!
