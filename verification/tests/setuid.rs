use vegas::setuid::{handle_empty_command, locks_identity, Setuid, SetuidAction, SetuidEvent};
use vegas::user::{Gid, Uid};

const EXE: &[u8] = b"/usr/bin/vegas-user";

/// The state in which root is asked about the program's own file.
fn asked() -> Setuid {
    let start = handle_empty_command(Uid::from_raw(0));
    assert_eq!(start.action(), SetuidAction::FindExe);
    let (state, lines) = start.next(SetuidEvent::Exe { path: EXE.to_vec() });
    assert_eq!(
        lines,
        vec![
            "No command provided.",
            "You are running as root. Set setuid permissions automatically on this binary?",
            "  Target: /usr/bin/vegas-user",
        ]
    );
    assert_eq!(
        state.action(),
        SetuidAction::Ask { prompt: "Apply root:root + mode 4755? [y/N]: " }
    );
    state
}

fn answer(line: &str) -> SetuidEvent {
    SetuidEvent::Answer { line: line.to_string() }
}

fn fail(text: &str) -> SetuidAction {
    SetuidAction::Fail { context: Some(text.to_string()) }
}

#[test]
fn identity_is_locked_by_name_and_by_privileges() {
    let root = Uid::from_raw(0);
    let user = Uid::from_raw(1000);
    assert!(locks_identity(b"/usr/bin/vegas-user", user, user));
    assert!(locks_identity(b"vegas-user", root, root));
    // The caller chooses the name, but not the owner of the file.
    assert!(locks_identity(b"vegas", user, root));
    assert!(locks_identity(b"", user, root));
    for name in ["/usr/bin/vegas", "", "/vegas-user/x", "my-vegas-user", "vegas-user/.."] {
        assert!(!locks_identity(name.as_bytes(), root, root), "{name}");
    }
}

#[test]
fn other_users_must_give_a_command() {
    let state = handle_empty_command(Uid::from_raw(1000));
    assert_eq!(
        state.action(),
        fail("No command specified. Usage: vegas-user -- <command> [args...]")
    );
}

#[test]
fn yes_sets_owner_and_mode() {
    let (state, lines) = asked().next(answer("YES\n"));
    assert!(lines.is_empty());
    assert_eq!(
        state.action(),
        SetuidAction::Chown { path: EXE.to_vec(), uid: Uid::from_raw(0), gid: Gid::from_raw(0) }
    );
    let (state, _) = state.next(SetuidEvent::Done);
    assert_eq!(state.action(), SetuidAction::Stat { path: EXE.to_vec() });
    let (state, _) = state.next(SetuidEvent::Done);
    assert_eq!(state.action(), SetuidAction::Chmod { path: EXE.to_vec(), mode: 0o4755 });
    let (state, lines) = state.next(SetuidEvent::Done);
    assert_eq!(
        lines,
        vec!["Done. Set owner root:root and mode 4755 on /usr/bin/vegas-user"]
    );
    assert_eq!(state.action(), SetuidAction::Finish);
}

#[test]
fn anything_else_is_skipped() {
    for line in ["n\n", "\n", "", "yep\n"] {
        let (state, lines) = asked().next(answer(line));
        assert_eq!(lines, vec!["Skipped."]);
        assert_eq!(state.action(), SetuidAction::Finish);
    }
}

#[test]
fn each_failure_has_its_context() {
    let (state, _) = handle_empty_command(Uid::from_raw(0)).next(SetuidEvent::Failed);
    assert_eq!(state.action(), fail("Failed to resolve current executable path"));

    let (state, _) = asked().next(SetuidEvent::Failed);
    assert_eq!(state.action(), SetuidAction::Fail { context: None });

    let (state, _) = asked().next(answer("y"));
    let (state, _) = state.next(SetuidEvent::Failed);
    assert_eq!(state.action(), fail("Failed to chown root:root for /usr/bin/vegas-user"));

    let (state, _) = asked().next(answer("y"));
    let (state, _) = state.next(SetuidEvent::Done);
    let (state, _) = state.next(SetuidEvent::Failed);
    assert_eq!(state.action(), fail("Failed to read metadata for /usr/bin/vegas-user"));

    let (state, _) = asked().next(answer("y"));
    let (state, _) = state.next(SetuidEvent::Done);
    let (state, _) = state.next(SetuidEvent::Done);
    let (state, lines) = state.next(SetuidEvent::Failed);
    assert!(lines.is_empty());
    assert_eq!(state.action(), fail("Failed to chmod 4755 for /usr/bin/vegas-user"));
}

#[test]
fn other_events_change_nothing() {
    let (state, lines) = asked().next(SetuidEvent::Done);
    assert!(lines.is_empty());
    assert_eq!(
        state.action(),
        SetuidAction::Ask { prompt: "Apply root:root + mode 4755? [y/N]: " }
    );
}
