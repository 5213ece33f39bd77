use vegas::apply::{
    apply_changes, delete_file, Apply, ApplyAction, ApplyEvent, Deletion, FileKind,
};
use vegas::diff::{Change, ChangeKind};

fn change(real: &str, kind: ChangeKind) -> Change {
    Change {
        real_path: real.as_bytes().to_vec(),
        upper_path: format!("/u{real}").into_bytes(),
        kind,
    }
}

fn bytes(text: &str) -> Vec<u8> {
    text.as_bytes().to_vec()
}

/// Expects the action, gives the event and expects that nothing is printed.
fn quiet(state: Apply, action: ApplyAction, event: ApplyEvent) -> Apply {
    assert_eq!(state.action(), action);
    let (state, lines) = state.next(event);
    assert!(lines.is_empty());
    state
}

fn stat(path: &str) -> ApplyAction {
    ApplyAction::Stat { path: bytes(path) }
}

fn create_dir(path: &str) -> ApplyAction {
    ApplyAction::CreateDir { path: bytes(path) }
}

fn probe(path: &str) -> ApplyAction {
    ApplyAction::Probe { path: bytes(path) }
}

fn probed(exists: bool, dir: bool, symlink: bool) -> ApplyEvent {
    ApplyEvent::Probed { exists, dir, symlink }
}

fn fail(context: &str) -> ApplyAction {
    ApplyAction::Fail { context: context.to_string() }
}

fn found(kind: FileKind) -> ApplyEvent {
    ApplyEvent::Found { kind, mode: 0o640 }
}

#[test]
fn nothing_to_apply() {
    let changes = Vec::new();
    let (state, lines) = apply_changes(&changes);
    assert_eq!(lines, vec!["Nothing to apply."]);
    assert_eq!(state.action(), ApplyAction::Finish);
}

#[test]
fn file_is_copied_with_its_permissions() {
    let changes = vec![change("/etc/hosts", ChangeKind::Modified)];
    let (state, lines) = apply_changes(&changes);
    assert_eq!(lines, vec!["Applying 1 change(s) to the real filesystem…"]);
    let state = quiet(state, stat("/u/etc/hosts"), found(FileKind::Other));
    let state = quiet(state, create_dir("/etc"), ApplyEvent::Done);
    let state = quiet(state, probe("/etc/hosts"), probed(true, false, false));
    let copy = ApplyAction::Copy { from: bytes("/u/etc/hosts"), to: bytes("/etc/hosts") };
    let state = quiet(state, copy, ApplyEvent::Done);
    assert_eq!(
        state.action(),
        ApplyAction::SetPermissions { path: bytes("/etc/hosts"), mode: 0o640 }
    );
    let (state, lines) = state.next(ApplyEvent::Done);
    assert_eq!(lines, vec!["  ~ /etc/hosts [modified]", "Done."]);
    assert_eq!(state.action(), ApplyAction::Finish);
}

#[test]
fn link_makes_way_for_a_file() {
    let changes = vec![change("/etc/hosts", ChangeKind::Modified)];
    for leads_somewhere in [true, false] {
        let (state, _) = apply_changes(&changes);
        let state = quiet(state, stat("/u/etc/hosts"), found(FileKind::Other));
        let state = quiet(state, create_dir("/etc"), ApplyEvent::Done);
        let state = quiet(state, probe("/etc/hosts"), probed(leads_somewhere, false, true));
        let remove = ApplyAction::RemoveFile { path: bytes("/etc/hosts") };
        let state = quiet(state, remove, ApplyEvent::Done);
        assert_eq!(
            state.action(),
            ApplyAction::Copy { from: bytes("/u/etc/hosts"), to: bytes("/etc/hosts") }
        );
    }
}

#[test]
fn symbolic_link_is_recreated() {
    let changes = vec![change("/bin/sh", ChangeKind::Added)];
    let (state, _) = apply_changes(&changes);
    let state = quiet(state, stat("/u/bin/sh"), found(FileKind::Symlink));
    let state = quiet(state, create_dir("/bin"), ApplyEvent::Done);
    let read = ApplyAction::ReadLink { path: bytes("/u/bin/sh") };
    let state = quiet(state, read, ApplyEvent::Link { target: bytes("dash") });
    // What stands in the way is removed, and whether that succeeds does not matter.
    let unlink = ApplyAction::RemoveFile { path: bytes("/bin/sh") };
    let state = quiet(state, unlink, ApplyEvent::Failed);
    assert_eq!(
        state.action(),
        ApplyAction::Symlink { target: bytes("dash"), path: bytes("/bin/sh") }
    );
    let (state, lines) = state.next(ApplyEvent::Done);
    assert_eq!(lines, vec!["  ~ /bin/sh [added]", "Done."]);
    assert_eq!(state.action(), ApplyAction::Finish);
}

#[test]
fn directory_is_created() {
    let changes = vec![change("/opt/x", ChangeKind::Added)];
    let (state, _) = apply_changes(&changes);
    let state = quiet(state, stat("/u/opt/x"), found(FileKind::Dir));
    let state = quiet(state, probe("/opt/x"), probed(false, false, false));
    assert_eq!(state.action(), create_dir("/opt/x"));
    let (state, lines) = state.next(ApplyEvent::Done);
    assert_eq!(lines, vec!["  + /opt/x [directory]", "Done."]);
    assert_eq!(state.action(), ApplyAction::Finish);
}

#[test]
fn files_and_links_make_way_for_a_directory() {
    let changes = vec![change("/opt/x", ChangeKind::Modified)];
    for event in [probed(true, false, false), probed(true, true, true), probed(false, false, true)]
    {
        let (state, _) = apply_changes(&changes);
        let state = quiet(state, stat("/u/opt/x"), found(FileKind::Dir));
        let state = quiet(state, probe("/opt/x"), event);
        let remove = ApplyAction::RemoveFile { path: bytes("/opt/x") };
        let state = quiet(state, remove, ApplyEvent::Done);
        assert_eq!(state.action(), create_dir("/opt/x"));
    }
}

#[test]
fn deletion_goes_by_what_stands_there() {
    assert_eq!(delete_file(false, false, false), Deletion::Nothing);
    assert_eq!(delete_file(true, true, false), Deletion::RemoveDir);
    assert_eq!(delete_file(true, false, false), Deletion::RemoveFile);
    assert_eq!(delete_file(true, true, true), Deletion::RemoveFile);
    assert_eq!(delete_file(false, false, true), Deletion::RemoveFile);
}

#[test]
fn deletion_removes_what_is_there() {
    let changes = vec![change("/a", ChangeKind::Deleted)];
    let (state, _) = apply_changes(&changes);
    assert_eq!(state.action(), probe("/a"));
    let (state, lines) = state.next(probed(false, false, false));
    assert_eq!(lines, vec!["Done."]);
    assert_eq!(state.action(), ApplyAction::Finish);

    for (event, action) in [
        (probed(true, true, false), ApplyAction::RemoveDir { path: bytes("/a") }),
        (probed(true, false, false), ApplyAction::RemoveFile { path: bytes("/a") }),
        (probed(true, true, true), ApplyAction::RemoveFile { path: bytes("/a") }),
        (probed(false, false, true), ApplyAction::RemoveFile { path: bytes("/a") }),
    ] {
        let (state, _) = apply_changes(&changes);
        let state = quiet(state, probe("/a"), event);
        assert_eq!(state.action(), action);
        let (state, lines) = state.next(ApplyEvent::Done);
        assert_eq!(lines, vec!["  - /a [deleted]", "Done."]);
        assert_eq!(state.action(), ApplyAction::Finish);
    }
}

#[test]
fn changes_are_applied_in_their_order() {
    let changes = vec![
        change("/a", ChangeKind::Deleted),
        change("/b", ChangeKind::Added),
        change("/c", ChangeKind::Modified),
    ];
    let (state, lines) = apply_changes(&changes);
    assert_eq!(lines, vec!["Applying 3 change(s) to the real filesystem…"]);
    let gone = ApplyEvent::Probed { exists: false, dir: false, symlink: false };
    let state = quiet(state, ApplyAction::Probe { path: bytes("/a") }, gone);
    let state = quiet(state, stat("/u/b"), found(FileKind::Dir));
    let state = quiet(state, probe("/b"), probed(true, true, false));
    assert_eq!(state.action(), create_dir("/b"));
    let (state, lines) = state.next(ApplyEvent::Done);
    assert_eq!(lines, vec!["  + /b [directory]"]);
    assert_eq!(state.action(), stat("/u/c"));
}

#[test]
fn parent_of_the_root_is_not_created() {
    let changes = vec![change("/", ChangeKind::Modified)];
    let (state, _) = apply_changes(&changes);
    let state = quiet(state, stat("/u/"), found(FileKind::Other));
    let state = quiet(state, probe("/"), probed(true, true, false));
    assert_eq!(state.action(), ApplyAction::Copy { from: bytes("/u/"), to: bytes("/") });
}

#[test]
fn each_failure_while_writing_has_its_context() {
    let changes = vec![change("/d/f", ChangeKind::Modified)];
    let begin = || apply_changes(&changes).0;
    let after_stat = |kind| begin().next(found(kind)).0;
    let after_parent = |kind| after_stat(kind).next(ApplyEvent::Done).0;
    let after_link =
        || after_parent(FileKind::Symlink).next(ApplyEvent::Link { target: bytes("t") }).0;
    let after_probe =
        |link| after_parent(FileKind::Other).next(probed(true, false, link)).0;
    for (state, context) in [
        (begin(), "Cannot stat upper file /u/d/f"),
        (
            after_stat(FileKind::Dir).next(probed(true, true, false)).0,
            "Cannot create directory /d/f",
        ),
        (after_stat(FileKind::Dir).next(probed(true, false, false)).0, "Cannot remove /d/f"),
        (after_stat(FileKind::Other), "Cannot create parent dir /d"),
        (after_parent(FileKind::Symlink), "Cannot read symlink /u/d/f"),
        (after_link().next(ApplyEvent::Done).0, "Cannot create symlink /d/f -> t"),
        (after_probe(true), "Cannot remove /d/f"),
        (after_probe(false), "Cannot copy /u/d/f → /d/f"),
        (
            after_probe(false).next(ApplyEvent::Done).0,
            "Cannot set permissions on /d/f",
        ),
    ] {
        let (state, lines) = state.next(ApplyEvent::Failed);
        assert!(lines.is_empty());
        assert_eq!(state.action(), fail(context));
        // A failure is final.
        let state = quiet(state, fail(context), ApplyEvent::Done);
        assert_eq!(state.action(), fail(context));
    }
}

#[test]
fn each_failure_while_deleting_has_its_context() {
    let changes = vec![change("/a", ChangeKind::Deleted)];
    for (dir, context) in [(true, "Cannot remove directory /a"), (false, "Cannot remove /a")] {
        let (state, _) = apply_changes(&changes);
        let (state, _) = state.next(ApplyEvent::Probed { exists: true, dir, symlink: false });
        let (state, _) = state.next(ApplyEvent::Failed);
        assert_eq!(state.action(), fail(context));
    }
}
