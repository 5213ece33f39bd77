use vegas::diff::{Change, ChangeKind, UpperEntry};
use vegas::sandbox::{
    exec_command, read_choice, report_exit, run, show_menu, Choice, NulFound, Process, Run,
    RunAction, RunEvent, WaitStatus,
};
use vegas::text::{Line, NumberFault};
use vegas::user::{Gid, Uid};

const BASE: &[u8] = b"/tmp/vegas-Ab12";

fn root_process() -> Process {
    Process {
        euid: Uid::from_raw(0),
        uid: Uid::from_raw(0),
        gid: Gid::from_raw(0),
        sudo_uid: Some("1000".to_string()),
        sudo_gid: Some("1001".to_string()),
        cwd: Some(b"/home/me".to_vec()),
    }
}

fn words(command: &[&str]) -> Vec<String> {
    command.iter().map(|w| w.to_string()).collect()
}

fn start(command: &[&str], root: bool) -> Run {
    run(words(command), root, None, root_process())
}

/// Gives the event and expects that nothing is printed.
fn quiet(state: Run, event: RunEvent) -> Run {
    let (state, lines) = state.next(event);
    assert!(lines.is_empty());
    state
}

/// A run up to the fork.
fn prepared(command: &[&str], root: bool) -> Run {
    let state = start(command, root);
    assert_eq!(state.action(), RunAction::CreateTempDir { prefix: "vegas-" });
    let mut state = quiet(state, RunEvent::TempDir { path: BASE.to_vec() });
    for name in ["upper", "work", "merged"] {
        let path = [BASE, b"/", name.as_bytes()].concat();
        assert_eq!(state.action(), RunAction::CreateDir { path });
        state = quiet(state, RunEvent::Done);
    }
    assert_eq!(state.action(), RunAction::Fork);
    state
}

/// Takes a run from its start to where the child gives up root.
fn child_up_to_drop(state: Run) -> Run {
    let mut state = quiet(state, RunEvent::TempDir { path: BASE.to_vec() });
    for _ in 0..3 {
        state = quiet(state, RunEvent::Done);
    }
    state = quiet(state, RunEvent::InChild);
    for _ in 0..9 {
        state = quiet(state, RunEvent::Done);
    }
    state
}

/// A run in the child that has entered its namespace.
fn in_namespace(command: &[&str], root: bool) -> Run {
    let state = quiet(prepared(command, root), RunEvent::InChild);
    assert_eq!(state.action(), RunAction::Unshare);
    quiet(state, RunEvent::Done)
}

/// A run in the child that has its root in the merged view.
fn confined(command: &[&str], root: bool) -> Run {
    let mut state = in_namespace(command, root);
    assert_eq!(state.action(), RunAction::MakePrivate { path: b"/".to_vec() });
    state = quiet(state, RunEvent::Done);
    assert_eq!(
        state.action(),
        RunAction::Mount {
            source: b"overlay".to_vec(),
            target: b"/tmp/vegas-Ab12/merged".to_vec(),
            fs_type: Some("overlay"),
            bind: false,
            data: Some(
                "lowerdir=/,upperdir=/tmp/vegas-Ab12/upper,workdir=/tmp/vegas-Ab12/work"
                    .to_string()
            ),
        }
    );
    state = quiet(state, RunEvent::Done);
    for name in ["proc", "dev", "sys"] {
        assert_eq!(
            state.action(),
            RunAction::Mount {
                source: format!("/{name}").into_bytes(),
                target: format!("/tmp/vegas-Ab12/merged/{name}").into_bytes(),
                fs_type: None,
                bind: true,
                data: None,
            }
        );
        state = quiet(state, RunEvent::Done);
    }
    assert_eq!(state.action(), RunAction::Chroot { path: b"/tmp/vegas-Ab12/merged".to_vec() });
    state = quiet(state, RunEvent::Done);
    assert_eq!(state.action(), RunAction::Chdir { path: b"/".to_vec() });
    quiet(state, RunEvent::Done)
}

/// A run in the parent whose child has ended.
fn ended() -> Run {
    let state = quiet(prepared(&["true"], true), RunEvent::InParent);
    assert_eq!(state.action(), RunAction::Wait);
    let (state, _) = state.next(RunEvent::Waited { status: WaitStatus::Exited(0) });
    assert_eq!(state.action(), RunAction::Walk { upper: b"/tmp/vegas-Ab12/upper".to_vec() });
    state
}

fn entry(path: &str) -> UpperEntry {
    UpperEntry {
        path: path.as_bytes().to_vec(),
        char_device: false,
        rdev: 0,
        dir: false,
        lookups: Vec::new(),
        real_exists: false,
        real_link: false,
        real_dir: false,
        held: Vec::new(),
    }
}

fn one_entry() -> Vec<UpperEntry> {
    vec![entry("/tmp/vegas-Ab12/upper/new")]
}

fn one_change() -> Vec<Change> {
    vec![Change {
        real_path: b"/new".to_vec(),
        upper_path: b"/tmp/vegas-Ab12/upper/new".to_vec(),
        kind: ChangeKind::Added,
    }]
}

/// A run in the parent that asks what to do with the changes.
fn asked() -> Run {
    let (state, _) = ended().next(RunEvent::Walked { entries: one_entry() });
    assert_eq!(state.action(), RunAction::Ask { prompt: "Choice [a/k/d]: " });
    state
}

fn answer(line: &str) -> RunEvent {
    RunEvent::Answer { line: line.to_string() }
}

fn fail(text: &str) -> RunAction {
    RunAction::Fail { context: Some(text.to_string()), cause: None }
}

fn out(lines: &[&str]) -> Vec<Line> {
    lines.iter().map(|l| Line::Stdout(l.to_string())).collect()
}

fn err(line: &str) -> Vec<Line> {
    vec![Line::Stderr(line.to_string())]
}

#[test]
fn a_command_is_needed() {
    assert_eq!(start(&[], false).action(), fail("No command specified"));
    let mut process = root_process();
    process.euid = Uid::from_raw(1000);
    assert_eq!(
        run(Vec::new(), false, None, process).action(),
        fail("No command specified")
    );
}

#[test]
fn only_root_may_run() {
    let mut process = root_process();
    process.euid = Uid::from_raw(1000);
    assert_eq!(
        run(words(&["apt", "install", "curl"]), true, Some("bad"), process).action(),
        fail("vegas requires root privileges.\nTry: sudo vegas run -- apt install curl")
    );
}

#[test]
fn effective_user_decides_on_the_privileges() {
    // A set-user-id program: the real user is not root.
    let mut process = root_process();
    process.uid = Uid::from_raw(1000);
    process.gid = Gid::from_raw(1000);
    process.sudo_uid = None;
    process.sudo_gid = None;
    let state = run(words(&["ls"]), false, None, process);
    assert_eq!(state.action(), RunAction::CreateTempDir { prefix: "vegas-" });
    let state = child_up_to_drop(state);
    assert_eq!(state.action(), RunAction::SetGid { gid: Gid::from_raw(1000) });
    let state = quiet(state, RunEvent::Done);
    assert_eq!(state.action(), RunAction::SetUid { uid: Uid::from_raw(1000) });
}

#[test]
fn bad_user_is_refused() {
    let state = run(words(&["ls"]), false, Some("1000:x"), root_process());
    assert_eq!(
        state.action(),
        RunAction::Fail {
            context: Some("Invalid gid in --user '1000:x'".to_string()),
            cause: Some(NumberFault::InvalidDigit),
        }
    );
    let state = run(words(&["ls"]), false, Some("99999999999"), root_process());
    assert_eq!(
        state.action(),
        RunAction::Fail {
            context: Some("Invalid uid in --user '99999999999'".to_string()),
            cause: Some(NumberFault::TooLarge),
        }
    );
}

#[test]
fn refusal_is_final() {
    let state = quiet(start(&[], false), RunEvent::Done);
    let state = quiet(state, RunEvent::TempDir { path: BASE.to_vec() });
    assert_eq!(state.action(), fail("No command specified"));
}

#[test]
fn command_runs_as_the_caller_in_their_directory() {
    let state = confined(&["make", "install"], false);
    assert_eq!(state.action(), RunAction::Chdir { path: b"/home/me".to_vec() });
    let state = quiet(state, RunEvent::Done);
    assert_eq!(state.action(), RunAction::SetGid { gid: Gid::from_raw(1001) });
    let state = quiet(state, RunEvent::Done);
    assert_eq!(state.action(), RunAction::SetUid { uid: Uid::from_raw(1000) });
    let state = quiet(state, RunEvent::Done);
    assert_eq!(
        state.action(),
        RunAction::Exec { program: "make".to_string(), args: words(&["make", "install"]) }
    );
}

#[test]
fn root_is_kept_on_request() {
    let state = quiet(confined(&["bash"], true), RunEvent::Done);
    assert_eq!(
        state.action(),
        RunAction::Exec { program: "bash".to_string(), args: words(&["bash"]) }
    );
}

#[test]
fn missing_directory_is_no_failure() {
    let state = quiet(confined(&["bash"], true), RunEvent::Failed { errno: 2 });
    assert_eq!(
        state.action(),
        RunAction::Exec { program: "bash".to_string(), args: words(&["bash"]) }
    );
}

#[test]
fn without_a_directory_the_command_starts_at_the_root() {
    let mut process = root_process();
    process.cwd = None;
    let mut state = run(words(&["bash"]), true, None, process);
    state = quiet(state, RunEvent::TempDir { path: BASE.to_vec() });
    for _ in 0..3 {
        state = quiet(state, RunEvent::Done);
    }
    state = quiet(state, RunEvent::InChild);
    for _ in 0..8 {
        state = quiet(state, RunEvent::Done);
    }
    assert_eq!(
        state.action(),
        RunAction::Exec { program: "bash".to_string(), args: words(&["bash"]) }
    );
}

#[test]
fn preparation_fails_with_its_context() {
    let state = quiet(start(&["ls"], true), RunEvent::Failed { errno: 28 });
    assert_eq!(state.action(), fail("Failed to create temporary directory"));

    let contexts =
        ["Failed to create upper dir", "Failed to create work dir", "Failed to create merged dir"];
    for (made, context) in contexts.iter().enumerate() {
        let mut state =
            quiet(start(&["ls"], true), RunEvent::TempDir { path: BASE.to_vec() });
        for _ in 0..made {
            state = quiet(state, RunEvent::Done);
        }
        let state = quiet(state, RunEvent::Failed { errno: 13 });
        assert_eq!(state.action(), fail(context));
    }

    let state = quiet(prepared(&["ls"], true), RunEvent::Failed { errno: 11 });
    assert_eq!(state.action(), fail("fork(2) failed"));
}

#[test]
fn child_reports_and_exits_when_the_namespace_fails() {
    let state = quiet(prepared(&["ls"], true), RunEvent::InChild);
    let (state, lines) = state.next(RunEvent::Failed { errno: 1 });
    assert_eq!(
        lines,
        err("vegas: unshare(CLONE_NEWNS) failed: EPERM: Operation not permitted")
    );
    assert_eq!(state.action(), RunAction::Exit { code: 1 });
}

#[test]
fn child_reports_and_exits_when_the_setup_fails() {
    let contexts = [
        "Failed to make mounts private",
        "Failed to mount overlayfs. Make sure the kernel has CONFIG_OVERLAY_FS enabled.",
        "Failed to bind-mount /proc",
        "Failed to bind-mount /dev",
        "Failed to bind-mount /sys",
        "chroot(2) failed",
        "chdir(\"/\") failed",
    ];
    for (done, context) in contexts.iter().enumerate() {
        let mut state = in_namespace(&["ls"], true);
        for _ in 0..done {
            state = quiet(state, RunEvent::Done);
        }
        let (state, lines) = state.next(RunEvent::Failed { errno: 19 });
        assert_eq!(
            lines,
            err(&format!("vegas: Failed to set up sandbox: {context}: ENODEV: No such device"))
        );
        assert_eq!(state.action(), RunAction::Exit { code: 1 });
    }
}

#[test]
fn child_reports_and_exits_when_root_cannot_be_given_up() {
    let state = quiet(confined(&["ls"], false), RunEvent::Done);
    let (state, lines) = state.next(RunEvent::Failed { errno: 22 });
    assert_eq!(
        lines,
        err("vegas: Failed to drop privileges: setgid failed: EINVAL: Invalid argument")
    );
    assert_eq!(state.action(), RunAction::Exit { code: 1 });

    let state = quiet(confined(&["ls"], false), RunEvent::Done);
    let state = quiet(state, RunEvent::Done);
    let (state, lines) = state.next(RunEvent::Failed { errno: 11 });
    assert_eq!(
        lines,
        err("vegas: Failed to drop privileges: setuid failed: EAGAIN: Try again")
    );
    assert_eq!(state.action(), RunAction::Exit { code: 1 });
}

#[test]
fn child_reports_and_exits_when_the_program_cannot_be_executed() {
    let state = quiet(confined(&["nonesuch", "-x"], true), RunEvent::Done);
    let (state, lines) = state.next(RunEvent::Failed { errno: 2 });
    assert_eq!(
        lines,
        err("vegas: exec 'nonesuch' failed: ENOENT: No such file or directory")
    );
    assert_eq!(state.action(), RunAction::Exit { code: 1 });
}

#[test]
fn command_name_with_a_zero_byte_is_not_executed() {
    let (state, lines) = confined(&["ab\0c"], true).next(RunEvent::Done);
    assert_eq!(
        lines,
        err("vegas: invalid command name: nul byte found in provided data at position: 2")
    );
    assert_eq!(state.action(), RunAction::Exit { code: 1 });
}

#[test]
fn command_with_a_zero_byte_in_an_argument_is_not_executed() {
    let (state, lines) = confined(&["echo", "a\0b", "c"], true).next(RunEvent::Done);
    assert_eq!(
        lines,
        err("vegas: invalid argument: nul byte found in provided data at position: 1")
    );
    assert_eq!(state.action(), RunAction::Exit { code: 1 });
}

#[test]
fn command_is_executed_with_all_its_words() {
    assert_eq!(exec_command(&words(&["ls", "", "c"])), Ok(words(&["ls", "", "c"])));
    assert_eq!(
        exec_command(&words(&["ls", "ab", "äx\0", "\0"])),
        Err(NulFound { word: 2, position: 3 })
    );
    assert_eq!(exec_command(&words(&["\0", "\0"])), Err(NulFound { word: 0, position: 0 }));
}

#[test]
fn exit_is_reported() {
    let header = "\n─── vegas: sandbox exited ───────────────────────────────";
    assert_eq!(report_exit(WaitStatus::Exited(3), None), vec![header, "  Exit code: 3"]);
    assert_eq!(report_exit(WaitStatus::Other, None), vec![header]);
    let waiting = || quiet(prepared(&["true"], true), RunEvent::InParent);
    let (_, lines) = waiting().next(RunEvent::Waited { status: WaitStatus::Exited(0) });
    assert_eq!(lines, out(&[header, "  Exit code: 0"]));
    let (_, lines) = waiting().next(RunEvent::Waited { status: WaitStatus::Signaled(9) });
    assert_eq!(lines, out(&[header, "  Killed by signal: SIGKILL"]));
    let (_, lines) = waiting().next(RunEvent::Waited { status: WaitStatus::Signaled(15) });
    assert_eq!(lines, out(&[header, "  Killed by signal: SIGTERM"]));
    let (_, lines) = waiting().next(RunEvent::Waited { status: WaitStatus::Other });
    assert_eq!(lines, out(&[header]));
    let state = quiet(waiting(), RunEvent::Failed { errno: 10 });
    assert_eq!(state.action(), fail("waitpid failed"));
}

#[test]
fn without_changes_nothing_is_asked() {
    let (state, lines) = ended().next(RunEvent::Walked { entries: Vec::new() });
    assert_eq!(lines, out(&["No filesystem changes detected."]));
    assert_eq!(state.action(), RunAction::Finish);
}

#[test]
fn changes_are_shown_with_the_menu() {
    let (state, lines) = ended().next(RunEvent::Walked { entries: one_entry() });
    assert_eq!(
        lines,
        out(&[
            "\n─── Filesystem changes ──────────────────────────────────",
            "  + /new [added]",
            "─────────────────────────────────────────────────────────",
            "  1 change(s) total",
            "",
            "What would you like to do with these changes?",
            "  [a] Apply  – copy changes to the real filesystem",
            "  [k] Keep   – save the sandbox at /tmp/vegas-Ab12",
            "  [d] Discard – throw away all changes (default)",
        ])
    );
    assert_eq!(state.changes(), &one_change());
    assert_eq!(show_menu(BASE).len(), 5);
}

#[test]
fn changes_are_applied_only_on_request() {
    let state = quiet(asked(), answer(" A\n"));
    assert_eq!(state.action(), RunAction::Apply);
    assert_eq!(state.changes(), &one_change());
    let state = quiet(state, RunEvent::Done);
    assert_eq!(state.action(), RunAction::Finish);

    let state = quiet(quiet(asked(), answer("a")), RunEvent::Failed { errno: 30 });
    assert_eq!(state.action(), RunAction::Fail { context: None, cause: None });
}

#[test]
fn sandbox_is_kept_on_request() {
    let (state, lines) = asked().next(answer("k\n"));
    assert_eq!(lines, out(&["Sandbox kept at: /tmp/vegas-Ab12"]));
    assert_eq!(state.action(), RunAction::Keep);
    let state = quiet(state, RunEvent::Done);
    assert_eq!(state.action(), RunAction::Finish);
}

#[test]
fn changes_are_discarded_by_default() {
    for line in ["d\n", "\n", "", "apply\n", "x"] {
        let (state, lines) = asked().next(answer(line));
        assert_eq!(lines, out(&["Changes discarded."]));
        assert_eq!(state.action(), RunAction::Finish);
    }
}

#[test]
fn failures_to_collect_or_to_ask_end_the_run() {
    let state = quiet(ended(), RunEvent::Failed { errno: 2 });
    assert_eq!(state.action(), RunAction::Fail { context: None, cause: None });
    let state = quiet(asked(), RunEvent::Failed { errno: 5 });
    assert_eq!(state.action(), RunAction::Fail { context: None, cause: None });
}

#[test]
fn directories_that_were_only_copied_up_are_no_changes() {
    let mut dir = entry("/tmp/vegas-Ab12/upper/etc");
    dir.dir = true;
    dir.real_exists = true;
    dir.real_dir = true;
    let (state, lines) = ended().next(RunEvent::Walked { entries: vec![dir] });
    assert_eq!(lines, out(&["No filesystem changes detected."]));
    assert_eq!(state.action(), RunAction::Finish);
}

#[test]
fn entries_outside_the_upper_directory_end_the_run() {
    let state =
        quiet(ended(), RunEvent::Walked { entries: vec![entry("/tmp/vegas-Ab12/work/x")] });
    assert_eq!(state.action(), fail("prefix not found"));
}

#[test]
fn choices_are_single_letters() {
    assert_eq!(read_choice("A\n"), Choice::Apply);
    assert_eq!(read_choice(" k "), Choice::Keep);
    assert_eq!(read_choice("d"), Choice::Discard);
    assert_eq!(read_choice("ak"), Choice::Discard);
    assert_eq!(read_choice(""), Choice::Discard);
}

#[test]
fn events_that_answer_nothing_change_nothing() {
    let state = quiet(prepared(&["ls"], true), answer("a\n"));
    let state = quiet(state, RunEvent::Walked { entries: one_entry() });
    assert_eq!(state.action(), RunAction::Fork);
    assert!(state.changes().is_empty());
}

#[test]
fn undecodable_directories_are_shown_with_the_replacement_character() {
    let lines = show_menu(b"/tmp/\xff");
    assert_eq!(lines[3], "  [k] Keep   – save the sandbox at /tmp/\u{fffd}");
}
