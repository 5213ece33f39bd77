use vegas::cleanup::{
    cleanup, discover_candidates, find_candidates, is_sandbox_name, print_cleanup_plan,
    select_mounts, temp_roots, AskStep, Cleanup, CleanupAction, CleanupEvent, CleanupOptions,
    FoundEntry, SandboxCandidate, TempRoot,
};
use vegas::mountinfo::can_read_mount_points;
use vegas::text::Line;
use vegas::user::Uid;

const PROCEED: &str = "Proceed with unmount + directory cleanup for all items above? [y/N]: ";
const LAZY: &str = "  Apply lazy detach for busy mounts? [y/N]: ";
const EBUSY: i32 = 16;

fn bytes(text: &str) -> Vec<u8> {
    text.as_bytes().to_vec()
}

fn candidate(path: &str, mounts: &[&str]) -> SandboxCandidate {
    SandboxCandidate {
        path: bytes(path),
        mounts: mounts.iter().map(|m| bytes(m)).collect(),
    }
}

fn options(yes: bool, dry_run: bool) -> CleanupOptions {
    CleanupOptions { yes, dry_run }
}

fn out(lines: &[&str]) -> Vec<Line> {
    lines.iter().map(|l| Line::Stdout(l.to_string())).collect()
}

fn started(yes: bool) -> Cleanup {
    let state = cleanup(options(yes, false), Uid::from_raw(0));
    assert_eq!(state.action(), CleanupAction::List);
    state
}

/// The listing that holds the sandboxes and their mount points.
fn discovered(candidates: Vec<SandboxCandidate>) -> CleanupEvent {
    let mut mountinfo = String::from("1 0 8:2 / / rw - ext4 /dev/sda2 rw\n");
    let mut entries = vec![entry(TempRoot::Tmp, "other", true)];
    for c in candidates {
        let path = String::from_utf8(c.path).unwrap();
        let (root, name) = match path.strip_prefix("/var/tmp/") {
            Some(name) => (TempRoot::VarTmp, name),
            None => (TempRoot::Tmp, path.strip_prefix("/tmp/").unwrap()),
        };
        entries.push(entry(root, name, true));
        for m in c.mounts {
            let m = String::from_utf8(m).unwrap();
            mountinfo.push_str(&format!("2 1 0:50 / {m} rw - overlay overlay rw\n"));
        }
    }
    assert!(can_read_mount_points(&mountinfo));
    CleanupEvent::Listed { mountinfo, entries }
}

fn answer(line: &str) -> CleanupEvent {
    CleanupEvent::Answer { line: line.to_string() }
}

fn unmount(path: &str) -> CleanupAction {
    CleanupAction::Unmount { path: bytes(path) }
}

fn detach(path: &str) -> CleanupAction {
    CleanupAction::Detach { path: bytes(path) }
}

fn remove(path: &str) -> CleanupAction {
    CleanupAction::Remove { path: bytes(path) }
}

/// Expects the action, gives the event and expects the lines.
fn expect(state: Cleanup, action: CleanupAction, event: CleanupEvent, lines: &[&str]) -> Cleanup {
    assert_eq!(state.action(), action);
    let (state, shown) = state.next(event);
    assert_eq!(shown, out(lines));
    state
}

fn entry(root: TempRoot, name: &str, dir: bool) -> FoundEntry {
    FoundEntry { root, name: bytes(name), dir }
}

#[test]
fn only_root_cleans_up() {
    let state = cleanup(options(true, false), Uid::from_raw(1000));
    assert_eq!(
        state.action(),
        CleanupAction::Fail {
            context: "vegas cleanup requires root privileges. Try: sudo vegas cleanup".to_string()
        }
    );
}

#[test]
fn nothing_stale_is_found() {
    let state = expect(
        started(false),
        CleanupAction::List,
        discovered(Vec::new()),
        &["No stale vegas sandboxes found."],
    );
    assert_eq!(state.action(), CleanupAction::Finish);
}

#[test]
fn unreadable_mount_table_is_a_failure() {
    let (state, lines) = started(false).next(CleanupEvent::Failed { errno: 2 });
    assert!(lines.is_empty());
    assert_eq!(
        state.action(),
        CleanupAction::Fail { context: "Failed to read /proc/self/mountinfo".to_string() }
    );
}

#[test]
fn plan_lists_sandboxes_and_mounts() {
    let lines = print_cleanup_plan(&vec![
        candidate("/tmp/vegas-a", &[]),
        candidate("/tmp/vegas-b", &["/tmp/vegas-b/merged", "/tmp/vegas-b/merged/proc"]),
    ]);
    assert_eq!(
        lines,
        vec![
            "Found 2 vegas sandbox directorie(s).",
            "Detected 2 mount point(s) under these directories.",
            "",
            "- /tmp/vegas-a",
            "  mounts: none",
            "- /tmp/vegas-b",
            "  mounts: 2",
            "    • /tmp/vegas-b/merged",
            "    • /tmp/vegas-b/merged/proc",
        ]
    );
}

#[test]
fn dry_run_changes_nothing() {
    let state = cleanup(options(true, true), Uid::from_raw(0));
    let (state, lines) = state.next(discovered(vec![candidate("/tmp/vegas-a", &[])]));
    assert_eq!(
        lines,
        out(&[
            "Found 1 vegas sandbox directorie(s).",
            "Detected 0 mount point(s) under these directories.",
            "",
            "- /tmp/vegas-a",
            "  mounts: none",
            "Dry-run mode enabled. No changes were made.",
        ])
    );
    assert_eq!(state.action(), CleanupAction::Finish);
}

#[test]
fn without_consent_nothing_is_done() {
    for line in ["n\n", "\n", "", "yep\n"] {
        let (state, _) = started(false).next(discovered(vec![candidate("/tmp/vegas-a", &["/x"])]));
        let state =
            expect(state, CleanupAction::Ask { prompt: PROCEED }, answer(line), &["Cleanup cancelled."]);
        assert_eq!(state.action(), CleanupAction::Finish);
    }
}

#[test]
fn sandboxes_are_taken_up_in_the_order_of_their_paths() {
    let found = vec![candidate("/var/tmp/vegas-a", &[]), candidate("/tmp/vegas-z", &[])];
    let (state, lines) = started(false).next(discovered(found));
    assert_eq!(lines[3], Line::Stdout("- /tmp/vegas-z".to_string()));
    let state = expect(
        state,
        CleanupAction::Ask { prompt: PROCEED },
        answer("y\n"),
        &["\nCleaning /tmp/vegas-z"],
    );
    let state = expect(
        state,
        remove("/tmp/vegas-z"),
        CleanupEvent::Done,
        &["  removed /tmp/vegas-z", "\nCleaning /var/tmp/vegas-a"],
    );
    let state = expect(
        state,
        remove("/var/tmp/vegas-a"),
        CleanupEvent::Done,
        &["  removed /var/tmp/vegas-a", "\nCleanup complete."],
    );
    assert_eq!(state.action(), CleanupAction::Finish);
}

#[test]
fn deepest_mounts_go_first() {
    let (state, _) = started(true).next(discovered(vec![candidate(
        "/tmp/vegas-a",
        &["/tmp/vegas-a/m", "/tmp/vegas-a/m/dev", "/tmp/vegas-a/m/dev/pts", "/tmp/vegas-a/m/proc"],
    )]));
    let mut state = state;
    for path in
        ["/tmp/vegas-a/m/dev/pts", "/tmp/vegas-a/m/dev", "/tmp/vegas-a/m/proc", "/tmp/vegas-a/m"]
    {
        state = expect(
            state,
            unmount(path),
            CleanupEvent::Done,
            &[format!("  unmounted {path}").as_str()],
        );
    }
    assert_eq!(state.action(), remove("/tmp/vegas-a"));
}

/// A cleanup that has met two busy mounts.
fn busy(yes: bool) -> Cleanup {
    let (mut state, _) = started(yes).next(discovered(vec![candidate(
        "/tmp/vegas-a",
        &["/tmp/vegas-a/m", "/tmp/vegas-a/m/dev"],
    )]));
    if !yes {
        state = state.next(answer("yes\n")).0;
    }
    let state = expect(
        state,
        unmount("/tmp/vegas-a/m/dev"),
        CleanupEvent::Failed { errno: EBUSY },
        &["  busy mount /tmp/vegas-a/m/dev"],
    );
    let last = CleanupEvent::Failed { errno: EBUSY };
    if yes {
        expect(state, unmount("/tmp/vegas-a/m"), last, &["  busy mount /tmp/vegas-a/m"])
    } else {
        expect(
            state,
            unmount("/tmp/vegas-a/m"),
            last,
            &[
                "  busy mount /tmp/vegas-a/m",
                "  2 mount(s) are busy and can be lazily detached (MNT_DETACH).",
            ],
        )
    }
}

#[test]
fn busy_mounts_are_detached_after_consent() {
    let state = expect(busy(false), CleanupAction::Ask { prompt: LAZY }, answer("Y\n"), &[]);
    let state = expect(
        state,
        detach("/tmp/vegas-a/m/dev"),
        CleanupEvent::Done,
        &["  lazily detached /tmp/vegas-a/m/dev"],
    );
    let state = expect(
        state,
        detach("/tmp/vegas-a/m"),
        CleanupEvent::Done,
        &["  lazily detached /tmp/vegas-a/m"],
    );
    let state = expect(
        state,
        remove("/tmp/vegas-a"),
        CleanupEvent::Done,
        &["  removed /tmp/vegas-a", "\nCleanup complete."],
    );
    assert_eq!(state.action(), CleanupAction::Finish);
}

#[test]
fn busy_mounts_stay_without_consent() {
    let state = expect(busy(false), CleanupAction::Ask { prompt: LAZY }, answer("\n"), &[]);
    assert_eq!(state.action(), remove("/tmp/vegas-a"));
}

#[test]
fn yes_covers_the_detaching() {
    assert_eq!(busy(true).action(), detach("/tmp/vegas-a/m/dev"));
}

#[test]
fn other_failures_are_warnings_that_are_remembered() {
    let (state, _) = started(true)
        .next(discovered(vec![candidate("/tmp/vegas-a", &["/tmp/vegas-a/m"])]));
    let (state, lines) = state.next(CleanupEvent::Failed { errno: 1 });
    assert_eq!(
        lines,
        vec![Line::Stderr(
            "  warning: failed to unmount /tmp/vegas-a/m: EPERM: Operation not permitted"
                .to_string()
        )]
    );
    let state = expect(
        state,
        remove("/tmp/vegas-a"),
        CleanupEvent::Done,
        &["  removed /tmp/vegas-a", "\nCleanup finished with warnings."],
    );
    assert_eq!(state.action(), CleanupAction::Finish);
}

#[test]
fn failure_to_detach_is_a_warning() {
    let (state, lines) = busy(true).next(CleanupEvent::Failed { errno: 22 });
    assert_eq!(
        lines,
        vec![Line::Stderr(
            "  warning: failed lazy detach /tmp/vegas-a/m/dev: EINVAL: Invalid argument".to_string()
        )]
    );
    assert_eq!(state.action(), detach("/tmp/vegas-a/m"));
}

#[test]
fn failure_to_remove_is_a_warning() {
    let (state, _) = started(true).next(discovered(vec![candidate("/tmp/vegas-a", &[])]));
    let (state, lines) =
        state.next(CleanupEvent::NotRemoved { error: "Permission denied (os error 13)".to_string() });
    assert_eq!(
        lines,
        vec![
            Line::Stderr(
                "  warning: failed to remove /tmp/vegas-a: Permission denied (os error 13)"
                    .to_string()
            ),
            Line::Stdout("\nCleanup finished with warnings.".to_string()),
        ]
    );
    assert_eq!(state.action(), CleanupAction::Finish);
}

#[test]
fn failures_to_ask_end_the_cleanup() {
    for (step, context) in
        [(AskStep::Prompt, "Failed to flush stdout"), (AskStep::Read, "Failed to read user input")]
    {
        let (state, _) = started(false).next(discovered(vec![candidate("/tmp/vegas-a", &[])]));
        let (state, _) = state.next(CleanupEvent::Unanswered { step });
        assert_eq!(state.action(), CleanupAction::Fail { context: context.to_string() });
        let (state, _) = busy(false).next(CleanupEvent::Unanswered { step });
        assert_eq!(state.action(), CleanupAction::Fail { context: context.to_string() });
    }
}

#[test]
fn sandboxes_lie_in_two_directories() {
    let roots: Vec<&str> = temp_roots().into_iter().map(|r| r.path()).collect();
    assert_eq!(roots, vec!["/tmp", "/var/tmp"]);
}

#[test]
fn sandboxes_are_known_by_their_name() {
    assert!(is_sandbox_name(b"vegas-"));
    assert!(is_sandbox_name(b"vegas-\xff"));
    assert!(!is_sandbox_name(b"vegas"));
    assert!(!is_sandbox_name(b"Vegas-x"));
    assert!(!is_sandbox_name(b"my-vegas-x"));
}

#[test]
fn mounts_below_the_sandbox_belong_to_it() {
    let mounts: Vec<Vec<u8>> =
        ["/", "/tmp/vegas-a", "/tmp/vegas-a/m", "/tmp/vegas-ab"].iter().map(|m| bytes(m)).collect();
    assert_eq!(
        select_mounts(&mounts, b"/tmp/vegas-a"),
        vec![bytes("/tmp/vegas-a"), bytes("/tmp/vegas-a/m")]
    );
}

#[test]
fn candidates_are_directories_with_the_name_of_a_sandbox() {
    let entries = vec![
        entry(TempRoot::Tmp, "vegas-b", true),
        entry(TempRoot::Tmp, "vegas-file", false),
        entry(TempRoot::Tmp, "other", true),
        entry(TempRoot::VarTmp, "vegas-a", true),
    ];
    assert_eq!(
        find_candidates(&vec![bytes("/tmp/vegas-b/m")], &entries),
        vec![candidate("/tmp/vegas-b", &["/tmp/vegas-b/m"]), candidate("/var/tmp/vegas-a", &[])]
    );
}

#[test]
fn candidates_come_with_the_mounts_of_the_table() {
    let table = "1 0 0:1 / / rw - ext4 a rw\n\
                 3 1 0:3 / /tmp/vegas-b/merged/proc rw - proc proc rw\n\
                 2 1 0:2 / /tmp/vegas-b/merged rw - overlay overlay rw\n";
    assert!(can_read_mount_points(table));
    assert_eq!(
        discover_candidates(table, &vec![entry(TempRoot::Tmp, "vegas-b", true)]),
        vec![candidate("/tmp/vegas-b", &["/tmp/vegas-b/merged", "/tmp/vegas-b/merged/proc"])]
    );
}
