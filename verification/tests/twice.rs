use std::collections::BTreeMap;
use vegas::apply::{apply_changes, ApplyAction, ApplyEvent, FileKind};
use vegas::diff::{Change, ChangeKind};

#[derive(Debug, Clone, PartialEq)]
enum Node {
    Dir,
    File(&'static str, u32),
    Link(&'static str),
}

type Files = BTreeMap<String, Node>;

fn text(path: &[u8]) -> String {
    String::from_utf8(path.to_vec()).unwrap()
}

fn files(nodes: &[(&str, Node)]) -> Files {
    nodes.iter().map(|(path, node)| (path.to_string(), node.clone())).collect()
}

fn done(ok: bool) -> ApplyEvent {
    if ok {
        ApplyEvent::Done
    } else {
        ApplyEvent::Failed
    }
}

/// Does what is asked for, in a filesystem that is held in memory.
fn perform(fs: &mut Files, upper: &Files, action: ApplyAction) -> ApplyEvent {
    match action {
        ApplyAction::Stat { path } => match upper.get(&text(&path)) {
            Some(Node::Dir) => ApplyEvent::Found { kind: FileKind::Dir, mode: 0o755 },
            Some(Node::File(_, mode)) => ApplyEvent::Found { kind: FileKind::Other, mode: *mode },
            Some(Node::Link(_)) => ApplyEvent::Found { kind: FileKind::Symlink, mode: 0o777 },
            None => ApplyEvent::Failed,
        },
        ApplyAction::ReadLink { path } => match upper.get(&text(&path)) {
            Some(Node::Link(target)) => ApplyEvent::Link { target: target.as_bytes().to_vec() },
            _ => ApplyEvent::Failed,
        },
        ApplyAction::Probe { path } => {
            let node = fs.get(&text(&path));
            ApplyEvent::Probed {
                exists: matches!(node, Some(Node::Dir) | Some(Node::File(..))),
                dir: node == Some(&Node::Dir),
                symlink: matches!(node, Some(Node::Link(_))),
            }
        }
        ApplyAction::CreateDir { path } => {
            let node = fs.entry(text(&path)).or_insert(Node::Dir);
            done(*node == Node::Dir)
        }
        ApplyAction::RemoveFile { path } => {
            let path = text(&path);
            let there = fs.contains_key(&path) && fs[&path] != Node::Dir;
            if there {
                fs.remove(&path);
            }
            done(there)
        }
        ApplyAction::RemoveDir { path } => {
            let path = text(&path);
            let below = format!("{path}/");
            let there = fs.get(&path) == Some(&Node::Dir);
            fs.retain(|p, _| !there || (*p != path && !p.starts_with(&below)));
            done(there)
        }
        ApplyAction::Symlink { target, path } => {
            let free = !fs.contains_key(&text(&path));
            assert_eq!(text(&target), "target");
            if free {
                fs.insert(text(&path), Node::Link("target"));
            }
            done(free)
        }
        ApplyAction::Copy { from, to } => {
            assert!(!matches!(fs.get(&text(&to)), Some(Node::Link(_))));
            let free = fs.get(&text(&to)) != Some(&Node::Dir);
            if free {
                fs.insert(text(&to), upper[&text(&from)].clone());
            }
            done(free)
        }
        ApplyAction::SetPermissions { path, mode } => match fs.get_mut(&text(&path)) {
            Some(Node::File(_, m)) => {
                *m = mode;
                ApplyEvent::Done
            }
            _ => ApplyEvent::Failed,
        },
        ApplyAction::Fail { .. } | ApplyAction::Finish => unreachable!(),
    }
}

/// Applies the changes, and tells whether that succeeded.
fn apply(fs: &mut Files, upper: &Files, changes: &Vec<Change>) -> bool {
    let (mut state, _) = apply_changes(changes);
    loop {
        match state.action() {
            ApplyAction::Finish => return true,
            ApplyAction::Fail { .. } => return false,
            action => state = state.next(perform(fs, upper, action)).0,
        }
    }
}

fn change(path: &str, kind: ChangeKind) -> Change {
    Change {
        real_path: path.as_bytes().to_vec(),
        upper_path: format!("/u{path}").into_bytes(),
        kind,
    }
}

#[test]
fn applying_twice_ends_as_applying_once() {
    let upper = files(&[
        ("/u/d", Node::Dir),
        ("/u/d/f", Node::File("new", 0o600)),
        ("/u/e/l", Node::Link("target")),
        ("/u/e/x", Node::File("x", 0o755)),
    ]);
    let mut fs = files(&[
        ("/", Node::Dir),
        ("/d", Node::Link("elsewhere")),
        ("/e", Node::Dir),
        ("/e/l", Node::File("old", 0o644)),
        ("/e/x", Node::Link("/t")),
        ("/gone", Node::Dir),
        ("/gone/a", Node::File("a", 0o644)),
        ("/t", Node::File("t", 0o640)),
    ]);
    let changes = vec![
        change("/d", ChangeKind::Modified),
        change("/d/f", ChangeKind::Added),
        change("/e/l", ChangeKind::Modified),
        change("/e/x", ChangeKind::Modified),
        change("/gone", ChangeKind::Deleted),
    ];
    assert!(apply(&mut fs, &upper, &changes));
    let once = files(&[
        ("/", Node::Dir),
        ("/d", Node::Dir),
        ("/d/f", Node::File("new", 0o600)),
        ("/e", Node::Dir),
        ("/e/l", Node::Link("target")),
        ("/e/x", Node::File("x", 0o755)),
        ("/t", Node::File("t", 0o640)),
    ]);
    assert_eq!(fs, once);
    assert!(apply(&mut fs, &upper, &changes));
    assert_eq!(fs, once);
}

#[test]
fn deleting_twice_is_no_error() {
    let upper = Files::new();
    let changes = vec![change("/a", ChangeKind::Deleted)];
    for node in [Some(Node::Dir), Some(Node::File("", 0)), Some(Node::Link("x")), None] {
        let mut fs = files(&[("/", Node::Dir), ("/ab", Node::Dir)]);
        if let Some(node) = node {
            if node == Node::Dir {
                fs.insert("/a/b".to_string(), Node::File("b", 0));
            }
            fs.insert("/a".to_string(), node);
        }
        for _ in 0..2 {
            assert!(apply(&mut fs, &upper, &changes));
            assert_eq!(fs, files(&[("/", Node::Dir), ("/ab", Node::Dir)]));
        }
    }
}
