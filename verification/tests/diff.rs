use std::io::Write;
use std::path::Path;
use vegas::diff::{
    can_look_up, classify, collect_changes, display_changes, is_opaque_dir, is_whiteout, lower_paths,
    opaque_attributes, real_path, xattr_buffer, xattr_get, Change, ChangeKind, PrefixNotFound,
    RealEntry, UpperEntry, XattrLookup,
};

/// Walks the directory and tells of each entry what decides on its change.
fn entries_of(upper: &Path) -> Vec<UpperEntry> {
    let mut entries = Vec::new();
    for entry in walkdir::WalkDir::new(upper).min_depth(1) {
        let entry = entry.unwrap();
        let stat = nix::sys::stat::lstat(entry.path()).unwrap();
        let format = stat.st_mode & libc::S_IFMT;
        let upper_path = entry.path().as_os_str().as_encoded_bytes();
        let real = real_path(upper.as_os_str().as_encoded_bytes(), upper_path).unwrap();
        let real = String::from_utf8(real).unwrap();
        entries.push(UpperEntry {
            path: upper_path.to_vec(),
            char_device: format == libc::S_IFCHR,
            rdev: stat.st_rdev,
            dir: format == libc::S_IFDIR,
            lookups: Vec::new(),
            real_exists: Path::new(&real).exists(),
            real_link: Path::new(&real).is_symlink(),
            real_dir: Path::new(&real).is_dir() && !Path::new(&real).is_symlink(),
            held: Vec::new(),
        });
    }
    entries
}

fn file(path: &str, real_exists: bool) -> UpperEntry {
    UpperEntry {
        path: path.as_bytes().to_vec(),
        char_device: false,
        rdev: 0,
        dir: false,
        lookups: Vec::new(),
        real_exists,
        real_link: false,
        real_dir: false,
        held: Vec::new(),
    }
}

/// A directory that the overlay marks as opaque, and what the real one holds.
fn opaque_dir(path: &str, real_exists: bool, held: &[&str]) -> UpperEntry {
    let mut entry = file(path, real_exists);
    entry.dir = true;
    entry.real_dir = real_exists;
    entry.lookups = vec![XattrLookup::Value(b"y".to_vec())];
    entry.held = held.iter().map(|p| p.as_bytes().to_vec()).collect();
    entry
}

fn deleted(real: &str, upper: &str) -> Change {
    Change {
        real_path: real.as_bytes().to_vec(),
        upper_path: upper.as_bytes().to_vec(),
        kind: ChangeKind::Deleted,
    }
}

#[test]
fn test_collect_empty_upper_dir() {
    let upper = tempfile::tempdir().unwrap();
    let entries = entries_of(upper.path());
    let changes =
        collect_changes(upper.path().as_os_str().as_encoded_bytes(), &entries).unwrap();
    assert!(changes.is_empty());
}

#[test]
fn test_collect_added_file() {
    let upper = tempfile::tempdir().unwrap();
    // Create a file under upper that does NOT exist in the real /.
    let mut new_file = tempfile::Builder::new()
        .prefix("definitely-does-not-exist-vegas-test-abc123")
        .suffix(".txt")
        .rand_bytes(0)
        .tempfile_in(upper.path())
        .unwrap();
    new_file.write_all(b"hello").unwrap();

    let entries = entries_of(upper.path());
    let changes =
        collect_changes(upper.path().as_os_str().as_encoded_bytes(), &entries).unwrap();
    assert_eq!(changes.len(), 1);
    assert_eq!(changes[0].kind, ChangeKind::Added);
    assert_eq!(changes[0].real_path, b"/definitely-does-not-exist-vegas-test-abc123.txt".to_vec());
    assert_eq!(changes[0].upper_path, new_file.path().as_os_str().as_encoded_bytes().to_vec());
}

#[test]
fn test_collect_whiteout_is_deletion() {
    let upper = tempfile::tempdir().unwrap();
    // Create a character device 0,0 to simulate a whiteout.
    let whiteout = upper.path().join("whiteout-test");
    let made = nix::sys::stat::mknod(
        &whiteout,
        nix::sys::stat::SFlag::S_IFCHR,
        nix::sys::stat::Mode::empty(),
        0,
    );
    if made.is_ok() {
        // Only check if we could create the device node (requires root).
        let entries = entries_of(upper.path());
        let changes =
            collect_changes(upper.path().as_os_str().as_encoded_bytes(), &entries).unwrap();
        assert_eq!(changes.len(), 1);
        assert_eq!(changes[0].kind, ChangeKind::Deleted);
    }
}

#[test]
fn whiteout_entry_is_deletion_of_the_real_file() {
    let mut entry = file("/tmp/u/upper/whiteout-test", true);
    entry.char_device = true;
    let changes = collect_changes(b"/tmp/u/upper", &vec![entry]).unwrap();
    assert_eq!(
        changes,
        vec![Change {
            real_path: b"/whiteout-test".to_vec(),
            upper_path: b"/tmp/u/upper/whiteout-test".to_vec(),
            kind: ChangeKind::Deleted,
        }]
    );
}

#[test]
fn whiteouts_are_character_devices_with_number_zero() {
    assert!(is_whiteout(true, 0));
    assert!(!is_whiteout(true, 0x103));
    assert!(!is_whiteout(false, 0));
}

#[test]
fn other_device_is_added_or_modified() {
    let mut entry = file("/u/etc/null", false);
    entry.char_device = true;
    entry.rdev = 0x103;
    assert_eq!(classify(&entry), Some(ChangeKind::Added));
    entry.real_exists = true;
    assert_eq!(classify(&entry), Some(ChangeKind::Modified));
}

#[test]
fn directories_count_only_when_opaque_and_new() {
    for opaque in [false, true] {
        for real_exists in [false, true] {
            let value = if opaque { "y" } else { "n" };
            let entry = UpperEntry {
                path: b"/u/d".to_vec(),
                char_device: false,
                rdev: 0,
                dir: true,
                lookups: vec![
                    XattrLookup::Unset,
                    XattrLookup::Value(value.as_bytes().to_vec()),
                ],
                real_exists,
                real_link: false,
                real_dir: real_exists,
                held: Vec::new(),
            };
            let expected = if opaque && !real_exists { Some(ChangeKind::Added) } else { None };
            assert_eq!(classify(&entry), expected);
        }
    }
}

#[test]
fn what_an_opaque_directory_hides_is_deleted() {
    // rm -r /d; mkdir /d
    let changes = collect_changes(b"/u", &vec![opaque_dir("/u/d", true, &["/d/f"])]).unwrap();
    assert_eq!(changes, vec![deleted("/d/f", "/u/d/f")]);
}

#[test]
fn what_an_opaque_directory_holds_again_is_not_deleted() {
    // rm -r /d; mkdir -p /d/s; write /d/s/new and /d/g
    let mut s = file("/u/d/s", true);
    s.dir = true;
    s.real_dir = true;
    let entries = vec![
        opaque_dir("/u/d", true, &["/d/g", "/d/s", "/d/s/old", "/d/a-b"]),
        file("/u/d/g", true),
        s,
        file("/u/d/s/new", false),
    ];
    let changes = collect_changes(b"/u", &entries).unwrap();
    let seen: Vec<(&[u8], ChangeKind)> =
        changes.iter().map(|c| (c.real_path.as_slice(), c.kind)).collect();
    assert_eq!(
        seen,
        vec![
            (&b"/d/a-b"[..], ChangeKind::Deleted),
            (&b"/d/g"[..], ChangeKind::Modified),
            (&b"/d/s/new"[..], ChangeKind::Added),
            (&b"/d/s/old"[..], ChangeKind::Deleted),
        ]
    );
}

#[test]
fn hidden_paths_are_deleted_once() {
    let entries = vec![
        opaque_dir("/u/d", true, &["/d/s", "/d/s/a"]),
        opaque_dir("/u/d/s", true, &["/d/s/a", "/d/s//a"]),
    ];
    let changes = collect_changes(b"/u", &entries).unwrap();
    assert_eq!(changes, vec![deleted("/d/s/a", "/u/d/s/a")]);
}

#[test]
fn what_is_mounted_over_the_root_filesystem_is_not_hidden() {
    let found = |path: &str, dev| RealEntry { path: path.as_bytes().to_vec(), dev };
    let all = vec![found("/d/a", 1), found("/d/mnt", 7), found("/d/mnt/x", 7), found("/d/b", 1)];
    assert_eq!(lower_paths(1, &all), vec![b"/d/a".to_vec(), b"/d/b".to_vec()]);
    assert_eq!(lower_paths(2, &all), Vec::<Vec<u8>>::new());
}

#[test]
fn links_to_directories_hide_nothing() {
    let mut entry = opaque_dir("/u/l", true, &["/l/f"]);
    entry.real_dir = false;
    entry.real_link = true;
    let changes = collect_changes(b"/u", &vec![entry]).unwrap();
    assert_eq!(changes.len(), 1);
    assert_eq!(changes[0].real_path, b"/l".to_vec());
    assert_eq!(changes[0].kind, ChangeKind::Modified);
}

#[test]
fn directories_that_are_not_opaque_hide_nothing() {
    let mut dir = opaque_dir("/u/d", true, &["/d/f"]);
    dir.lookups = vec![XattrLookup::Unset];
    assert_eq!(collect_changes(b"/u", &vec![dir]), Ok(Vec::new()));
    let new = opaque_dir("/u/n", false, &[]);
    assert_eq!(collect_changes(b"/u", &vec![new]).unwrap()[0].kind, ChangeKind::Added);
}

#[test]
fn directory_in_the_place_of_something_else_is_modified() {
    // rm /x; mkdir /x
    let mut entry = opaque_dir("/u/x", true, &[]);
    entry.real_dir = false;
    assert_eq!(classify(&entry), Some(ChangeKind::Modified));
    // The same where /x was a link that leads nowhere.
    entry.real_exists = false;
    entry.real_link = true;
    assert_eq!(classify(&entry), Some(ChangeKind::Modified));
}

#[test]
fn file_in_the_place_of_a_dangling_link_is_modified() {
    let mut entry = file("/u/l", false);
    entry.real_link = true;
    assert_eq!(classify(&entry), Some(ChangeKind::Modified));
}

#[test]
fn real_path_takes_the_place_of_the_root() {
    assert_eq!(real_path(b"/tmp/x/upper", b"/tmp/x/upper/etc/hosts"), Ok(b"/etc/hosts".to_vec()));
    assert_eq!(real_path(b"/tmp/x/upper/", b"/tmp/x/upper/a"), Ok(b"/a".to_vec()));
    assert_eq!(real_path(b"/tmp/x/upper", b"/tmp/x/upper2/a"), Err(PrefixNotFound));
}

#[test]
fn entry_outside_the_directory_is_an_error() {
    let entries = vec![file("/tmp/x/upper/a", true), file("/tmp/y/b", true)];
    assert_eq!(collect_changes(b"/tmp/x/upper", &entries), Err(PrefixNotFound));
}

#[test]
fn changes_are_sorted_by_components_of_the_real_path() {
    // Byte by byte "/a-b" comes before "/a/c"; by components "a" comes before "a-b".
    let entries = vec![file("/u/a-b", false), file("/u/a/c", true), file("/u/B", true)];
    let changes = collect_changes(b"/u", &entries).unwrap();
    let order: Vec<&[u8]> = changes.iter().map(|c| c.real_path.as_slice()).collect();
    assert_eq!(order, vec![&b"/B"[..], &b"/a/c"[..], &b"/a-b"[..]]);
    assert_eq!(changes[2].kind, ChangeKind::Added);
    assert_eq!(changes[1].kind, ChangeKind::Modified);
}

#[test]
fn opacity_is_read_from_either_attribute() {
    assert_eq!(opaque_attributes(), vec!["trusted.overlay.opaque", "user.overlay.opaque"]);
    let yes = || XattrLookup::Value(b"y".to_vec());
    assert!(is_opaque_dir(&vec![yes(), XattrLookup::Unset]));
    assert!(is_opaque_dir(&vec![XattrLookup::Failed, yes()]));
    assert!(is_opaque_dir(&vec![XattrLookup::Value(b"x".to_vec()), yes()]));
    assert!(!is_opaque_dir(&vec![XattrLookup::Failed, XattrLookup::Unset]));
    assert!(!is_opaque_dir(&vec![XattrLookup::Value(b"yes".to_vec())]));
    assert!(!is_opaque_dir(&vec![XattrLookup::Value(Vec::new())]));
}

#[test]
fn attribute_is_read_into_a_buffer_of_the_announced_size() {
    assert_eq!(xattr_buffer(-1), None);
    assert_eq!(xattr_buffer(0), Some(Vec::new()));
    assert_eq!(xattr_buffer(3), Some(vec![0u8, 0, 0]));
    assert_eq!(xattr_get(-1, vec![0u8]), XattrLookup::Unset);
    assert_eq!(xattr_get(1, b"y".to_vec()), XattrLookup::Value(b"y".to_vec()));
    // The whole buffer counts, even where the value has become shorter in between.
    assert_eq!(xattr_get(1, vec![b'y', 0]), XattrLookup::Value(vec![b'y', 0]));
}

#[test]
fn zero_bytes_stop_a_lookup() {
    assert!(can_look_up(b"/u/d", "user.overlay.opaque"));
    assert!(!can_look_up(b"/u/\0d", "user.overlay.opaque"));
    assert!(!can_look_up(b"/u/d", "user.\0"));
}

#[test]
fn no_changes_are_displayed_as_such() {
    assert_eq!(display_changes(&Vec::new()), vec!["No filesystem changes detected.".to_string()]);
}

#[test]
fn changes_are_displayed_one_by_one() {
    let change = |path: &[u8], kind| Change {
        real_path: path.to_vec(),
        upper_path: b"/u".to_vec(),
        kind,
    };
    let lines = display_changes(&vec![
        change(b"/new", ChangeKind::Added),
        change(b"/etc/hosts", ChangeKind::Modified),
        change(b"/gone-\xff", ChangeKind::Deleted),
    ]);
    assert_eq!(
        lines,
        vec![
            "\n─── Filesystem changes ──────────────────────────────────".to_string(),
            "  + /new [added]".to_string(),
            "  ~ /etc/hosts [modified]".to_string(),
            "  - /gone-\u{fffd} [deleted]".to_string(),
            "─────────────────────────────────────────────────────────".to_string(),
            "  3 change(s) total".to_string(),
        ]
    );
}
