use std::path::Path;
use vegas::order::stable_sort;
use vegas::path_set::{find, to_sorted_set};
use vegas::path::{
    component_count, component_spans, join, parent, path_le, same_bytes, starts_with, strip_prefix,
    ByPath, DeepestFirst,
};

const PATHS: [&str; 26] = [
    "", "/", "//", ".", "..", "/.", "/..", "./", "a", "/a", "a/", "/a/", "a/b", "/a/b", "//a//b//",
    "/a/./b", "./a", "a/.", "a/..", "/a/../b", ".a", "a.", "...", "/a-b", "/ab", "/a/b/c",
];

fn text(path: &Path) -> Vec<u8> {
    path.as_os_str().as_encoded_bytes().to_vec()
}

#[test]
fn components_are_those_of_the_standard_library() {
    for p in PATHS {
        let expected: Vec<Vec<u8>> =
            Path::new(p).components().map(|c| c.as_os_str().as_encoded_bytes().to_vec()).collect();
        assert_eq!(component_count(p.as_bytes()), expected.len(), "{p}");
        let found: Vec<Vec<u8>> = component_spans(p.as_bytes())
            .into_iter()
            .map(|(from, to)| p.as_bytes()[from..to].to_vec())
            .collect();
        assert_eq!(found, expected, "{p}");
    }
}

#[test]
fn order_is_that_of_the_standard_library() {
    for a in PATHS {
        for b in PATHS {
            assert_eq!(
                path_le(a.as_bytes(), b.as_bytes()),
                Path::new(a) <= Path::new(b),
                "{a} {b}"
            );
        }
    }
}

#[test]
fn prefixes_are_those_of_the_standard_library() {
    for a in PATHS {
        for b in PATHS {
            let path = Path::new(a);
            assert_eq!(starts_with(a.as_bytes(), b.as_bytes()), path.starts_with(b), "{a} {b}");
            assert_eq!(
                strip_prefix(a.as_bytes(), b.as_bytes()),
                path.strip_prefix(b).ok().map(text),
                "{a} {b}"
            );
        }
    }
}

#[test]
fn joins_and_parents_are_those_of_the_standard_library() {
    for a in PATHS {
        assert_eq!(parent(a.as_bytes()), Path::new(a).parent().map(text), "{a}");
        for b in PATHS {
            assert_eq!(
                join(a.as_bytes(), b.as_bytes()),
                text(&Path::new(a).join(b)),
                "{a} {b}"
            );
        }
    }
}

#[test]
fn stripping_undoes_joining() {
    let joined = join(b"/tmp/vegas-x", b"upper");
    assert_eq!(joined, b"/tmp/vegas-x/upper".to_vec());
    assert_eq!(strip_prefix(&joined, b"/tmp/vegas-x"), Some(b"upper".to_vec()));
}

#[test]
fn being_below_is_transitive() {
    assert!(starts_with(b"/a/b/c", b"/a/b"));
    assert!(starts_with(b"/a/b", b"/a"));
    assert!(starts_with(b"/a/b/c", b"/a"));
    assert!(!starts_with(b"/a/bc", b"/a/b"));
}

#[test]
fn bytes_are_compared_one_by_one() {
    assert!(same_bytes(b"ab", b"ab"));
    assert!(!same_bytes(b"ab", b"ac"));
    assert!(!same_bytes(b"ab", b"abc"));
}

#[test]
fn equal_paths_keep_their_order() {
    let paths: Vec<Vec<u8>> =
        ["/b", "/a/", "/a-", "/a", "/a/b", "//a"].iter().map(|p| p.as_bytes().to_vec()).collect();
    let sorted = stable_sort::<ByPath>(paths);
    let expected: Vec<Vec<u8>> =
        ["/a/", "/a", "//a", "/a/b", "/a-", "/b"].iter().map(|p| p.as_bytes().to_vec()).collect();
    assert_eq!(sorted, expected);
}

#[test]
fn paths_are_found_in_a_sorted_set() {
    let paths: Vec<Vec<u8>> =
        ["/b", "/a/", "/a-", "/a", "/a/b", "//a"].iter().map(|p| p.as_bytes().to_vec()).collect();
    let set = to_sorted_set(paths);
    let expected: Vec<Vec<u8>> =
        ["/a/", "/a/b", "/a-", "/b"].iter().map(|p| p.as_bytes().to_vec()).collect();
    assert_eq!(set, expected);
    for path in ["/a", "/a/./b", "/a-", "/b/"] {
        assert!(find(&set, path.as_bytes()), "{path}");
    }
    for path in ["", "/", "a", "/a/c", "/c", "/0"] {
        assert!(!find(&set, path.as_bytes()), "{path}");
    }
}

#[test]
fn deeper_paths_come_first() {
    let paths: Vec<Vec<u8>> =
        ["/a", "/z/y", "/b", "/c/d", "/"].iter().map(|p| p.as_bytes().to_vec()).collect();
    let sorted = stable_sort::<DeepestFirst>(paths);
    let expected: Vec<Vec<u8>> =
        ["/z/y", "/c/d", "/a", "/b", "/"].iter().map(|p| p.as_bytes().to_vec()).collect();
    assert_eq!(sorted, expected);
}
