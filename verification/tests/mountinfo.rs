use vegas::mountinfo::{
    can_read_mount_points, can_unescape, read_mount_points, unescape_mountinfo_path,
};

fn unescape(raw: &str) -> String {
    assert!(can_unescape(raw));
    unescape_mountinfo_path(raw)
}

fn mount_points(content: &str) -> Vec<String> {
    assert!(can_read_mount_points(content));
    read_mount_points(content).into_iter().map(|p| String::from_utf8(p).unwrap()).collect()
}

#[test]
fn octal_escapes_stand_for_bytes() {
    assert_eq!(unescape("/mnt/My\\040Disk"), "/mnt/My Disk");
    assert_eq!(unescape("\\011\\012\\134"), "\t\n\\");
    assert_eq!(unescape("\\303\\244"), "ä");
}

#[test]
fn names_without_backslash_stay() {
    assert_eq!(unescape("/tmp/vegas-abc/merged"), "/tmp/vegas-abc/merged");
    assert_eq!(unescape(""), "");
    assert_eq!(unescape("/ü"), "/ü");
}

#[test]
fn what_is_no_escape_stays() {
    assert_eq!(unescape("\\04"), "\\04");
    assert_eq!(unescape("\\089"), "\\089");
    assert_eq!(unescape("\\777"), "\\777");
    assert_eq!(unescape("\\400"), "\\400");
    assert_eq!(unescape("\\377x"), "\u{fffd}x");
    assert_eq!(unescape("\\+12a"), "\na");
    assert_eq!(unescape("\\\\040"), "\\ ");
}

#[test]
fn three_bytes_after_a_backslash_must_not_split_a_character() {
    assert!(!can_unescape("\\12ü"));
    assert!(!can_unescape("\\üüx"));
    assert!(can_unescape("\\1ü"));
    assert!(can_unescape("\\xü!"));
    assert!(!can_read_mount_points("1 2 0:1 / /a\\12ü rw - ext4 x rw\n"));
    assert!(can_read_mount_points("1 2 0:1 / /a\\12ü rw\n"));
}

#[test]
fn fifth_field_before_the_separator_is_the_mount_point() {
    let table = "22 28 0:21 / /proc rw,nosuid shared:12 - proc proc rw\n\
                 28 1 8:2 / / rw,relatime shared:1 - ext4 /dev/sda2 rw\r\n\
                 90 28 0:50 / /tmp/vegas\\040x rw - overlay overlay rw,lowerdir=/\n\
                 no separator on /this line\n\
                 1 2 3 4 - too few\n\
                 91 28 0:21 / /proc/ rw - proc proc rw";
    assert_eq!(mount_points(table), vec!["/", "/proc", "/tmp/vegas x"]);
}

#[test]
fn first_spelling_of_a_mount_point_stays() {
    assert_eq!(mount_points("1 2 3 4 /a/ - x\n1 2 3 4 /a - x\n1 2 3 4 //a - x\n"), vec!["/a/"]);
    assert_eq!(mount_points("1 2 3 4 /a-b - x\n1 2 3 4 /a/b - x\n"), vec!["/a/b", "/a-b"]);
}

#[test]
fn empty_table_names_no_mount_point() {
    assert!(mount_points("").is_empty());
    assert!(mount_points("\n\n").is_empty());
}

#[test]
fn fields_are_separated_by_any_white_space() {
    assert_eq!(mount_points("1\t2  3\u{a0}4 /a b - x\n"), vec!["/a"]);
    assert_eq!(mount_points("1 2 3 4 /a - b - c\n"), vec!["/a"]);
}
