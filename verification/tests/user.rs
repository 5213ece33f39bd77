use vegas::text::NumberFault;
use vegas::user::{
    calling_user, drop_privileges, gid_raw, groups_to_csv, parse_user_spec, uid_raw, user_spec,
    Gid, Uid, UserSpecError,
};

/// The user that runs the test.
fn caller() -> (Uid, Gid) {
    calling_user(
        None,
        None,
        Uid::from_raw(nix::unistd::getuid().as_raw()),
        Gid::from_raw(nix::unistd::getgid().as_raw()),
    )
}

#[test]
fn test_parse_user_spec_root_flag() {
    let (uid, gid) = parse_user_spec(true, None, caller()).unwrap();
    assert_eq!(uid, Uid::from_raw(0));
    assert_eq!(gid, Gid::from_raw(0));
}

#[test]
fn test_parse_user_spec_root_flag_overrides_spec() {
    // --root takes precedence even if a spec string is provided.
    let (uid, gid) = parse_user_spec(true, Some("1000:1000"), caller()).unwrap();
    assert_eq!(uid, Uid::from_raw(0));
    assert_eq!(gid, Gid::from_raw(0));
}

#[test]
fn test_parse_user_spec_none_returns_calling_user() {
    let result = parse_user_spec(false, None, caller());
    assert!(result.is_ok());
    assert_eq!(result, Ok(caller()));
}

#[test]
fn test_parse_user_spec_empty_string_returns_calling_user() {
    // --user (no value) maps to Some("") and should behave like None.
    let (uid_none, gid_none) = parse_user_spec(false, None, caller()).unwrap();
    let (uid_empty, gid_empty) = parse_user_spec(false, Some(""), caller()).unwrap();
    assert_eq!(uid_none, uid_empty);
    assert_eq!(gid_none, gid_empty);
}

#[test]
fn test_parse_user_spec_uid_only() {
    let (uid, gid) = parse_user_spec(false, Some("1000"), caller()).unwrap();
    assert_eq!(uid, Uid::from_raw(1000));
    assert_eq!(gid, Gid::from_raw(1000)); // gid defaults to uid
}

#[test]
fn test_parse_user_spec_uid_gid() {
    let (uid, gid) = parse_user_spec(false, Some("1000:2000"), caller()).unwrap();
    assert_eq!(uid, Uid::from_raw(1000));
    assert_eq!(gid, Gid::from_raw(2000));
}

#[test]
fn test_parse_user_spec_invalid_uid() {
    let result = parse_user_spec(false, Some("notanumber"), caller());
    assert!(result.is_err());
}

#[test]
fn test_parse_user_spec_invalid_gid() {
    let result = parse_user_spec(false, Some("1000:notanumber"), caller());
    assert!(result.is_err());
}

#[test]
fn faults_of_a_spec_are_told_apart() {
    let parse = |s| parse_user_spec(false, Some(s), caller());
    assert_eq!(parse("x"), Err(UserSpecError::InvalidUid(NumberFault::InvalidDigit)));
    assert_eq!(parse(":1"), Err(UserSpecError::InvalidUid(NumberFault::Empty)));
    assert_eq!(parse("4294967296"), Err(UserSpecError::InvalidUid(NumberFault::TooLarge)));
    assert_eq!(parse("1:"), Err(UserSpecError::InvalidGid(NumberFault::Empty)));
    assert_eq!(parse("1:2:3"), Err(UserSpecError::InvalidGid(NumberFault::InvalidDigit)));
    assert_eq!(parse("1:99999999999"), Err(UserSpecError::InvalidGid(NumberFault::TooLarge)));
    assert_eq!(parse("x:y"), Err(UserSpecError::InvalidUid(NumberFault::InvalidDigit)));
    assert_eq!(parse("+7:08"), Ok((Uid::from_raw(7), Gid::from_raw(8))));
    assert_eq!(parse("4294967295"), Ok((Uid::from_raw(u32::MAX), Gid::from_raw(u32::MAX))));
}

#[test]
fn faults_of_a_spec_have_a_message() {
    let uid = UserSpecError::InvalidUid(NumberFault::InvalidDigit);
    assert_eq!(uid.message("notanumber"), "Invalid uid in --user 'notanumber'");
    assert_eq!(uid.fault().text(), "invalid digit found in string");
    let gid = UserSpecError::InvalidGid(NumberFault::Empty);
    assert_eq!(gid.message("1000:"), "Invalid gid in --user '1000:'");
    assert_eq!(gid.fault().text(), "cannot parse integer from empty string");
    assert_eq!(NumberFault::TooLarge.text(), "number too large to fit in target type");
}

#[test]
fn texts_of_faults_are_those_of_the_standard_library() {
    for (text, fault) in [
        ("", NumberFault::Empty),
        ("x", NumberFault::InvalidDigit),
        ("+", NumberFault::InvalidDigit),
        ("4294967296", NumberFault::TooLarge),
    ] {
        assert_eq!(text.parse::<u32>().unwrap_err().to_string(), fault.text());
    }
}

#[test]
fn sudo_names_the_calling_user() {
    let uid = Uid::from_raw(0);
    let gid = Gid::from_raw(0);
    assert_eq!(
        calling_user(Some("1000"), Some("1001"), uid, gid),
        (Uid::from_raw(1000), Gid::from_raw(1001))
    );
    assert_eq!(calling_user(Some("1000"), None, uid, gid), (Uid::from_raw(1000), gid));
    assert_eq!(calling_user(Some("me"), Some("5"), uid, gid), (uid, Gid::from_raw(5)));
    assert_eq!(calling_user(None, None, Uid::from_raw(3), Gid::from_raw(4)),
        (Uid::from_raw(3), Gid::from_raw(4)));
}

#[test]
fn root_keeps_its_privileges() {
    assert!(!drop_privileges(Uid::from_raw(0), Gid::from_raw(0)));
    assert!(drop_privileges(Uid::from_raw(0), Gid::from_raw(1)));
    assert!(drop_privileges(Uid::from_raw(1), Gid::from_raw(0)));
}

#[test]
fn user_spec_reads_back() {
    let text = user_spec(Uid::from_raw(1000), Gid::from_raw(0));
    assert_eq!(text, "1000:0");
    assert_eq!(
        parse_user_spec(false, Some(text.as_str()), caller()),
        Ok((Uid::from_raw(1000), Gid::from_raw(0)))
    );
}

#[test]
fn groups_are_separated_by_commas() {
    assert_eq!(groups_to_csv(&[]), "");
    assert_eq!(groups_to_csv(&[Gid::from_raw(27)]), "27");
    assert_eq!(
        groups_to_csv(&[Gid::from_raw(4), Gid::from_raw(0), Gid::from_raw(u32::MAX)]),
        "4,0,4294967295"
    );
}

#[test]
fn raw_numbers_come_back() {
    assert_eq!(uid_raw(Uid::from_raw(12)), 12);
    assert_eq!(gid_raw(Gid::from_raw(34)), 34);
}
