use vegas::mount_policy::MountPolicy;

#[test]
fn default_policy_lists_what_is_passed_through_and_skipped() {
    let policy = MountPolicy::default();
    assert_eq!(policy.passthrough_dirs, vec!["proc", "dev", "sys", "run", "var"]);
    assert_eq!(
        policy.extra_overlay_skip_prefixes,
        vec!["/proc", "/dev", "/sys", "/run", "/var"]
    );
    assert_eq!(
        policy.overlay_incompatible_fs_types,
        vec!["vfat", "msdos", "exfat", "ntfs", "ntfs3", "iso9660", "squashfs"]
    );
}
