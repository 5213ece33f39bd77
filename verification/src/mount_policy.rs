//! What is kept out of the overlay.

use vstd::prelude::*;

verus! {

/// Which directories and filesystems are not put under an overlay.
#[derive(Debug, Clone)]
pub struct MountPolicy {
    pub passthrough_dirs: Vec<&'static str>,
    pub extra_overlay_skip_prefixes: Vec<&'static str>,
    pub overlay_incompatible_fs_types: Vec<&'static str>,
}

impl Default for MountPolicy {
    fn default() -> (policy: Self)
        ensures
            policy.passthrough_dirs@ == seq!["proc", "dev", "sys", "run", "var"],
            policy.extra_overlay_skip_prefixes@ == seq!["/proc", "/dev", "/sys", "/run", "/var"],
            policy.overlay_incompatible_fs_types@ == seq![
                "vfat",
                "msdos",
                "exfat",
                "ntfs",
                "ntfs3",
                "iso9660",
                "squashfs",
            ],
    {
        MountPolicy {
            passthrough_dirs: vec!["proc", "dev", "sys", "run", "var"],
            extra_overlay_skip_prefixes: vec!["/proc", "/dev", "/sys", "/run", "/var"],
            overlay_incompatible_fs_types: vec![
                "vfat", "msdos", "exfat", "ntfs", "ntfs3", "iso9660", "squashfs",
            ],
        }
    }
}

} // verus!
