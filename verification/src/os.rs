//! How the system's numbers for errors and signals are read.

use nix::errno::Errno;
use nix::sys::signal::Signal;
use vstd::prelude::*;

verus! {

/// The text that `nix` shows for the error number `raw`.
pub uninterp spec fn errno_text(raw: i32) -> Seq<char>;

/// Shows an error number by `Errno::from_raw` and the `Display` of `Errno`. The text is a function
/// of the number alone; what it reads is not stated.
#[verifier::external_body]
pub(crate) fn describe_errno(raw: i32) -> (text: String)
    ensures
        text@ == errno_text(raw),
{
    Errno::from_raw(raw).to_string()
}

/// What an error number means for an unmount.
#[derive(Debug, Clone, Copy, PartialEq, Eq, Structural)]
pub enum ErrnoClass {
    /// The mount is in use.
    Busy,
    Other,
}

/// Tells by `Errno::from_raw` whether an error number is `EBUSY`, which is 16 on Linux.
#[verifier::external_body]
pub(crate) fn classify_errno(raw: i32) -> (class: ErrnoClass)
    ensures
        class == (if raw == 16 {
            ErrnoClass::Busy
        } else {
            ErrnoClass::Other
        }),
{
    match Errno::from_raw(raw) {
        Errno::EBUSY => ErrnoClass::Busy,
        _ => ErrnoClass::Other,
    }
}

/// The name that `nix` has for the signal number `raw`, if it knows the signal.
pub uninterp spec fn signal_name(raw: i32) -> Option<Seq<char>>;

/// The view of an optional string.
pub open spec fn opt_text(s: Option<String>) -> Option<Seq<char>> {
    match s {
        Some(t) => Some(t@),
        None => None,
    }
}

/// Names a signal by `Signal::try_from` and the `Debug` of `Signal`. The name is a function of the
/// number alone; what it reads is not stated.
#[verifier::external_body]
pub(crate) fn name_signal(raw: i32) -> (name: Option<String>)
    ensures
        opt_text(name) == signal_name(raw),
{
    match Signal::try_from(raw) {
        Ok(signal) => Some(format!("{:?}", signal)),
        Err(_) => None,
    }
}

} // verus!
