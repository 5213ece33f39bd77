//! A filesystem sandbox: a command runs in an overlay of the real filesystem, what it changed is
//! shown, and the user decides whether the changes are applied, kept or thrown away.
//!
//! The modules decide and compute; they make no system call. [`sandbox`], [`apply`], [`cleanup`]
//! and [`setuid`] are machines that ask for one action at a time and take in what came of it.

pub mod apply;
pub mod cleanup;
pub mod diff;
pub mod files;
pub mod laws;
pub mod layout;
pub mod mount_policy;
pub mod mountinfo;
pub mod order;
pub mod os;
pub mod path;
pub mod path_set;
pub mod sandbox;
pub mod setuid;
pub mod text;
pub mod user;
