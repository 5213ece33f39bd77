//! What the operations are for, as theorems over all inputs.

pub mod apply;
pub mod cleanup;
pub mod diff;
pub mod mountinfo;
pub mod path;
pub mod sandbox;
pub mod setuid;
pub mod text;
pub mod user;
