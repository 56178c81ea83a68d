//! Stand-ins for `remctl` and `bearcli`, run as their own binaries.
//!
//! They implement the subset remtui drives with the real tools' contracts,
//! so a demo needs no Reminders. The decisions live here; reading and
//! writing the state file and printing happen around them.

pub mod args;

pub mod bearcli;
pub mod output;
pub mod remctl;
