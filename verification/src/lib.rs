//! Isolated, disposable working copies of a version-controlled repository,
//! with scripts and interactive shell sessions scoped to them.
//!
//! Three subsystems share the crate: the workspace lifecycle manager
//! ([`workspace`]), which keeps workspace records consistent with their
//! on-disk working trees; the script execution engine ([`script`]), an
//! admission-controlled pool that tracks script runs to completion; and the
//! terminal session manager ([`terminal`]), a capped pool of long-lived
//! interactive sessions with bounded scrollback. Each holds its registry as
//! plain data and decides every transition here, under contracts; the caller
//! owns all process, channel and filesystem work and hands in probed facts
//! and process outcomes. The version-control backend ([`vcs`]) is consumed
//! through trusted declarations over the `git2` crate.

pub mod api;
pub mod dict;
pub mod errors;
pub mod repoconfig;
pub mod script;
pub mod terminal;
pub mod text;
pub mod vcs;
pub mod workspace;
