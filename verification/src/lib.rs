//! Applies unified-diff patches to staged copies of third-party packages.
//!
//! The crate holds the rules of a patching run: how declared patch
//! directives are read and matched against resolved dependencies, how hunk
//! headers are brought to their bare form, how hunks are replayed over a
//! file's lines, which target paths are allowed, and in which order a run
//! resets, stages, reads, patches and writes.  Everything that touches the
//! file system or a package registry is left to the caller, which performs
//! the actions that [`pipeline::Run`] asks for.

pub mod apply;
pub mod diff;
pub mod directive;
pub mod guard;
pub mod matcher;
pub mod normalize;
pub mod pipeline;
pub mod text;
pub mod version;
