//! Ephemeral files and directories whose lifetime is bound to a handle.
//!
//! The library makes the decisions: where a path resolves, which unused
//! name to take, which directories a creation makes and what rollback
//! removes, and what each disposal of a file or directory removes. The
//! caller performs the filesystem work a decision asks for and reports back.
//! An in-memory filesystem is included as well.

/// Errors of the library.
pub mod error;
/// Settings of random name generation.
pub mod config;
/// Path text: segments, normalization, resolution, ancestors.
pub mod paths;
/// Random names that avoid those in use.
pub mod names;
/// Plans for creating files and directories with their missing parents.
pub mod create;
/// The lifecycle of a temporary file.
pub mod temp_file;
/// The lifecycle of a temporary directory and the files it tracks.
pub mod temp_dir;
/// A virtual in-memory Unix-like filesystem.
pub mod virt_fs;

pub use config::NameConfig;
pub use error::{FsError, TempError, TempResult};
pub use temp_dir::TempDir;
pub use temp_file::TempFile;
