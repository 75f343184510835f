//! A registry of the Java runtimes installed under one directory, and of the
//! one that is active.
//!
//! Every installation is a directory below the root directory and describes
//! itself in a release file. One entry of the root, the marker `Current`, is
//! a link that leads to the active installation.
//!
//! The library decides and never touches the disk. The caller reads
//! directories and files and hands in what it found as plain values; where
//! the disk is to be changed the library hands out the steps to take, one at
//! a time, and the caller reports what came of each.
//!
//! - [`text`]: searching, splitting and trimming sequences of characters.
//! - [`ini`]: the `KEY=VALUE` text of a release file.
//! - [`mac`]: the description of one installation, and the state of the
//!   marker.
//! - [`jvm`]: the installations of a root directory, by index.
//! - [`step`]: the steps of activating and removing an installation.
//! - [`init`]: what setting a root directory up comes to.
//! - [`dirs2`]: the paths that the registry knows by name.
//! - [`error`]: what can go wrong.
//! - [`report`]: the diagnostics for the user.

pub mod dirs2;
pub mod error;
pub mod ini;
pub mod init;
pub mod jvm;
pub mod mac;
pub mod report;
pub mod step;
pub mod text;

pub use jvm::{Metadata, VARIANT_KEY, VENDOR_KEY, VERSION_KEY};
pub use mac::{current_metadata, metadata, JAVA_VM_DIR};
pub use report::{warnx, warnx_at};
