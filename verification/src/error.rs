//! The error taxonomy of the launcher.

use vstd::prelude::*;

verus! {

/// Everything that can go wrong in the launcher.
///
/// `IoError` and `SpawnError` are produced by the I/O shell around this
/// library (file access and process creation); the verified functions here
/// only ever return `ParseError` (malformed configuration document) and
/// `IndexError` (operation addressed a list position that does not exist).
#[derive(Clone, Copy, Debug, PartialEq, Eq, Structural)]
pub enum LauncherError {
    IoError,
    ParseError,
    IndexError,
    SpawnError,
}

} // verus!
