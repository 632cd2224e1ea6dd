//! Core of a desktop launcher that keeps a user-editable list of installed
//! copies ("instances") of an external executable, persists that list together
//! with a few settings to a structured text document, and prepares the command
//! line for launching an instance.
//!
//! Strings (names, paths, command-line arguments) are carried as byte vectors:
//! the persistence format and the launch plumbing treat them as opaque bytes,
//! and the surrounding program converts at its own boundary.

pub mod codec;
pub mod error;
pub mod init;
pub mod laws;
pub mod launcher;
pub mod registry;
pub mod state;
