//! The verified core of a dotfiles installer.
//!
//! The installer mirrors the entries of a source tree into a home directory as
//! symbolic links and never replaces an entry that is already there. This crate
//! holds every decision of that work and none of its input and output: each
//! operation is a small state machine that names the next filesystem action and
//! is handed the outcome of the previous one. A driver outside this crate
//! performs the actions.

pub mod command;
pub mod command_laws;
pub mod directories;
pub mod directory_laws;
pub mod error;
pub mod install;
pub mod install_laws;
pub mod paths;
pub mod protocol;
pub mod uninstall;
pub mod uninstall_laws;
pub mod url;
pub mod world;
