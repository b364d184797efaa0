//! Detection of Linux package managers and the decisions of a universal
//! update tool: which managers apply to a distribution, which are installed,
//! which of them are redundant, and what the menu and the command line ask
//! for.

pub mod manager;
pub mod text;
pub mod os_release;
pub mod detect;
pub mod updater;
pub mod cli;
pub mod laws;
