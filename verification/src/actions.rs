//! The home-trash commands: each resolves the home trash location from the
//! configuration and runs the shared store operation there.
pub mod trash_empty;
pub mod trash_list;
pub mod trash_put;
pub mod trash_remove;
pub mod trash_restore;
