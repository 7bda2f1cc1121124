//! A verified engine for a desktop trash can.
//!
//! Deleted items are moved, not destroyed: each trashed entry is a payload
//! (the file or directory itself) paired with a small metadata record that
//! remembers the original location and the deletion time.  The engine covers
//! device discovery, per-device trash-location resolution, the paired
//! payload/metadata on-disk model, and the put / list / remove / restore /
//! empty lifecycle with its consistency rules.
//!
//! The engine itself performs no I/O.  Filesystem state is an explicit value
//! (`fs::Fs`), environment configuration is an explicit value
//! (`common::TrashConfig`), and the current time enters through one narrow
//! call.  Every operation is specified against that explicit state.
#![allow(unused_imports)]

pub mod actions;
pub mod codec;
pub mod common;
pub mod datetime;
pub mod fs;
pub mod mount;
pub mod strutil;
pub mod trash;
pub mod tree;
pub mod trash_info;
