//! Snapshot bookkeeping for an Arch-family package manager frontend.

pub mod assoc;
pub mod cache;
pub mod command;
pub mod diff;
pub mod document;
pub mod git;
pub mod names;
pub mod open;
pub mod orphans;
pub mod packages;
pub mod restore;
pub mod snapshot;
pub mod store;
pub mod text;
pub mod timestamp;
pub mod utils;
pub mod version;
