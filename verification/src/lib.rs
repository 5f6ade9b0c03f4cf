//! The engine of a file browser: directory listings, a bounded cache of
//! them, a lazily loaded directory tree and a navigation history.
//!
//! Nothing in this crate touches the disk. Whoever drives it reads
//! directories and hands the raw entries in; the crate decides what they
//! mean, what is kept, and what has to be read next.
//!
//! - `text` and `path` hold the ground: the order of names, and paths as
//!   a root with segments.
//! - `models` holds the data: raw and listed entries, tree nodes, the
//!   state of the browser.
//! - `listing` turns raw entries into a listing; `cache` keeps listings;
//!   `file_system` serves pages through the cache and builds tree nodes.
//! - `tree` walks the directory tree; `history` keeps the visited paths.
//! - `delegate` handles the commands of the browser, and `startup` builds
//!   its first state.
//! - `display` writes sizes and names for a reader.

pub mod cache;
pub mod delegate;
pub mod display;
pub mod file_system;
pub mod history;
pub mod listing;
pub mod models;
pub mod path;
pub mod startup;
pub mod text;
pub mod tree;
