//! Tracks which achievements a game has recorded as unlocked.
//!
//! The game keeps one preference file per save slot. [`achievement_list`]
//! reads the text of such a file into a snapshot, the set of identifiers found
//! in it, and compares two snapshots by set inclusion. [`resource`] defines the
//! text format. [`settings`] holds what the user configures and names the file
//! to read. [`tracker`] keeps the latest snapshot from one poll to the next.
pub mod achievement_list;
pub mod resource;
pub mod settings;
pub mod tracker;
