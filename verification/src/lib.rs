//! An index of simulation output directories, kept in a change-aware cache.
//!
//! A collection is a directory marked by a sentinel file that carries its uid.
//! Its entries are the subdirectories that hold a result container. The library
//! decides what a directory listing means, decodes what was read from a
//! container, and keeps the cache of entries; reading the disk is left to the
//! caller, who hands over what was found.
//!
//! A sync run decodes a container again only if it was modified strictly after
//! its entry was last written to the cache. An entry that cannot be read is
//! passed over and stops nothing else. A run is all or nothing: where the
//! cache cannot take a row, the run ends with an error and nothing of it is
//! kept.
//!
//! The cache is made for one writer at a time. Two runs that write the same
//! cache file at once are not guarded against each other.

pub mod config;
pub mod search;
pub mod text;
pub mod types;
pub mod entry;
pub mod db;
pub mod api;
pub mod cli;
pub mod collection;
pub mod discovery;
pub mod display;
pub mod laws;
