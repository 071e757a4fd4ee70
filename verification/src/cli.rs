//! The commands of the command line, as plain values.

use vstd::prelude::*;

verus! {

/// One invocation of the program.
#[derive(Debug)]
pub struct Cli {
    pub command: Commands,
}

/// What the program can be asked to do.
#[derive(Debug)]
pub enum Commands {
    /// Scan a directory tree and sync what is found into the cache.
    Scan { root: String, db: String },
    /// List the collections of the cache.
    Ls { db: String },
    /// List the parameter names that the entries of a collection use.
    LsParams { db: String, collection: String },
    /// Write the decoded metadata of each entry beside its container.
    Migrate { root: String },
    /// Show the cached entries of a collection as a table.
    Display { db_path: String, collection: String },
    /// Make a new collection.
    Create { path: String, uid: String },
}

impl Commands {
    /// The cache file that the command works on, if it works on one.
    pub open spec fn spec_cache_path(&self) -> Option<Seq<char>> {
        match self {
            Commands::Scan { db, .. } => Some(db@),
            Commands::Ls { db } => Some(db@),
            Commands::LsParams { db, .. } => Some(db@),
            Commands::Migrate { .. } => None,
            Commands::Display { db_path, .. } => Some(db_path@),
            Commands::Create { .. } => None,
        }
    }

    /// The cache file that the command works on, if it works on one.
    pub fn cache_path(&self) -> (r: Option<&str>)
        ensures
            match r {
                Some(p) => self.spec_cache_path() == Some(p@),
                None => self.spec_cache_path() is None,
            },
    {
        match self {
            Commands::Scan { db, .. } => Some(db.as_str()),
            Commands::Ls { db } => Some(db.as_str()),
            Commands::LsParams { db, .. } => Some(db.as_str()),
            Commands::Migrate { .. } => None,
            Commands::Display { db_path, .. } => Some(db_path.as_str()),
            Commands::Create { .. } => None,
        }
    }

    /// Whether the command may change the cache file.
    pub fn writes_cache(&self) -> (r: bool)
        ensures
            r == (self is Scan),
    {
        match self {
            Commands::Scan { .. } => true,
            _ => false,
        }
    }
}

} // verus!
