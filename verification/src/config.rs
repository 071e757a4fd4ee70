//! Names and limits that the directory layout of a collection is built on.

use vstd::prelude::*;

verus! {

/// Every marker file name starts with this prefix; the collection's uid follows.
pub const META_FILE_PREFIX: &'static str = ".bamboost-collection-";

/// The optional extension of a marker file name.
pub const META_FILE_EXTENSION: &'static str = ".yml";

/// The file that makes a directory an entry of its collection.
pub const DATA_FILE_NAME: &'static str = "data.h5";

/// The directory that is scanned where the caller names none.
pub const DEFAULT_ROOT: &'static str = ".";

/// The cache file used where the caller names none.
pub const DEFAULT_DB_PATH: &'static str = "simdex.db";

/// Marker files are looked for from this depth below the root ...
pub const MIN_DEPTH: usize = 1;

/// ... down to this depth.
pub const MAX_DEPTH: usize = 5;

} // verus!
