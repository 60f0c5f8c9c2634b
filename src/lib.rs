//! Invalidation of entries in a reverse proxy's on-disk HTTP cache.
//!
//! The proxy stores the response for a cache key in a file named by the
//! lowercase hex MD5 digest of the key, nested under directories taken from
//! the right end of that digest. This library holds the purge engine's logic:
//! parsing a level specification, deriving where a key's entry lives,
//! compiling and matching wildcard keys, reading the stored key out of a cache
//! file, and the decisions of exact, wildcard and bulk purges. Performing the
//! file system operations is left to the caller, who hands the outcomes back.

pub mod bytes;
pub mod cache_path;
pub mod cleanup;
pub mod exact;
pub mod front;
pub mod laws;
pub mod levels;
pub mod outcome;
pub mod pattern;
pub mod stored_key;
pub mod wildcard;
pub mod wipe;
