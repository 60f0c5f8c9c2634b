//! What the command line and the request listener need around the engine.

use vstd::prelude::*;
use vstd::string::StringSliceAdditionalSpecFns;

use crate::bytes::{copy_range_slice, find_from, find_from_spec};
use crate::outcome::AppResult;
use crate::wildcard::{contains_star, has_star};

verus! {

/// A request from the command line: `purge` with its arguments, or `start`
/// with the socket to listen on.
pub struct CLIArgs {
    pub command: CLICommands,
}

/// The commands of the command line. Paths are held as the bytes of the
/// operating system's path.
pub enum CLICommands {
    Purge {
        cache_path: Vec<u8>,
        levels: String,
        key: String,
        exclude_keys: Option<Vec<String>>,
        /// Report each removal instead of performing it.
        dry_run: bool,
    },
    Start { socket_file_path: Vec<u8> },
}

/// Whether `key` asks for a wildcard purge (it holds a `*`) rather than an
/// exact one.
pub fn is_wildcard_key(key: &str) -> (r: bool)
    ensures
        r == has_star(key.spec_bytes()),
{
    contains_star(key.as_bytes())
}

/// `key` without the first occurrence of `remove`, or `key` as it is when
/// `remove` does not occur in it.
pub open spec fn strip_first_spec(key: Seq<u8>, remove: Seq<u8>) -> Seq<u8> {
    match find_from_spec(key, remove, 0) {
        Some(i) => key.subrange(0, i) + key.subrange(i + remove.len(), key.len() as int),
        None => key,
    }
}

/// Removes the first occurrence of `remove` from `key`.
pub fn strip_first(key: &[u8], remove: &[u8]) -> (r: Vec<u8>)
    ensures
        r@ == strip_first_spec(key@, remove@),
{
    let key_len = key.len();
    match find_from(key, remove, 0) {
        Some(i) => {
            let mut out = copy_range_slice(key, 0, i);
            let mut rest = copy_range_slice(key, i + remove.len(), key_len);
            out.append(&mut rest);
            out
        },
        None => copy_range_slice(key, 0, key.len()),
    }
}

/// How a request listener answers a purge.
#[derive(Debug, Clone, Copy, PartialEq, Eq, Structural)]
pub enum ResponseStatus {
    /// 200: something was purged.
    Purged,
    /// 202: the request was fine but there was nothing to purge.
    NothingToPurge,
    /// 500: the purge failed.
    Failed,
}

/// The listener's answer to a purge that ended with `outcome` (`None` when
/// it failed).
pub fn response_status(outcome: &Option<AppResult>) -> (r: ResponseStatus)
    ensures
        r == match outcome {
            Some(AppResult::Purged) => ResponseStatus::Purged,
            Some(_) => ResponseStatus::NothingToPurge,
            None => ResponseStatus::Failed,
        },
{
    match outcome {
        Some(AppResult::Purged) => ResponseStatus::Purged,
        Some(_) => ResponseStatus::NothingToPurge,
        None => ResponseStatus::Failed,
    }
}

} // verus!
