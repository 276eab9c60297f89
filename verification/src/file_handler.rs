//! Staleness policy and the filesystem-facing decisions of a worker:
//! whether an output must be regenerated, where it goes, and whether a
//! written file reads back as intended.

use vstd::prelude::*;
use crate::paths::{json_path_of, json_path_string};
use crate::text::{chars_of, str_eq, string_from_chars};

verus! {

/// Stateless helper owning the per-file filesystem decisions.
pub struct FileHandler {}

/// The staleness rule: regenerate when the output does not exist, when no
/// interval is configured, or when the output is older than the interval.
pub open spec fn spec_should_update(
    output_exists: bool,
    last_modified: Option<u64>,
    now: u64,
    interval: Option<u64>,
) -> bool {
    if !output_exists {
        true
    } else {
        match interval {
            Option::None => true,
            Option::Some(iv) => {
                let lm: int = match last_modified {
                    Option::None => 0,
                    Option::Some(t) => t as int,
                };
                now > lm + iv * 60
            },
        }
    }
}

impl FileHandler {
    pub fn new() -> (r: Self) {
        FileHandler {}
    }

    /// Decide whether the query must be re-run, from the observed state of
    /// the output file: whether it exists, its last-modified time in seconds
    /// since the epoch, the current time, and the configured refresh
    /// interval in minutes (absent interval means "always regenerate").
    pub fn should_update(
        &self,
        output_exists: bool,
        last_modified: Option<u64>,
        now: u64,
        interval: Option<u64>,
    ) -> (r: bool)
        ensures
            r == spec_should_update(output_exists, last_modified, now, interval),
    {
        if !output_exists {
            return true;
        }
        match interval {
            Option::None => true,
            Option::Some(iv) => {
                let lm: u64 = match last_modified {
                    Option::Some(t) => t,
                    Option::None => 0,
                };
                let deadline: u128 = (lm as u128) + (iv as u128) * 60;
                (now as u128) > deadline
            },
        }
    }

    /// The output path for an input file: its extension replaced by
    /// `json`.
    pub fn sql_to_json_path(&self, sql_path: &str) -> (r: String)
        ensures
            r@ == json_path_of(sql_path@),
    {
        json_path_string(sql_path)
    }

    /// The sidecar path whose exclusive lock guards an input file.
    pub fn lock_path(&self, file_path: &str) -> (r: String)
        ensures
            r@ == file_path@ + seq!['.', 'l', 'o', 'c', 'k'],
    {
        let mut v = chars_of(file_path);
        v.push('.');
        v.push('l');
        v.push('o');
        v.push('c');
        v.push('k');
        proof {
            assert(v@ =~= file_path@ + seq!['.', 'l', 'o', 'c', 'k']);
        }
        string_from_chars(&v)
    }

    /// The atomic writer's integrity check: the bytes read back from the
    /// temporary file must be exactly the intended content.
    pub fn verify_written(&self, intended: &str, observed: &str) -> (ok: bool)
        ensures
            ok == (intended@ == observed@),
    {
        str_eq(intended, observed)
    }
}

} // verus!
