//! The run's configuration as plain data: connection parameters, the
//! start directory, and the per-path refresh intervals.

use vstd::prelude::*;
use crate::text::str_eq;

verus! {

/// Connection parameters for the database.
pub struct DatabaseConfig {
    pub host: String,
    pub port: u16,
    pub user: String,
    pub password: String,
    pub database: String,
}

/// The application settings.
pub struct AppConfig {
    pub start_dir: String,
}

/// The whole configuration. Intervals map a file path, exactly as
/// configured, to a refresh interval in minutes; an absent map or an
/// absent entry means "always stale".
pub struct Config {
    pub database: DatabaseConfig,
    pub app: AppConfig,
    pub file_intervals: Option<Vec<(String, u64)>>,
}

/// The first interval recorded for `path` among `pairs`, if any.
pub open spec fn interval_in(pairs: Seq<(String, u64)>, path: Seq<char>) -> Option<u64>
    decreases pairs.len(),
{
    if pairs.len() == 0 {
        Option::None
    } else if pairs[0].0@ == path {
        Option::Some(pairs[0].1)
    } else {
        interval_in(pairs.drop_first(), path)
    }
}

/// The interval configured for `path`, if any.
pub open spec fn spec_interval(c: Config, path: Seq<char>) -> Option<u64> {
    match c.file_intervals {
        Option::None => Option::None,
        Option::Some(pairs) => interval_in(pairs@, path),
    }
}

impl Config {
    /// The refresh interval configured for exactly this path, in minutes.
    pub fn get_interval(&self, file_path: &str) -> (r: Option<u64>)
        ensures
            r == spec_interval(*self, file_path@),
    {
        match &self.file_intervals {
            Option::None => Option::None,
            Option::Some(pairs) => {
                let n = pairs.len();
                proof {
                    assert(pairs@.skip(0) =~= pairs@);
                }
                let mut i: usize = 0;
                while i < n
                    invariant
                        i <= n,
                        n == pairs@.len(),
                        self.file_intervals == Option::Some(*pairs),
                        interval_in(pairs@.skip(i as int), file_path@) == interval_in(
                            pairs@,
                            file_path@,
                        ),
                    decreases n - i,
                {
                    if str_eq(pairs[i].0.as_str(), file_path) {
                        proof {
                            assert(pairs@.skip(i as int)[0] == pairs@[i as int]);
                        }
                        return Option::Some(pairs[i].1);
                    }
                    proof {
                        assert(pairs@.skip(i as int)[0] == pairs@[i as int]);
                        assert(pairs@.skip(i as int).drop_first() =~= pairs@.skip(i + 1 as int));
                    }
                    i = i + 1;
                }
                proof {
                    assert(pairs@.skip(n as int).len() == 0);
                }
                Option::None
            },
        }
    }
}

} // verus!
