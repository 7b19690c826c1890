//! Settings of the engine with their defaults, and the checks that values
//! read from a configuration file go through.

use vstd::prelude::*;
use crate::refresh::{ConfigNoHighlighting, RefreshPolicy};

verus! {

/// Seconds in a day.
pub const DAYS_TO_SECS: u64 = 86400;

/// Network settings.
#[derive(Clone, Copy, Debug)]
pub struct ConfigNet {
    /// Timeout of one fetch, in seconds.
    pub timeout_secs: u64,
    /// How many fetches may run at once; at least 1.
    pub concurrency: usize,
}

impl Default for ConfigNet {
    fn default() -> (r: Self)
        ensures
            r.timeout_secs == 10 && r.concurrency == 1,
    {
        ConfigNet { timeout_secs: 10, concurrency: 1 }
    }
}

/// Settings of refreshing and storing.
#[derive(Clone, Copy, Debug)]
pub struct ConfigDb {
    /// Interval between two retrievals of a feed, in seconds.
    pub refresh_interval_secs: u64,
    /// The slack of the interval, in thousandths of it.
    pub refresh_slack_permille: u64,
    /// How far before the oldest entry of a fetch seen items are collected,
    /// in seconds.
    pub gc_age_offset_secs: u64,
    /// Whether edited entries count toward the revision bump as new ones do.
    pub highlight_updated_items: bool,
}

impl Default for ConfigDb {
    fn default() -> (r: Self)
        ensures
            r.refresh_interval_secs == 600,
            r.refresh_slack_permille == 100,
            r.gc_age_offset_secs == 180 * DAYS_TO_SECS,
            !r.highlight_updated_items,
    {
        ConfigDb {
            refresh_interval_secs: 600,
            refresh_slack_permille: 100,
            gc_age_offset_secs: 180 * DAYS_TO_SECS,
            highlight_updated_items: false,
        }
    }
}

impl ConfigDb {
    /// The refresh policy these settings give; an offset beyond the range of
    /// `i64` is held at its largest value.
    pub fn policy(&self) -> (r: RefreshPolicy)
        ensures
            r.gc_age_offset_secs == if self.gc_age_offset_secs <= i64::MAX {
                self.gc_age_offset_secs as int
            } else {
                i64::MAX as int
            },
            r.highlight_updated_items == self.highlight_updated_items,
    {
        let offset: i64 = if self.gc_age_offset_secs <= i64::MAX as u64 {
            self.gc_age_offset_secs as i64
        } else {
            i64::MAX
        };
        RefreshPolicy { gc_age_offset_secs: offset, highlight_updated_items: self.highlight_updated_items }
    }

    /// The refresh interval in milliseconds, held within `u64`.
    pub fn refresh_interval_ms(&self) -> (r: u64)
        ensures
            r == if self.refresh_interval_secs * 1000 <= u64::MAX {
                self.refresh_interval_secs * 1000
            } else {
                u64::MAX as int
            },
    {
        self.refresh_interval_secs.checked_mul(1000).unwrap_or(u64::MAX)
    }
}

/// All settings.
#[derive(Debug)]
pub struct Config {
    pub net: ConfigNet,
    pub db: ConfigDb,
    pub no_highlighting: ConfigNoHighlighting,
}

impl Config {
    /// The defaults.
    pub fn new() -> (r: Config)
        ensures
            r.net.timeout_secs == 10 && r.net.concurrency == 1,
            r.db.refresh_interval_secs == 600 && r.db.refresh_slack_permille == 100,
            r.db.gc_age_offset_secs == 180 * DAYS_TO_SECS && !r.db.highlight_updated_items,
            r.no_highlighting.title@.len() == 0 && r.no_highlighting.summary@.len() == 0,
            r.no_highlighting.url@.len() == 0 && !r.no_highlighting.set_seen,
    {
        Config { net: ConfigNet::default(), db: ConfigDb::default(), no_highlighting: ConfigNoHighlighting::new() }
    }
}

/// A count of seconds read from the file: not negative.
pub fn duration_secs(v: i64) -> (r: Option<u64>)
    ensures
        v >= 0 ==> r == Some(v as u64),
        v < 0 ==> r is None,
{
    if v >= 0 {
        Some(v as u64)
    } else {
        None
    }
}

/// A count of days read from the file, in seconds: not negative, and
/// representable.
pub fn duration_days(v: i64) -> (r: Option<u64>)
    ensures
        v >= 0 && v * DAYS_TO_SECS <= u64::MAX ==> r == Some((v * DAYS_TO_SECS) as u64),
        v < 0 || v * DAYS_TO_SECS > u64::MAX ==> r is None,
{
    if v >= 0 {
        (v as u64).checked_mul(DAYS_TO_SECS)
    } else {
        None
    }
}

/// A size read from the file: not negative, and representable.
pub fn count_of(v: i64) -> (r: Option<usize>)
    ensures
        v >= 0 && v <= usize::MAX ==> r == Some(v as usize),
        v < 0 || v > usize::MAX ==> r is None,
{
    if v >= 0 && (v as u64) <= usize::MAX as u64 {
        Some(v as usize)
    } else {
        None
    }
}

/// A size read from the file that must not be zero.
pub fn nonzero_count_of(v: i64) -> (r: Option<usize>)
    ensures
        v > 0 && v <= usize::MAX ==> r == Some(v as usize),
        v <= 0 || v > usize::MAX ==> r is None,
{
    match count_of(v) {
        Some(n) => if n > 0 {
            Some(n)
        } else {
            None
        },
        None => None,
    }
}

/// Command-line options of the daemon.
#[derive(Clone, Debug)]
pub struct Opts {
    /// The name of the database to use.
    pub db: String,
    /// The number of worker threads.
    pub worker_threads: usize,
    /// Feed refresh interval, in seconds.
    pub refresh_interval: u64,
    /// Do not create the PID file.
    pub no_pidfile: bool,
}

impl Opts {
    /// The refresh interval in milliseconds, held within `u64`.
    pub fn refresh_interval(&self) -> (r: u64)
        ensures
            r == if self.refresh_interval * 1000 <= u64::MAX {
                self.refresh_interval * 1000
            } else {
                u64::MAX as int
            },
    {
        self.refresh_interval.checked_mul(1000).unwrap_or(u64::MAX)
    }
}

} // verus!
