//! What a run is configured with.

use crate::ip::IP;
use crate::source::Source;
use vstd::prelude::*;

verus! {

/// How much is logged.
#[derive(Clone, Copy, Debug, PartialEq, Eq, Structural)]
pub enum LogLevel {
    Error,
    Warn,
    Info,
    Debug,
    Trace,
}

/// Where the exclusion list comes from.
#[derive(Debug)]
pub enum ExcludedIps {
    /// It is fetched from this URL, once per run and without asking the cache.
    Url(String),
    /// It is written out in the configuration.
    List(Vec<IP>),
}

/// The configuration of a run.
#[derive(Debug)]
pub struct Config {
    pub log_level: LogLevel,
    /// The table that holds the sets.
    pub table_name: String,
    pub sources: Vec<Source>,
    pub excluded_ips: Option<ExcludedIps>,
    /// The most elements that one command adds; unbounded where absent.
    pub split_by_chunks: Option<usize>,
    /// When the daemon runs a pass, in cron notation.
    pub update_schedule: Option<String>,
}

/// The name of the table where none is configured.
pub open spec fn default_table_name() -> Seq<char> {
    seq!['f', 'w', '4']
}

/// The chunk size that a configuration asks for: the one it names, else no bound.
pub open spec fn configured_chunk_size(config: Config) -> usize {
    match config.split_by_chunks {
        Some(size) => size,
        None => usize::MAX,
    }
}

impl Config {
    /// The most elements that one command adds.
    pub fn chunk_size(&self) -> (r: usize)
        ensures
            r == configured_chunk_size(*self),
    {
        match self.split_by_chunks {
            Some(size) => size,
            None => usize::MAX,
        }
    }
}

impl Default for Config {
    /// No sources and no exclusions, the table `fw4`, logging at `Info`.
    fn default() -> (r: Config)
        ensures
            r.log_level == LogLevel::Info,
            r.table_name@ == default_table_name(),
            r.sources@.len() == 0,
            r.excluded_ips is None,
            r.split_by_chunks is None,
            r.update_schedule is None,
    {
        proof {
            reveal_strlit("fw4");
            assert("fw4"@ =~= default_table_name());
        }
        Config {
            log_level: LogLevel::Info,
            table_name: "fw4".to_owned(),
            sources: Vec::new(),
            excluded_ips: None,
            split_by_chunks: None,
            update_schedule: None,
        }
    }
}

} // verus!
