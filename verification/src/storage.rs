//! Settings for the SQLite-backed logbook storage.

use vstd::prelude::*;
use std::time::Duration;

verus! {

/// What `Duration::from_secs` gives for `secs` seconds.
pub uninterp spec fn duration_of_secs(secs: u64) -> Duration;

/// `Duration::from_secs`: a span of `secs` whole seconds.
#[verifier::external_body]
fn duration_from_secs(secs: u64) -> (d: Duration)
    ensures
        d == duration_of_secs(secs),
{
    Duration::from_secs(secs)
}

/// The database file used when no other path is given.
pub open spec fn default_database_path() -> Seq<char> {
    "logripper.db"@
}

/// Where and how the logbook database is opened: a file path (`None` for
/// an in-memory database) and the busy timeout for write contention.
#[derive(Debug)]
pub struct SqliteStorageBuilder {
    path: Option<String>,
    busy_timeout: Duration,
}

impl SqliteStorageBuilder {
    /// The database path, `None` for an in-memory database.
    pub closed spec fn database_path(&self) -> Option<Seq<char>> {
        match self.path {
            Some(p) => Some(p@),
            None => None,
        }
    }

    /// The busy timeout.
    pub closed spec fn timeout(&self) -> Duration {
        self.busy_timeout
    }

    /// A builder for `logripper.db` in the working directory with a
    /// five-second busy timeout.
    pub fn new() -> (b: Self)
        ensures
            b.database_path() == Some(default_database_path()),
            b.timeout() == duration_of_secs(5),
    {
        proof {
            reveal_strlit("logripper.db");
        }
        SqliteStorageBuilder {
            path: Some("logripper.db".to_owned()),
            busy_timeout: duration_from_secs(5),
        }
    }

    /// The same settings, with the database at `path`.
    pub fn path(self, path: &str) -> (b: Self)
        ensures
            b.database_path() == Some(path@),
            b.timeout() == self.timeout(),
    {
        SqliteStorageBuilder { path: Some(path.to_owned()), busy_timeout: self.busy_timeout }
    }

    /// The same settings, with an in-memory database.
    pub fn in_memory(self) -> (b: Self)
        ensures
            b.database_path().is_none(),
            b.timeout() == self.timeout(),
    {
        SqliteStorageBuilder { path: None, busy_timeout: self.busy_timeout }
    }

    /// The same settings, with busy timeout `timeout`.
    pub fn busy_timeout(self, timeout: Duration) -> (b: Self)
        ensures
            b.database_path() == self.database_path(),
            b.timeout() == timeout,
    {
        SqliteStorageBuilder { path: self.path, busy_timeout: timeout }
    }

    /// The database path, `None` for an in-memory database.
    pub fn database_file(&self) -> (r: Option<String>)
        ensures
            match r {
                Some(p) => self.database_path() == Some(p@),
                None => self.database_path().is_none(),
            },
    {
        match &self.path {
            Some(p) => Some(p.clone()),
            None => None,
        }
    }

    /// The busy timeout.
    pub fn timeout_duration(&self) -> (r: Duration)
        ensures
            r == self.timeout(),
    {
        self.busy_timeout
    }

    /// The write-ahead journal is used for a file database only.
    pub fn uses_write_ahead_log(&self) -> (r: bool)
        ensures
            r == self.database_path().is_some(),
    {
        self.path.is_some()
    }
}

impl Default for SqliteStorageBuilder {
    /// The builder `new` gives: `logripper.db`, five seconds.
    fn default() -> (b: Self)
        ensures
            b.database_path() == Some(default_database_path()),
            b.timeout() == duration_of_secs(5),
    {
        Self::new()
    }
}

} // verus!
