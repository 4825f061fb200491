//! The panel's own log pane state: collected records, their
//! producers, and the display filters.

use vstd::prelude::*;
use vstd::string::StringExecFns;

verus! {

/// Severity of a panel log record.
#[derive(Copy, Clone, PartialEq, Eq, Structural, Debug)]
pub enum LogLevel {
    Debug,
    Info,
    Warning,
    Error,
}

/// A severity filter: one severity, or everything.
#[derive(Copy, Clone, PartialEq, Eq, Structural, Debug)]
pub enum LogLevelFilter {
    Debug,
    Info,
    Warning,
    Error,
    All,
}

/// One panel log record.
pub struct Log {
    pub level: LogLevel,
    pub producer: String,
    pub log: String,
    pub time: i64,
}

/// Numeric rank of a severity.
pub open spec fn rank(l: LogLevel) -> int {
    match l {
        LogLevel::Debug => 0,
        LogLevel::Info => 1,
        LogLevel::Warning => 2,
        LogLevel::Error => 3,
    }
}

/// The collected records with their producers (unique, in order of
/// first appearance) and the running maximum severity.
pub struct LogHolder {
    pub producers: Vec<String>,
    pub max_level: LogLevel,
    pub logs: Vec<Log>,
    pub producer_filter: String,
    pub max_log_level: LogLevel,
    pub level_filter: LogLevelFilter,
}

/// Whether a producer name is already registered.
pub open spec fn knows_producer(s: Seq<String>, p: Seq<char>) -> bool {
    exists|i: int| 0 <= i < s.len() && s[i]@ == p
}

impl LogHolder {
    /// Producer names are unique.
    pub open spec fn wf(&self) -> bool {
        forall|i: int, j: int|
            0 <= i < j < self.producers@.len() ==> self.producers@[i]@ != self.producers@[j]@
    }

    /// A fresh holder with the wildcard producer.
    pub fn new() -> (r: Self)
        ensures
            r.producers@.len() == 1 && r.producers@[0]@ == "All"@,
            r.logs@.len() == 0,
            r.max_level == LogLevel::Info,
            r.producer_filter@ == "All"@,
            r.max_log_level == LogLevel::Info,
            r.level_filter == LogLevelFilter::Info,
            r.wf(),
    {
        let mut producers: Vec<String> = Vec::new();
        producers.push(String::from_str("All"));
        LogHolder {
            producers,
            max_level: LogLevel::Info,
            logs: Vec::new(),
            producer_filter: String::from_str("All"),
            max_log_level: LogLevel::Info,
            level_filter: LogLevelFilter::Info,
        }
    }

    /// Record one log: register its producer if unseen, raise the
    /// running maximum severity, and append the record.
    pub fn add(&mut self, log: Log)
        requires
            old(self).wf(),
        ensures
            final(self).wf(),
            final(self).logs@ == old(self).logs@.push(log),
            final(self).producers@ == (if knows_producer(old(self).producers@, log.producer@) {
                old(self).producers@
            } else {
                old(self).producers@.push(log.producer)
            }),
            rank(final(self).max_level) == (if rank(log.level) >= rank(old(self).max_level) {
                rank(log.level)
            } else {
                rank(old(self).max_level)
            }),
            final(self).producer_filter == old(self).producer_filter,
            final(self).max_log_level == old(self).max_log_level,
            final(self).level_filter == old(self).level_filter,
    {
        let mut seen = false;
        let mut k: usize = 0;
        let m = self.producers.len();
        let ghost ps = self.producers@;
        while k < m && !seen
            invariant
                m == self.producers@.len(),
                ps == self.producers@,
                k <= m,
                seen ==> knows_producer(self.producers@, log.producer@),
                !seen ==> (forall|x: int|
                    0 <= x < k as int ==> self.producers@[x]@ != log.producer@),
            decreases m - k,
        {
            if self.producers[k] == log.producer {
                seen = true;
            }
            k += 1;
        }
        if !seen {
            self.producers.push(log.producer.clone());
            proof {
                assert forall|x: int, y: int|
                    0 <= x < y < self.producers@.len() implies self.producers@[x]@
                    != self.producers@[y]@ by {
                    if y == self.producers@.len() - 1 {
                        assert(self.producers@[x] == ps[x]);
                        assert(self.producers@[y]@ == log.producer@);
                    }
                }
            }
        }
        let lr: u8 = match log.level {
            LogLevel::Debug => 0,
            LogLevel::Info => 1,
            LogLevel::Warning => 2,
            LogLevel::Error => 3,
        };
        let mr: u8 = match self.max_level {
            LogLevel::Debug => 0,
            LogLevel::Info => 1,
            LogLevel::Warning => 2,
            LogLevel::Error => 3,
        };
        if lr >= mr {
            self.max_level = log.level;
        }
        self.logs.push(log);
    }
}

} // verus!
