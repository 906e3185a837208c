//! The audit log.
//!
//! An append-only record of dispatched actions. The log sink is owned by the
//! running system and threaded through calls explicitly, so independent
//! system instances never share state. Human-readable rendering of entries
//! (timestamp formatting and the like) is a presentation concern outside
//! this store.

use vstd::prelude::*;
use vstd::string::StringExecFns;

use crate::users::UserId;

verus! {

/// Severity of an audit entry.
#[derive(Debug, Clone, Copy, PartialEq, Eq, Structural)]
pub enum LogLevel {
    Debug,
    Info,
    Error,
}

/// The mathematical face of an audit entry.
#[verifier::ext_equal]
pub struct LogV {
    pub level: LogLevel,
    pub uid: Option<u64>,
    pub msg: Seq<char>,
    pub time: u64,
}

/// One audit entry: severity, the acting user if any, a message, and the
/// wall-clock timestamp (milliseconds) it was recorded at.
#[derive(Debug)]
pub struct Log {
    pub level: LogLevel,
    pub uid: Option<UserId>,
    pub msg: String,
    pub time: u64,
}

impl View for Log {
    type V = LogV;

    open spec fn view(&self) -> LogV {
        LogV {
            level: self.level,
            uid: match self.uid {
                Some(u) => Some(u.0),
                None => None,
            },
            msg: self.msg@,
            time: self.time,
        }
    }
}

impl Log {
    /// An entry attributed to a user, stamped with the given time.
    pub fn new_with_uid(level: LogLevel, uid: UserId, msg: String, time: u64) -> (r: Log)
        ensures
            r@ == (LogV { level, uid: Some(uid.0), msg: msg@, time }),
    {
        Log { level, uid: Some(uid), msg, time }
    }

    /// An entry with no attributed user, stamped with the given time.
    pub fn new(level: LogLevel, msg: String, time: u64) -> (r: Log)
        ensures
            r@ == (LogV { level, uid: None, msg: msg@, time }),
    {
        Log { level, uid: None, msg, time }
    }

    /// A field-for-field copy of the entry.
    pub fn duplicate(&self) -> (r: Log)
        ensures
            r@ == self@,
    {
        Log {
            level: self.level,
            uid: self.uid,
            msg: self.msg.clone(),
            time: self.time,
        }
    }
}

/// The views of a list of entries.
pub open spec fn log_views(s: Seq<Log>) -> Seq<LogV> {
    Seq::new(s.len(), |i: int| s[i]@)
}

/// The append-only sink of audit entries.
#[derive(Debug)]
pub struct Logger {
    pub logs: Vec<Log>,
}

impl View for Logger {
    type V = Seq<LogV>;

    open spec fn view(&self) -> Seq<LogV> {
        Seq::new(self.logs@.len() as nat, |i: int| self.logs@[i]@)
    }
}

impl Logger {
    /// An empty log.
    pub fn new() -> (r: Logger)
        ensures
            r@ == Seq::<LogV>::empty(),
    {
        let r = Logger { logs: Vec::new() };
        proof {
            assert(r@ =~= Seq::<LogV>::empty());
        }
        r
    }

    /// Appends one entry; entries are never mutated or dropped.
    pub fn log(&mut self, log: Log)
        ensures
            final(self)@ == old(self)@.push(log@),
    {
        self.logs.push(log);
        proof {
            assert(self@ =~= old(self)@.push(self.logs@.last()@));
        }
    }

    /// The recorded entries, oldest first.
    pub fn logs(&self) -> (r: &Vec<Log>)
        ensures
            r@ == self.logs@,
            Seq::new(r@.len() as nat, |i: int| r@[i]@) == self@,
    {
        &self.logs
    }

    /// A field-for-field copy of every entry, oldest first.
    pub fn snapshot(&self) -> (r: Vec<Log>)
        ensures
            log_views(r@) =~= self@,
    {
        let mut out: Vec<Log> = Vec::new();
        let mut i: usize = 0;
        while i < self.logs.len()
            invariant
                0 <= i <= self.logs@.len(),
                out@.len() == i,
                forall|j: int| 0 <= j < i ==> (#[trigger] out@[j]@) == self@[j],
            decreases self.logs@.len() - i,
        {
            out.push(self.logs[i].duplicate());
            i = i + 1;
        }
        out
    }
}

} // verus!
