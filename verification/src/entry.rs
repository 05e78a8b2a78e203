//! The log entry record.
//!
//! An entry's partition key — the calendar date whose file it lives in —
//! is always derived from `created_at`, never from the display-only
//! `timestamp` field.

use crate::clock::{now_stamp, rfc3339_ok, stamp_for_date_parts};
use crate::date::Date;
use vstd::prelude::*;

verus! {

/// One work-log record.
#[derive(Debug, Clone, PartialEq)]
pub struct LogEntry {
    /// Unique within its day partition; decimal milliseconds at creation.
    pub id: String,
    /// The logged text.
    pub content: String,
    /// RFC 3339 timestamp; authoritative for the partition date.
    pub created_at: String,
    /// Provenance tag, e.g. "manual" or "git-commit".
    pub source: String,
    /// Ordered labels; order is kept but carries no meaning.
    pub tags: Vec<String>,
    /// Optional local-time rendering of the same instant, display only.
    pub timestamp: Option<String>,
}

/// The mathematical shape of a log entry.
pub struct LogEntryV {
    pub id: Seq<char>,
    pub content: Seq<char>,
    pub created_at: Seq<char>,
    pub source: Seq<char>,
    pub tags: Seq<Seq<char>>,
    pub timestamp: Option<Seq<char>>,
}

/// The shapes of a sequence of strings.
pub open spec fn tags_view(tags: Seq<String>) -> Seq<Seq<char>> {
    Seq::new(
        tags.len(),
        |k: int|
            if 0 <= k < tags.len() {
                tags[k]@
            } else {
                Seq::empty()
            },
    )
}

impl View for LogEntry {
    type V = LogEntryV;

    open spec fn view(&self) -> LogEntryV {
        LogEntryV {
            id: self.id@,
            content: self.content@,
            created_at: self.created_at@,
            source: self.source@,
            tags: tags_view(self.tags@),
            timestamp: match self.timestamp {
                Some(t) => Some(t@),
                None => None,
            },
        }
    }
}

/// The shape used where a sequence position is out of range.
pub open spec fn entry_v_default() -> LogEntryV {
    LogEntryV {
        id: Seq::empty(),
        content: Seq::empty(),
        created_at: Seq::empty(),
        source: Seq::empty(),
        tags: Seq::empty(),
        timestamp: None,
    }
}

/// The shapes of a sequence of entries.
pub open spec fn eseq(es: Seq<LogEntry>) -> Seq<LogEntryV> {
    Seq::new(
        es.len(),
        |k: int|
            if 0 <= k < es.len() {
                es[k]@
            } else {
                entry_v_default()
            },
    )
}

/// Copies a vector of strings, keeping its shape.
pub fn clone_strings(v: &Vec<String>) -> (r: Vec<String>)
    ensures
        r@.len() == v@.len(),
        tags_view(r@) == tags_view(v@),
{
    let mut r: Vec<String> = Vec::new();
    let mut i: usize = 0;
    while i < v.len()
        invariant
            i <= v@.len(),
            r@.len() == i,
            forall|k: int| 0 <= k < i ==> (#[trigger] r@[k])@ == v@[k]@,
        decreases v@.len() - i,
    {
        r.push(v[i].clone());
        i = i + 1;
    }
    proof {
        assert(tags_view(r@) =~= tags_view(v@));
    }
    r
}

impl LogEntry {
    /// An equal copy, shape for shape.
    pub fn duplicate(&self) -> (r: LogEntry)
        ensures
            r@ == self@,
    {
        let timestamp = match &self.timestamp {
            Some(t) => Some(t.clone()),
            None => None,
        };
        LogEntry {
            id: self.id.clone(),
            content: self.content.clone(),
            created_at: self.created_at.clone(),
            source: self.source.clone(),
            tags: clone_strings(&self.tags),
            timestamp,
        }
    }

    /// A new record stamped with the current instant.
    pub fn new(content: String, source: String, tags: Vec<String>) -> (r: LogEntry)
        ensures
            r@.content == content@,
            r@.source == source@,
            r@.tags == tags_view(tags@),
            r@.id.len() > 0,
            rfc3339_ok(r@.created_at),
            r@.timestamp is Some,
    {
        let stamp = now_stamp();
        LogEntry {
            id: stamp.0,
            content,
            created_at: stamp.1,
            source,
            tags,
            timestamp: Some(stamp.2),
        }
    }

    /// A new record on the given date, stamped with the current time of
    /// day.  `None` only when the local time zone gives that combination
    /// no single meaning.
    pub fn new_with_date(content: String, source: String, tags: Vec<String>, date: Date) -> (r:
        Option<LogEntry>)
        requires
            date.wf(),
        ensures
            r matches Some(e) ==> e@.content == content@ && e@.source == source@ && e@.tags
                == tags_view(tags@) && e@.id.len() > 0 && rfc3339_ok(e@.created_at)
                && e@.timestamp is Some,
    {
        match stamp_for_date_parts(date.year, date.month, date.day) {
            Some(stamp) => Some(
                LogEntry {
                    id: stamp.0,
                    content,
                    created_at: stamp.1,
                    source,
                    tags,
                    timestamp: Some(stamp.2),
                },
            ),
            None => None,
        }
    }
}

} // verus!
