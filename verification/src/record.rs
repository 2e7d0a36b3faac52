//! Records: what the pipeline hands to the formatter.
//!
//! A record is either an event, emitted by code that runs inside a scope, or
//! the summary that a scope leaves behind when it closes. Both carry the
//! identity of the owning scope and a snapshot of its fields.

use crate::scope::{fields_view, Field, FieldView};
use vstd::prelude::*;

verus! {

/// Severity of an event, most severe first.
#[derive(Clone, Copy, Debug, PartialEq, Eq, Structural)]
pub enum Level {
    Error,
    Warn,
    Info,
    Debug,
    Trace,
}

/// The place of a level on the scale from 1 (errors) to 5 (traces).
pub open spec fn verbosity(level: Level) -> int {
    match level {
        Level::Error => 1,
        Level::Warn => 2,
        Level::Info => 3,
        Level::Debug => 4,
        Level::Trace => 5,
    }
}

/// A filter lets a level pass when it is set and the level is no more
/// verbose than the filter; a filter that is not set lets nothing pass.
pub open spec fn enabled(filter: Option<Level>, level: Level) -> bool {
    match filter {
        Some(most) => verbosity(level) <= verbosity(most),
        None => false,
    }
}

/// The place of a level on the scale from 1 (errors) to 5 (traces).
pub fn level_verbosity(level: Level) -> (v: u8)
    ensures
        v == verbosity(level),
{
    match level {
        Level::Error => 1,
        Level::Warn => 2,
        Level::Info => 3,
        Level::Debug => 4,
        Level::Trace => 5,
    }
}

/// Whether a filter lets a level pass.
pub fn is_enabled(filter: Option<Level>, level: Level) -> (pass: bool)
    ensures
        pass == enabled(filter, level),
{
    match filter {
        Some(most) => level_verbosity(level) <= level_verbosity(most),
        None => false,
    }
}

/// What a record reports.
#[derive(Clone, Copy, Debug, PartialEq, Eq, Structural)]
pub enum RecordKind {
    /// Something happened while a scope was active.
    Event,
    /// A scope closed; the record is its summary.
    ScopeClosed,
}

/// One structured record, ready for the formatter.
#[derive(Clone, Debug, PartialEq, Eq)]
pub struct Record {
    pub kind: RecordKind,
    pub level: Level,
    pub message: String,
    /// When the record was made, in milliseconds since the Unix epoch.
    pub time: i64,
    /// When the owning scope was opened; the record's own time without one.
    pub opened_at: i64,
    /// The owning scope, its outermost ancestor and its parent.
    pub scope: Option<u64>,
    pub root: Option<u64>,
    pub parent: Option<u64>,
    /// The owning scope's name; empty without one.
    pub name: String,
    /// The owning scope's fields when the record was made.
    pub fields: Vec<Field>,
}

/// The mathematical value of a [`Record`].
pub struct RecordView {
    pub kind: RecordKind,
    pub level: Level,
    pub message: Seq<char>,
    pub time: i64,
    pub opened_at: i64,
    pub scope: Option<u64>,
    pub root: Option<u64>,
    pub parent: Option<u64>,
    pub name: Seq<char>,
    pub fields: Seq<FieldView>,
}

impl View for Record {
    type V = RecordView;

    open spec fn view(&self) -> RecordView {
        RecordView {
            kind: self.kind,
            level: self.level,
            message: self.message@,
            time: self.time,
            opened_at: self.opened_at,
            scope: self.scope,
            root: self.root,
            parent: self.parent,
            name: self.name@,
            fields: fields_view(self.fields@),
        }
    }
}

/// The records of a list, each by its view, in the list's order.
pub open spec fn records_view(records: Seq<Record>) -> Seq<RecordView> {
    records.map_values(|r: Record| r@)
}

} // verus!
