//! The subscriber: registry, filter, formatter and sink put together.
//!
//! Scopes are opened and closed in the registry; what they emit passes the
//! level filter, is rendered by the formatter and is written to the sink.

use crate::clock::now_millis;
use crate::format::{format_record, record_line};
use crate::record::{enabled, is_enabled, records_view, Level, Record, RecordView};
use crate::registry::{closing_record, lemma_close_tree_wf, tree_records, RegistryView, ScopeError};
use crate::scope::{fields_view, Field, FieldValue, FieldValueView, FieldView};
use crate::sink::{lemma_write_wf, lines_view, Sink, SinkView};
use crate::spans::{handle_id, ScopeHandle, SpanRegistry};
use vstd::prelude::*;

verus! {

/// The mathematical value of a [`Subscriber`].
pub struct SubscriberView {
    /// The name of the service, written into every line.
    pub name: Seq<char>,
    /// The most verbose level that passes; `None` lets nothing pass.
    pub filter: Option<Level>,
    pub registry: RegistryView,
    pub sink: SinkView,
    /// Whether a field recorded outside of any scope has been reported.
    pub stray_reported: bool,
}

/// The message of the event that reports a field recorded outside of any
/// scope.
pub open spec fn stray_message() -> Seq<char> {
    "field recorded outside of any scope"@
}

/// The message of the event that reports a scope closed before its children.
pub open spec fn out_of_order_message() -> Seq<char> {
    "scope closed before its children"@
}

impl SubscriberView {
    /// Registry and sink are well formed.
    pub open spec fn wf(self) -> bool {
        self.registry.wf() && self.sink.wf()
    }

    /// The subscriber after a record is emitted: the record's line is
    /// written to the sink where its level passes the filter.
    pub open spec fn emit(self, record: RecordView) -> SubscriberView {
        if enabled(self.filter, record.level) {
            SubscriberView { sink: self.sink.write(record_line(self.name, record)), ..self }
        } else {
            self
        }
    }

    /// The subscriber after each record of a list is emitted in turn.
    pub open spec fn emit_all(self, records: Seq<RecordView>) -> SubscriberView
        decreases records.len(),
    {
        if records.len() == 0 {
            self
        } else {
            self.emit_all(records.drop_last()).emit(records.last())
        }
    }

    /// The subscriber after a scope is opened.
    pub open spec fn open(
        self,
        name: Seq<char>,
        initial: Seq<FieldView>,
        parent: Option<u64>,
        now: i64,
    ) -> SubscriberView {
        SubscriberView { registry: self.registry.open(name, initial, parent, now), ..self }
    }

    /// The subscriber after a field is recorded on the active scope. Where
    /// no open scope is active nothing is recorded; the first time this
    /// happens it is reported by an event at the level of debugging, later
    /// times pass in silence.
    pub open spec fn record(
        self,
        active: Option<u64>,
        key: Seq<char>,
        value: FieldValueView,
        now: i64,
    ) -> SubscriberView {
        if active is Some && self.registry.contains(active.unwrap()) {
            SubscriberView {
                registry: self.registry.record(active.unwrap(), key, value),
                ..self
            }
        } else if self.stray_reported {
            self
        } else {
            SubscriberView { stray_reported: true, ..self }.event(
                None,
                Level::Debug,
                stray_message(),
                now,
            )
        }
    }

    /// The subscriber after an event is raised.
    pub open spec fn event(
        self,
        active: Option<u64>,
        level: Level,
        message: Seq<char>,
        now: i64,
    ) -> SubscriberView {
        self.emit(self.registry.event(active, level, message, now))
    }

    /// The subscriber after a scope is closed: without the scope and with
    /// its summary emitted. A scope that has an open child stays open, and
    /// the attempt is reported by an event at the level of warnings inside
    /// that scope. Nothing changes where the scope is not open.
    pub open spec fn close(self, id: u64, now: i64) -> SubscriberView {
        match self.registry.close_error(id) {
            None => SubscriberView { registry: self.registry.close(id), ..self }.emit(
                closing_record(self.registry.scope(id), now),
            ),
            Some(ScopeError::ChildStillOpen) => self.event(
                Some(id),
                Level::Warn,
                out_of_order_message(),
                now,
            ),
            Some(_) => self,
        }
    }

    /// The subscriber after the tree of a request is closed: without the
    /// tree's scopes, and with their summaries emitted, the scope opened
    /// last first.
    pub open spec fn close_request(self, root: u64, now: i64) -> SubscriberView {
        SubscriberView { registry: self.registry.close_tree(root), ..self }.emit_all(
            tree_records(self.registry.scopes, root, now),
        )
    }
}

/// Emitting touches the sink only, and never what a flush reported.
pub proof fn lemma_emit_all(subscriber: SubscriberView, records: Seq<RecordView>)
    requires
        subscriber.sink.wf(),
    ensures
        subscriber.emit_all(records).sink.wf(),
        subscriber.emit_all(records).registry == subscriber.registry,
        subscriber.emit_all(records).name == subscriber.name,
        subscriber.emit_all(records).filter == subscriber.filter,
        subscriber.emit_all(records).stray_reported == subscriber.stray_reported,
    decreases records.len(),
{
    if records.len() > 0 {
        lemma_emit_all(subscriber, records.drop_last());
        let before = subscriber.emit_all(records.drop_last());
        lemma_write_wf(before.sink, record_line(before.name, records.last()));
    }
}

/// Emitting one record more: the first `i + 1` records are emitted by
/// emitting the first `i` and then the next.
proof fn lemma_emit_next(subscriber: SubscriberView, records: Seq<RecordView>, i: int)
    requires
        0 <= i < records.len(),
    ensures
        subscriber.emit_all(records.take(i + 1)) == subscriber.emit_all(records.take(i)).emit(
            records[i],
        ),
{
    assert(records.take(i + 1).drop_last() =~= records.take(i));
}

/// The collector of what scopes and events emit.
pub struct Subscriber {
    name: String,
    filter: Option<Level>,
    registry: SpanRegistry,
    sink: Sink,
    stray_reported: bool,
}

impl View for Subscriber {
    type V = SubscriberView;

    closed spec fn view(&self) -> SubscriberView {
        SubscriberView {
            name: self.name@,
            filter: self.filter,
            registry: self.registry@,
            sink: self.sink@,
            stray_reported: self.stray_reported,
        }
    }
}

impl Subscriber {
    /// A subscriber with no scope open.
    pub fn new(name: String, filter: Option<Level>, sink: Sink) -> (subscriber: Subscriber)
        ensures
            subscriber@ == (SubscriberView {
                name: name@,
                filter,
                registry: RegistryView::empty(),
                sink: sink@,
                stray_reported: false,
            }),
    {
        Subscriber { name, filter, registry: SpanRegistry::new(), sink, stray_reported: false }
    }

    /// The name of the service.
    pub fn name(&self) -> (name: &String)
        ensures
            name@ == self@.name,
    {
        &self.name
    }

    /// The most verbose level that passes, if any does.
    pub fn filter(&self) -> (filter: Option<Level>)
        ensures
            filter == self@.filter,
    {
        self.filter
    }

    /// Does nothing when it runs; it tells the caller's proof that registry
    /// and sink are well formed, as they are in every subscriber.
    pub fn attest(&self)
        ensures
            self@.wf(),
    {
        proof {
            use_type_invariant(&self.registry);
            use_type_invariant(&self.sink);
        }
    }

    /// How many scopes are open.
    pub fn open_scopes(&self) -> (count: usize)
        ensures
            self@.wf(),
            count == self@.registry.scopes.len(),
    {
        proof {
            use_type_invariant(&self.sink);
        }
        self.registry.open_count()
    }

    /// Whether the scope behind the handle is open.
    pub fn is_open(&self, scope: ScopeHandle) -> (open: bool)
        ensures
            open == self@.registry.contains(scope.id),
    {
        self.registry.is_open(scope)
    }

    /// How many lines wait in the sink.
    pub fn pending_lines(&self) -> (count: usize)
        ensures
            count == self@.sink.pending.len(),
    {
        self.sink.pending_len()
    }

    /// How many lines gave way to newer ones in the sink.
    pub fn dropped_lines(&self) -> (count: u64)
        ensures
            count == self@.sink.dropped,
    {
        self.sink.dropped()
    }

    /// How many failed flushes were reported.
    pub fn flush_failures(&self) -> (count: u64)
        ensures
            count == self@.sink.failures,
    {
        self.sink.failures()
    }

    /// Emits a record: renders it and writes the line to the sink where the
    /// record's level passes the filter. Returns whether it passed.
    pub fn emit(&mut self, record: &Record) -> (passed: bool)
        ensures
            final(self)@ == old(self)@.emit(record@),
            passed == enabled(old(self)@.filter, record@.level),
            old(self)@.sink.wf(),
            final(self)@.sink.wf(),
    {
        proof {
            use_type_invariant(&self.sink);
        }
        if is_enabled(self.filter, record.level) {
            let line = format_record(self.name.as_str(), record);
            self.sink.write(line);
            true
        } else {
            false
        }
    }

    /// Emits each record of a list in turn.
    pub fn emit_all(&mut self, records: &Vec<Record>)
        ensures
            final(self)@ == old(self)@.emit_all(records_view(records@)),
            old(self)@.sink.wf(),
            final(self)@.sink.wf(),
    {
        let ghost start = self@;
        let ghost all = records_view(records@);
        proof {
            use_type_invariant(&self.sink);
        }
        let mut i: usize = 0;
        while i < records.len()
            invariant
                i <= records.len(),
                all == records_view(records@),
                self@ == start.emit_all(all.take(i as int)),
                self@.sink.wf(),
            decreases records.len() - i,
        {
            proof {
                lemma_emit_next(start, all, i as int);
            }
            self.emit(&records[i]);
            i = i + 1;
        }
        proof {
            assert(all.take(records.len() as int) =~= all);
        }
    }

    /// Opens a scope: a root where `parent` is `None`, else a child of
    /// `parent`, which starts with its parent's fields. The initial fields
    /// are written over them. Nothing is emitted.
    pub fn open_scope(
        &mut self,
        name: String,
        initial: Vec<Field>,
        parent: Option<ScopeHandle>,
        now: i64,
    ) -> (result: Result<ScopeHandle, ScopeError>)
        ensures
            old(self)@.registry.wf(),
            final(self)@.registry.wf(),
            final(self)@ == old(self)@.open(name@, fields_view(initial@), handle_id(parent), now),
            match result {
                Ok(scope) => old(self)@.registry.open_error(handle_id(parent)) is None && scope.id
                    == old(self)@.registry.next_id,
                Err(e) => old(self)@.registry.open_error(handle_id(parent)) == Some(e),
            },
    {
        self.registry.open(name, initial, parent, now)
    }

    /// Records a field on the active scope: a name that is there takes the
    /// new value, a new name is added. Without an active scope, or with a
    /// stale handle, nothing is recorded; the first time this happens it is
    /// reported by an event at the level of debugging. Returns whether the
    /// field was recorded.
    pub fn record(
        &mut self,
        active: Option<ScopeHandle>,
        key: String,
        value: FieldValue,
        now: i64,
    ) -> (recorded: bool)
        ensures
            old(self)@.wf(),
            final(self)@.wf(),
            final(self)@ == old(self)@.record(handle_id(active), key@, value@, now),
            recorded == (active is Some && old(self)@.registry.contains(active.unwrap().id)),
    {
        proof {
            use_type_invariant(&self.registry);
            use_type_invariant(&self.sink);
        }
        let recorded = match active {
            Some(scope) => self.registry.record(scope, key, value),
            None => false,
        };
        if !recorded && !self.stray_reported {
            self.stray_reported = true;
            self.event(None, Level::Debug, String::from_str("field recorded outside of any scope"), now);
        }
        recorded
    }

    /// Raises an event inside the active scope. The event carries that
    /// scope's identity and fields; it is emitted where its level passes the
    /// filter. The registry does not change. Returns whether it passed.
    pub fn event(
        &mut self,
        active: Option<ScopeHandle>,
        level: Level,
        message: String,
        now: i64,
    ) -> (passed: bool)
        ensures
            final(self)@ == old(self)@.event(handle_id(active), level, message@, now),
            passed == enabled(old(self)@.filter, level),
            old(self)@.wf(),
            final(self)@.wf(),
    {
        let record = self.registry.event(active, level, message, now);
        self.emit(&record)
    }

    /// Raises an event outside of any scope, at the time that the clock
    /// shows. Returns whether it passed the filter.
    pub fn announce(&mut self, level: Level, message: String) -> (passed: bool)
        ensures
            passed == enabled(old(self)@.filter, level),
            old(self)@.wf(),
            final(self)@.wf(),
            exists|now: i64|
                final(self)@ == #[trigger] old(self)@.event(None, level, message@, now),
    {
        let now = now_millis();
        self.event(None, level, message, now)
    }

    /// Closes a scope and emits its summary. Returns the parent, which is
    /// the active scope from then on. A scope that is not open, or that has
    /// an open child, stays as it is and the reason is returned; the second
    /// is also reported by an event at the level of warnings, and the scope
    /// is closed with its tree at the latest.
    pub fn close_scope(&mut self, scope: ScopeHandle, now: i64) -> (result: Result<
        Option<ScopeHandle>,
        ScopeError,
    >)
        ensures
            old(self)@.wf(),
            final(self)@.wf(),
            final(self)@ == old(self)@.close(scope.id, now),
            match result {
                Ok(parent) => old(self)@.registry.close_error(scope.id) is None && handle_id(parent)
                    == old(self)@.registry.scope(scope.id).parent,
                Err(e) => old(self)@.registry.close_error(scope.id) == Some(e),
            },
    {
        proof {
            use_type_invariant(&self.sink);
        }
        match self.registry.close(scope, now) {
            Ok(record) => {
                self.emit(&record);
                match record.parent {
                    Some(id) => Ok(Some(ScopeHandle { id })),
                    None => Ok(None),
                }
            },
            Err(e) => {
                match e {
                    ScopeError::ChildStillOpen => {
                        self.event(
                            Some(scope),
                            Level::Warn,
                            String::from_str("scope closed before its children"),
                            now,
                        );
                    },
                    _ => {},
                }
                Err(e)
            },
        }
    }

    /// Closes whatever is open of the tree under `root`, the scope opened
    /// last first, and emits the summaries in that order. Returns how many
    /// scopes were closed. Afterwards no scope of the tree is open.
    pub fn close_request(&mut self, root: ScopeHandle, now: i64) -> (closed: usize)
        ensures
            old(self)@.wf(),
            final(self)@.wf(),
            final(self)@ == old(self)@.close_request(root.id, now),
            closed == tree_records(old(self)@.registry.scopes, root.id, now).len(),
            !final(self)@.registry.has_tree(root.id),
    {
        proof {
            use_type_invariant(&self.sink);
        }
        let records = self.registry.close_tree(root, now);
        self.emit_all(&records);
        proof {
            let closed = SubscriberView { registry: old(self)@.registry.close_tree(root.id), ..old(
                self,
            )@ };
            lemma_emit_all(closed, records_view(records@));
            lemma_close_tree_wf(old(self)@.registry, root.id);
        }
        records.len()
    }

    /// Takes the queued lines out of the sink, oldest first.
    pub fn take_pending(&mut self) -> (lines: Vec<Vec<u8>>)
        ensures
            lines_view(lines@) == old(self)@.sink.pending,
            final(self)@ == (SubscriberView { sink: old(self)@.sink.taken(), ..old(self)@ }),
    {
        self.sink.take_pending()
    }

    /// Takes note that the target failed to take a batch of lines.
    pub fn flush_failed(&mut self)
        ensures
            final(self)@ == (SubscriberView { sink: old(self)@.sink.failed(), ..old(self)@ }),
    {
        self.sink.flush_failed()
    }
}

} // verus!
