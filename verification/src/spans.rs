//! The span registry: the scopes that are open, shared by all requests.
//!
//! Scopes are opened, written to and closed through handles that the caller
//! carries along with its unit of work; the registry holds no notion of a
//! current thread. Every operation is total: a stale handle makes it a no-op
//! or an error, never a panic.

use crate::record::{records_view, Level, Record, RecordKind};
use crate::registry::{closing, closing_record, in_tree, lemma_close_tree_wf, lemma_close_wf,
    lemma_open_wf, lemma_position, lemma_record_wf, outside_tree, tree_records, RegistryView,
    ScopeError, ScopeView};
use crate::scope::{clone_fields, fields_view, upsert_field, upsert_fields, Field, FieldValue,
    FieldView};
use vstd::prelude::*;

verus! {

/// The handle of a scope: its identity in the registry.
#[derive(Clone, Copy, Debug, PartialEq, Eq, Structural)]
pub struct ScopeHandle {
    pub id: u64,
}

/// The identity behind an optional handle.
pub open spec fn handle_id(handle: Option<ScopeHandle>) -> Option<u64> {
    match handle {
        Some(h) => Some(h.id),
        None => None,
    }
}

/// One logical unit of work while it is open: a request, or an operation
/// nested in it.
pub struct ScopeContext {
    id: u64,
    root: u64,
    parent: Option<u64>,
    name: String,
    fields: Vec<Field>,
    opened_at: i64,
}

impl View for ScopeContext {
    type V = ScopeView;

    closed spec fn view(&self) -> ScopeView {
        ScopeView {
            id: self.id,
            root: self.root,
            parent: self.parent,
            name: self.name@,
            fields: fields_view(self.fields@),
            opened_at: self.opened_at,
        }
    }
}

/// The scopes of a list, each by its view, in the list's order.
spec fn scope_views(scopes: Seq<ScopeContext>) -> Seq<ScopeView> {
    scopes.map_values(|s: ScopeContext| s@)
}

/// The registry of open scopes.
pub struct SpanRegistry {
    scopes: Vec<ScopeContext>,
    next_id: u64,
}

impl View for SpanRegistry {
    type V = RegistryView;

    closed spec fn view(&self) -> RegistryView {
        RegistryView { scopes: scope_views(self.scopes@), next_id: self.next_id }
    }
}

/// Where the scope `id` stands in the list, if it is open.
fn find(scopes: &Vec<ScopeContext>, id: u64) -> (place: Option<usize>)
    ensures
        match place {
            Some(k) => k < scopes.len() && scope_views(scopes@)[k as int].id == id,
            None => forall|i: int|
                0 <= i < scopes.len() ==> (#[trigger] scope_views(scopes@)[i]).id != id,
        },
{
    let mut i: usize = 0;
    while i < scopes.len()
        invariant
            i <= scopes.len(),
            forall|j: int| 0 <= j < i ==> (#[trigger] scope_views(scopes@)[j]).id != id,
        decreases scopes.len() - i,
    {
        if scopes[i].id == id {
            return Some(i);
        }
        i = i + 1;
    }
    None
}

/// Whether some scope of the list has `id` as its parent.
fn any_child(scopes: &Vec<ScopeContext>, id: u64) -> (found: bool)
    ensures
        found == exists|i: int|
            0 <= i < scopes.len() && (#[trigger] scope_views(scopes@)[i]).parent == Some(id),
{
    let mut i: usize = 0;
    while i < scopes.len()
        invariant
            i <= scopes.len(),
            forall|j: int| 0 <= j < i ==> (#[trigger] scope_views(scopes@)[j]).parent != Some(id),
        decreases scopes.len() - i,
    {
        match scopes[i].parent {
            Some(p) => {
                if p == id {
                    assert(scope_views(scopes@)[i as int].parent == Some(id));
                    return true;
                }
            },
            None => {},
        }
        i = i + 1;
    }
    false
}

/// Turns a scope that has left the registry into its summary.
fn into_record(scope: ScopeContext, now: i64) -> (record: Record)
    ensures
        record@ == closing_record(scope@, now),
{
    Record {
        kind: RecordKind::ScopeClosed,
        level: Level::Info,
        message: String::new(),
        time: now,
        opened_at: scope.opened_at,
        scope: Some(scope.id),
        root: Some(scope.root),
        parent: scope.parent,
        name: scope.name,
        fields: scope.fields,
    }
}

impl SpanRegistry {
    /// What holds of every value of the type.
    #[verifier::type_invariant]
    pub open spec fn well_formed(self) -> bool {
        self@.wf()
    }

    /// A registry with no scope open.
    pub fn new() -> (registry: SpanRegistry)
        ensures
            registry@ == RegistryView::empty(),
    {
        let registry = SpanRegistry { scopes: Vec::new(), next_id: 0 };
        proof {
            assert(registry@.scopes =~= RegistryView::empty().scopes);
        }
        registry
    }

    /// A registry with no scope open, whose first scope gets the identity
    /// `first`.
    pub fn with_first_id(first: u64) -> (registry: SpanRegistry)
        ensures
            registry@ == (RegistryView { scopes: Seq::empty(), next_id: first }),
    {
        let registry = SpanRegistry { scopes: Vec::new(), next_id: first };
        proof {
            assert(registry@.scopes =~= Seq::<ScopeView>::empty());
        }
        registry
    }

    /// How many scopes are open.
    pub fn open_count(&self) -> (count: usize)
        ensures
            self@.wf(),
            count == self@.scopes.len(),
    {
        proof {
            use_type_invariant(self);
        }
        self.scopes.len()
    }

    /// Whether the scope behind the handle is open.
    pub fn is_open(&self, scope: ScopeHandle) -> (open: bool)
        ensures
            self@.wf(),
            open == self@.contains(scope.id),
    {
        proof {
            use_type_invariant(self);
        }
        match find(&self.scopes, scope.id) {
            Some(k) => {
                assert(self@.scopes[k as int].id == scope.id);
                true
            },
            None => false,
        }
    }

    /// Opens a scope: a root where `parent` is `None`, else a child of
    /// `parent`. The child starts with its parent's fields; the initial
    /// fields are then written over them. Nothing changes where the parent
    /// is not open or no identity is left.
    pub fn open(
        &mut self,
        name: String,
        initial: Vec<Field>,
        parent: Option<ScopeHandle>,
        now: i64,
    ) -> (result: Result<ScopeHandle, ScopeError>)
        ensures
            old(self)@.wf(),
            final(self)@.wf(),
            final(self)@ == old(self)@.open(name@, fields_view(initial@), handle_id(parent), now),
            match result {
                Ok(scope) => old(self)@.open_error(handle_id(parent)) is None && scope.id == old(
                    self,
                )@.next_id,
                Err(e) => old(self)@.open_error(handle_id(parent)) == Some(e),
            },
    {
        proof {
            use_type_invariant(&*self);
        }
        let ghost before = self@;
        let mut root = self.next_id;
        let mut fields: Vec<Field> = Vec::new();
        let mut parent_id: Option<u64> = None;
        if let Some(p) = parent {
            match find(&self.scopes, p.id) {
                Some(k) => {
                    proof {
                        assert(before.scopes[k as int].id == p.id);
                        lemma_position(before, k as int);
                    }
                    root = self.scopes[k].root;
                    fields = clone_fields(&self.scopes[k].fields);
                    parent_id = Some(p.id);
                },
                None => {
                    proof {
                        assert(!before.contains(p.id)) by {
                            if before.contains(p.id) {
                                let i = before.position(p.id);
                                assert(scope_views(self.scopes@)[i].id == p.id);
                            }
                        }
                    }
                    return Err(ScopeError::ParentNotOpen);
                },
            }
        }
        if self.next_id == u64::MAX {
            return Err(ScopeError::RegistryFull);
        }
        let id = self.next_id;
        let ghost inherited = fields_view(fields@);
        proof {
            match parent {
                Some(p) => {
                    assert(inherited == before.scope(p.id).fields);
                    assert(root == before.scope(p.id).root);
                },
                None => {
                    assert(inherited =~= Seq::<FieldView>::empty());
                },
            }
        }
        upsert_fields(&mut fields, initial);
        let scope = ScopeContext { id, root, parent: parent_id, name, fields, opened_at: now };
        proof {
            let expected = before.opened(name@, fields_view(initial@), handle_id(parent), now);
            assert(scope@.fields == expected.fields);
            assert(scope@.parent == expected.parent);
            assert(scope@.root == expected.root);
            assert(scope@ == expected);
            lemma_open_wf(before, name@, fields_view(initial@), handle_id(parent), now);
        }
        let mut scopes: Vec<ScopeContext> = Vec::new();
        std::mem::swap(&mut scopes, &mut self.scopes);
        scopes.push(scope);
        self.next_id = id + 1;
        proof {
            assert(scope_views(scopes@) =~= before.scopes.push(scope@));
        }
        self.scopes = scopes;
        Ok(ScopeHandle { id })
    }

    /// Records a field on a scope: a name that is there takes the new value,
    /// a new name is added. Returns whether the scope was open; nothing
    /// changes where it was not.
    pub fn record(&mut self, scope: ScopeHandle, key: String, value: FieldValue) -> (recorded: bool)
        ensures
            old(self)@.wf(),
            final(self)@.wf(),
            final(self)@ == old(self)@.record(scope.id, key@, value@),
            recorded == old(self)@.contains(scope.id),
    {
        proof {
            use_type_invariant(&*self);
        }
        let ghost before = self@;
        match find(&self.scopes, scope.id) {
            Some(k) => {
                proof {
                    assert(before.scopes[k as int].id == scope.id);
                    lemma_position(before, k as int);
                    lemma_record_wf(before, scope.id, key@, value@);
                }
                let mut scopes: Vec<ScopeContext> = Vec::new();
                std::mem::swap(&mut scopes, &mut self.scopes);
                let ghost held = scopes@;
                upsert_field(&mut scopes[k].fields, key, value);
                proof {
                    assert(scope_views(scopes@) =~= before.record(scope.id, key@, value@).scopes) by {
                        assert forall|i: int| 0 <= i < scopes.len() implies (#[trigger] scope_views(
                            scopes@,
                        )[i]) == before.record(scope.id, key@, value@).scopes[i] by {
                            if i != k {
                                assert(scopes@[i] == held[i]);
                                assert(scope_views(held)[i] == before.scopes[i]);
                            } else {
                                assert(scope_views(held)[i] == before.scopes[i]);
                            }
                        }
                    }
                }
                self.scopes = scopes;
                true
            },
            None => {
                proof {
                    assert(!before.contains(scope.id)) by {
                        if before.contains(scope.id) {
                            let i = before.position(scope.id);
                            assert(scope_views(self.scopes@)[i].id == scope.id);
                        }
                    }
                }
                false
            },
        }
    }

    /// Closes a scope and returns its summary. A scope that is not open, or
    /// that has an open child, stays as it is and the reason is returned.
    pub fn close(&mut self, scope: ScopeHandle, now: i64) -> (result: Result<Record, ScopeError>)
        ensures
            old(self)@.wf(),
            final(self)@.wf(),
            final(self)@ == old(self)@.close(scope.id),
            match result {
                Ok(record) => old(self)@.close_error(scope.id) is None && record@ == closing_record(
                    old(self)@.scope(scope.id),
                    now,
                ),
                Err(e) => old(self)@.close_error(scope.id) == Some(e),
            },
    {
        proof {
            use_type_invariant(&*self);
        }
        let ghost before = self@;
        match find(&self.scopes, scope.id) {
            Some(k) => {
                proof {
                    assert(before.scopes[k as int].id == scope.id);
                    lemma_position(before, k as int);
                }
                if any_child(&self.scopes, scope.id) {
                    proof {
                        let i = choose|i: int|
                            0 <= i < self.scopes.len() && (#[trigger] scope_views(
                                self.scopes@,
                            )[i]).parent == Some(scope.id);
                        assert(before.scopes[i].parent == Some(scope.id));
                    }
                    return Err(ScopeError::ChildStillOpen);
                }
                proof {
                    assert(!before.has_child(scope.id)) by {
                        if before.has_child(scope.id) {
                            let i = choose|i: int|
                                0 <= i < before.scopes.len() && (#[trigger] before.scopes[i]).parent
                                    == Some(scope.id);
                            assert(scope_views(self.scopes@)[i].parent == Some(scope.id));
                        }
                    }
                    lemma_close_wf(before, scope.id);
                }
                let mut scopes: Vec<ScopeContext> = Vec::new();
                std::mem::swap(&mut scopes, &mut self.scopes);
                let closed = scopes.remove(k);
                proof {
                    assert(scope_views(scopes@) =~= before.scopes.remove(k as int));
                    assert(closed@ == before.scopes[k as int]);
                }
                self.scopes = scopes;
                Ok(into_record(closed, now))
            },
            None => {
                proof {
                    assert(!before.contains(scope.id)) by {
                        if before.contains(scope.id) {
                            let i = before.position(scope.id);
                            assert(scope_views(self.scopes@)[i].id == scope.id);
                        }
                    }
                }
                Err(ScopeError::NotOpen)
            },
        }
    }

    /// Closes every open scope of the tree under `root`, the scope opened
    /// last first, and returns their summaries in that order. Scopes of
    /// other trees are not touched.
    pub fn close_tree(&mut self, root: ScopeHandle, now: i64) -> (records: Vec<Record>)
        ensures
            old(self)@.wf(),
            final(self)@.wf(),
            final(self)@ == old(self)@.close_tree(root.id),
            records_view(records@) == tree_records(old(self)@.scopes, root.id, now),
    {
        proof {
            use_type_invariant(&*self);
        }
        let ghost before = self@;
        let ghost all = before.scopes;
        let mut scopes: Vec<ScopeContext> = Vec::new();
        std::mem::swap(&mut scopes, &mut self.scopes);
        let mut records: Vec<Record> = Vec::new();
        let mut kept_reversed: Vec<ScopeContext> = Vec::new();
        let ghost mut seen: Seq<ScopeView> = Seq::empty();
        proof {
            reveal(Seq::filter);
            assert(scope_views(scopes@) + seen =~= all);
            assert(seen.filter(in_tree(root.id)) =~= Seq::<ScopeView>::empty());
            assert(seen.filter(outside_tree(root.id)) =~= Seq::<ScopeView>::empty());
            assert(records_view(records@) =~= seen.filter(in_tree(root.id)).reverse().map_values(
                closing(now),
            ));
            assert(scope_views(kept_reversed@) =~= seen.filter(outside_tree(root.id)).reverse());
        }
        while scopes.len() > 0
            invariant
                scope_views(scopes@) + seen == all,
                records_view(records@) == seen.filter(in_tree(root.id)).reverse().map_values(
                    closing(now),
                ),
                scope_views(kept_reversed@) == seen.filter(outside_tree(root.id)).reverse(),
            decreases scopes.len(),
        {
            let ghost rest = scope_views(scopes@);
            let ghost done = records_view(records@);
            let ghost kept = scope_views(kept_reversed@);
            let scope = scopes.pop().unwrap();
            proof {
                let longer = seq![scope@] + seen;
                assert(scope_views(scopes@) + longer =~= all) by {
                    assert(rest =~= scope_views(scopes@).push(scope@));
                }
                seen.lemma_filter_prepend(scope@, in_tree(root.id));
                seen.lemma_filter_prepend(scope@, outside_tree(root.id));
                let mine = seen.filter(in_tree(root.id));
                let others = seen.filter(outside_tree(root.id));
                if scope@.root == root.id {
                    assert((seq![scope@] + mine).reverse().map_values(closing(now)) =~= done.push(
                        closing_record(scope@, now),
                    ));
                    assert(longer.filter(outside_tree(root.id)) =~= others);
                } else {
                    assert((seq![scope@] + others).reverse() =~= kept.push(scope@));
                    assert(longer.filter(in_tree(root.id)) =~= mine);
                }
                seen = longer;
            }
            if scope.root == root.id {
                let record = into_record(scope, now);
                records.push(record);
                proof {
                    assert(records_view(records@) =~= done.push(closing_record(scope@, now)));
                }
            } else {
                kept_reversed.push(scope);
                proof {
                    assert(scope_views(kept_reversed@) =~= kept.push(scope@));
                }
            }
        }
        proof {
            assert(seen =~= all);
        }
        let ghost target = all.filter(outside_tree(root.id));
        while kept_reversed.len() > 0
            invariant
                scope_views(scopes@) + scope_views(kept_reversed@).reverse() == target,
            decreases kept_reversed.len(),
        {
            let ghost front = scope_views(scopes@);
            let ghost back = scope_views(kept_reversed@);
            let scope = kept_reversed.pop().unwrap();
            scopes.push(scope);
            proof {
                assert(back =~= scope_views(kept_reversed@).push(scope@));
                assert(scope_views(scopes@) =~= front.push(scope@));
                assert(scope_views(scopes@) + scope_views(kept_reversed@).reverse() =~= front
                    + back.reverse());
            }
        }
        proof {
            assert(scope_views(scopes@) =~= target);
            lemma_close_tree_wf(before, root.id);
        }
        self.scopes = scopes;
        records
    }

    /// Makes the record of an event raised while `active` is the active
    /// scope. The record carries that scope's identity and fields; where no
    /// scope is active, or the handle is stale, it carries neither.
    pub fn event(
        &self,
        active: Option<ScopeHandle>,
        level: Level,
        message: String,
        now: i64,
    ) -> (record: Record)
        ensures
            self@.wf(),
            record@ == self@.event(handle_id(active), level, message@, now),
    {
        proof {
            use_type_invariant(self);
        }
        if let Some(h) = active {
            match find(&self.scopes, h.id) {
                Some(k) => {
                    proof {
                        assert(self@.scopes[k as int].id == h.id);
                        lemma_position(self@, k as int);
                    }
                    let s = &self.scopes[k];
                    return Record {
                        kind: RecordKind::Event,
                        level,
                        message,
                        time: now,
                        opened_at: s.opened_at,
                        scope: Some(s.id),
                        root: Some(s.root),
                        parent: s.parent,
                        name: s.name.clone(),
                        fields: clone_fields(&s.fields),
                    };
                },
                None => {
                    proof {
                        assert(!self@.contains(h.id)) by {
                            if self@.contains(h.id) {
                                let i = self@.position(h.id);
                                assert(scope_views(self.scopes@)[i].id == h.id);
                            }
                        }
                    }
                },
            }
        }
        let record = Record {
            kind: RecordKind::Event,
            level,
            message,
            time: now,
            opened_at: now,
            scope: None,
            root: None,
            parent: None,
            name: String::new(),
            fields: Vec::new(),
        };
        proof {
            assert(record@.fields =~= Seq::<FieldView>::empty());
        }
        record
    }
}

} // verus!
