//! The registry of open scopes, as a mathematical model.
//!
//! The registry lists the scopes that are open, in the order in which they
//! were opened. A scope is opened as a root or under an open parent, takes
//! fields while it is open and leaves the registry when it closes. Scopes
//! that share a root form one tree: the unit of work of one request.

use crate::record::{Level, RecordKind, RecordView};
use crate::scope::{has_key, lemma_upsert_all_lookup, lemma_upsert_all_unique, lemma_upsert_unique,
    lookup, unique_keys, upsert, upsert_all, FieldValueView, FieldView};
use vstd::prelude::*;

verus! {

/// Why the registry refused to open or close a scope.
#[derive(Clone, Copy, Debug, PartialEq, Eq, Structural)]
pub enum ScopeError {
    /// The scope named as parent is not open.
    ParentNotOpen,
    /// Every scope identity has been handed out.
    RegistryFull,
    /// The scope is not open: it never was, or it has been closed already.
    NotOpen,
    /// The scope has an open child, which must close first.
    ChildStillOpen,
}

/// One open scope.
pub struct ScopeView {
    pub id: u64,
    /// The outermost ancestor; the scope itself where it has no parent.
    pub root: u64,
    pub parent: Option<u64>,
    pub name: Seq<char>,
    pub fields: Seq<FieldView>,
    pub opened_at: i64,
}

/// The open scopes, oldest first, and the identity that the next scope gets.
pub struct RegistryView {
    pub scopes: Seq<ScopeView>,
    pub next_id: u64,
}

/// Membership in the tree under `root`.
pub open spec fn in_tree(root: u64) -> spec_fn(ScopeView) -> bool {
    |s: ScopeView| s.root == root
}

/// Membership in any other tree than the one under `root`.
pub open spec fn outside_tree(root: u64) -> spec_fn(ScopeView) -> bool {
    |s: ScopeView| s.root != root
}

/// The summary that a scope leaves behind when it closes at `now`.
pub open spec fn closing_record(s: ScopeView, now: i64) -> RecordView {
    RecordView {
        kind: RecordKind::ScopeClosed,
        level: Level::Info,
        message: Seq::empty(),
        time: now,
        opened_at: s.opened_at,
        scope: Some(s.id),
        root: Some(s.root),
        parent: s.parent,
        name: s.name,
        fields: s.fields,
    }
}

/// [`closing_record`] at a fixed time, as a function of the scope.
pub open spec fn closing(now: i64) -> spec_fn(ScopeView) -> RecordView {
    |s: ScopeView| closing_record(s, now)
}

/// The summaries of the scopes of one tree, the scope opened last first.
pub open spec fn tree_records(scopes: Seq<ScopeView>, root: u64, now: i64) -> Seq<RecordView> {
    scopes.filter(in_tree(root)).reverse().map_values(closing(now))
}

impl RegistryView {
    /// The registry in which nothing has been opened yet.
    pub open spec fn empty() -> RegistryView {
        RegistryView { scopes: Seq::empty(), next_id: 0 }
    }

    /// The scope `id` is open.
    pub open spec fn contains(self, id: u64) -> bool {
        exists|i: int| 0 <= i < self.scopes.len() && (#[trigger] self.scopes[i]).id == id
    }

    /// Where the open scope `id` stands in the list.
    pub open spec fn position(self, id: u64) -> int {
        choose|i: int| 0 <= i < self.scopes.len() && (#[trigger] self.scopes[i]).id == id
    }

    /// The open scope `id`.
    pub open spec fn scope(self, id: u64) -> ScopeView {
        self.scopes[self.position(id)]
    }

    /// Some open scope has `id` as its parent.
    pub open spec fn has_child(self, id: u64) -> bool {
        exists|i: int| 0 <= i < self.scopes.len() && (#[trigger] self.scopes[i]).parent == Some(id)
    }

    /// Some scope of the tree under `root` is open.
    pub open spec fn has_tree(self, root: u64) -> bool {
        exists|i: int| 0 <= i < self.scopes.len() && (#[trigger] self.scopes[i]).root == root
    }

    /// A scope is linked when it is a root, or its parent is an older open
    /// scope of the same tree.
    pub open spec fn linked(self, s: ScopeView) -> bool {
        match s.parent {
            None => s.root == s.id,
            Some(p) => p < s.id && exists|j: int|
                0 <= j < self.scopes.len() && (#[trigger] self.scopes[j]).id == p
                    && self.scopes[j].root == s.root,
        }
    }

    /// The registry's invariant: identities grow along the list and lie below
    /// the next one, no scope holds a field name twice, and every scope is
    /// linked, so that a parent outlives its children.
    pub open spec fn wf(self) -> bool {
        &&& forall|i: int, j: int|
            0 <= i < j < self.scopes.len() ==> (#[trigger] self.scopes[i]).id < (
            #[trigger] self.scopes[j]).id
        &&& forall|i: int|
            0 <= i < self.scopes.len() ==> (#[trigger] self.scopes[i]).id < self.next_id
        &&& forall|i: int|
            0 <= i < self.scopes.len() ==> unique_keys((#[trigger] self.scopes[i]).fields)
        &&& forall|i: int| 0 <= i < self.scopes.len() ==> self.linked(#[trigger] self.scopes[i])
    }

    /// Why a scope cannot be opened under `parent`, if it cannot.
    pub open spec fn open_error(self, parent: Option<u64>) -> Option<ScopeError> {
        if parent is Some && !self.contains(parent.unwrap()) {
            Some(ScopeError::ParentNotOpen)
        } else if self.next_id == u64::MAX {
            Some(ScopeError::RegistryFull)
        } else {
            None
        }
    }

    /// The scope that `open` adds: it takes the next identity, joins its
    /// parent's tree and starts from the parent's fields, over which the
    /// initial fields are written.
    pub open spec fn opened(
        self,
        name: Seq<char>,
        initial: Seq<FieldView>,
        parent: Option<u64>,
        now: i64,
    ) -> ScopeView {
        ScopeView {
            id: self.next_id,
            root: match parent {
                Some(p) => self.scope(p).root,
                None => self.next_id,
            },
            parent,
            name,
            fields: upsert_all(
                match parent {
                    Some(p) => self.scope(p).fields,
                    None => Seq::empty(),
                },
                initial,
            ),
            opened_at: now,
        }
    }

    /// The registry after `open`: unchanged where the scope cannot be
    /// opened, else with the new scope at the end.
    pub open spec fn open(
        self,
        name: Seq<char>,
        initial: Seq<FieldView>,
        parent: Option<u64>,
        now: i64,
    ) -> RegistryView {
        if self.open_error(parent) is Some {
            self
        } else {
            RegistryView {
                scopes: self.scopes.push(self.opened(name, initial, parent, now)),
                next_id: (self.next_id + 1) as u64,
            }
        }
    }

    /// The registry after a field is recorded on scope `id`: unchanged where
    /// the scope is not open.
    pub open spec fn record(self, id: u64, key: Seq<char>, value: FieldValueView) -> RegistryView {
        if self.contains(id) {
            let s = self.scope(id);
            RegistryView {
                scopes: self.scopes.update(
                    self.position(id),
                    ScopeView { fields: upsert(s.fields, key, value), ..s },
                ),
                ..self
            }
        } else {
            self
        }
    }

    /// Why scope `id` cannot be closed, if it cannot.
    pub open spec fn close_error(self, id: u64) -> Option<ScopeError> {
        if !self.contains(id) {
            Some(ScopeError::NotOpen)
        } else if self.has_child(id) {
            Some(ScopeError::ChildStillOpen)
        } else {
            None
        }
    }

    /// The registry after `close`: unchanged where the scope cannot be
    /// closed, else without it.
    pub open spec fn close(self, id: u64) -> RegistryView {
        if self.close_error(id) is Some {
            self
        } else {
            RegistryView { scopes: self.scopes.remove(self.position(id)), ..self }
        }
    }

    /// The registry after the whole tree under `root` is closed.
    pub open spec fn close_tree(self, root: u64) -> RegistryView {
        RegistryView { scopes: self.scopes.filter(outside_tree(root)), ..self }
    }

    /// The record of an event at `now`: it carries the identity and the
    /// fields of the active scope, or neither where no scope is active.
    pub open spec fn event(
        self,
        active: Option<u64>,
        level: Level,
        message: Seq<char>,
        now: i64,
    ) -> RecordView {
        if active is Some && self.contains(active.unwrap()) {
            let s = self.scope(active.unwrap());
            RecordView {
                kind: RecordKind::Event,
                level,
                message,
                time: now,
                opened_at: s.opened_at,
                scope: Some(s.id),
                root: Some(s.root),
                parent: s.parent,
                name: s.name,
                fields: s.fields,
            }
        } else {
            RecordView {
                kind: RecordKind::Event,
                level,
                message,
                time: now,
                opened_at: now,
                scope: None,
                root: None,
                parent: None,
                name: Seq::empty(),
                fields: Seq::empty(),
            }
        }
    }
}

/// In a well-formed registry an identity stands at one place only.
pub proof fn lemma_position(reg: RegistryView, i: int)
    requires
        reg.wf(),
        0 <= i < reg.scopes.len(),
    ensures
        reg.contains(reg.scopes[i].id),
        reg.position(reg.scopes[i].id) == i,
        reg.scope(reg.scopes[i].id) == reg.scopes[i],
{
    let id = reg.scopes[i].id;
    let p = reg.position(id);
    assert(reg.scopes[p].id == id);
    if p < i {
        assert(reg.scopes[p].id < reg.scopes[i].id);
    } else if i < p {
        assert(reg.scopes[i].id < reg.scopes[p].id);
    }
}

/// Opening a scope keeps the registry well formed.
pub proof fn lemma_open_wf(
    reg: RegistryView,
    name: Seq<char>,
    initial: Seq<FieldView>,
    parent: Option<u64>,
    now: i64,
)
    requires
        reg.wf(),
    ensures
        reg.open(name, initial, parent, now).wf(),
{
    let after = reg.open(name, initial, parent, now);
    if reg.open_error(parent) is None {
        let s = reg.opened(name, initial, parent, now);
        let n = reg.scopes.len() as int;
        assert(after.scopes[n] == s);
        match parent {
            Some(p) => {
                let k = reg.position(p);
                lemma_position(reg, k);
                lemma_upsert_all_unique(reg.scope(p).fields, initial);
                assert(after.scopes[k] == reg.scopes[k]);
                assert(after.linked(s));
            },
            None => {
                lemma_upsert_all_unique(Seq::empty(), initial);
            },
        }
        assert forall|i: int| 0 <= i < after.scopes.len() implies after.linked(
            #[trigger] after.scopes[i],
        ) by {
            if i < n {
                let t = reg.scopes[i];
                assert(after.scopes[i] == t);
                assert(reg.linked(t));
                if let Some(p) = t.parent {
                    let j = choose|j: int|
                        0 <= j < reg.scopes.len() && (#[trigger] reg.scopes[j]).id == p
                            && reg.scopes[j].root == t.root;
                    assert(after.scopes[j] == reg.scopes[j]);
                }
            }
        }
        assert forall|i: int, j: int| 0 <= i < j < after.scopes.len() implies (
        #[trigger] after.scopes[i]).id < (#[trigger] after.scopes[j]).id by {
            assert(after.scopes[i] == reg.scopes[i]);
            if j < n {
                assert(after.scopes[j] == reg.scopes[j]);
            }
        }
        assert forall|i: int| 0 <= i < after.scopes.len() implies (#[trigger] after.scopes[i]).id
            < after.next_id by {
            if i < n {
                assert(after.scopes[i] == reg.scopes[i]);
            }
        }
        assert forall|i: int| 0 <= i < after.scopes.len() implies unique_keys(
            (#[trigger] after.scopes[i]).fields,
        ) by {
            if i < n {
                assert(after.scopes[i] == reg.scopes[i]);
            }
        }
    }
}

/// A child knows what its parent knew: a scope opened under a parent reads
/// every name that its initial fields do not write as the parent read it
/// when the child was opened.
pub proof fn lemma_child_inherits(
    reg: RegistryView,
    name: Seq<char>,
    initial: Seq<FieldView>,
    parent: u64,
    now: i64,
    key: Seq<char>,
)
    requires
        reg.wf(),
        reg.contains(parent),
        !has_key(initial, key),
    ensures
        lookup(reg.opened(name, initial, Some(parent), now).fields, key) == lookup(
            reg.scope(parent).fields,
            key,
        ),
{
    let k = reg.position(parent);
    assert(unique_keys(reg.scopes[k].fields));
    lemma_upsert_all_lookup(reg.scope(parent).fields, initial, key);
}

/// Recording a field keeps the registry well formed.
pub proof fn lemma_record_wf(reg: RegistryView, id: u64, key: Seq<char>, value: FieldValueView)
    requires
        reg.wf(),
    ensures
        reg.record(id, key, value).wf(),
{
    let after = reg.record(id, key, value);
    if reg.contains(id) {
        let k = reg.position(id);
        lemma_upsert_unique(reg.scopes[k].fields, key, value);
        assert forall|i: int| 0 <= i < after.scopes.len() implies after.linked(
            #[trigger] after.scopes[i],
        ) by {
            let t = reg.scopes[i];
            assert(reg.linked(t));
            assert(after.scopes[i].parent == t.parent);
            if let Some(p) = t.parent {
                let j = choose|j: int|
                    0 <= j < reg.scopes.len() && (#[trigger] reg.scopes[j]).id == p
                        && reg.scopes[j].root == t.root;
                assert(after.scopes[j].id == p);
                assert(after.scopes[j].root == t.root);
            }
        }
        assert forall|i: int, j: int| 0 <= i < j < after.scopes.len() implies (
        #[trigger] after.scopes[i]).id < (#[trigger] after.scopes[j]).id by {
            assert(after.scopes[i].id == reg.scopes[i].id);
            assert(after.scopes[j].id == reg.scopes[j].id);
        }
        assert forall|i: int| 0 <= i < after.scopes.len() implies (#[trigger] after.scopes[i]).id
            < after.next_id by {
            assert(after.scopes[i].id == reg.scopes[i].id);
        }
        assert forall|i: int| 0 <= i < after.scopes.len() implies unique_keys(
            (#[trigger] after.scopes[i]).fields,
        ) by {
            if i != k {
                assert(after.scopes[i] == reg.scopes[i]);
            }
        }
    }
}

/// Closing a scope keeps the registry well formed: the scope had no open
/// child, so no scope is left without its parent.
pub proof fn lemma_close_wf(reg: RegistryView, id: u64)
    requires
        reg.wf(),
    ensures
        reg.close(id).wf(),
{
    let after = reg.close(id);
    if reg.close_error(id) is None {
        let k = reg.position(id);
        let n = reg.scopes.len() as int;
        assert(reg.scopes[k].id == id);
        assert forall|i: int| 0 <= i < after.scopes.len() implies #[trigger] after.scopes[i] == (if i
            < k {
            reg.scopes[i]
        } else {
            reg.scopes[i + 1]
        }) by {}
        assert forall|i: int| 0 <= i < after.scopes.len() implies after.linked(
            #[trigger] after.scopes[i],
        ) by {
            let t = after.scopes[i];
            let src = if i < k {
                i
            } else {
                i + 1
            };
            assert(t == reg.scopes[src]);
            assert(reg.linked(t));
            if let Some(p) = t.parent {
                let j = choose|j: int|
                    0 <= j < reg.scopes.len() && (#[trigger] reg.scopes[j]).id == p
                        && reg.scopes[j].root == t.root;
                assert(p != id) by {
                    if p == id {
                        assert(reg.scopes[src].parent == Some(id));
                        assert(reg.has_child(id));
                    }
                }
                assert(j != k);
                let dst = if j < k {
                    j
                } else {
                    j - 1
                };
                assert(after.scopes[dst] == reg.scopes[j]);
            }
        }
        assert forall|i: int, j: int| 0 <= i < j < after.scopes.len() implies (
        #[trigger] after.scopes[i]).id < (#[trigger] after.scopes[j]).id by {
            let si = if i < k {
                i
            } else {
                i + 1
            };
            let sj = if j < k {
                j
            } else {
                j + 1
            };
            assert(after.scopes[i] == reg.scopes[si]);
            assert(after.scopes[j] == reg.scopes[sj]);
        }
        assert forall|i: int| 0 <= i < after.scopes.len() implies (#[trigger] after.scopes[i]).id
            < after.next_id by {
            let si = if i < k {
                i
            } else {
                i + 1
            };
            assert(after.scopes[i] == reg.scopes[si]);
        }
        assert forall|i: int| 0 <= i < after.scopes.len() implies unique_keys(
            (#[trigger] after.scopes[i]).fields,
        ) by {
            let si = if i < k {
                i
            } else {
                i + 1
            };
            assert(after.scopes[i] == reg.scopes[si]);
        }
    }
}

/// Identities grow along the list.
pub open spec fn ascending(scopes: Seq<ScopeView>) -> bool {
    forall|i: int, j: int|
        0 <= i < j < scopes.len() ==> (#[trigger] scopes[i]).id < (#[trigger] scopes[j]).id
}

/// A selection keeps the order of the list, holds only scopes of the list
/// that were asked for, and holds all of those.
pub proof fn lemma_selection(scopes: Seq<ScopeView>, pred: spec_fn(ScopeView) -> bool)
    requires
        ascending(scopes),
    ensures
        ascending(scopes.filter(pred)),
        forall|k: int|
            0 <= k < scopes.filter(pred).len() ==> pred(#[trigger] scopes.filter(pred)[k])
                && scopes.contains(scopes.filter(pred)[k]),
        forall|i: int|
            0 <= i < scopes.len() && pred(scopes[i]) ==> scopes.filter(pred).contains(
                #[trigger] scopes[i],
            ),
    decreases scopes.len(),
{
    let picked = scopes.filter(pred);
    if scopes.len() == 0 {
        reveal(Seq::filter);
    } else {
        let front = scopes.drop_last();
        let last = scopes.last();
        assert(scopes == front.push(last));
        front.lemma_filter_push(last, pred);
        lemma_selection(front, pred);
        let sub = front.filter(pred);
        assert forall|k: int| 0 <= k < picked.len() implies pred(#[trigger] picked[k])
            && scopes.contains(picked[k]) by {
            if k < sub.len() {
                assert(picked[k] == sub[k]);
                assert(front.contains(sub[k]));
                let i = choose|i: int| 0 <= i < front.len() && front[i] == sub[k];
                assert(scopes[i] == picked[k]);
            } else {
                assert(picked[k] == last);
                assert(scopes[scopes.len() - 1] == last);
            }
        }
        assert forall|i: int| 0 <= i < scopes.len() && pred(scopes[i]) implies picked.contains(
            #[trigger] scopes[i],
        ) by {
            if i < front.len() {
                assert(front[i] == scopes[i]);
                assert(sub.contains(front[i]));
                let k = choose|k: int| 0 <= k < sub.len() && sub[k] == front[i];
                assert(picked[k] == scopes[i]);
            } else {
                assert(picked[picked.len() - 1] == scopes[i]);
            }
        }
        assert forall|a: int, b: int| 0 <= a < b < picked.len() implies (#[trigger] picked[a]).id < (
        #[trigger] picked[b]).id by {
            if b < sub.len() {
                assert(picked[a] == sub[a]);
                assert(picked[b] == sub[b]);
            } else {
                assert(picked[b] == last);
                assert(picked[a] == sub[a]);
                assert(front.contains(sub[a]));
                let i = choose|i: int| 0 <= i < front.len() && front[i] == sub[a];
                assert(scopes[i].id < scopes[scopes.len() - 1].id);
            }
        }
    }
}

/// Closing a tree removes its scopes and no others.
pub proof fn lemma_close_tree_contains(reg: RegistryView, root: u64, id: u64)
    requires
        reg.wf(),
    ensures
        reg.close_tree(root).contains(id) <==> reg.contains(id) && reg.scope(id).root != root,
        reg.close_tree(root).contains(id) ==> reg.close_tree(root).scope(id) == reg.scope(id),
{
    let after = reg.close_tree(root);
    lemma_selection(reg.scopes, outside_tree(root));
    if after.contains(id) {
        let k = after.position(id);
        assert(reg.scopes.contains(after.scopes[k]));
        let i = choose|i: int| 0 <= i < reg.scopes.len() && reg.scopes[i] == after.scopes[k];
        lemma_position(reg, i);
    }
    if reg.contains(id) && reg.scope(id).root != root {
        let i = reg.position(id);
        assert(after.scopes.contains(reg.scopes[i]));
        let k = choose|k: int| 0 <= k < after.scopes.len() && after.scopes[k] == reg.scopes[i];
        assert(after.scopes[k].id == id);
    }
}

/// Closing a whole tree keeps the registry well formed: the scopes that stay
/// belong to other trees, and so do their parents.
pub proof fn lemma_close_tree_wf(reg: RegistryView, root: u64)
    requires
        reg.wf(),
    ensures
        reg.close_tree(root).wf(),
        !reg.close_tree(root).has_tree(root),
{
    let after = reg.close_tree(root);
    lemma_selection(reg.scopes, outside_tree(root));
    assert forall|k: int| 0 <= k < after.scopes.len() implies {
        &&& (#[trigger] after.scopes[k]).id < after.next_id
        &&& unique_keys(after.scopes[k].fields)
        &&& after.linked(after.scopes[k])
        &&& after.scopes[k].root != root
    } by {
        let t = after.scopes[k];
        assert(reg.scopes.contains(t));
        let i = choose|i: int| 0 <= i < reg.scopes.len() && reg.scopes[i] == t;
        assert(reg.linked(reg.scopes[i]));
        if let Some(p) = t.parent {
            let j = choose|j: int|
                0 <= j < reg.scopes.len() && (#[trigger] reg.scopes[j]).id == p
                    && reg.scopes[j].root == t.root;
            assert(after.scopes.contains(reg.scopes[j]));
            let m = choose|m: int| 0 <= m < after.scopes.len() && after.scopes[m] == reg.scopes[j];
            assert(after.scopes[m].id == p);
        }
    }
}

} // verus!
