//! What holds of every history of the registry.
//!
//! A history is a list of operations, applied one after the other, whoever
//! issued them and however the requests that issued them were interleaved.
//! The laws below are stated over all histories.

use crate::record::{Level, RecordKind, RecordView};
use crate::registry::{closing, closing_record, in_tree, lemma_close_tree_contains,
    lemma_close_tree_wf, lemma_close_wf, lemma_open_wf, lemma_position, lemma_record_wf,
    lemma_selection, outside_tree, tree_records, RegistryView, ScopeView};
use crate::scope::{FieldValueView, FieldView};
use vstd::prelude::*;

verus! {

/// One operation on the registry.
pub enum Op {
    Open { name: Seq<char>, initial: Seq<FieldView>, parent: Option<u64>, now: i64 },
    Record { id: u64, key: Seq<char>, value: FieldValueView },
    Close { id: u64, now: i64 },
    CloseTree { root: u64, now: i64 },
    Event { active: Option<u64>, level: Level, message: Seq<char>, now: i64 },
}

/// The registry after one operation.
pub open spec fn step(reg: RegistryView, op: Op) -> RegistryView {
    match op {
        Op::Open { name, initial, parent, now } => reg.open(name, initial, parent, now),
        Op::Record { id, key, value } => reg.record(id, key, value),
        Op::Close { id, now } => reg.close(id),
        Op::CloseTree { root, now } => reg.close_tree(root),
        Op::Event { active, level, message, now } => reg,
    }
}

/// The records that one operation emits.
pub open spec fn emitted(reg: RegistryView, op: Op) -> Seq<RecordView> {
    match op {
        Op::Open { name, initial, parent, now } => Seq::empty(),
        Op::Record { id, key, value } => Seq::empty(),
        Op::Close { id, now } => if reg.close_error(id) is None {
            seq![closing_record(reg.scope(id), now)]
        } else {
            Seq::empty()
        },
        Op::CloseTree { root, now } => tree_records(reg.scopes, root, now),
        Op::Event { active, level, message, now } => seq![reg.event(active, level, message, now)],
    }
}

/// The registry after a history.
pub open spec fn run(reg: RegistryView, ops: Seq<Op>) -> RegistryView
    decreases ops.len(),
{
    if ops.len() == 0 {
        reg
    } else {
        step(run(reg, ops.drop_last()), ops.last())
    }
}

/// The records that a history emits, in the order of their emission.
pub open spec fn output(reg: RegistryView, ops: Seq<Op>) -> Seq<RecordView>
    decreases ops.len(),
{
    if ops.len() == 0 {
        Seq::empty()
    } else {
        output(reg, ops.drop_last()) + emitted(run(reg, ops.drop_last()), ops.last())
    }
}

/// The record is the summary of scope `id`.
pub open spec fn closes(record: RecordView, id: u64) -> bool {
    record.kind == RecordKind::ScopeClosed && record.scope == Some(id)
}

/// Some record of the list is the summary of scope `id`.
pub open spec fn closed_in(records: Seq<RecordView>, id: u64) -> bool {
    exists|k: int| 0 <= k < records.len() && closes(#[trigger] records[k], id)
}

/// No two records of the list are summaries of the same scope `id`.
pub open spec fn closed_at_most_once(records: Seq<RecordView>, id: u64) -> bool {
    forall|a: int, b: int|
        0 <= a < b < records.len() ==> !(closes(#[trigger] records[a], id) && closes(
            #[trigger] records[b],
            id,
        ))
}

/// The account of one identity after a history: an identity that was never
/// handed out is neither open nor closed; one that was handed out is either
/// open and has no summary, or not open and has exactly one.
pub open spec fn accounted(reg: RegistryView, records: Seq<RecordView>, id: u64) -> bool {
    &&& closed_at_most_once(records, id)
    &&& id >= reg.next_id ==> !reg.contains(id) && !closed_in(records, id)
    &&& id < reg.next_id ==> (reg.contains(id) <==> !closed_in(records, id))
}

/// Every operation keeps the registry well formed.
pub proof fn lemma_step_wf(reg: RegistryView, op: Op)
    requires
        reg.wf(),
    ensures
        step(reg, op).wf(),
{
    match op {
        Op::Open { name, initial, parent, now } => lemma_open_wf(reg, name, initial, parent, now),
        Op::Record { id, key, value } => lemma_record_wf(reg, id, key, value),
        Op::Close { id, now } => lemma_close_wf(reg, id),
        Op::CloseTree { root, now } => lemma_close_tree_wf(reg, root),
        Op::Event { active, level, message, now } => {},
    }
}

/// Every history keeps the registry well formed: at every moment identities
/// are unique and each open child has its parent open.
pub proof fn lemma_run_wf(reg: RegistryView, ops: Seq<Op>)
    requires
        reg.wf(),
    ensures
        run(reg, ops).wf(),
    decreases ops.len(),
{
    if ops.len() > 0 {
        lemma_run_wf(reg, ops.drop_last());
        lemma_step_wf(run(reg, ops.drop_last()), ops.last());
    }
}

/// The summaries of a tree are those of its open scopes, one for each.
proof fn lemma_tree_records(reg: RegistryView, root: u64, now: i64, id: u64)
    requires
        reg.wf(),
    ensures
        closed_at_most_once(tree_records(reg.scopes, root, now), id),
        closed_in(tree_records(reg.scopes, root, now), id) <==> reg.contains(id) && reg.scope(
            id,
        ).root == root,
{
    let picked = reg.scopes.filter(in_tree(root));
    let records = tree_records(reg.scopes, root, now);
    let n = picked.len() as int;
    lemma_selection(reg.scopes, in_tree(root));
    assert(records.len() == n);
    assert forall|k: int| 0 <= k < n implies #[trigger] records[k] == closing_record(
        picked[n - 1 - k],
        now,
    ) by {
        assert(picked.reverse()[k] == picked[n - 1 - k]);
    }
    assert forall|a: int, b: int| 0 <= a < b < records.len() implies !(closes(
        #[trigger] records[a],
        id,
    ) && closes(#[trigger] records[b], id)) by {
        assert(picked[n - 1 - b].id < picked[n - 1 - a].id);
    }
    if closed_in(records, id) {
        let k = choose|k: int| 0 <= k < records.len() && closes(#[trigger] records[k], id);
        let s = picked[n - 1 - k];
        assert(in_tree(root)(s));
        assert(reg.scopes.contains(s));
        let i = choose|i: int| 0 <= i < reg.scopes.len() && reg.scopes[i] == s;
        lemma_position(reg, i);
    }
    if reg.contains(id) && reg.scope(id).root == root {
        let i = reg.position(id);
        assert(in_tree(root)(reg.scopes[i]));
        assert(picked.contains(reg.scopes[i]));
        let m = choose|m: int| 0 <= m < picked.len() && picked[m] == reg.scopes[i];
        assert(closes(records[n - 1 - m], id));
    }
}

/// The account of an identity is kept where the registry keeps its
/// identities and no record is added.
proof fn lemma_quiet_step_accounted(
    reg: RegistryView,
    after: RegistryView,
    records: Seq<RecordView>,
    id: u64,
)
    requires
        accounted(reg, records, id),
        after.next_id == reg.next_id,
        after.contains(id) == reg.contains(id),
    ensures
        accounted(after, records + Seq::<RecordView>::empty(), id),
{
    assert(records + Seq::<RecordView>::empty() =~= records);
}

/// Opening a scope keeps the account of every identity.
proof fn lemma_open_accounted(
    reg: RegistryView,
    records: Seq<RecordView>,
    name: Seq<char>,
    initial: Seq<FieldView>,
    parent: Option<u64>,
    now: i64,
    id: u64,
)
    requires
        reg.wf(),
        accounted(reg, records, id),
    ensures
        accounted(reg.open(name, initial, parent, now), records + Seq::<RecordView>::empty(), id),
{
    let after = reg.open(name, initial, parent, now);
    assert(records + Seq::<RecordView>::empty() =~= records);
    if reg.open_error(parent) is None {
        let n = reg.scopes.len() as int;
        let s = reg.opened(name, initial, parent, now);
        assert(after.scopes[n] == s);
        assert(after.contains(reg.next_id));
        if reg.contains(id) {
            let i = reg.position(id);
            assert(after.scopes[i] == reg.scopes[i]);
            assert(after.contains(id));
        }
        if after.contains(id) && id != reg.next_id {
            let i = after.position(id);
            assert(i < n);
            assert(after.scopes[i] == reg.scopes[i]);
            assert(reg.contains(id));
        }
        if reg.contains(id) {
            let i = reg.position(id);
            assert(reg.scopes[i].id < reg.next_id);
        }
    }
}

/// Recording a field keeps the account of every identity.
proof fn lemma_record_accounted(
    reg: RegistryView,
    records: Seq<RecordView>,
    target: u64,
    key: Seq<char>,
    value: FieldValueView,
    id: u64,
)
    requires
        reg.wf(),
        accounted(reg, records, id),
    ensures
        accounted(reg.record(target, key, value), records + Seq::<RecordView>::empty(), id),
{
    let after = reg.record(target, key, value);
    if reg.contains(target) {
        if reg.contains(id) {
            let i = reg.position(id);
            assert(after.scopes[i].id == reg.scopes[i].id);
            assert(after.contains(id));
        }
        if after.contains(id) {
            let i = after.position(id);
            assert(after.scopes[i].id == reg.scopes[i].id);
            assert(reg.contains(id));
        }
    }
    lemma_quiet_step_accounted(reg, after, records, id);
}

/// After a scope is closed, the scopes that are open are the others.
proof fn lemma_close_contains(reg: RegistryView, target: u64, id: u64)
    requires
        reg.wf(),
        reg.close_error(target) is None,
    ensures
        reg.close(target).contains(id) <==> reg.contains(id) && id != target,
{
    let after = reg.close(target);
    let k = reg.position(target);
    lemma_position(reg, k);
    assert forall|i: int| 0 <= i < after.scopes.len() implies #[trigger] after.scopes[i] == (if i
        < k {
        reg.scopes[i]
    } else {
        reg.scopes[i + 1]
    }) by {}
    if after.contains(id) {
        let i = after.position(id);
        let src = if i < k {
            i
        } else {
            i + 1
        };
        assert(reg.scopes[src].id == id);
        lemma_position(reg, src);
    }
    if reg.contains(id) && id != target {
        let i = reg.position(id);
        let dst = if i < k {
            i
        } else {
            i - 1
        };
        assert(after.scopes[dst].id == id);
    }
}

/// What holds of a list of records holds of it with one record more, but
/// for the scope that the new record is the summary of.
proof fn lemma_one_more_record(records: Seq<RecordView>, record: RecordView, id: u64)
    requires
        closed_at_most_once(records, id),
    ensures
        closed_in(records + seq![record], id) <==> closed_in(records, id) || closes(record, id),
        !(closed_in(records, id) && closes(record, id)) ==> closed_at_most_once(
            records + seq![record],
            id,
        ),
{
    let all = records + seq![record];
    let n = records.len() as int;
    assert(all[n] == record);
    assert forall|k: int| 0 <= k < n implies #[trigger] all[k] == records[k] by {}
    if closed_in(records, id) {
        let c = choose|c: int| 0 <= c < records.len() && closes(#[trigger] records[c], id);
        assert(closes(all[c], id));
    }
    if closed_in(all, id) {
        let c = choose|c: int| 0 <= c < all.len() && closes(#[trigger] all[c], id);
        if c < n {
            assert(closes(records[c], id));
        }
    }
    if !(closed_in(records, id) && closes(record, id)) {
        assert forall|a: int, b: int| 0 <= a < b < all.len() implies !(closes(
            #[trigger] all[a],
            id,
        ) && closes(#[trigger] all[b], id)) by {
            if closes(all[a], id) && closes(all[b], id) {
                assert(closes(records[a], id));
                if b < n {
                    assert(closes(records[b], id));
                }
            }
        }
    }
}

/// Closing a scope keeps the account of every identity.
proof fn lemma_close_accounted(
    reg: RegistryView,
    records: Seq<RecordView>,
    target: u64,
    now: i64,
    id: u64,
)
    requires
        reg.wf(),
        accounted(reg, records, id),
    ensures
        accounted(reg.close(target), records + emitted(reg, Op::Close { id: target, now }), id),
{
    let after = reg.close(target);
    if reg.close_error(target) is None {
        let k = reg.position(target);
        lemma_position(reg, k);
        let record = closing_record(reg.scope(target), now);
        assert(emitted(reg, Op::Close { id: target, now }) =~= seq![record]);
        assert(closes(record, id) <==> id == target);
        assert(reg.scopes[k].id < reg.next_id);
        lemma_close_contains(reg, target, id);
        lemma_one_more_record(records, record, id);
    } else {
        assert(emitted(reg, Op::Close { id: target, now }) =~= Seq::<RecordView>::empty());
        lemma_quiet_step_accounted(reg, after, records, id);
    }
}

/// What holds of two lists of records holds of them joined, where no scope
/// has a summary in both.
proof fn lemma_more_records(records: Seq<RecordView>, new: Seq<RecordView>, id: u64)
    requires
        closed_at_most_once(records, id),
        closed_at_most_once(new, id),
        !(closed_in(records, id) && closed_in(new, id)),
    ensures
        closed_in(records + new, id) <==> closed_in(records, id) || closed_in(new, id),
        closed_at_most_once(records + new, id),
{
    let all = records + new;
    let n = records.len() as int;
    assert forall|k: int| 0 <= k < n implies #[trigger] all[k] == records[k] by {}
    assert forall|k: int| n <= k < all.len() implies #[trigger] all[k] == new[k - n] by {}
    if closed_in(records, id) {
        let c = choose|c: int| 0 <= c < records.len() && closes(#[trigger] records[c], id);
        assert(closes(all[c], id));
    }
    if closed_in(new, id) {
        let c = choose|c: int| 0 <= c < new.len() && closes(#[trigger] new[c], id);
        assert(closes(all[n + c], id));
    }
    if closed_in(all, id) {
        let c = choose|c: int| 0 <= c < all.len() && closes(#[trigger] all[c], id);
        if c < n {
            assert(closes(records[c], id));
        } else {
            assert(closes(new[c - n], id));
        }
    }
    assert forall|a: int, b: int| 0 <= a < b < all.len() implies !(closes(#[trigger] all[a], id)
        && closes(#[trigger] all[b], id)) by {
        if closes(all[a], id) && closes(all[b], id) {
            if b < n {
                assert(closes(records[a], id) && closes(records[b], id));
            } else if a < n {
                assert(closes(records[a], id));
                assert(closes(new[b - n], id));
            } else {
                assert(closes(new[a - n], id));
                assert(closes(new[b - n], id));
            }
        }
    }
}

/// Closing a tree keeps the account of every identity.
proof fn lemma_close_tree_accounted(
    reg: RegistryView,
    records: Seq<RecordView>,
    root: u64,
    now: i64,
    id: u64,
)
    requires
        reg.wf(),
        accounted(reg, records, id),
    ensures
        accounted(reg.close_tree(root), records + tree_records(reg.scopes, root, now), id),
{
    lemma_tree_records(reg, root, now, id);
    lemma_close_tree_contains(reg, root, id);
    if reg.contains(id) {
        let i = reg.position(id);
        assert(reg.scopes[i].id < reg.next_id);
    }
    lemma_more_records(records, tree_records(reg.scopes, root, now), id);
}

/// One operation keeps the account of every identity.
proof fn lemma_step_accounted(reg: RegistryView, records: Seq<RecordView>, op: Op, id: u64)
    requires
        reg.wf(),
        accounted(reg, records, id),
    ensures
        accounted(step(reg, op), records + emitted(reg, op), id),
{
    match op {
        Op::Open { name, initial, parent, now } => {
            lemma_open_accounted(reg, records, name, initial, parent, now, id);
        },
        Op::Record { id: target, key, value } => {
            lemma_record_accounted(reg, records, target, key, value, id);
        },
        Op::Close { id: target, now } => {
            lemma_close_accounted(reg, records, target, now, id);
        },
        Op::CloseTree { root, now } => {
            lemma_close_tree_accounted(reg, records, root, now, id);
        },
        Op::Event { active, level, message, now } => {
            lemma_one_more_record(records, reg.event(active, level, message, now), id);
        },
    }
}

/// Every opened scope is closed at most once, and is open until then: after
/// any history that starts with nothing open, an identity that was handed
/// out is either still open, with no summary emitted for it, or no longer
/// open, with exactly one summary emitted for it. An identity that was not
/// handed out has neither.
pub proof fn lemma_closed_exactly_once(ops: Seq<Op>, id: u64)
    ensures
        accounted(run(RegistryView::empty(), ops), output(RegistryView::empty(), ops), id),
    decreases ops.len(),
{
    let start = RegistryView::empty();
    if ops.len() > 0 {
        lemma_closed_exactly_once(ops.drop_last(), id);
        lemma_run_wf(start, ops.drop_last());
        lemma_step_accounted(
            run(start, ops.drop_last()),
            output(start, ops.drop_last()),
            ops.last(),
            id,
        );
    }
}

/// The operation acts on the tree under `root`: it opens that root or a
/// scope below it, writes to or closes one of its scopes, closes the tree,
/// or raises an event in one of its scopes.
pub open spec fn touches(reg: RegistryView, op: Op, root: u64) -> bool {
    match op {
        Op::Open { name, initial, parent, now } => match parent {
            Some(p) => reg.contains(p) && reg.scope(p).root == root,
            None => reg.next_id == root,
        },
        Op::Record { id, key, value } => reg.contains(id) && reg.scope(id).root == root,
        Op::Close { id, now } => reg.contains(id) && reg.scope(id).root == root,
        Op::CloseTree { root: r, now } => r == root,
        Op::Event { active, level, message, now } => active is Some && reg.contains(
            active.unwrap(),
        ) && reg.scope(active.unwrap()).root == root,
    }
}

/// No operation of the history acts on the tree under `root`.
pub open spec fn leaves_alone(reg: RegistryView, ops: Seq<Op>, root: u64) -> bool
    decreases ops.len(),
{
    ops.len() == 0 || (leaves_alone(reg, ops.drop_last(), root) && !touches(
        run(reg, ops.drop_last()),
        ops.last(),
        root,
    ))
}

/// The open scopes of the tree under `root`, oldest first, with their fields.
pub open spec fn tree(reg: RegistryView, root: u64) -> Seq<ScopeView> {
    reg.scopes.filter(in_tree(root))
}

/// No record of the list belongs to the tree under `root`.
pub open spec fn silent_on(records: Seq<RecordView>, root: u64) -> bool {
    forall|k: int| 0 <= k < records.len() ==> (#[trigger] records[k]).root != Some(root)
}

/// Where one element fails the test, before and after it is replaced, the
/// selection does not see the replacement.
proof fn lemma_filter_update(
    scopes: Seq<ScopeView>,
    k: int,
    s: ScopeView,
    pred: spec_fn(ScopeView) -> bool,
)
    requires
        0 <= k < scopes.len(),
        !pred(scopes[k]),
        !pred(s),
    ensures
        scopes.update(k, s).filter(pred) == scopes.filter(pred),
{
    let front = scopes.take(k);
    let back = scopes.skip(k + 1);
    assert(scopes =~= front.push(scopes[k]) + back);
    assert(scopes.update(k, s) =~= front.push(s) + back);
    front.lemma_filter_push(scopes[k], pred);
    front.lemma_filter_push(s, pred);
    Seq::filter_distributes_over_add(front.push(scopes[k]), back, pred);
    Seq::filter_distributes_over_add(front.push(s), back, pred);
}

/// Where an element fails the test, the selection does not see its removal.
proof fn lemma_filter_remove(scopes: Seq<ScopeView>, k: int, pred: spec_fn(ScopeView) -> bool)
    requires
        0 <= k < scopes.len(),
        !pred(scopes[k]),
    ensures
        scopes.remove(k).filter(pred) == scopes.filter(pred),
{
    let front = scopes.take(k);
    let back = scopes.skip(k + 1);
    assert(scopes =~= front.push(scopes[k]) + back);
    assert(scopes.remove(k) =~= front + back);
    front.lemma_filter_push(scopes[k], pred);
    Seq::filter_distributes_over_add(front.push(scopes[k]), back, pred);
    Seq::filter_distributes_over_add(front, back, pred);
}

/// Taking the other trees away first does not change the selection of a tree.
proof fn lemma_filter_other_tree(scopes: Seq<ScopeView>, closed: u64, root: u64)
    requires
        closed != root,
    ensures
        scopes.filter(outside_tree(closed)).filter(in_tree(root)) == scopes.filter(in_tree(root)),
    decreases scopes.len(),
{
    if scopes.len() == 0 {
        reveal(Seq::filter);
        assert(scopes.filter(outside_tree(closed)) =~= scopes);
    } else {
        let front = scopes.drop_last();
        let last = scopes.last();
        assert(scopes =~= front.push(last));
        lemma_filter_other_tree(front, closed, root);
        front.lemma_filter_push(last, outside_tree(closed));
        front.lemma_filter_push(last, in_tree(root));
        if last.root != closed {
            front.filter(outside_tree(closed)).lemma_filter_push(last, in_tree(root));
        }
    }
}

/// An operation that does not act on a tree leaves the tree's scopes as they
/// are, fields included, and emits no record of that tree.
pub proof fn lemma_step_isolated(reg: RegistryView, op: Op, root: u64)
    requires
        reg.wf(),
        !touches(reg, op, root),
    ensures
        tree(step(reg, op), root) == tree(reg, root),
        silent_on(emitted(reg, op), root),
{
    match op {
        Op::Open { name, initial, parent, now } => {
            if reg.open_error(parent) is None {
                let s = reg.opened(name, initial, parent, now);
                reg.scopes.lemma_filter_push(s, in_tree(root));
                assert(!in_tree(root)(s));
            }
        },
        Op::Record { id, key, value } => {
            if reg.contains(id) {
                let k = reg.position(id);
                let s = reg.scope(id);
                lemma_filter_update(
                    reg.scopes,
                    k,
                    ScopeView { fields: crate::scope::upsert(s.fields, key, value), ..s },
                    in_tree(root),
                );
            }
        },
        Op::Close { id, now } => {
            if reg.close_error(id) is None {
                lemma_filter_remove(reg.scopes, reg.position(id), in_tree(root));
            }
        },
        Op::CloseTree { root: closed, now } => {
            lemma_filter_other_tree(reg.scopes, closed, root);
            let records = tree_records(reg.scopes, closed, now);
            let picked = reg.scopes.filter(in_tree(closed));
            lemma_selection(reg.scopes, in_tree(closed));
            assert forall|k: int| 0 <= k < records.len() implies (#[trigger] records[k]).root
                != Some(root) by {
                let n = picked.len() as int;
                assert(picked.reverse()[k] == picked[n - 1 - k]);
                assert(records[k] == closing(now)(picked[n - 1 - k]));
                assert(in_tree(closed)(picked[n - 1 - k]));
            }
        },
        Op::Event { active, level, message, now } => {},
    }
}

/// Requests are isolated from each other: a history in which no operation
/// acts on the tree under `root`, whatever it does to the scopes of other
/// requests and in whatever order, leaves every scope of that tree as it
/// was, with the same fields, and emits no record of that tree. So a field
/// recorded in one request's scope cannot show up in what another request
/// emits.
pub proof fn lemma_requests_isolated(reg: RegistryView, ops: Seq<Op>, root: u64)
    requires
        reg.wf(),
        leaves_alone(reg, ops, root),
    ensures
        tree(run(reg, ops), root) == tree(reg, root),
        silent_on(output(reg, ops), root),
    decreases ops.len(),
{
    if ops.len() > 0 {
        let before = run(reg, ops.drop_last());
        lemma_requests_isolated(reg, ops.drop_last(), root);
        lemma_run_wf(reg, ops.drop_last());
        lemma_step_isolated(before, ops.last(), root);
        let earlier = output(reg, ops.drop_last());
        let new = emitted(before, ops.last());
        assert forall|k: int| 0 <= k < (earlier + new).len() implies (#[trigger] (earlier
            + new)[k]).root != Some(root) by {
            if k < earlier.len() {
                assert((earlier + new)[k] == earlier[k]);
            } else {
                assert((earlier + new)[k] == new[k - earlier.len()]);
            }
        }
    }
}

} // verus!
