use zero2prod::record::{Level, RecordKind};
use zero2prod::registry::ScopeError;
use zero2prod::scope::{clone_fields, upsert_field, upsert_fields, Field, FieldValue};
use zero2prod::spans::{ScopeHandle, SpanRegistry};

fn text(key: &str, value: &str) -> Field {
    Field { key: key.to_string(), value: FieldValue::Text(value.to_string()) }
}

fn number(key: &str, value: i64) -> Field {
    Field { key: key.to_string(), value: FieldValue::Integer(value) }
}

#[test]
fn upsert_last_write_wins_and_keeps_the_place() {
    let mut fields = vec![text("a", "1"), text("b", "2")];
    upsert_field(&mut fields, "a".to_string(), FieldValue::Integer(3));
    upsert_field(&mut fields, "c".to_string(), FieldValue::Text("4".to_string()));
    assert_eq!(fields, vec![number("a", 3), text("b", "2"), text("c", "4")]);

    upsert_fields(&mut fields, vec![text("b", "x"), text("d", "y"), text("b", "z")]);
    assert_eq!(fields, vec![number("a", 3), text("b", "z"), text("c", "4"), text("d", "y")]);
    assert_eq!(clone_fields(&fields), fields);
}

#[test]
fn open_record_close() {
    let mut registry = SpanRegistry::new();
    assert_eq!(registry.open_count(), 0);

    let root = registry.open("request".to_string(), vec![text("id", "r1")], None, 10).unwrap();
    assert_eq!(root, ScopeHandle { id: 0 });
    assert!(registry.is_open(root));
    assert!(registry.record(root, "user".to_string(), FieldValue::Integer(7)));
    assert!(registry.record(root, "id".to_string(), FieldValue::Text("r2".to_string())));

    let record = registry.close(root, 25).unwrap();
    assert_eq!(record.kind, RecordKind::ScopeClosed);
    assert_eq!(record.level, Level::Info);
    assert_eq!(record.message, "");
    assert_eq!(record.time, 25);
    assert_eq!(record.opened_at, 10);
    assert_eq!(record.scope, Some(0));
    assert_eq!(record.root, Some(0));
    assert_eq!(record.parent, None);
    assert_eq!(record.name, "request");
    assert_eq!(record.fields, vec![text("id", "r2"), number("user", 7)]);
    assert_eq!(registry.open_count(), 0);
    assert!(!registry.is_open(root));
}

#[test]
fn a_scope_is_closed_once() {
    let mut registry = SpanRegistry::new();
    let root = registry.open("request".to_string(), vec![], None, 0).unwrap();
    assert!(registry.close(root, 1).is_ok());
    assert_eq!(registry.close(root, 2).unwrap_err(), ScopeError::NotOpen);
    assert!(!registry.record(root, "k".to_string(), FieldValue::Integer(1)));
    assert_eq!(registry.close(ScopeHandle { id: 99 }, 2).unwrap_err(), ScopeError::NotOpen);
    let next = registry.open("request".to_string(), vec![], None, 3).unwrap();
    assert_eq!(next.id, 1);
}

#[test]
fn a_child_starts_with_its_parents_fields() {
    let mut registry = SpanRegistry::new();
    let root = registry
        .open("request".to_string(), vec![text("request_id", "r"), text("k", "outer")], None, 0)
        .unwrap();
    let child =
        registry.open("write".to_string(), vec![text("k", "inner")], Some(root), 1).unwrap();
    registry.record(root, "late".to_string(), FieldValue::Integer(1));

    let record = registry.close(child, 2).unwrap();
    assert_eq!(record.parent, Some(root.id));
    assert_eq!(record.root, Some(root.id));
    assert_eq!(record.fields, vec![text("request_id", "r"), text("k", "inner")]);

    let record = registry.close(root, 3).unwrap();
    assert_eq!(
        record.fields,
        vec![text("request_id", "r"), text("k", "outer"), number("late", 1)]
    );
}

#[test]
fn a_parent_cannot_close_before_its_child() {
    let mut registry = SpanRegistry::new();
    let root = registry.open("request".to_string(), vec![], None, 0).unwrap();
    let child = registry.open("write".to_string(), vec![], Some(root), 1).unwrap();

    assert_eq!(registry.close(root, 2).unwrap_err(), ScopeError::ChildStillOpen);
    assert_eq!(registry.open_count(), 2);
    assert!(registry.close(child, 3).is_ok());
    assert!(registry.close(root, 4).is_ok());
    assert_eq!(registry.open_count(), 0);
}

#[test]
fn a_scope_cannot_open_under_a_closed_parent() {
    let mut registry = SpanRegistry::new();
    let root = registry.open("request".to_string(), vec![], None, 0).unwrap();
    registry.close(root, 1).unwrap();
    assert_eq!(
        registry.open("write".to_string(), vec![], Some(root), 2).unwrap_err(),
        ScopeError::ParentNotOpen
    );
    assert_eq!(registry.open_count(), 0);
}

#[test]
fn close_tree_closes_the_last_opened_first_and_spares_other_trees() {
    let mut registry = SpanRegistry::new();
    let a = registry.open("a".to_string(), vec![], None, 0).unwrap();
    let b = registry.open("b".to_string(), vec![], None, 0).unwrap();
    let a1 = registry.open("a1".to_string(), vec![], Some(a), 0).unwrap();
    let b1 = registry.open("b1".to_string(), vec![], Some(b), 0).unwrap();
    let a2 = registry.open("a2".to_string(), vec![], Some(a1), 0).unwrap();

    let records = registry.close_tree(a, 9);
    let names: Vec<&str> = records.iter().map(|r| r.name.as_str()).collect();
    assert_eq!(names, vec!["a2", "a1", "a"]);
    assert!(records.iter().all(|r| r.root == Some(a.id) && r.time == 9));
    assert!(!registry.is_open(a) && !registry.is_open(a1) && !registry.is_open(a2));
    assert!(registry.is_open(b) && registry.is_open(b1));
    assert_eq!(registry.open_count(), 2);
    assert!(registry.close_tree(a, 10).is_empty());
}

#[test]
fn events_carry_the_active_scope() {
    let mut registry = SpanRegistry::new();
    let root = registry.open("request".to_string(), vec![text("k", "v")], None, 4).unwrap();

    let event = registry.event(Some(root), Level::Warn, "careful".to_string(), 6);
    assert_eq!(event.kind, RecordKind::Event);
    assert_eq!(event.level, Level::Warn);
    assert_eq!(event.message, "careful");
    assert_eq!(event.time, 6);
    assert_eq!(event.opened_at, 4);
    assert_eq!(event.scope, Some(root.id));
    assert_eq!(event.name, "request");
    assert_eq!(event.fields, vec![text("k", "v")]);

    let event = registry.event(None, Level::Info, "alone".to_string(), 7);
    assert_eq!(event.scope, None);
    assert_eq!(event.root, None);
    assert_eq!(event.opened_at, 7);
    assert!(event.fields.is_empty());
    assert_eq!(registry.open_count(), 1);
}

#[test]
fn interleaved_requests_keep_their_fields_apart() {
    let requests: usize = 50;
    let mut registry = SpanRegistry::new();
    let mut roots = Vec::new();
    for k in 0..requests {
        let root = registry
            .open("http_request".to_string(), vec![text("request_id", &format!("r{k}"))], None, 0)
            .unwrap();
        roots.push(root);
    }
    let mut children = Vec::new();
    for k in 0..requests {
        let turn = (k * 7) % requests;
        registry.record(
            roots[turn],
            "sentinel".to_string(),
            FieldValue::Text(format!("s{turn}")),
        );
        let child = registry.open("persist".to_string(), vec![], Some(roots[turn]), 1).unwrap();
        children.push((turn, child));
    }
    for (turn, child) in children.iter().rev() {
        registry.record(*child, "inner".to_string(), FieldValue::Integer(*turn as i64));
    }
    for k in 0..requests {
        let turn = (k * 11) % requests;
        let records = registry.close_tree(roots[turn], 2);
        assert_eq!(records.len(), 2);
        for record in &records {
            assert_eq!(record.root, Some(roots[turn].id));
            assert_eq!(record.fields[0], text("request_id", &format!("r{turn}")));
            assert_eq!(record.fields[1], text("sentinel", &format!("s{turn}")));
            for field in &record.fields {
                if field.key == "inner" {
                    assert_eq!(field.value, FieldValue::Integer(turn as i64));
                }
            }
        }
        assert_eq!(records[0].fields.len(), 3);
        assert_eq!(records[1].fields.len(), 2);
    }
    assert_eq!(registry.open_count(), 0);
}

#[test]
fn a_registry_without_identities_opens_nothing() {
    let mut registry = SpanRegistry::with_first_id(u64::MAX - 1);
    let last = registry.open("last".to_string(), vec![], None, 0).unwrap();
    assert_eq!(last.id, u64::MAX - 1);
    assert_eq!(
        registry.open("one too many".to_string(), vec![], None, 0).unwrap_err(),
        ScopeError::RegistryFull
    );
    assert_eq!(
        registry.open("child".to_string(), vec![], Some(last), 0).unwrap_err(),
        ScopeError::RegistryFull
    );
    assert_eq!(
        registry.open("orphan".to_string(), vec![], Some(ScopeHandle { id: 3 }), 0).unwrap_err(),
        ScopeError::ParentNotOpen
    );
    assert_eq!(registry.open_count(), 1);
    assert!(registry.close(last, 1).is_ok());
}
