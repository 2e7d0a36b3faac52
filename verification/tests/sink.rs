use zero2prod::record::Level;
use zero2prod::scope::{Field, FieldValue};
use zero2prod::sink::{Sink, SinkTarget};
use zero2prod::subscriber::Subscriber;

#[test]
fn a_full_sink_drops_the_oldest_line() {
    let mut sink = Sink::output(2);
    assert_eq!(sink.target(), SinkTarget::Output);
    sink.write(b"one\n".to_vec());
    sink.write(b"two\n".to_vec());
    assert_eq!(sink.pending_len(), 2);
    assert_eq!(sink.dropped(), 0);
    sink.write(b"three\n".to_vec());
    assert_eq!(sink.pending_len(), 2);
    assert_eq!(sink.dropped(), 1);
    assert_eq!(sink.take_pending(), vec![b"two\n".to_vec(), b"three\n".to_vec()]);
    assert_eq!(sink.pending_len(), 0);
    assert!(sink.take_pending().is_empty());
    sink.write(b"four\n".to_vec());
    assert_eq!(sink.take_pending(), vec![b"four\n".to_vec()]);
}

#[test]
fn a_discarding_sink_keeps_nothing() {
    let mut sink = Sink::discard();
    assert_eq!(sink.target(), SinkTarget::Discard);
    sink.write(b"one\n".to_vec());
    assert_eq!(sink.pending_len(), 0);
    assert_eq!(sink.dropped(), 0);
    assert!(sink.take_pending().is_empty());
}

#[test]
fn a_sink_without_room_counts_what_it_drops() {
    let mut sink = Sink::output(0);
    sink.write(b"one\n".to_vec());
    sink.write(b"two\n".to_vec());
    assert_eq!(sink.pending_len(), 0);
    assert_eq!(sink.dropped(), 2);
}

#[test]
fn failed_flushes_are_counted() {
    let mut sink = Sink::output(1);
    sink.write(b"one\n".to_vec());
    sink.flush_failed();
    sink.flush_failed();
    assert_eq!(sink.failures(), 2);
    assert_eq!(sink.pending_len(), 1);
}

#[test]
fn a_subscriber_emits_what_passes_the_filter() {
    let mut subscriber = Subscriber::new("svc".to_string(), Some(Level::Info), Sink::output(8));
    assert_eq!(subscriber.name(), "svc");
    assert_eq!(subscriber.filter(), Some(Level::Info));

    let root = subscriber
        .open_scope(
            "request".to_string(),
            vec![Field { key: "k".to_string(), value: FieldValue::Integer(1) }],
            None,
            1,
        )
        .unwrap();
    assert!(subscriber.is_open(root));
    assert_eq!(subscriber.pending_lines(), 0);

    assert!(!subscriber.event(Some(root), Level::Debug, "quiet".to_string(), 2));
    assert!(subscriber.event(Some(root), Level::Error, "loud".to_string(), 3));
    assert!(subscriber.record(Some(root), "k".to_string(), FieldValue::Integer(2), 3));
    assert!(!subscriber.record(None, "k".to_string(), FieldValue::Integer(3), 3));
    assert_eq!(subscriber.close_scope(root, 4), Ok(None));
    assert_eq!(subscriber.open_scopes(), 0);

    let lines: Vec<String> =
        subscriber.take_pending().into_iter().map(|l| String::from_utf8(l).unwrap()).collect();
    assert_eq!(
        lines,
        vec![
            "{\"service\":\"svc\",\"kind\":\"event\",\"level\":\"ERROR\",\"msg\":\"loud\",\"time\":3,\"opened\":1,\"scope\":0,\"root\":0,\"parent\":null,\"span\":\"request\",\"k\":1}\n",
            "{\"service\":\"svc\",\"kind\":\"close\",\"level\":\"INFO\",\"msg\":\"\",\"time\":4,\"opened\":1,\"scope\":0,\"root\":0,\"parent\":null,\"span\":\"request\",\"k\":2}\n",
        ]
    );
    assert_eq!(subscriber.pending_lines(), 0);
}

#[test]
fn a_subscriber_that_is_off_emits_nothing() {
    let mut subscriber = Subscriber::new("svc".to_string(), None, Sink::output(8));
    let root = subscriber.open_scope("request".to_string(), vec![], None, 1).unwrap();
    assert!(!subscriber.event(Some(root), Level::Error, "loud".to_string(), 3));
    assert_eq!(subscriber.close_request(root, 4), 1);
    assert_eq!(subscriber.pending_lines(), 0);
    assert_eq!(subscriber.open_scopes(), 0);
}

#[test]
fn closing_returns_the_parent() {
    let mut subscriber = Subscriber::new("svc".to_string(), Some(Level::Trace), Sink::discard());
    let root = subscriber.open_scope("request".to_string(), vec![], None, 1).unwrap();
    let child = subscriber.open_scope("write".to_string(), vec![], Some(root), 2).unwrap();
    assert_eq!(subscriber.close_scope(child, 3), Ok(Some(root)));
    assert_eq!(subscriber.close_scope(root, 4), Ok(None));
    assert_eq!(subscriber.dropped_lines(), 0);
    assert_eq!(subscriber.flush_failures(), 0);
}

#[test]
fn a_field_without_a_scope_is_reported_once() {
    let mut subscriber = Subscriber::new("svc".to_string(), Some(Level::Trace), Sink::output(8));
    assert!(!subscriber.record(None, "k".to_string(), FieldValue::Integer(1), 5));
    assert!(!subscriber.record(None, "k".to_string(), FieldValue::Integer(2), 6));
    let stale = zero2prod::spans::ScopeHandle { id: 7 };
    assert!(!subscriber.record(Some(stale), "k".to_string(), FieldValue::Integer(3), 7));
    assert_eq!(subscriber.open_scopes(), 0);

    let lines: Vec<String> =
        subscriber.take_pending().into_iter().map(|l| String::from_utf8(l).unwrap()).collect();
    assert_eq!(
        lines,
        vec![
            "{\"service\":\"svc\",\"kind\":\"event\",\"level\":\"DEBUG\",\"msg\":\"field recorded outside of any scope\",\"time\":5,\"opened\":5,\"scope\":null,\"root\":null,\"parent\":null,\"span\":\"\"}\n"
        ]
    );
}

#[test]
fn closing_a_parent_before_its_child_is_refused_and_reported() {
    let mut subscriber = Subscriber::new("svc".to_string(), Some(Level::Info), Sink::output(8));
    let root = subscriber.open_scope("request".to_string(), vec![], None, 1).unwrap();
    let child = subscriber.open_scope("write".to_string(), vec![], Some(root), 2).unwrap();

    assert_eq!(
        subscriber.close_scope(root, 3),
        Err(zero2prod::registry::ScopeError::ChildStillOpen)
    );
    assert_eq!(subscriber.open_scopes(), 2);
    assert_eq!(subscriber.close_scope(child, 4), Ok(Some(root)));
    assert_eq!(subscriber.close_scope(child, 5), Err(zero2prod::registry::ScopeError::NotOpen));
    assert_eq!(subscriber.close_request(root, 6), 1);

    let lines: Vec<String> =
        subscriber.take_pending().into_iter().map(|l| String::from_utf8(l).unwrap()).collect();
    assert_eq!(lines.len(), 3);
    assert_eq!(
        lines[0],
        "{\"service\":\"svc\",\"kind\":\"event\",\"level\":\"WARN\",\"msg\":\"scope closed before its children\",\"time\":3,\"opened\":1,\"scope\":0,\"root\":0,\"parent\":null,\"span\":\"request\"}\n"
    );
    assert!(lines[1].contains("\"kind\":\"close\"") && lines[1].contains("\"span\":\"write\""));
    assert!(lines[2].contains("\"kind\":\"close\"") && lines[2].contains("\"span\":\"request\""));
}

#[test]
fn an_announcement_is_an_event_without_a_scope() {
    let mut subscriber = Subscriber::new("svc".to_string(), Some(Level::Info), Sink::output(8));
    assert!(!subscriber.announce(Level::Debug, "quiet".to_string()));
    assert!(subscriber.announce(Level::Info, "App running".to_string()));
    let lines: Vec<String> =
        subscriber.take_pending().into_iter().map(|l| String::from_utf8(l).unwrap()).collect();
    assert_eq!(lines.len(), 1);
    assert!(lines[0].starts_with(
        "{\"service\":\"svc\",\"kind\":\"event\",\"level\":\"INFO\",\"msg\":\"App running\",\"time\":1"
    ));
    assert!(lines[0].ends_with(",\"scope\":null,\"root\":null,\"parent\":null,\"span\":\"\"}\n"));
}

#[test]
fn running_is_announced() {
    let mut subscriber = Subscriber::new("svc".to_string(), Some(Level::Info), Sink::output(8));
    assert!(zero2prod::startup::run(&mut subscriber, "127.0.0.1:8000"));
    let lines: Vec<String> =
        subscriber.take_pending().into_iter().map(|l| String::from_utf8(l).unwrap()).collect();
    assert_eq!(lines.len(), 1);
    assert!(lines[0].contains("\"msg\":\"App running on http://127.0.0.1:8000\""));
    assert!(lines[0].contains("\"level\":\"INFO\""));

    let mut quiet = Subscriber::new("svc".to_string(), Some(Level::Warn), Sink::output(8));
    assert!(!zero2prod::startup::run(&mut quiet, "127.0.0.1:8000"));
    assert_eq!(quiet.pending_lines(), 0);
}
