use std::collections::HashSet;
use zero2prod::correlation::{CorrelationId, REQUEST_ID_HEADER};
use zero2prod::pipeline::{HandlerOutcome, RequestState, Stage};
use zero2prod::record::Level;
use zero2prod::routes::subscriptions::{subscribe_completed_at, subscribe_with, FormData};
use zero2prod::scope::{Field, FieldValue};
use zero2prod::sink::Sink;
use zero2prod::telemetry::{
    choose_filter, create_subscriber_middleware_layer, get_subscriber, make_span_with_request_id,
    MyMakeRequestId, RequestHead,
};

fn head(method: &str, uri: &str) -> RequestHead {
    RequestHead { method: method.to_string(), uri: uri.to_string(), request_id: None }
}

fn is_uuid_v4(text: &str) -> bool {
    let chars: Vec<char> = text.chars().collect();
    chars.len() == 36
        && chars.iter().enumerate().all(|(i, c)| {
            if i == 8 || i == 13 || i == 18 || i == 23 {
                *c == '-'
            } else {
                c.is_ascii_digit() || ('a'..='f').contains(c)
            }
        })
        && chars[14] == '4'
        && matches!(chars[19], '8' | '9' | 'a' | 'b')
}

#[test]
fn request_ids_are_random_uuids() {
    let mut maker = MyMakeRequestId;
    let id = maker.make_request_id(&head("GET", "/")).unwrap();
    assert!(is_uuid_v4(id.as_str()), "{}", id.as_str());
    assert_eq!(id.duplicate().as_str(), id.as_str());
    assert!(is_uuid_v4(CorrelationId::generate().as_str()));
}

#[test]
fn request_ids_do_not_collide() {
    let mut maker = MyMakeRequestId;
    let request = head("GET", "/");
    let mut seen = HashSet::new();
    for _ in 0..10_000 {
        let id = maker.make_request_id(&request).unwrap();
        assert!(seen.insert(id.as_str().to_string()));
    }
    assert_eq!(seen.len(), 10_000);
}

#[test]
fn correlation_ids_are_tokens() {
    assert_eq!(CorrelationId::parse("abc-123").unwrap().as_str(), "abc-123");
    assert_eq!(CorrelationId::parse("!~").unwrap().as_str(), "!~");
    assert!(CorrelationId::parse("").is_none());
    assert!(CorrelationId::parse("a b").is_none());
    assert!(CorrelationId::parse("a\tb").is_none());
    assert!(CorrelationId::parse("a\n").is_none());
    assert!(CorrelationId::parse("caf\u{e9}").is_none());
    assert!(CorrelationId::parse("a\u{7f}").is_none());
}

#[test]
fn the_filter_comes_from_the_environment_first() {
    let filter = |configured: &str, environment: Option<&str>| {
        get_subscriber(
            "svc".to_string(),
            configured.to_string(),
            Sink::discard(),
            environment.map(|e| e.to_string()),
        )
        .filter()
    };
    assert_eq!(filter("info", None), Some(Level::Info));
    assert_eq!(filter("debug", None), Some(Level::Debug));
    assert_eq!(filter("TRACE", None), Some(Level::Trace));
    assert_eq!(filter("warn", None), Some(Level::Warn));
    assert_eq!(filter("error", None), Some(Level::Error));
    assert_eq!(filter("off", None), None);
    assert_eq!(filter("", None), Some(Level::Error));
    assert_eq!(filter("info", Some("debug")), Some(Level::Debug));
    assert_eq!(filter("info", Some("off")), None);
    assert_eq!(filter("info", Some("no level")), Some(Level::Info));
    assert_eq!(filter("zero2prod=trace,tower_http=error", None), Some(Level::Error));
    assert_eq!(filter("no level", Some("neither")), Some(Level::Error));

    assert_eq!(choose_filter(Some(None), Some(Some(Level::Info))), None);
    assert_eq!(choose_filter(None, Some(Some(Level::Info))), Some(Level::Info));
    assert_eq!(choose_filter(None, None), Some(Level::Error));
    assert_eq!(choose_filter(Some(Some(Level::Trace)), None), Some(Level::Trace));
}

#[test]
fn a_new_subscriber_has_nothing_open() {
    let subscriber = get_subscriber("svc".to_string(), "info".to_string(), Sink::output(4), None);
    assert_eq!(subscriber.name(), "svc");
    assert_eq!(subscriber.open_scopes(), 0);
    assert_eq!(subscriber.pending_lines(), 0);
}

#[test]
fn the_span_of_a_request() {
    let mut request = head("POST", "/subscriptions?x=1");
    let text = |key: &str, value: &str| Field {
        key: key.to_string(),
        value: FieldValue::Text(value.to_string()),
    };

    let span = make_span_with_request_id(&request);
    assert_eq!(span.name, "http_request");
    assert_eq!(
        span.fields,
        vec![text("request_id", ""), text("method", "POST"), text("uri", "/subscriptions?x=1")]
    );

    request.request_id = Some("abc".to_string());
    let span = make_span_with_request_id(&request);
    assert_eq!(
        span.fields,
        vec![text("request_id", "abc"), text("method", "POST"), text("uri", "/subscriptions?x=1")]
    );
}

#[test]
fn the_layer_echoes_under_the_request_id_header() {
    let layer = create_subscriber_middleware_layer();
    assert_eq!(layer.header, "x-request-id");
    assert_eq!(layer.header, REQUEST_ID_HEADER);
}

#[test]
fn transitions_out_of_turn_change_nothing() {
    let mut subscriber =
        get_subscriber("svc".to_string(), "info".to_string(), Sink::output(8), None);
    let mut state = RequestState::arrived(RequestHead {
        method: "GET".to_string(),
        uri: "/".to_string(),
        request_id: Some("brought-along".to_string()),
    });
    assert_eq!(state.stage(), Stage::Arrived);
    assert_eq!(state.head().request_id, None);
    assert!(state.id().is_none());

    assert!(!state.open_scope(&mut subscriber, 1));
    assert!(!state.start_handler());
    assert!(!state.finish_handler(&mut subscriber, HandlerOutcome::Failed, 1));
    assert!(state.send_response().is_none());
    assert_eq!(state.stage(), Stage::Arrived);
    assert_eq!(subscriber.open_scopes(), 0);

    assert!(state.assign_id(CorrelationId::parse("id-1").unwrap()));
    assert!(!state.assign_id(CorrelationId::parse("id-2").unwrap()));
    assert_eq!(state.stage(), Stage::IdAssigned);
    assert_eq!(state.id().unwrap().as_str(), "id-1");
    assert_eq!(state.head().request_id.as_deref(), Some("id-1"));
    assert!(state.active().is_none());

    assert!(state.open_scope(&mut subscriber, 5));
    assert_eq!(state.stage(), Stage::ScopeOpen);
    assert_eq!(subscriber.open_scopes(), 1);
    assert!(state.active().is_none());
    assert!(!state.finish_handler(&mut subscriber, HandlerOutcome::Failed, 6));

    assert!(state.start_handler());
    assert_eq!(state.stage(), Stage::HandlerRunning);
    let active = state.active();
    assert!(active.is_some());
    assert!(state.status().is_none());
    assert!(state.send_response().is_none());

    assert!(state.finish_handler(&mut subscriber, HandlerOutcome::Completed { status: 204 }, 9));
    assert_eq!(state.stage(), Stage::ScopeClosed);
    assert_eq!(state.status(), Some(204));
    assert_eq!(subscriber.open_scopes(), 0);

    let response = state.send_response().unwrap();
    assert_eq!(response.status, 204);
    assert_eq!(response.headers, vec![("x-request-id".to_string(), "id-1".to_string())]);
    assert!(response.body.is_empty());
    assert_eq!(state.stage(), Stage::ResponseSent);
    assert!(state.send_response().is_none());

    let lines: Vec<String> =
        subscriber.take_pending().into_iter().map(|l| String::from_utf8(l).unwrap()).collect();
    assert_eq!(
        lines,
        vec![
            "{\"service\":\"svc\",\"kind\":\"close\",\"level\":\"INFO\",\"msg\":\"\",\"time\":9,\"opened\":5,\"scope\":0,\"root\":0,\"parent\":null,\"span\":\"http_request\",\"request_id\":\"id-1\",\"method\":\"GET\",\"uri\":\"/\"}\n"
        ]
    );
}

fn running(subscriber: &mut zero2prod::subscriber::Subscriber, id: &str) -> RequestState {
    let mut state = RequestState::arrived(head("POST", "/subscriptions"));
    state.assign_id(CorrelationId::parse(id).unwrap());
    state.open_scope(subscriber, 1);
    state.start_handler();
    state
}

#[test]
fn a_failed_handler_leaves_no_scope_open() {
    let mut subscriber =
        get_subscriber("svc".to_string(), "info".to_string(), Sink::output(8), None);
    let mut state = running(&mut subscriber, "id-1");
    let data = FormData::parse(b"name=n&email=e%40f.g").unwrap();
    let pending = subscribe_with(&mut subscriber, state.active(), data, "sub-1".to_string(), 2);
    assert_eq!(pending.insert.id, "sub-1");
    assert_eq!(pending.insert.name, "n");
    assert_eq!(pending.insert.email, "e@f.g");
    assert_eq!(pending.insert.subscribed_at, 2);
    assert_eq!(pending.outer, state.active());
    assert_eq!(subscriber.open_scopes(), 2);

    assert!(state.finish_handler(&mut subscriber, HandlerOutcome::Failed, 3));
    assert_eq!(subscriber.open_scopes(), 0);
    assert_eq!(state.send_response().unwrap().status, 500);

    let lines: Vec<String> =
        subscriber.take_pending().into_iter().map(|l| String::from_utf8(l).unwrap()).collect();
    assert_eq!(lines.len(), 2);
    assert!(lines[0].contains("\"span\":\"persist subscriber\""));
    assert!(lines[0].contains("\"request_id\":\"id-1\""));
    assert!(lines[0].ends_with(",\"email\":\"e@f.g\",\"name\":\"n\"}\n"));
    assert!(lines[1].contains("\"span\":\"http_request\""));
}

#[test]
fn an_aborted_request_is_cleaned_up_and_not_answered() {
    let mut subscriber =
        get_subscriber("svc".to_string(), "info".to_string(), Sink::output(8), None);
    let mut state = running(&mut subscriber, "id-1");
    assert!(state.finish_handler(&mut subscriber, HandlerOutcome::Aborted, 3));
    assert_eq!(subscriber.open_scopes(), 0);
    assert_eq!(state.status(), None);
    assert!(state.send_response().is_none());
    assert_eq!(state.stage(), Stage::ResponseSent);
    assert_eq!(subscriber.pending_lines(), 1);
}

#[test]
fn a_failed_write_is_reported_before_its_scope_closes() {
    let mut subscriber =
        get_subscriber("svc".to_string(), "info".to_string(), Sink::output(8), None);
    let state = running(&mut subscriber, "id-1");
    let data = FormData::parse(b"name=n&email=e%40f.g").unwrap();
    let pending = subscribe_with(&mut subscriber, state.active(), data, "sub-1".to_string(), 2);
    let status =
        subscribe_completed_at(&mut subscriber, &pending, Err("pool timed out".to_string()), 4);
    assert_eq!(status, 500);
    assert_eq!(subscriber.open_scopes(), 1);

    let lines: Vec<String> =
        subscriber.take_pending().into_iter().map(|l| String::from_utf8(l).unwrap()).collect();
    assert_eq!(
        lines,
        vec![
            "{\"service\":\"svc\",\"kind\":\"event\",\"level\":\"ERROR\",\"msg\":\"Error in subscribing query: pool timed out\",\"time\":4,\"opened\":2,\"scope\":1,\"root\":0,\"parent\":0,\"span\":\"persist subscriber\",\"request_id\":\"id-1\",\"method\":\"POST\",\"uri\":\"/subscriptions\",\"email\":\"e@f.g\",\"name\":\"n\"}\n",
            "{\"service\":\"svc\",\"kind\":\"close\",\"level\":\"INFO\",\"msg\":\"\",\"time\":4,\"opened\":2,\"scope\":1,\"root\":0,\"parent\":0,\"span\":\"persist subscriber\",\"request_id\":\"id-1\",\"method\":\"POST\",\"uri\":\"/subscriptions\",\"email\":\"e@f.g\",\"name\":\"n\"}\n",
        ]
    );
}

#[test]
fn a_write_that_went_through_gives_success() {
    let mut subscriber =
        get_subscriber("svc".to_string(), "info".to_string(), Sink::output(8), None);
    let state = running(&mut subscriber, "id-1");
    let data = FormData::parse(b"name=n&email=e%40f.g").unwrap();
    let pending = subscribe_with(&mut subscriber, state.active(), data, "sub-1".to_string(), 2);
    assert_eq!(subscribe_completed_at(&mut subscriber, &pending, Ok(()), 4), 200);
    assert_eq!(subscriber.open_scopes(), 1);
    assert_eq!(subscriber.pending_lines(), 1);
}

#[test]
fn a_failing_sink_does_not_change_the_status() {
    let answer = |sink: Sink, fail: bool| {
        let mut subscriber = get_subscriber("svc".to_string(), "info".to_string(), sink, None);
        if fail {
            subscriber.flush_failed();
        }
        let mut state = running(&mut subscriber, "id-1");
        if fail {
            subscriber.flush_failed();
        }
        let data = FormData::parse(b"name=n&email=e%40f.g").unwrap();
        let pending =
            subscribe_with(&mut subscriber, state.active(), data, "sub-1".to_string(), 2);
        let status = subscribe_completed_at(&mut subscriber, &pending, Ok(()), 3);
        state.finish_handler(&mut subscriber, HandlerOutcome::Completed { status }, 4);
        if fail {
            subscriber.flush_failed();
            assert_eq!(subscriber.flush_failures(), 3);
        }
        (state.send_response().unwrap(), subscriber.open_scopes())
    };
    let healthy = answer(Sink::output(64), false);
    assert_eq!(healthy.0.status, 200);
    assert_eq!(answer(Sink::output(64), true), healthy);
    assert_eq!(answer(Sink::output(0), true), healthy);
    assert_eq!(answer(Sink::output(1), true), healthy);
    assert_eq!(answer(Sink::discard(), true), healthy);
}
