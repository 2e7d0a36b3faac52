use zero2prod::correlation::REQUEST_ID_HEADER;
use zero2prod::pipeline::{HandlerOutcome, RequestState, Response, Stage};
use zero2prod::routes::health_check::health_check;
use zero2prod::routes::subscriptions::{
    rejection_status, subscribe, subscribe_completed, FormData, FormError, FormField,
    NewSubscriber,
};
use zero2prod::sink::Sink;
use zero2prod::subscriber::Subscriber;
use zero2prod::telemetry::{create_subscriber_middleware_layer, get_subscriber, RequestHead};

struct TestApp {
    address: String,
    subscriber: Subscriber,
    store: Vec<NewSubscriber>,
}

fn run_app() -> TestApp {
    TestApp {
        address: "http://localhost:8000".to_string(),
        subscriber: get_subscriber("zero2prod".into(), "debug".into(), Sink::discard(), None),
        store: Vec::new(),
    }
}

fn get(app: &mut TestApp, uri: String) -> Response {
    let mut layer = create_subscriber_middleware_layer();
    let request = RequestHead { method: "GET".to_string(), uri, request_id: None };
    let mut state = layer.on_request(&mut app.subscriber, request);
    let status = health_check();
    layer
        .on_response(&mut app.subscriber, &mut state, HandlerOutcome::Completed { status })
        .expect("Failed to execute request.")
}

fn post_form(app: &mut TestApp, uri: String, body: &str, store_is_up: bool) -> Response {
    let mut layer = create_subscriber_middleware_layer();
    let request = RequestHead { method: "POST".to_string(), uri, request_id: None };
    let mut state = layer.on_request(&mut app.subscriber, request);
    let status = handle_subscription(app, &state, body, store_is_up);
    layer
        .on_response(&mut app.subscriber, &mut state, HandlerOutcome::Completed { status })
        .expect("Failed to execute request.")
}

fn handle_subscription(
    app: &mut TestApp,
    state: &RequestState,
    body: &str,
    store_is_up: bool,
) -> u16 {
    match FormData::parse(body.as_bytes()) {
        Err(error) => rejection_status(error),
        Ok(data) => {
            let pending = subscribe(&mut app.subscriber, state.active(), data);
            let result = if store_is_up {
                app.store.push(pending.insert.clone());
                Ok(())
            } else {
                Err("connection refused".to_string())
            };
            subscribe_completed(&mut app.subscriber, &pending, result)
        }
    }
}

#[test]
fn tests_test_health_check() {
    let mut app = run_app();

    let uri = format!("{}/health_check", app.address);
    let response = get(&mut app, uri);

    println!("{:?}", response);

    assert!((200..300).contains(&response.status));
    assert_eq!(Some(0), Some(response.body.len()));
}

#[test]
fn valid_user_subscribe_returns_200() {
    let mut app = run_app();

    let body = "name=lupicipro&email=asdlolazoasd%40gmail.com";
    let uri = format!("{}/subscriptions", app.address);
    let response = post_form(&mut app, uri, body, true);

    assert_eq!(200, response.status, "unsuccessfull request, address: {}", app.address);

    assert_eq!(app.store.len(), 1);
    let saved = &app.store[0];

    assert_eq!(saved.email, "asdlolazoasd@gmail.com");
    assert_eq!(saved.name, "lupicipro");
}

#[test]
fn invalid_user_subscribe_returns_400() {
    let mut app = run_app();

    let test_cases = vec![
        ("name=lupicipro", "no email"),
        ("email=asdlolazoasd%40gmail.com", "no name"),
        ("", "missing name and email"),
    ];

    for (invalid_body, error_message) in test_cases {
        let uri = format!("{}/subscriptions", app.address);
        let response = post_form(&mut app, uri, invalid_body, true);

        assert_eq!(
            422, response.status,
            "The API did not fail with 400 Bad Request when the payload was: {}, address: {}",
            error_message, app.address
        );
    }
    assert!(app.store.is_empty());
}

#[test]
fn subscribe_stores_exactly_one_record_with_decoded_fields() {
    let mut app = run_app();

    let uri = format!("{}/subscriptions", app.address);
    let response = post_form(&mut app, uri, "name=username&email=random.user%40gmail.com", true);

    assert_eq!(response.status, 200);
    assert!(response.body.is_empty());
    assert_eq!(app.store.len(), 1);
    assert_eq!(app.store[0].name, "username");
    assert_eq!(app.store[0].email, "random.user@gmail.com");
    assert_eq!(app.store[0].id.len(), 36);
    assert!(app.store[0].subscribed_at > 1_500_000_000_000);
    assert_eq!(app.subscriber.open_scopes(), 0);
}

#[test]
fn subscribe_without_email_is_rejected_and_stores_nothing() {
    let mut app = run_app();

    let uri = format!("{}/subscriptions", app.address);
    let response = post_form(&mut app, uri, "name=lupicipro", true);

    assert_eq!(response.status, 422);
    assert!(app.store.is_empty());
    assert_eq!(app.subscriber.open_scopes(), 0);
}

#[test]
fn subscribe_with_empty_body_is_rejected_and_stores_nothing() {
    let mut app = run_app();

    let uri = format!("{}/subscriptions", app.address);
    let response = post_form(&mut app, uri, "", true);

    assert_eq!(response.status, 422);
    assert!(app.store.is_empty());
}

#[test]
fn health_check_stores_nothing() {
    let mut app = run_app();

    let uri = format!("{}/health_check", app.address);
    let response = get(&mut app, uri);

    assert_eq!(response.status, 200);
    assert!(response.body.is_empty());
    assert!(app.store.is_empty());
}

#[test]
fn failing_store_gives_a_server_error() {
    let mut app = run_app();

    let uri = format!("{}/subscriptions", app.address);
    let response = post_form(&mut app, uri, "name=a&email=b%40c.d", false);

    assert_eq!(response.status, 500);
    assert!(app.store.is_empty());
    assert_eq!(app.subscriber.open_scopes(), 0);
}

#[test]
fn every_response_echoes_one_correlation_id() {
    let mut app = run_app();

    let uri = format!("{}/health_check", app.address);
    let response = get(&mut app, uri);

    let echoed: Vec<&(String, String)> =
        response.headers.iter().filter(|h| h.0 == REQUEST_ID_HEADER).collect();
    assert_eq!(REQUEST_ID_HEADER, "x-request-id");
    assert_eq!(echoed.len(), 1);
    assert_eq!(echoed[0].1.len(), 36);
    assert_eq!(response.headers.len(), 1);
}

#[test]
fn form_rules() {
    let read = |body: &str| FormData::parse(body.as_bytes());

    let data = read("name=le+guin&email=ursula_le_guin%40gmail.com").unwrap();
    assert_eq!(data.name(), "le guin");
    assert_eq!(data.email(), "ursula_le_guin@gmail.com");

    let data = read("email=a%40b.c&other=x&name=n&&").unwrap();
    assert_eq!(data.name(), "n");
    assert_eq!(data.email(), "a@b.c");

    assert_eq!(read("email=a%40b.c").unwrap_err(), FormError::Missing(FormField::Name));
    assert_eq!(read("name=n").unwrap_err(), FormError::Missing(FormField::Email));
    assert_eq!(read("").unwrap_err(), FormError::Missing(FormField::Name));
    assert_eq!(read("name=&email=a%40b.c").unwrap_err(), FormError::Empty(FormField::Name));
    assert_eq!(read("name=n&email=").unwrap_err(), FormError::Empty(FormField::Email));
    assert_eq!(read("name=n&email").unwrap_err(), FormError::Empty(FormField::Email));
    assert_eq!(
        read("name=n&name=m&email=a%40b.c").unwrap_err(),
        FormError::Duplicate(FormField::Name)
    );
    assert_eq!(
        read("name=n&email=a%40b.c&email=d%40e.f").unwrap_err(),
        FormError::Duplicate(FormField::Email)
    );
    assert_eq!(rejection_status(FormError::Missing(FormField::Email)), 422);
}

#[test]
fn form_from_pairs() {
    let pairs = vec![
        ("email".to_string(), "a@b.c".to_string()),
        ("name".to_string(), "n".to_string()),
    ];
    let data = FormData::from_pairs(&pairs).unwrap();
    assert_eq!(data.name(), "n");
    assert_eq!(data.email(), "a@b.c");

    let pairs = vec![("Name".to_string(), "n".to_string())];
    assert_eq!(
        FormData::from_pairs(&pairs).unwrap_err(),
        FormError::Missing(FormField::Name)
    );
}

#[test]
fn stages_follow_each_other() {
    let mut app = run_app();
    let mut layer = create_subscriber_middleware_layer();
    let request =
        RequestHead { method: "GET".to_string(), uri: "/health_check".to_string(), request_id: None };
    let mut state = layer.on_request(&mut app.subscriber, request);
    assert_eq!(state.stage(), Stage::HandlerRunning);
    assert!(state.active().is_some());
    assert_eq!(app.subscriber.open_scopes(), 1);
    let response =
        layer.on_response(&mut app.subscriber, &mut state, HandlerOutcome::Completed { status: 200 });
    assert!(response.is_some());
    assert_eq!(state.stage(), Stage::ResponseSent);
    assert!(state.active().is_none());
    assert_eq!(app.subscriber.open_scopes(), 0);
}
