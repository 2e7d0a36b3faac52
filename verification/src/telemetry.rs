//! Setting the pipeline up: the subscriber, the request-id maker, the span of
//! a request, and the layer that wraps every request.

use crate::clock::now_millis;
use crate::correlation::{is_token, is_uuid_v4_text, CorrelationId, REQUEST_ID_HEADER};
use crate::pipeline::{answered, status_of, taken_up, HandlerOutcome, RequestState, Response,
    ResponseView, Stage};
use crate::record::Level;
use crate::scope::{fields_view, Field, FieldValue, FieldValueView, FieldView};
use crate::sink::Sink;
use crate::subscriber::{Subscriber, SubscriberView};
use crate::registry::RegistryView;
use tracing::level_filters::LevelFilter;
use vstd::prelude::*;

verus! {

/// What `tracing`'s `LevelFilter` makes of a text: `None` where the text is
/// no level filter, else the filter, which is `None` for "off".
pub uninterp spec fn parsed_filter(text: Seq<char>) -> Option<Option<Level>>;

/// Reads a level filter the way `tracing` does.
///
/// Calls `LevelFilter::from_str` of `tracing` and tells the six filters
/// apart. Trusted: the result depends on the text alone. Which texts stand
/// for which filter is `tracing`'s business and is not stated here.
#[verifier::external_body]
fn parse_filter(text: &str) -> (parsed: Option<Option<Level>>)
    ensures
        parsed == parsed_filter(text@),
{
    match text.parse::<LevelFilter>() {
        Ok(filter) => Some(match filter.into_level() {
            None => None,
            Some(tracing::Level::ERROR) => Some(Level::Error),
            Some(tracing::Level::WARN) => Some(Level::Warn),
            Some(tracing::Level::INFO) => Some(Level::Info),
            Some(tracing::Level::DEBUG) => Some(Level::Debug),
            Some(_) => Some(Level::Trace),
        }),
        Err(_) => None,
    }
}

/// The filter that a subscriber gets: the one from the environment where
/// there is one, else the configured one, else errors only.
pub open spec fn chosen_filter(
    from_environment: Option<Option<Level>>,
    configured: Option<Option<Level>>,
) -> Option<Level> {
    match from_environment {
        Some(filter) => filter,
        None => match configured {
            Some(filter) => filter,
            None => Some(Level::Error),
        },
    }
}

/// Chooses between the filter from the environment and the configured one.
/// Each is `None` where its text was missing or was no level filter.
pub fn choose_filter(
    from_environment: Option<Option<Level>>,
    configured: Option<Option<Level>>,
) -> (filter: Option<Level>)
    ensures
        filter == chosen_filter(from_environment, configured),
{
    match from_environment {
        Some(filter) => filter,
        None => match configured {
            Some(filter) => filter,
            None => Some(Level::Error),
        },
    }
}

/// What the environment's text, if any, parses to.
pub open spec fn parsed_environment(text: Option<Seq<char>>) -> Option<Option<Level>> {
    match text {
        Some(text) => parsed_filter(text),
        None => None,
    }
}

/// Composes a subscriber: events and summaries that pass the filter are
/// rendered under the service's name and written to the sink.
///
/// `environment` is the filter text found in the process environment, if
/// any; it takes precedence over `env_filter`. A text that `tracing` does
/// not read as a level filter counts as missing; with both missing, only
/// errors pass.
pub fn get_subscriber(
    name: String,
    env_filter: String,
    sink: Sink,
    environment: Option<String>,
) -> (subscriber: Subscriber)
    ensures
        subscriber@ == (SubscriberView {
            name: name@,
            filter: chosen_filter(
                parsed_environment(
                    match environment {
                        Some(text) => Some(text@),
                        None => None,
                    },
                ),
                parsed_filter(env_filter@),
            ),
            registry: RegistryView::empty(),
            sink: sink@,
            stray_reported: false,
        }),
{
    let from_environment = match &environment {
        Some(text) => parse_filter(text.as_str()),
        None => None,
    };
    let configured = parse_filter(env_filter.as_str());
    Subscriber::new(name, choose_filter(from_environment, configured), sink)
}

/// What a request shows of itself to the pipeline.
#[derive(Clone, Debug, PartialEq, Eq)]
pub struct RequestHead {
    pub method: String,
    pub uri: String,
    /// The request id, once one is assigned and where it reads as text.
    pub request_id: Option<String>,
}

/// The mathematical value of a [`RequestHead`].
pub struct RequestHeadView {
    pub method: Seq<char>,
    pub uri: Seq<char>,
    pub request_id: Option<Seq<char>>,
}

impl View for RequestHead {
    type V = RequestHeadView;

    open spec fn view(&self) -> RequestHeadView {
        RequestHeadView {
            method: self.method@,
            uri: self.uri@,
            request_id: match self.request_id {
                Some(id) => Some(id@),
                None => None,
            },
        }
    }
}

/// Makes the id of each request.
#[derive(Clone, Copy, Debug)]
pub struct MyMakeRequestId;

impl MyMakeRequestId {
    /// Mints the id of a request: always `Some`, always a fresh random
    /// UUID in its hyphenated form, whatever the request holds.
    pub fn make_request_id(&mut self, _request: &RequestHead) -> (id: Option<CorrelationId>)
        ensures
            id is Some,
            is_uuid_v4_text(id.unwrap()@),
            is_token(id.unwrap()@),
    {
        Some(CorrelationId::generate())
    }
}

/// A span that has not been opened yet: its name and its first fields.
#[derive(Clone, Debug, PartialEq, Eq)]
pub struct Span {
    pub name: String,
    pub fields: Vec<Field>,
}

/// The request id as the span shows it: empty where the request has none.
pub open spec fn shown_request_id(request: RequestHeadView) -> Seq<char> {
    match request.request_id {
        Some(id) => id,
        None => Seq::empty(),
    }
}

/// The first fields of a request's span: request id, method and URI.
pub open spec fn request_span_fields(request: RequestHeadView) -> Seq<FieldView> {
    seq![
        FieldView { key: "request_id"@, value: FieldValueView::Text(shown_request_id(request)) },
        FieldView { key: "method"@, value: FieldValueView::Text(request.method) },
        FieldView { key: "uri"@, value: FieldValueView::Text(request.uri) },
    ]
}

/// The name of a request's span.
pub open spec fn request_span_name() -> Seq<char> {
    "http_request"@
}

/// Makes the span of a request: it is named `http_request` and carries the
/// request id, the method and the URI. A request without a readable id
/// shows an empty one.
pub fn make_span_with_request_id(request: &RequestHead) -> (span: Span)
    ensures
        span.name@ == request_span_name(),
        fields_view(span.fields@) == request_span_fields(request@),
{
    let request_id = match &request.request_id {
        Some(id) => id.clone(),
        None => String::new(),
    };
    let mut fields: Vec<Field> = Vec::new();
    fields.push(Field { key: String::from_str("request_id"), value: FieldValue::Text(request_id) });
    fields.push(
        Field { key: String::from_str("method"), value: FieldValue::Text(request.method.clone()) },
    );
    fields.push(Field { key: String::from_str("uri"), value: FieldValue::Text(request.uri.clone()) });
    proof {
        assert(fields_view(fields@) =~= request_span_fields(request@));
    }
    Span { name: String::from_str("http_request"), fields }
}

/// The layer around every request: it assigns the correlation id, opens the
/// request's scope, lets the handler run, closes the scope and echoes the id
/// on the response, in that order.
#[derive(Clone, Copy, Debug)]
pub struct MiddlewareLayer {
    /// The header under which the correlation id is echoed.
    pub header: &'static str,
    pub make_request_id: MyMakeRequestId,
}

/// Creates the layer that wraps the application's handlers.
pub fn create_subscriber_middleware_layer() -> (layer: MiddlewareLayer)
    ensures
        layer.header@ == REQUEST_ID_HEADER@,
{
    MiddlewareLayer { header: REQUEST_ID_HEADER, make_request_id: MyMakeRequestId }
}

impl MiddlewareLayer {
    /// Takes a request through to its handler: mints its correlation id,
    /// opens its scope at the time the clock shows, and hands it to the
    /// handler. What comes back is the state that [`RequestState`] reaches
    /// by `assign_id`, `open_scope` and `start_handler` with the id minted
    /// and the time read.
    pub fn on_request(&mut self, subscriber: &mut Subscriber, request: RequestHead) -> (state:
        RequestState)
        ensures
            old(subscriber)@.registry.wf(),
            state@.stage == Stage::HandlerRunning,
            state@.id is Some,
            is_uuid_v4_text(state@.id.unwrap()),
            exists|now: i64|
                (state@, final(subscriber)@) == #[trigger] taken_up(
                    request@,
                    state@.id.unwrap(),
                    old(subscriber)@,
                    now,
                ),
    {
        let mut state = RequestState::arrived(request);
        let mut maker = self.make_request_id;
        let id = maker.make_request_id(state.head());
        match id {
            Some(id) => {
                state.assign_id(id);
            },
            None => {},
        }
        let now = now_millis();
        state.open_scope(subscriber, now);
        state.start_handler();
        proof {
            assert((state@, subscriber@) == taken_up(
                request@,
                state@.id.unwrap(),
                old(subscriber)@,
                now,
            ));
        }
        state
    }

    /// Takes a request from its handler to its response: closes whatever the
    /// request left open, at the time the clock shows, and makes the
    /// response, which echoes the correlation id. There is no response for
    /// a request that was aborted.
    pub fn on_response(
        &self,
        subscriber: &mut Subscriber,
        state: &mut RequestState,
        outcome: HandlerOutcome,
    ) -> (response: Option<Response>)
        ensures
            old(subscriber)@.wf(),
            exists|now: i64|
                (final(state)@, final(subscriber)@) == #[trigger] answered(
                    old(state)@,
                    old(subscriber)@,
                    outcome,
                    now,
                ),
            old(state)@.stage == Stage::HandlerRunning ==> match response {
                Some(r) => status_of(outcome) is Some && r@ == (ResponseView {
                    status: status_of(outcome).unwrap(),
                    headers: seq![(REQUEST_ID_HEADER@, old(state)@.id.unwrap())],
                    body: Seq::empty(),
                }),
                None => status_of(outcome) is None,
            },
            old(state)@.stage != Stage::HandlerRunning && old(state)@.stage != Stage::ScopeClosed
                ==> response is None,
    {
        proof {
            use_type_invariant(&*state);
        }
        let now = now_millis();
        state.finish_handler(subscriber, outcome, now);
        let response = state.send_response();
        proof {
            assert((state@, subscriber@) == answered(old(state)@, old(subscriber)@, outcome, now));
        }
        response
    }
}

} // verus!
