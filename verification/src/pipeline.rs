//! The path of one request through the pipeline.
//!
//! A request passes six stages in a fixed order: it arrives, gets its
//! correlation id, gets its scope, is handled, loses its scope again and is
//! answered. Each transition is a function of its own; called at another
//! stage than its own it changes nothing. Closing the scope does not depend
//! on how the handler ended.

use crate::correlation::{is_token, CorrelationId, REQUEST_ID_HEADER};
use crate::registry::{lemma_close_tree_wf, lemma_open_wf, lemma_position, lemma_selection,
    outside_tree, tree_records};
use crate::scope::{has_key, lookup, upsert_all, FieldValueView, FieldView};
use crate::sink::SinkView;
use crate::spans::{handle_id, ScopeHandle};
use crate::subscriber::{lemma_emit_all, Subscriber, SubscriberView};
use crate::telemetry::{make_span_with_request_id, request_span_fields, request_span_name,
    RequestHead, RequestHeadView};
use vstd::prelude::*;

verus! {

/// The status of a response to a request that was handled.
pub const OK: u16 = 200;

/// The status of a response to a request whose form was not accepted.
pub const UNPROCESSABLE_ENTITY: u16 = 422;

/// The status of a response to a request whose handler failed.
pub const INTERNAL_SERVER_ERROR: u16 = 500;

/// Where a request stands.
#[derive(Clone, Copy, Debug, PartialEq, Eq, Structural)]
pub enum Stage {
    Arrived,
    IdAssigned,
    ScopeOpen,
    HandlerRunning,
    ScopeClosed,
    ResponseSent,
}

/// The stage that follows a stage; the last stage follows itself.
pub open spec fn successor(stage: Stage) -> Stage {
    match stage {
        Stage::Arrived => Stage::IdAssigned,
        Stage::IdAssigned => Stage::ScopeOpen,
        Stage::ScopeOpen => Stage::HandlerRunning,
        Stage::HandlerRunning => Stage::ScopeClosed,
        Stage::ScopeClosed => Stage::ResponseSent,
        Stage::ResponseSent => Stage::ResponseSent,
    }
}

/// How the handler of a request ended.
#[derive(Clone, Copy, Debug, PartialEq, Eq, Structural)]
pub enum HandlerOutcome {
    /// The handler returned a status.
    Completed { status: u16 },
    /// The handler raised an error.
    Failed,
    /// The request was given up before the handler returned.
    Aborted,
}

/// The status with which a request is answered; none where it was aborted.
pub open spec fn status_of(outcome: HandlerOutcome) -> Option<u16> {
    match outcome {
        HandlerOutcome::Completed { status } => Some(status),
        HandlerOutcome::Failed => Some(INTERNAL_SERVER_ERROR),
        HandlerOutcome::Aborted => None,
    }
}

/// What is sent back.
#[derive(Clone, Debug, PartialEq, Eq)]
pub struct Response {
    pub status: u16,
    pub headers: Vec<(String, String)>,
    pub body: Vec<u8>,
}

/// The mathematical value of a [`Response`].
pub struct ResponseView {
    pub status: u16,
    pub headers: Seq<(Seq<char>, Seq<char>)>,
    pub body: Seq<u8>,
}

/// The headers of a list, each by its view, in the list's order.
pub open spec fn headers_view(headers: Seq<(String, String)>) -> Seq<(Seq<char>, Seq<char>)> {
    headers.map_values(|h: (String, String)| (h.0@, h.1@))
}

impl View for Response {
    type V = ResponseView;

    open spec fn view(&self) -> ResponseView {
        ResponseView { status: self.status, headers: headers_view(self.headers@), body: self.body@ }
    }
}

/// The mathematical value of a [`RequestState`].
pub struct RequestView {
    pub stage: Stage,
    pub head: RequestHeadView,
    pub id: Option<Seq<char>>,
    pub root: Option<u64>,
    pub status: Option<u16>,
}

impl RequestView {
    /// What holds of a request at every stage: once it has left the first
    /// stage it has its correlation id, which is a token and which its head
    /// shows; it has no scope before the third stage and no status before
    /// the fifth.
    pub open spec fn wf(self) -> bool {
        &&& self.stage != Stage::Arrived ==> self.id is Some && is_token(self.id.unwrap())
            && self.head.request_id == self.id
        &&& self.stage == Stage::Arrived || self.stage == Stage::IdAssigned ==> self.root is None
        &&& self.status is Some ==> self.stage == Stage::ScopeClosed || self.stage
            == Stage::ResponseSent
    }

    /// A request that has just arrived. A request id that it brought along
    /// is not kept.
    pub open spec fn arrived(head: RequestHeadView) -> RequestView {
        RequestView {
            stage: Stage::Arrived,
            head: RequestHeadView { method: head.method, uri: head.uri, request_id: None },
            id: None,
            root: None,
            status: None,
        }
    }

    /// The request after it is given its correlation id.
    pub open spec fn assign_id(self, id: Seq<char>) -> RequestView {
        if self.stage == Stage::Arrived {
            RequestView {
                stage: Stage::IdAssigned,
                head: RequestHeadView { request_id: Some(id), ..self.head },
                id: Some(id),
                ..self
            }
        } else {
            self
        }
    }

    /// The request and the subscriber after the request's scope is opened:
    /// a root scope named after the request, which carries the request id,
    /// the method and the URI. Where the registry cannot open it, the
    /// request goes on without a scope.
    pub open spec fn open_scope(self, subscriber: SubscriberView, now: i64) -> (
        RequestView,
        SubscriberView,
    ) {
        if self.stage == Stage::IdAssigned {
            (
                RequestView {
                    stage: Stage::ScopeOpen,
                    root: if subscriber.registry.open_error(None) is None {
                        Some(subscriber.registry.next_id)
                    } else {
                        None
                    },
                    ..self
                },
                subscriber.open(request_span_name(), request_span_fields(self.head), None, now),
            )
        } else {
            (self, subscriber)
        }
    }

    /// The request after it is handed to its handler.
    pub open spec fn start_handler(self) -> RequestView {
        if self.stage == Stage::ScopeOpen {
            RequestView { stage: Stage::HandlerRunning, ..self }
        } else {
            self
        }
    }

    /// The request and the subscriber after the handler has ended, however
    /// it ended: whatever the request had open is closed, and the status of
    /// the response is settled.
    pub open spec fn finish_handler(
        self,
        subscriber: SubscriberView,
        outcome: HandlerOutcome,
        now: i64,
    ) -> (RequestView, SubscriberView) {
        if self.stage == Stage::HandlerRunning {
            (
                RequestView { stage: Stage::ScopeClosed, status: status_of(outcome), ..self },
                match self.root {
                    Some(root) => subscriber.close_request(root, now),
                    None => subscriber,
                },
            )
        } else {
            (self, subscriber)
        }
    }

    /// The response of a request whose scope is closed: the settled status,
    /// the correlation id under its header and nothing else, and no body.
    /// There is none at other stages, nor for a request that was aborted.
    pub open spec fn response(self) -> Option<ResponseView> {
        if self.stage == Stage::ScopeClosed && self.status is Some && self.id is Some {
            Some(
                ResponseView {
                    status: self.status.unwrap(),
                    headers: seq![(REQUEST_ID_HEADER@, self.id.unwrap())],
                    body: Seq::empty(),
                },
            )
        } else {
            None
        }
    }

    /// The request after its response is handed out.
    pub open spec fn send_response(self) -> RequestView {
        if self.stage == Stage::ScopeClosed {
            RequestView { stage: Stage::ResponseSent, ..self }
        } else {
            self
        }
    }
}

/// The request and the subscriber when a request that has arrived with
/// `head` is taken through to its handler: it is given `id`, its scope is
/// opened at `now`, and it is handed to the handler.
pub open spec fn taken_up(
    head: RequestHeadView,
    id: Seq<char>,
    subscriber: SubscriberView,
    now: i64,
) -> (RequestView, SubscriberView) {
    let opened = RequestView::arrived(head).assign_id(id).open_scope(subscriber, now);
    (opened.0.start_handler(), opened.1)
}

/// The request and the subscriber when a request is taken from its handler
/// to its response: its scopes are closed at `now` and the response is
/// handed out.
pub open spec fn answered(
    request: RequestView,
    subscriber: SubscriberView,
    outcome: HandlerOutcome,
    now: i64,
) -> (RequestView, SubscriberView) {
    let finished = request.finish_handler(subscriber, outcome, now);
    (finished.0.send_response(), finished.1)
}

/// How often a header name occurs in a list of headers.
pub open spec fn header_count(headers: Seq<(Seq<char>, Seq<char>)>, name: Seq<char>) -> nat
    decreases headers.len(),
{
    if headers.len() == 0 {
        0
    } else {
        header_count(headers.drop_last(), name) + if headers.last().0 == name {
            1nat
        } else {
            0nat
        }
    }
}

/// The stages come in their order: a transition leaves the stage as it is
/// or moves the request to the next one, and it keeps what holds of a
/// request at every stage.
pub proof fn lemma_stages_in_order(
    request: RequestView,
    subscriber: SubscriberView,
    id: Seq<char>,
    outcome: HandlerOutcome,
    now: i64,
)
    requires
        request.wf(),
        is_token(id),
    ensures
        request.assign_id(id).wf(),
        request.open_scope(subscriber, now).0.wf(),
        request.start_handler().wf(),
        request.finish_handler(subscriber, outcome, now).0.wf(),
        request.send_response().wf(),
        request.assign_id(id).stage == (if request.stage == Stage::Arrived {
            successor(request.stage)
        } else {
            request.stage
        }),
        request.open_scope(subscriber, now).0.stage == (if request.stage == Stage::IdAssigned {
            successor(request.stage)
        } else {
            request.stage
        }),
        request.start_handler().stage == (if request.stage == Stage::ScopeOpen {
            successor(request.stage)
        } else {
            request.stage
        }),
        request.finish_handler(subscriber, outcome, now).0.stage == (if request.stage
            == Stage::HandlerRunning {
            successor(request.stage)
        } else {
            request.stage
        }),
        request.send_response().stage == (if request.stage == Stage::ScopeClosed {
            successor(request.stage)
        } else {
            request.stage
        }),
{
}

/// Every response carries the correlation id exactly once: a request that
/// was not aborted has a response when its scope is closed, and of that
/// response's headers exactly one is the correlation header, whose value is
/// the id that the request was given on arrival.
pub proof fn lemma_one_correlation_header(request: RequestView)
    requires
        request.wf(),
        request.stage == Stage::ScopeClosed,
    ensures
        request.response() is Some <==> request.status is Some,
        request.response() is Some ==> {
            let response = request.response().unwrap();
            &&& header_count(response.headers, REQUEST_ID_HEADER@) == 1
            &&& response.headers[0] == (REQUEST_ID_HEADER@, request.id.unwrap())
            &&& response.status == request.status.unwrap()
        },
{
    if request.response() is Some {
        let headers = request.response().unwrap().headers;
        assert(headers.drop_last() =~= Seq::<(Seq<char>, Seq<char>)>::empty());
        reveal_with_fuel(header_count, 2);
    }
}

/// No scope outlives its request: after the handler has ended, with a
/// status, with an error or aborted, no scope of the request's tree is
/// open, whatever the handler had opened and left open; and where the
/// registry held no other request's scopes, it is empty.
pub proof fn lemma_request_closes_its_scopes(
    request: RequestView,
    subscriber: SubscriberView,
    outcome: HandlerOutcome,
    now: i64,
)
    requires
        request.wf(),
        subscriber.wf(),
        request.stage == Stage::HandlerRunning,
        request.root is Some,
    ensures
        request.finish_handler(subscriber, outcome, now).1.wf(),
        !request.finish_handler(subscriber, outcome, now).1.registry.has_tree(request.root.unwrap()),
        (forall|i: int|
            0 <= i < subscriber.registry.scopes.len() ==> (
            #[trigger] subscriber.registry.scopes[i]).root == request.root.unwrap())
            ==> request.finish_handler(subscriber, outcome, now).1.registry.scopes.len() == 0,
{
    let root = request.root.unwrap();
    let closed = SubscriberView { registry: subscriber.registry.close_tree(root), ..subscriber };
    lemma_close_tree_wf(subscriber.registry, root);
    lemma_emit_all(closed, tree_records(subscriber.registry.scopes, root, now));
    let after = closed.registry;
    if after.scopes.len() > 0 {
        assert(after.scopes[0].root != root) by {
            if after.scopes[0].root == root {
                assert(after.has_tree(root));
            }
        }
        lemma_selection(subscriber.registry.scopes, outside_tree(root));
        assert(subscriber.registry.scopes.contains(after.scopes[0]));
    }
}

/// The scope of a request shows the request's correlation id: when a
/// request is taken up and the registry can open its scope, the scope is
/// open, is a root, and reads the id under `request_id`. Scopes opened below
/// it start with that field.
pub proof fn lemma_request_scope_shows_id(
    head: RequestHeadView,
    id: Seq<char>,
    subscriber: SubscriberView,
    now: i64,
)
    requires
        subscriber.registry.wf(),
        subscriber.registry.open_error(None) is None,
    ensures
        ({
            let taken = taken_up(head, id, subscriber, now);
            let root = subscriber.registry.next_id;
            &&& taken.0.root == Some(root)
            &&& taken.1.registry.wf()
            &&& taken.1.registry.contains(root)
            &&& taken.1.registry.scope(root).root == root
            &&& lookup(taken.1.registry.scope(root).fields, "request_id"@) == Some(
                FieldValueView::Text(id),
            )
        }),
{
    let reg = subscriber.registry;
    let assigned = RequestView::arrived(head).assign_id(id);
    let fields = request_span_fields(assigned.head);
    let after = reg.open(request_span_name(), fields, None, now);
    let scope = reg.opened(request_span_name(), fields, None, now);
    lemma_open_wf(reg, request_span_name(), fields, None, now);
    let n = reg.scopes.len() as int;
    assert(after.scopes[n] == scope);
    lemma_position(after, n);
    reveal_strlit("request_id");
    reveal_strlit("method");
    reveal_strlit("uri");
    let empty = Seq::<FieldView>::empty();
    let one = fields.take(1);
    let two = fields.take(2);
    assert(fields.drop_last() =~= two);
    assert(two.drop_last() =~= one);
    assert(one.drop_last() =~= empty);
    reveal_with_fuel(upsert_all, 4);
    let w1 = upsert_all(empty, one);
    assert(!has_key(empty, fields[0].key));
    assert(w1 =~= seq![fields[0]]);
    assert(!has_key(w1, fields[1].key)) by {
        if has_key(w1, fields[1].key) {
            let i = choose|i: int| 0 <= i < w1.len() && (#[trigger] w1[i]).key == fields[1].key;
            assert("request_id"@.len() != "method"@.len());
        }
    }
    let w2 = upsert_all(empty, two);
    assert(w2 =~= seq![fields[0], fields[1]]);
    assert(!has_key(w2, fields[2].key)) by {
        if has_key(w2, fields[2].key) {
            let i = choose|i: int| 0 <= i < w2.len() && (#[trigger] w2[i]).key == fields[2].key;
            assert("request_id"@.len() != "uri"@.len());
            assert("method"@.len() != "uri"@.len());
        }
    }
    let w3 = upsert_all(empty, fields);
    assert(w3 =~= seq![fields[0], fields[1], fields[2]]);
    assert(w3[0].key == "request_id"@);
    assert(has_key(w3, "request_id"@));
    let c = choose|i: int| 0 <= i < w3.len() && (#[trigger] w3[i]).key == "request_id"@;
    assert(c == 0) by {
        if c == 1 {
            assert("request_id"@.len() != "method"@.len());
        } else if c == 2 {
            assert("request_id"@.len() != "uri"@.len());
        }
    }
}

/// A failing sink does not reach the response: whatever state the sink is
/// in, and whatever was reported of it, the request takes the same stage,
/// the same status and the same response, and the registry ends up the
/// same.
pub proof fn lemma_sink_does_not_reach_response(
    request: RequestView,
    subscriber: SubscriberView,
    other_sink: SinkView,
    outcome: HandlerOutcome,
    now: i64,
)
    requires
        subscriber.sink.wf(),
        other_sink.wf(),
    ensures
        ({
            let other = SubscriberView { sink: other_sink, ..subscriber };
            let a = request.finish_handler(subscriber, outcome, now);
            let b = request.finish_handler(other, outcome, now);
            &&& a.0 == b.0
            &&& a.0.response() == b.0.response()
            &&& a.1.registry == b.1.registry
        }),
{
    if request.stage == Stage::HandlerRunning {
        if let Some(root) = request.root {
            let other = SubscriberView { sink: other_sink, ..subscriber };
            let records = tree_records(subscriber.registry.scopes, root, now);
            lemma_emit_all(
                SubscriberView { registry: subscriber.registry.close_tree(root), ..subscriber },
                records,
            );
            lemma_emit_all(
                SubscriberView { registry: other.registry.close_tree(root), ..other },
                records,
            );
        }
    }
}

/// One request on its way through the pipeline.
#[derive(Debug)]
pub struct RequestState {
    stage: Stage,
    head: RequestHead,
    id: Option<CorrelationId>,
    root: Option<ScopeHandle>,
    status: Option<u16>,
}

impl View for RequestState {
    type V = RequestView;

    closed spec fn view(&self) -> RequestView {
        RequestView {
            stage: self.stage,
            head: self.head@,
            id: match self.id {
                Some(id) => Some(id@),
                None => None,
            },
            root: handle_id(self.root),
            status: self.status,
        }
    }
}

impl RequestState {
    /// What holds of every value of the type.
    #[verifier::type_invariant]
    pub open spec fn well_formed(self) -> bool {
        self@.wf()
    }

    /// Takes up a request that has just arrived. A request id that the
    /// request brought along is not kept: the pipeline assigns its own.
    pub fn arrived(head: RequestHead) -> (state: RequestState)
        ensures
            state@ == RequestView::arrived(head@),
    {
        RequestState {
            stage: Stage::Arrived,
            head: RequestHead { method: head.method, uri: head.uri, request_id: None },
            id: None,
            root: None,
            status: None,
        }
    }

    /// Where the request stands.
    pub fn stage(&self) -> (stage: Stage)
        ensures
            self@.wf(),
            stage == self@.stage,
    {
        proof {
            use_type_invariant(self);
        }
        self.stage
    }

    /// What the request shows of itself.
    pub fn head(&self) -> (head: &RequestHead)
        ensures
            head@ == self@.head,
    {
        &self.head
    }

    /// The correlation id, once it is assigned.
    pub fn id(&self) -> (id: Option<&CorrelationId>)
        ensures
            match id {
                Some(id) => self@.id == Some(id@),
                None => self@.id is None,
            },
    {
        match &self.id {
            Some(id) => Some(id),
            None => None,
        }
    }

    /// The scope in which the handler runs: the request's own scope while
    /// the handler is running, none before and after.
    pub fn active(&self) -> (active: Option<ScopeHandle>)
        ensures
            handle_id(active) == (if self@.stage == Stage::HandlerRunning {
                self@.root
            } else {
                None
            }),
    {
        match self.stage {
            Stage::HandlerRunning => self.root,
            _ => None,
        }
    }

    /// The status of the response, once the handler has ended; none for a
    /// request that was aborted.
    pub fn status(&self) -> (status: Option<u16>)
        ensures
            status == self@.status,
    {
        self.status
    }

    /// Gives the request its correlation id. Returns whether the request
    /// stood at the stage for it; nothing changes where it did not.
    pub fn assign_id(&mut self, id: CorrelationId) -> (done: bool)
        ensures
            final(self)@ == old(self)@.assign_id(id@),
            done == (old(self)@.stage == Stage::Arrived),
    {
        proof {
            use_type_invariant(&*self);
            use_type_invariant(&id);
        }
        match self.stage {
            Stage::Arrived => {
                let text = String::from_str(id.as_str());
                self.head.request_id = Some(text);
                self.id = Some(id);
                self.stage = Stage::IdAssigned;
                true
            },
            _ => false,
        }
    }

    /// Opens the request's scope. Returns whether the request stood at the
    /// stage for it; nothing changes where it did not.
    pub fn open_scope(&mut self, subscriber: &mut Subscriber, now: i64) -> (done: bool)
        ensures
            old(subscriber)@.registry.wf(),
            final(subscriber)@.registry.wf(),
            (final(self)@, final(subscriber)@) == old(self)@.open_scope(old(subscriber)@, now),
            done == (old(self)@.stage == Stage::IdAssigned),
    {
        proof {
            use_type_invariant(&*self);
        }
        match self.stage {
            Stage::IdAssigned => {
                let span = make_span_with_request_id(&self.head);
                let opened = subscriber.open_scope(span.name, span.fields, None, now);
                self.stage = Stage::ScopeOpen;
                self.root = match opened {
                    Ok(scope) => Some(scope),
                    Err(_) => None,
                };
                true
            },
            _ => {
                subscriber.attest();
                false
            },
        }
    }

    /// Hands the request to its handler. Returns whether the request stood
    /// at the stage for it; nothing changes where it did not.
    pub fn start_handler(&mut self) -> (done: bool)
        ensures
            final(self)@ == old(self)@.start_handler(),
            done == (old(self)@.stage == Stage::ScopeOpen),
    {
        proof {
            use_type_invariant(&*self);
        }
        match self.stage {
            Stage::ScopeOpen => {
                self.stage = Stage::HandlerRunning;
                true
            },
            _ => false,
        }
    }

    /// Takes the request back from its handler, however the handler ended:
    /// closes every scope that the request still has open, the scope opened
    /// last first, emits their summaries and settles the status of the
    /// response. Returns whether the request stood at the stage for it;
    /// nothing changes where it did not.
    pub fn finish_handler(
        &mut self,
        subscriber: &mut Subscriber,
        outcome: HandlerOutcome,
        now: i64,
    ) -> (done: bool)
        ensures
            old(subscriber)@.wf(),
            final(subscriber)@.wf(),
            (final(self)@, final(subscriber)@) == old(self)@.finish_handler(
                old(subscriber)@,
                outcome,
                now,
            ),
            done == (old(self)@.stage == Stage::HandlerRunning),
            done && old(self)@.root is Some ==> !final(subscriber)@.registry.has_tree(
                old(self)@.root.unwrap(),
            ),
    {
        proof {
            use_type_invariant(&*self);
        }
        subscriber.attest();
        match self.stage {
            Stage::HandlerRunning => {
                match self.root {
                    Some(root) => {
                        subscriber.close_request(root, now);
                    },
                    None => {},
                }
                self.stage = Stage::ScopeClosed;
                self.status = match outcome {
                    HandlerOutcome::Completed { status } => Some(status),
                    HandlerOutcome::Failed => Some(INTERNAL_SERVER_ERROR),
                    HandlerOutcome::Aborted => None,
                };
                true
            },
            _ => false,
        }
    }

    /// Hands the response out: the settled status, the correlation id under
    /// its header, no body. There is no response for a request that was
    /// aborted, nor at any other stage than the one for it.
    pub fn send_response(&mut self) -> (response: Option<Response>)
        ensures
            final(self)@ == old(self)@.send_response(),
            match response {
                Some(r) => old(self)@.response() == Some(r@),
                None => old(self)@.response() is None,
            },
    {
        proof {
            use_type_invariant(&*self);
        }
        match self.stage {
            Stage::ScopeClosed => {
                self.stage = Stage::ResponseSent;
                match (self.status, &self.id) {
                    (Some(status), Some(id)) => {
                        let mut headers: Vec<(String, String)> = Vec::new();
                        headers.push((String::from_str(REQUEST_ID_HEADER), String::from_str(id.as_str())));
                        let response = Response { status, headers, body: Vec::new() };
                        proof {
                            assert(response@.headers =~= seq![(REQUEST_ID_HEADER@, id@)]);
                            assert(response@.body =~= Seq::<u8>::empty());
                        }
                        Some(response)
                    },
                    _ => None,
                }
            },
            _ => None,
        }
    }
}

} // verus!
