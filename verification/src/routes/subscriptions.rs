//! `POST /subscriptions`: a new subscriber signs up with a name and an email
//! address.
//!
//! The handler reads the form, plans the one write that stores the
//! subscriber, and, when the store has answered, settles the status. The
//! write runs inside a scope of its own, which carries the email address and
//! the name.

use crate::clock::now_millis;
use crate::correlation::{is_uuid_v4_text, new_v4_text};
use crate::pipeline::{INTERNAL_SERVER_ERROR, OK, UNPROCESSABLE_ENTITY};
use crate::record::Level;
use crate::registry::{lemma_child_inherits, lemma_open_wf, lemma_position};
use crate::scope::{fields_view, has_key, lookup, Field, FieldValue, FieldValueView, FieldView};
use crate::spans::{handle_id, ScopeHandle};
use crate::subscriber::{Subscriber, SubscriberView};
use vstd::prelude::*;

verus! {

/// The names and values that `form_urlencoded` reads from a form body, in
/// the order of the body.
pub uninterp spec fn form_pairs(body: Seq<u8>) -> Seq<(Seq<char>, Seq<char>)>;

/// The pairs of a list, each by its view, in the list's order.
pub open spec fn pairs_view(pairs: Seq<(String, String)>) -> Seq<(Seq<char>, Seq<char>)> {
    pairs.map_values(|p: (String, String)| (p.0@, p.1@))
}

/// Reads a form body in the `application/x-www-form-urlencoded` syntax.
///
/// Calls `form_urlencoded::parse` and collects the pairs that it yields, as
/// owned strings. Trusted: the pairs depend on the body alone. How the body
/// is split and decoded is `form_urlencoded`'s business and is not stated
/// here.
#[verifier::external_body]
fn parse_pairs(body: &[u8]) -> (pairs: Vec<(String, String)>)
    ensures
        pairs_view(pairs@) == form_pairs(body@),
{
    form_urlencoded::parse(body).into_owned().collect()
}

/// A field of the subscription form.
#[derive(Clone, Copy, Debug, PartialEq, Eq, Structural)]
pub enum FormField {
    Name,
    Email,
}

/// Why a form is not accepted.
#[derive(Clone, Copy, Debug, PartialEq, Eq, Structural)]
pub enum FormError {
    /// The form does not hold the field.
    Missing(FormField),
    /// The form holds the field more than once.
    Duplicate(FormField),
    /// The form holds the field once, with nothing in it.
    Empty(FormField),
}

/// The name under which the form holds a field.
pub open spec fn field_name(field: FormField) -> Seq<char> {
    match field {
        FormField::Name => "name"@,
        FormField::Email => "email"@,
    }
}

/// The pair is named `key`.
pub open spec fn named(key: Seq<char>) -> spec_fn((Seq<char>, Seq<char>)) -> bool {
    |p: (Seq<char>, Seq<char>)| p.0 == key
}

/// The values that the pairs hold under `key`, in their order.
pub open spec fn values_of(pairs: Seq<(Seq<char>, Seq<char>)>, key: Seq<char>) -> Seq<Seq<char>> {
    pairs.filter(named(key)).map_values(|p: (Seq<char>, Seq<char>)| p.1)
}

/// What the form holds for a field: its value where the field stands in
/// the form exactly once and is not empty, else the reason why not.
pub open spec fn field_of(pairs: Seq<(Seq<char>, Seq<char>)>, field: FormField) -> Result<
    Seq<char>,
    FormError,
> {
    let values = values_of(pairs, field_name(field));
    if values.len() == 0 {
        Err(FormError::Missing(field))
    } else if values.len() > 1 {
        Err(FormError::Duplicate(field))
    } else if values[0].len() == 0 {
        Err(FormError::Empty(field))
    } else {
        Ok(values[0])
    }
}

/// The mathematical value of a [`FormData`].
pub struct FormDataView {
    pub name: Seq<char>,
    pub email: Seq<char>,
}

/// What a form is read as: name and email address where both are held
/// exactly once and neither is empty. Otherwise the form is not accepted,
/// for the reason that the name gives, or else the one that the email
/// address gives. Pairs under other names are passed over.
pub open spec fn accepted(pairs: Seq<(Seq<char>, Seq<char>)>) -> Result<FormDataView, FormError> {
    match field_of(pairs, FormField::Name) {
        Err(e) => Err(e),
        Ok(name) => match field_of(pairs, FormField::Email) {
            Err(e) => Err(e),
            Ok(email) => Ok(FormDataView { name, email }),
        },
    }
}

/// The name of a field, as the form holds it.
fn field_key(field: FormField) -> (key: String)
    ensures
        key@ == field_name(field),
{
    match field {
        FormField::Name => String::from_str("name"),
        FormField::Email => String::from_str("email"),
    }
}

/// Looks a field up in the pairs of a form.
fn read_field(pairs: &Vec<(String, String)>, field: FormField) -> (result: Result<String, FormError>)
    ensures
        match result {
            Ok(value) => field_of(pairs_view(pairs@), field) == Ok::<Seq<char>, FormError>(value@),
            Err(e) => field_of(pairs_view(pairs@), field) == Err::<Seq<char>, FormError>(e),
        },
{
    let key = field_key(field);
    let ghost all = pairs_view(pairs@);
    let mut first: Option<String> = None;
    let mut several = false;
    let mut i: usize = 0;
    proof {
        reveal(Seq::filter);
        assert(all.take(0).filter(named(key@)) =~= Seq::<(Seq<char>, Seq<char>)>::empty());
    }
    while i < pairs.len()
        invariant
            i <= pairs.len(),
            all == pairs_view(pairs@),
            several == (values_of(all.take(i as int), key@).len() > 1),
            match first {
                Some(value) => values_of(all.take(i as int), key@).len() > 0 && values_of(
                    all.take(i as int),
                    key@,
                )[0] == value@,
                None => values_of(all.take(i as int), key@).len() == 0,
            },
        decreases pairs.len() - i,
    {
        proof {
            let seen = all.take(i as int);
            assert(all.take(i + 1) =~= seen.push(all[i as int]));
            seen.lemma_filter_push(all[i as int], named(key@));
            assert(all[i as int] == (pairs@[i as int].0@, pairs@[i as int].1@));
            if all[i as int].0 == key@ {
                assert(values_of(all.take(i + 1), key@) =~= values_of(seen, key@).push(
                    all[i as int].1,
                ));
            }
        }
        if pairs[i].0 == key {
            match first {
                Some(_) => {
                    several = true;
                },
                None => {
                    first = Some(pairs[i].1.clone());
                },
            }
        }
        i = i + 1;
    }
    proof {
        assert(all.take(pairs.len() as int) =~= all);
    }
    match first {
        None => Err(FormError::Missing(field)),
        Some(value) => {
            if several {
                Err(FormError::Duplicate(field))
            } else if value.as_str().is_empty() {
                Err(FormError::Empty(field))
            } else {
                Ok(value)
            }
        },
    }
}

/// What a new subscriber submits.
#[derive(Debug)]
pub struct FormData {
    name: String,
    email: String,
}

impl View for FormData {
    type V = FormDataView;

    closed spec fn view(&self) -> FormDataView {
        FormDataView { name: self.name@, email: self.email@ }
    }
}

/// A result by the view of what it holds.
pub open spec fn form_view(result: Result<FormData, FormError>) -> Result<FormDataView, FormError> {
    match result {
        Ok(data) => Ok(data@),
        Err(e) => Err(e),
    }
}

impl FormData {
    /// What holds of every value of the type: neither field is empty.
    #[verifier::type_invariant]
    pub open spec fn well_formed(self) -> bool {
        self@.name.len() > 0 && self@.email.len() > 0
    }

    /// Reads the submission from the names and values of a form.
    pub fn from_pairs(pairs: &Vec<(String, String)>) -> (result: Result<FormData, FormError>)
        ensures
            form_view(result) == accepted(pairs_view(pairs@)),
    {
        match read_field(pairs, FormField::Name) {
            Err(e) => Err(e),
            Ok(name) => match read_field(pairs, FormField::Email) {
                Err(e) => Err(e),
                Ok(email) => Ok(FormData { name, email }),
            },
        }
    }

    /// Reads the submission from the body of a request, which holds a form
    /// in the `application/x-www-form-urlencoded` syntax.
    pub fn parse(body: &[u8]) -> (result: Result<FormData, FormError>)
        ensures
            form_view(result) == accepted(form_pairs(body@)),
    {
        let pairs = parse_pairs(body);
        FormData::from_pairs(&pairs)
    }

    /// The subscriber's name.
    pub fn name(&self) -> (name: &String)
        ensures
            name@ == self@.name,
            name@.len() > 0,
    {
        proof {
            use_type_invariant(self);
        }
        &self.name
    }

    /// The subscriber's email address.
    pub fn email(&self) -> (email: &String)
        ensures
            email@ == self@.email,
            email@.len() > 0,
    {
        proof {
            use_type_invariant(self);
        }
        &self.email
    }
}

/// The status with which a form that is not accepted is answered.
pub fn rejection_status(error: FormError) -> (status: u16)
    ensures
        status == UNPROCESSABLE_ENTITY,
{
    UNPROCESSABLE_ENTITY
}

/// The one write that stores a subscriber.
#[derive(Clone, Debug, PartialEq, Eq)]
pub struct NewSubscriber {
    pub id: String,
    pub email: String,
    pub name: String,
    /// When the subscriber signed up, in milliseconds since the Unix epoch.
    pub subscribed_at: i64,
}

/// The mathematical value of a [`NewSubscriber`].
pub struct NewSubscriberView {
    pub id: Seq<char>,
    pub email: Seq<char>,
    pub name: Seq<char>,
    pub subscribed_at: i64,
}

impl View for NewSubscriber {
    type V = NewSubscriberView;

    open spec fn view(&self) -> NewSubscriberView {
        NewSubscriberView {
            id: self.id@,
            email: self.email@,
            name: self.name@,
            subscribed_at: self.subscribed_at,
        }
    }
}

/// A subscription whose write is on its way to the store.
#[derive(Debug)]
pub struct PendingSubscription {
    /// What to write.
    pub insert: NewSubscriber,
    /// The scope in which the write runs, where one could be opened.
    pub scope: Option<ScopeHandle>,
    /// The scope that was active when the handler was called.
    pub outer: Option<ScopeHandle>,
}

/// The name of the scope in which the write runs.
pub open spec fn persist_scope_name() -> Seq<char> {
    "persist subscriber"@
}

/// The fields of the scope in which the write runs: the email address and
/// the name, as plain text.
pub open spec fn persist_scope_fields(data: FormDataView) -> Seq<FieldView> {
    seq![
        FieldView { key: "email"@, value: FieldValueView::Text(data.email) },
        FieldView { key: "name"@, value: FieldValueView::Text(data.name) },
    ]
}

/// The scope in which an event of the write is raised: the write's own
/// scope, or the outer one where the write has none.
pub open spec fn event_scope(scope: Option<ScopeHandle>, outer: Option<ScopeHandle>) -> Option<
    u64,
> {
    match scope {
        Some(s) => Some(s.id),
        None => handle_id(outer),
    }
}

/// The message of the event that reports a failed write.
pub open spec fn failure_message(error: Seq<char>) -> Seq<char> {
    "Error in subscribing query: "@ + error
}

/// The subscriber (of events) after a subscription's write is planned.
pub open spec fn planned(
    subscriber: SubscriberView,
    active: Option<u64>,
    data: FormDataView,
    now: i64,
) -> SubscriberView {
    subscriber.open(persist_scope_name(), persist_scope_fields(data), active, now)
}

/// The subscriber (of events) after the store has answered: a failure is
/// reported as an event at the level of errors, then the write's scope is
/// closed.
pub open spec fn settled(
    subscriber: SubscriberView,
    scope: Option<ScopeHandle>,
    outer: Option<ScopeHandle>,
    error: Option<Seq<char>>,
    now: i64,
) -> SubscriberView {
    let reported = match error {
        Some(e) => subscriber.event(event_scope(scope, outer), Level::Error, failure_message(e), now),
        None => subscriber,
    };
    match scope {
        Some(s) => reported.close(s.id, now),
        None => reported,
    }
}

/// The error of a store's answer, if it holds one.
pub open spec fn error_of(result: Result<(), String>) -> Option<Seq<char>> {
    match result {
        Ok(_) => None,
        Err(e) => Some(e@),
    }
}

/// The scope of the write shows what the request's scope shows, the
/// correlation id included: it belongs to the tree of the active scope, and
/// it reads every name but `email` and `name` as the active scope reads it.
pub proof fn lemma_write_scope_inherits(
    subscriber: SubscriberView,
    active: u64,
    data: FormDataView,
    now: i64,
    key: Seq<char>,
)
    requires
        subscriber.registry.wf(),
        subscriber.registry.open_error(Some(active)) is None,
        key != "email"@,
        key != "name"@,
    ensures
        "request_id"@ != "email"@,
        "request_id"@ != "name"@,
        ({
            let after = planned(subscriber, Some(active), data, now).registry;
            let scope = subscriber.registry.next_id;
            &&& after.wf()
            &&& after.contains(scope)
            &&& after.scope(scope).parent == Some(active)
            &&& after.scope(scope).root == subscriber.registry.scope(active).root
            &&& lookup(after.scope(scope).fields, key) == lookup(
                subscriber.registry.scope(active).fields,
                key,
            )
        }),
{
    let reg = subscriber.registry;
    let fields = persist_scope_fields(data);
    let after = reg.open(persist_scope_name(), fields, Some(active), now);
    lemma_open_wf(reg, persist_scope_name(), fields, Some(active), now);
    let n = reg.scopes.len() as int;
    assert(after.scopes[n] == reg.opened(persist_scope_name(), fields, Some(active), now));
    lemma_position(after, n);
    assert(!has_key(fields, key)) by {
        if has_key(fields, key) {
            let i = choose|i: int| 0 <= i < fields.len() && (#[trigger] fields[i]).key == key;
            assert(i == 0 || i == 1);
        }
    }
    lemma_child_inherits(reg, persist_scope_name(), fields, active, now, key);
    reveal_strlit("request_id");
    reveal_strlit("email");
    reveal_strlit("name");
    assert("request_id"@.len() != "email"@.len());
    assert("request_id"@.len() != "name"@.len());
}

/// Plans the write for a submission under a given identity and at a given
/// time: opens the scope of the write under the active scope, with the
/// email address and the name as its fields, and says what to write. Where
/// the scope cannot be opened, the write is planned all the same.
pub fn subscribe_with(
    subscriber: &mut Subscriber,
    active: Option<ScopeHandle>,
    data: FormData,
    id: String,
    now: i64,
) -> (pending: PendingSubscription)
    ensures
        old(subscriber)@.registry.wf(),
        final(subscriber)@.registry.wf(),
        final(subscriber)@ == planned(old(subscriber)@, handle_id(active), data@, now),
        pending.insert@ == (NewSubscriberView {
            id: id@,
            email: data@.email,
            name: data@.name,
            subscribed_at: now,
        }),
        pending.outer == active,
        handle_id(pending.scope) == (if old(subscriber)@.registry.open_error(handle_id(active))
            is None {
            Some(old(subscriber)@.registry.next_id)
        } else {
            None
        }),
{
    let mut fields: Vec<Field> = Vec::new();
    fields.push(
        Field { key: String::from_str("email"), value: FieldValue::Text(data.email().clone()) },
    );
    fields.push(Field { key: String::from_str("name"), value: FieldValue::Text(data.name().clone()) });
    proof {
        assert(fields_view(fields@) =~= persist_scope_fields(data@));
    }
    let opened = subscriber.open_scope(String::from_str("persist subscriber"), fields, active, now);
    let scope = match opened {
        Ok(scope) => Some(scope),
        Err(_) => None,
    };
    let insert = NewSubscriber {
        id,
        email: data.email().clone(),
        name: data.name().clone(),
        subscribed_at: now,
    };
    PendingSubscription { insert, scope, outer: active }
}

/// Plans the write for a submission: gives the subscriber a fresh random
/// identity, stamps the submission with the time that the clock shows, and
/// goes on as [`subscribe_with`] does.
pub fn subscribe(subscriber: &mut Subscriber, active: Option<ScopeHandle>, data: FormData) -> (pending:
    PendingSubscription)
    ensures
        old(subscriber)@.registry.wf(),
        final(subscriber)@.registry.wf(),
        is_uuid_v4_text(pending.insert@.id),
        pending.insert@.email == data@.email,
        pending.insert@.name == data@.name,
        pending.outer == active,
        final(subscriber)@ == planned(
            old(subscriber)@,
            handle_id(active),
            data@,
            pending.insert@.subscribed_at,
        ),
        handle_id(pending.scope) == (if old(subscriber)@.registry.open_error(handle_id(active))
            is None {
            Some(old(subscriber)@.registry.next_id)
        } else {
            None
        }),
{
    let id = new_v4_text();
    let now = now_millis();
    subscribe_with(subscriber, active, data, id, now)
}

/// Settles a subscription when the store has answered, at a given time:
/// success where the write went through; else a server error, after the
/// failure is reported as an event. Either way the scope of the write is
/// closed. The write is not tried again.
pub fn subscribe_completed_at(
    subscriber: &mut Subscriber,
    pending: &PendingSubscription,
    result: Result<(), String>,
    now: i64,
) -> (status: u16)
    ensures
        old(subscriber)@.wf(),
        final(subscriber)@.wf(),
        status == (if result is Ok {
            OK
        } else {
            INTERNAL_SERVER_ERROR
        }),
        final(subscriber)@ == settled(
            old(subscriber)@,
            pending.scope,
            pending.outer,
            error_of(result),
            now,
        ),
{
    subscriber.attest();
    let status = match result {
        Ok(_) => OK,
        Err(error) => {
            let message = String::from_str("Error in subscribing query: ").concat(error.as_str());
            let scope = match pending.scope {
                Some(s) => Some(s),
                None => pending.outer,
            };
            subscriber.event(scope, Level::Error, message, now);
            INTERNAL_SERVER_ERROR
        },
    };
    match pending.scope {
        Some(scope) => {
            let _parent = subscriber.close_scope(scope, now);
        },
        None => {},
    }
    status
}

/// Settles a subscription when the store has answered, at the time that the
/// clock shows, as [`subscribe_completed_at`] does.
pub fn subscribe_completed(
    subscriber: &mut Subscriber,
    pending: &PendingSubscription,
    result: Result<(), String>,
) -> (status: u16)
    ensures
        old(subscriber)@.wf(),
        final(subscriber)@.wf(),
        status == (if result is Ok {
            OK
        } else {
            INTERNAL_SERVER_ERROR
        }),
        exists|now: i64|
            final(subscriber)@ == #[trigger] settled(
                old(subscriber)@,
                pending.scope,
                pending.outer,
                error_of(result),
                now,
            ),
{
    let now = now_millis();
    subscribe_completed_at(subscriber, pending, result, now)
}

} // verus!
