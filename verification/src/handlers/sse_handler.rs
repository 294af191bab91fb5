//! Subscriptions to events.

use super::{AppError, Query, ValidationError, MAX_CLIENT_ID_LEN};
use crate::json;
use crate::metrics;
use crate::metrics::{push_update, MetricUpdate, MetricView};
use crate::models::{TonEvent, TonEventView};
use crate::storage::EventStorageError;
use crate::text;
use vstd::prelude::*;
use vstd::string::*;

verus! {

/// The parameters of a request to subscribe.
#[derive(Debug)]
pub struct SubscribeToEventsQueryParams {
    /// The clients whose events are asked for.
    pub client_ids: Vec<String>,
    /// The last event that the subscriber has seen.
    pub last_event_id: Option<String>,
}

/// Whether one of the ids is longer than a client id may be.
pub open spec fn some_id_too_long(ids: Seq<Seq<char>>) -> bool {
    exists|i: int|
        0 <= i < ids.len() && super::message_handler::id_too_long(#[trigger] ids[i])
}

/// Why the client ids of a subscription are refused; `None` where they are not.
pub open spec fn ids_refusal(ids: Seq<Seq<char>>, max_client_ids: usize) -> Option<Seq<char>> {
    if ids.len() == 0 {
        Some("Failed to deserialize query string: field `client_id` is empty"@)
    } else if ids.len() > max_client_ids {
        Some(
            "Failed to deserialize query string: field `client_id` must contain no more than "@
                + text::decimal(max_client_ids as nat) + " ids"@,
        )
    } else if some_id_too_long(ids) {
        Some(
            "Failed to deserialize query string: field `client_id` must not exceed "@
                + text::decimal(MAX_CLIENT_ID_LEN as nat) + " characters"@,
        )
    } else {
        None
    }
}

impl SubscribeToEventsQueryParams {
    /// The client ids.
    pub open spec fn ids(&self) -> Seq<Seq<char>> {
        text::texts(self.client_ids@)
    }

    /// The last event that the subscriber has seen.
    pub open spec fn last_seen(&self) -> Option<Seq<char>> {
        match self.last_event_id {
            Some(id) => Some(id@),
            None => None,
        }
    }

    /// Refuses a subscription to no clients, to too many, or to one whose id is
    /// too long.
    pub fn validate(&self, max_client_ids: usize) -> (r: Result<(), ValidationError>)
        ensures
            r is Ok <==> ids_refusal(self.ids(), max_client_ids) is None,
            r is Err ==> r->Err_0.0@ == ids_refusal(self.ids(), max_client_ids)->0,
            r is Ok <==> {
                &&& 0 < self.client_ids@.len() <= max_client_ids
                &&& forall|i: int|
                    0 <= i < self.client_ids@.len() ==> vstd::utf8::encode_utf8(
                        (#[trigger] self.client_ids@[i])@,
                    ).len() <= 64
            },
    {
        if self.client_ids.len() == 0 {
            return Err(
                ValidationError(
                    "Failed to deserialize query string: field `client_id` is empty".to_owned(),
                ),
            );
        }
        if self.client_ids.len() > max_client_ids {
            return Err(
                ValidationError(
                    "Failed to deserialize query string: field `client_id` must contain no more than ".to_owned().concat(
                    text::decimal_text(max_client_ids as u64).as_str()).concat(" ids"),
                ),
            );
        }
        let mut i: usize = 0;
        while i < self.client_ids.len()
            invariant
                0 <= i <= self.client_ids@.len(),
                0 < self.client_ids@.len() <= max_client_ids,
                forall|j: int|
                    0 <= j < i ==> !super::message_handler::id_too_long(#[trigger] self.ids()[j]),
            decreases self.client_ids@.len() - i,
        {
            assert(self.ids()[i as int] == self.client_ids@[i as int]@);
            assert(super::message_handler::id_too_long(self.ids()[i as int])
                == (vstd::utf8::encode_utf8(self.client_ids@[i as int]@).len() > 64));
            if text::byte_len(self.client_ids[i].as_str()) > MAX_CLIENT_ID_LEN {
                return Err(
                    ValidationError(
                        "Failed to deserialize query string: field `client_id` must not exceed ".to_owned().concat(
                        text::decimal_text(MAX_CLIENT_ID_LEN as u64).as_str()).concat(
                            " characters",
                        ),
                    ),
                );
            }
            i = i + 1;
        }
        assert forall|j: int| 0 <= j < self.client_ids@.len() implies vstd::utf8::encode_utf8(
            (#[trigger] self.client_ids@[j])@,
        ).len() <= 64 by {
            assert(!super::message_handler::id_too_long(self.ids()[j]));
        }
        Ok(())
    }
}

/// Reads the value of the parameter that names the client ids: a comma
/// separated list.
pub fn deserialize_list_of_strings(value: &String) -> (r: Vec<String>)
    ensures
        text::texts(r@) == text::list_items(value@),
{
    text::parse_list(value.as_str())
}

#[verifier::external_type_specification]
#[verifier::external_body]
pub struct ExSseEvent(axum::response::sse::Event);

/// The fields of a server-sent event, in the order in which it has them: each
/// is sent as a line `name: value`.
pub uninterp spec fn sse_fields(event: axum::response::sse::Event) -> Seq<(Seq<char>, Seq<char>)>;

/// Whether the event has a field of that name.
pub open spec fn has_field(fields: Seq<(Seq<char>, Seq<char>)>, name: Seq<char>) -> bool {
    exists|i: int| 0 <= i < fields.len() && (#[trigger] fields[i]).0 == name
}

/// Whether `s` is a single line.
pub open spec fn is_one_line(s: Seq<char>) -> bool {
    !s.contains('\n') && !s.contains('\r')
}

/// Whether `id` can be the id of a server-sent event.
pub open spec fn is_event_id(id: Seq<char>) -> bool {
    is_one_line(id) && !id.contains('\0')
}

/// Whether `id` can be the id of a server-sent event.
pub fn valid_event_id(id: &str) -> (r: bool)
    ensures
        r == is_event_id(id@),
{
    let chars: Vec<char> = text::characters(id);
    let mut i: usize = 0;
    while i < chars.len()
        invariant
            0 <= i <= chars@.len(),
            chars@ == id@,
            !id@.take(i as int).contains('\n'),
            !id@.take(i as int).contains('\r'),
            !id@.take(i as int).contains('\0'),
        decreases chars@.len() - i,
    {
        assert(id@.take(i + 1) =~= id@.take(i as int).push(id@[i as int]));
        if chars[i] == '\n' || chars[i] == '\r' || chars[i] == '\0' {
            assert(id@.contains(id@[i as int]));
            return false;
        }
        i = i + 1;
    }
    assert(id@.take(i as int) =~= id@);
    true
}

/// `axum::response::sse::Event::default`: an event without fields.
#[verifier::external_body]
fn sse_empty() -> (r: axum::response::sse::Event)
    ensures
        sse_fields(r) == Seq::<(Seq<char>, Seq<char>)>::empty(),
{
    axum::response::sse::Event::default()
}

/// `axum::response::sse::Event::event`: names the event. It panics on a name
/// of several lines and on a second name.
#[verifier::external_body]
fn sse_event(event: axum::response::sse::Event, name: &str) -> (r: axum::response::sse::Event)
    requires
        is_one_line(name@),
        !has_field(sse_fields(event), "event"@),
    ensures
        sse_fields(r) == sse_fields(event).push(("event"@, name@)),
{
    event.event(name)
}

/// `axum::response::sse::Event::id`: gives the event an id. It panics on an id
/// of several lines or with a null character, and on a second id.
#[verifier::external_body]
fn sse_id(event: axum::response::sse::Event, id: &str) -> (r: axum::response::sse::Event)
    requires
        is_event_id(id@),
        !has_field(sse_fields(event), "id"@),
    ensures
        sse_fields(r) == sse_fields(event).push(("id"@, id@)),
{
    event.id(id)
}

/// `axum::response::sse::Event::data`: gives the event its data. It panics on a
/// carriage return and on a second call, and breaks data of several lines into
/// several fields.
#[verifier::external_body]
fn sse_data(event: axum::response::sse::Event, data: &str) -> (r: axum::response::sse::Event)
    requires
        is_one_line(data@),
        !has_field(sse_fields(event), "data"@),
    ensures
        sse_fields(r) == sse_fields(event).push(("data"@, data@)),
{
    event.data(data)
}

/// What a subscriber is sent.
#[derive(Debug)]
pub enum EventResponse {
    /// A sign of life.
    Heartbeat,
    /// A message.
    Message(TonEvent),
}

/// The fields of the server-sent event for a message.
pub open spec fn message_fields(event: TonEventView) -> Seq<(Seq<char>, Seq<char>)> {
    seq![
        ("event"@, "message"@),
        ("id"@, event.id),
        ("data"@, json::object_text(event.public_members())),
    ]
}

impl EventResponse {
    /// The fields of the server-sent event.
    pub open spec fn fields(&self) -> Seq<(Seq<char>, Seq<char>)> {
        match self {
            EventResponse::Heartbeat => seq![("event"@, "heartbeat"@)],
            EventResponse::Message(event) => message_fields(event@),
        }
    }

    /// Whether the response can be sent: the id of a message has to be one that
    /// a server-sent event can have.
    pub open spec fn sendable(&self) -> bool {
        match self {
            EventResponse::Heartbeat => true,
            EventResponse::Message(event) => is_event_id(event@.id),
        }
    }

    /// Whether the response can be sent.
    pub fn is_sendable(&self) -> (r: bool)
        ensures
            r == self.sendable(),
    {
        match self {
            EventResponse::Heartbeat => true,
            EventResponse::Message(event) => valid_event_id(event.id.as_str()),
        }
    }

    /// The server-sent event for the response.
    pub fn into_event(self) -> (r: axum::response::sse::Event)
        requires
            self.sendable(),
        ensures
            sse_fields(r) == self.fields(),
            self is Heartbeat ==> sse_fields(r) == seq![("event"@, "heartbeat"@)],
            self is Message ==> {
                let event = self->Message_0;
                sse_fields(r) == seq![
                    ("event"@, "message"@),
                    ("id"@, event.id@),
                    (
                        "data"@,
                        json::object_text(
                            seq![
                                ("from"@, json::JsonValue::Text(event.from@)),
                                ("message"@, json::JsonValue::Text(event.message@)),
                            ],
                        ),
                    ),
                ]
            },
    {
        proof {
            lemma_names_differ();
        }
        let event: axum::response::sse::Event = sse_empty();
        match self {
            EventResponse::Heartbeat => sse_event(event, "heartbeat"),
            EventResponse::Message(ton_event) => {
                let data: String = ton_event.serialize_for_sse().unwrap();
                proof {
                    json::law_object_text_is_one_line(ton_event@.public_members());
                    lemma_printable_is_one_line(data@);
                }
                let named: axum::response::sse::Event = sse_event(event, "message");
                let numbered: axum::response::sse::Event = sse_id(named, ton_event.id.as_str());
                sse_data(numbered, data.as_str())
            },
        }
    }
}

proof fn lemma_printable_is_one_line(s: Seq<char>)
    requires
        json::printable(s),
    ensures
        is_one_line(s),
{
}

proof fn lemma_names_differ()
    ensures
        "event"@ != "id"@,
        "event"@ != "data"@,
        "id"@ != "data"@,
        is_one_line("message"@),
        is_one_line("heartbeat"@),
{
    reveal_strlit("event");
    reveal_strlit("id");
    reveal_strlit("data");
    reveal_strlit("message");
    reveal_strlit("heartbeat");
    assert("event"@.len() == 5);
    assert("id"@.len() == 2);
    assert("data"@.len() == 4);
}

/// What is to be done next for a subscription.
#[derive(Debug)]
pub enum SseAction {
    /// Read the events of a client that came after the given one.
    ReadInbox { client_id: String, event_id: String },
    /// Register the subscriber for the live events of a client.
    Register { client_id: String },
    /// Send the events that were read, and after them the live events.
    Open,
}

/// What an [`SseAction`] says.
pub enum SseActionView {
    ReadInbox { client_id: Seq<char>, event_id: Seq<char> },
    Register { client_id: Seq<char> },
    Open,
}

impl View for SseAction {
    type V = SseActionView;

    open spec fn view(&self) -> SseActionView {
        match self {
            SseAction::ReadInbox { client_id, event_id } => SseActionView::ReadInbox {
                client_id: client_id@,
                event_id: event_id@,
            },
            SseAction::Register { client_id } => SseActionView::Register {
                client_id: client_id@,
            },
            SseAction::Open => SseActionView::Open,
        }
    }
}

/// All that is done for a subscription, in order: where the subscriber says
/// which event it saw last, the inbox of each client is read; each client is
/// registered for; the stream is opened.
pub open spec fn subscription_plan(ids: Seq<Seq<char>>, last_event_id: Option<Seq<char>>) -> Seq<
    SseActionView,
> {
    let reads = match last_event_id {
        Some(event_id) => ids.map_values(
            |id: Seq<char>| SseActionView::ReadInbox { client_id: id, event_id },
        ),
        None => Seq::empty(),
    };
    reads + ids.map_values(|id: Seq<char>| SseActionView::Register { client_id: id }) + seq![
        SseActionView::Open,
    ]
}

/// What some events say.
pub open spec fn event_views(events: Seq<TonEvent>) -> Seq<TonEventView> {
    events.map_values(|e: TonEvent| e@)
}

/// A subscription while it is being opened.
#[derive(Debug)]
pub struct Subscription {
    /// The clients, in the order of the request.
    client_ids: Vec<String>,
    /// The last event that the subscriber has seen.
    last_event_id: Option<String>,
    /// The events that were read, for each client whose inbox was.
    backlog: Vec<Vec<TonEvent>>,
    /// How many clients were registered for.
    registered: usize,
}

impl Subscription {
    /// The client ids.
    pub closed spec fn ids(&self) -> Seq<Seq<char>> {
        text::texts(self.client_ids@)
    }

    /// The last event that the subscriber has seen.
    pub closed spec fn last_seen(&self) -> Option<Seq<char>> {
        match self.last_event_id {
            Some(id) => Some(id@),
            None => None,
        }
    }

    /// The plan of the subscription.
    pub open spec fn plan(&self) -> Seq<SseActionView> {
        subscription_plan(self.ids(), self.last_seen())
    }

    /// How many steps of the plan are done.
    pub closed spec fn done(&self) -> int {
        self.backlog@.len() + self.registered
    }

    /// What was read so far.
    pub closed spec fn read(&self) -> Seq<Seq<TonEventView>> {
        self.backlog@.map_values(|events: Vec<TonEvent>| event_views(events@))
    }

    /// Whether the steps that are done are the first ones of the plan.
    pub closed spec fn wf(&self) -> bool {
        &&& self.backlog@.len() <= self.client_ids@.len()
        &&& self.registered <= self.client_ids@.len()
        &&& self.last_event_id is None ==> self.backlog@.len() == 0
        &&& self.last_event_id is Some && self.registered > 0 ==> self.backlog@.len()
            == self.client_ids@.len()
    }

    /// The next step of the plan.
    pub open spec fn pending(&self) -> SseActionView {
        self.plan()[self.done()]
    }

    /// The next step of the plan.
    pub fn next_action(&self) -> (r: SseAction)
        requires
            self.wf(),
        ensures
            0 <= self.done() < self.plan().len(),
            r@ == self.pending(),
    {
        if let Some(event_id) = &self.last_event_id {
            if self.backlog.len() < self.client_ids.len() {
                let client_id: String = self.client_ids[self.backlog.len()].clone();
                assert(self.ids()[self.backlog@.len() as int] == client_id@);
                return SseAction::ReadInbox { client_id, event_id: event_id.clone() };
            }
        }
        if self.registered < self.client_ids.len() {
            let client_id: String = self.client_ids[self.registered].clone();
            assert(self.ids()[self.registered as int] == client_id@);
            SseAction::Register { client_id }
        } else {
            SseAction::Open
        }
    }

    /// Takes the events of the client whose inbox was read. Where reading
    /// failed, gives the error that answers the request.
    pub fn inbox_read(&mut self, events: Result<Vec<TonEvent>, EventStorageError>) -> (r: Result<
        (),
        AppError,
    >)
        requires
            old(self).wf(),
            old(self).pending() is ReadInbox,
        ensures
            final(self).wf(),
            final(self).ids() == old(self).ids(),
            final(self).last_seen() == old(self).last_seen(),
            r is Ok <==> events is Ok,
            r is Ok ==> {
                &&& final(self).done() == old(self).done() + 1
                &&& final(self).read() == old(self).read().push(event_views(events->Ok_0@))
            },
            r is Err ==> {
                &&& *final(self) == *old(self)
                &&& r->Err_0.status == 500
                &&& r->Err_0.message@ == "something went wrong"@
            },
    {
        match events {
            Ok(events) => {
                self.backlog.push(events);
                assert(self.read() =~= old(self).read().push(event_views(events@)));
                Ok(())
            },
            Err(e) => Err(AppError::from(e)),
        }
    }

    /// Takes note that the subscriber was registered for a client.
    pub fn client_registered(&mut self)
        requires
            old(self).wf(),
            old(self).pending() is Register,
        ensures
            final(self).wf(),
            final(self).ids() == old(self).ids(),
            final(self).last_seen() == old(self).last_seen(),
            final(self).done() == old(self).done() + 1,
            final(self).read() == old(self).read(),
    {
        proof {
            if self.registered == self.client_ids@.len() {
                assert(self.pending() is Open || self.pending() is ReadInbox);
            }
            assert(self.registered < self.client_ids.len());
        }
        self.registered = self.registered + 1;
    }

    /// The events that come before the live events, for each client whose inbox
    /// was read.
    pub fn into_backlog(self) -> (r: Vec<Vec<TonEvent>>)
        requires
            self.wf(),
            self.pending() is Open,
        ensures
            r@.map_values(|events: Vec<TonEvent>| event_views(events@)) == self.read(),
            r@.len() == if self.last_seen() is Some {
                self.ids().len()
            } else {
                0
            },
    {
        self.backlog
    }
}

/// Starts a subscription, or gives the error that answers the request.
pub fn sse_handler(
    params: Query<SubscribeToEventsQueryParams>,
    max_client_ids_per_connection: usize,
    updates: &mut Vec<MetricUpdate>,
) -> (r: Result<Subscription, AppError>)
    ensures
        metrics::metric_views(final(updates)@) == if r is Ok {
            metrics::metric_views(old(updates)@).push(
                MetricView::RecordNumber {
                    name: "client_ids_per_connection"@,
                    value: params.0.client_ids@.len() as usize,
                },
            )
        } else {
            metrics::metric_views(old(updates)@)
        },
        ({
            let refusal = ids_refusal(params.0.ids(), max_client_ids_per_connection);
            &&& r is Ok <==> refusal is None
            &&& r is Ok ==> {
                &&& r->Ok_0.wf()
                &&& r->Ok_0.ids() == params.0.ids()
                &&& r->Ok_0.last_seen() == params.0.last_seen()
                &&& r->Ok_0.ids().len() == params.0.client_ids@.len()
                &&& forall|i: int|
                    0 <= i < params.0.client_ids@.len() ==> r->Ok_0.ids()[i] == (
                    #[trigger] params.0.client_ids@[i])@
                &&& params.0.last_event_id is Some ==> r->Ok_0.last_seen() == Some(
                    params.0.last_event_id->0@,
                )
                &&& params.0.last_event_id is None ==> r->Ok_0.last_seen() is None
                &&& r->Ok_0.done() == 0
                &&& r->Ok_0.read() == Seq::<Seq<TonEventView>>::empty()
            }
            &&& r is Err ==> r->Err_0.status == 400 && r->Err_0.message@ == refusal->0
        }),
{
    let Query(params) = params;
    if let Err(e) = params.validate(max_client_ids_per_connection) {
        return Err(AppError::from(e));
    }
    push_update(
        updates,
        MetricUpdate::RecordNumber {
            name: "client_ids_per_connection".to_owned(),
            value: params.client_ids.len(),
        },
    );
    let subscription: Subscription = Subscription {
        client_ids: params.client_ids,
        last_event_id: params.last_event_id,
        backlog: Vec::new(),
        registered: 0,
    };
    assert(subscription.read() =~= Seq::<Seq<TonEventView>>::empty());
    Ok(subscription)
}

/// The order of a subscription: where the subscriber says which event it saw
/// last, the inbox of every client is read, and all of that comes before the
/// first client is registered for. Every client is registered for once, and the
/// stream is opened last.
pub proof fn law_order_of_a_subscription(
    ids: Seq<Seq<char>>,
    last_event_id: Option<Seq<char>>,
    k: int,
)
    requires
        0 <= k < ids.len(),
    ensures
        ({
            let plan = subscription_plan(ids, last_event_id);
            let reads: int = if last_event_id is Some {
                ids.len() as int
            } else {
                0
            };
            &&& plan.len() == reads + ids.len() + 1
            &&& last_event_id is Some ==> plan[k] == SseActionView::ReadInbox {
                client_id: ids[k],
                event_id: last_event_id->0,
            }
            &&& plan[reads + k] == SseActionView::Register { client_id: ids[k] }
            &&& plan[plan.len() - 1] is Open
        }),
{
}

/// The server-sent event for what was read from an inbox has the id of the
/// entry, so that the subscriber can ask for what came after it, and holds the
/// sender and the message of the entry's event. `event` is the event that was
/// read.
pub proof fn law_subscriber_sees_the_id_of_the_entry(
    entry: crate::storage::InboxEntryView,
    event: TonEvent,
)
    requires
        entry.payload is Event,
        event@ == crate::storage::entry_event(entry),
    ensures
        EventResponse::Message(event).fields() == seq![
            ("event"@, "message"@),
            ("id"@, entry.id),
            (
                "data"@,
                json::object_text(
                    seq![
                        ("from"@, json::JsonValue::Text(entry.payload->Event_0.from)),
                        ("message"@, json::JsonValue::Text(entry.payload->Event_0.message)),
                    ],
                ),
            ),
        ],
{
}

/// A message is sent as an event named `message`, under the event's id, whose
/// data is the JSON object of the sender and the message, whatever they are. A
/// heartbeat is an event named `heartbeat` and nothing else.
pub proof fn law_what_is_sent(event: TonEvent)
    ensures
        EventResponse::Message(event).fields() == seq![
            ("event"@, "message"@),
            ("id"@, event.id@),
            (
                "data"@,
                "{\"from\":"@ + json::string_text(event.from@) + ",\"message\":"@
                    + json::string_text(event.message@) + "}"@,
            ),
        ],
        EventResponse::Heartbeat.fields() == seq![("event"@, "heartbeat"@)],
{
    crate::models::law_public_text(event@);
}

/// What can be sent: heartbeats, and messages whose id has no line break and no
/// null character in it.
pub proof fn law_what_can_be_sent(event: TonEvent)
    ensures
        EventResponse::Heartbeat.sendable(),
        EventResponse::Message(event).sendable() <==> forall|i: int|
            0 <= i < event.id@.len() ==> #[trigger] event.id@[i] != '\n' && event.id@[i] != '\r'
                && event.id@[i] != '\0',
        is_event_id(event.id@) == EventResponse::Message(event).sendable(),
{
    let id = event.id@;
    if is_event_id(id) {
        assert forall|i: int| 0 <= i < id.len() implies #[trigger] id[i] != '\n' && id[i] != '\r'
            && id[i] != '\0' by {
            assert(id.contains(id[i]));
        }
    } else {
        let c: char = if id.contains('\n') {
            '\n'
        } else if id.contains('\r') {
            '\r'
        } else {
            '\0'
        };
        assert(id[id.index_of(c)] == c);
    }
}

/// A subscription is accepted exactly where it names at least one client, no
/// more than it may, and each by an id of at most sixty-four bytes.
pub proof fn law_which_subscriptions_are_accepted(ids: Seq<Seq<char>>, max_client_ids: usize)
    ensures
        ids_refusal(ids, max_client_ids) is None <==> {
            &&& 1 <= ids.len() <= max_client_ids
            &&& forall|i: int|
                0 <= i < ids.len() ==> vstd::utf8::encode_utf8(#[trigger] ids[i]).len() <= 64
        },
{
    if some_id_too_long(ids) {
        let i = choose|i: int|
            0 <= i < ids.len() && super::message_handler::id_too_long(#[trigger] ids[i]);
        assert(vstd::utf8::encode_utf8(ids[i]).len() > 64);
    } else {
        assert forall|i: int| 0 <= i < ids.len() implies vstd::utf8::encode_utf8(
            #[trigger] ids[i],
        ).len() <= 64 by {
            assert(!super::message_handler::id_too_long(ids[i]));
        }
    }
}

/// What the answer to a subscription that is not accepted says: that no client
/// is named, that too many are, or that an id is too long, in this order.
pub proof fn law_why_a_subscription_is_refused(
    ids: Seq<Seq<char>>,
    max_client_ids: usize,
    i: int,
)
    ensures
        ids.len() == 0 ==> ids_refusal(ids, max_client_ids) == Some(
            "Failed to deserialize query string: field `client_id` is empty"@,
        ),
        ids.len() > 0 && ids.len() > max_client_ids ==> ids_refusal(ids, max_client_ids) == Some(
            "Failed to deserialize query string: field `client_id` must contain no more than "@
                + text::decimal(max_client_ids as nat) + " ids"@,
        ),
        0 < ids.len() <= max_client_ids && 0 <= i < ids.len() && vstd::utf8::encode_utf8(
            ids[i],
        ).len() > 64 ==> ids_refusal(ids, max_client_ids) == Some(
            "Failed to deserialize query string: field `client_id` must not exceed 64 characters"@,
        ),
{
    text::lemma_sixty_four();
    reveal_strlit("Failed to deserialize query string: field `client_id` must not exceed ");
    reveal_strlit(
        "Failed to deserialize query string: field `client_id` must not exceed 64 characters",
    );
    reveal_strlit(" characters");
    reveal_strlit("64");
    assert("Failed to deserialize query string: field `client_id` must not exceed "@ + "64"@
        + " characters"@
        =~= "Failed to deserialize query string: field `client_id` must not exceed 64 characters"@);
    if 0 <= i < ids.len() && vstd::utf8::encode_utf8(ids[i]).len() > 64 {
        assert(super::message_handler::id_too_long(ids[i]));
    }
}

/// Whoever can be sent messages can subscribe to them: an id that is taken as a
/// recipient is accepted in a subscription.
pub proof fn law_recipients_can_subscribe(
    client_id: Seq<char>,
    to: Seq<char>,
    ttl: Option<u16>,
    body: Seq<char>,
    limits: crate::config::MessageLimits,
    max_client_ids: usize,
)
    requires
        super::message_handler::message_refusal(client_id, to, ttl, body, limits) is None,
        max_client_ids >= 1,
    ensures
        ids_refusal(seq![to], max_client_ids) is None,
        ids_refusal(seq![client_id], max_client_ids) is None,
{
    law_which_subscriptions_are_accepted(seq![to], max_client_ids);
    law_which_subscriptions_are_accepted(seq![client_id], max_client_ids);
    super::message_handler::law_what_is_taken(client_id, to, ttl, body, limits);
}

/// What is due next in a subscription of `n` clients of which `done` steps are
/// done: the inbox of the next client, where the subscriber says what it saw
/// last and not all were read; after that the registration for the next client;
/// after that the opening.
pub proof fn law_what_is_due(subscription: Subscription)
    requires
        0 <= subscription.done(),
    ensures
        ({
            let ids = subscription.ids();
            let n = ids.len();
            let done = subscription.done();
            let reads: int = if subscription.last_seen() is Some {
                n as int
            } else {
                0
            };
            &&& done < reads ==> subscription.pending() == SseActionView::ReadInbox {
                client_id: ids[done],
                event_id: subscription.last_seen()->0,
            }
            &&& reads <= done < reads + n ==> subscription.pending() == SseActionView::Register {
                client_id: ids[done - reads],
            }
            &&& done == reads + n ==> subscription.pending() is Open
        }),
{
}

/// What the parameters of a request to subscribe say is what they hold.
pub proof fn law_view_of_the_parameters(params: SubscribeToEventsQueryParams)
    ensures
        params.ids().len() == params.client_ids@.len(),
        forall|i: int|
            0 <= i < params.client_ids@.len() ==> #[trigger] params.ids()[i]
                == params.client_ids@[i]@,
        params.last_event_id is Some ==> params.last_seen() == Some(params.last_event_id->0@),
        params.last_event_id is None ==> params.last_seen() is None,
{
}

/// What some events say is what each of them holds, in order.
pub proof fn law_event_views(events: Seq<TonEvent>)
    ensures
        event_views(events).len() == events.len(),
        forall|i: int| 0 <= i < events.len() ==> #[trigger] event_views(events)[i] == events[i]@,
{
}

/// What a step of a subscription says is what it holds.
pub proof fn law_view_of_a_step(client_id: String, event_id: String)
    ensures
        (SseAction::ReadInbox { client_id, event_id })@ == (SseActionView::ReadInbox {
            client_id: client_id@,
            event_id: event_id@,
        }),
        (SseAction::Register { client_id })@ == (SseActionView::Register { client_id: client_id@ }),
        SseAction::Open@ == SseActionView::Open,
{
}

/// A message that is taken reaches the recipient as it was sent. Let the storage
/// give it an id, and let `announced` be an event that has the text of the
/// announcement, and `received` what is read from it: it is for the recipient
/// that the sender named, and the server-sent event for it has that id and holds the sender and the body, as
/// they were given. The event that a read of the recipient's inbox gives until
/// the deadline is over is the same.
pub proof fn law_recipient_gets_what_was_sent(
    client_id: Seq<char>,
    to: Seq<char>,
    ttl: Option<u16>,
    body: Seq<char>,
    limits: crate::config::MessageLimits,
    sent_at: u64,
    storage: crate::storage::RedisEventStorage,
    id: Seq<char>,
    announced: TonEventView,
    received: TonEvent,
    read_at: u64,
)
    requires
        received@ == announced.read_back(),
        super::message_handler::message_refusal(client_id, to, ttl, body, limits) is None,
        sent_at + super::message_handler::granted_ttl(ttl, limits) <= u64::MAX,
        id.len() > 0,
        storage.announcement(
            super::message_handler::message_event(
                client_id,
                to,
                ttl,
                body,
                limits,
                sent_at,
            ).with_id(id),
        )->value == crate::storage::stored_text(announced),
        read_at <= sent_at + super::message_handler::granted_ttl(ttl, limits),
    ensures
        received.to@ == to,
        EventResponse::Message(received).fields() == seq![
            ("event"@, "message"@),
            ("id"@, id),
            (
                "data"@,
                json::object_text(
                    seq![
                        ("from"@, json::JsonValue::Text(client_id)),
                        ("message"@, json::JsonValue::Text(body)),
                    ],
                ),
            ),
        ],
        ({
            let event = super::message_handler::message_event(
                client_id,
                to,
                ttl,
                body,
                limits,
                sent_at,
            );
            let entry = crate::storage::InboxEntryView {
                id,
                payload: crate::storage::EntryPayloadView::Event(event.read_back()),
            };
            crate::storage::inbox_events(seq![entry], read_at) == Ok::<
                Seq<TonEventView>,
                Seq<char>,
            >(seq![announced.read_back()])
        }),
{
    let event = super::message_handler::message_event(client_id, to, ttl, body, limits, sent_at);
    crate::models::law_stored_text_determines_event(event.with_id(id), announced);
    crate::storage::law_live_and_stored_events_agree(storage, event, announced, id, read_at);
}

/// What came of polling a stream.
#[derive(Debug)]
pub enum Polled<I> {
    Item(I),
    End,
    Pending,
}

/// A stream of events to a subscriber, whose use is measured.
pub struct TrackedStream<S> {
    /// When the stream was opened, in nanoseconds since the server started.
    pub start: u128,
    pub inner: S,
}

impl<S> TrackedStream<S> {
    /// Opens a stream.
    pub fn new(inner: S, start: u128, updates: &mut Vec<MetricUpdate>) -> (r: Self)
        ensures
            r.inner == inner,
            r.start == start,
            metrics::metric_views(final(updates)@) == metrics::metric_views(old(updates)@).push(
                MetricView::GaugeUp { name: "active_connections_number"@ },
            ),
    {
        push_update(
            updates,
            MetricUpdate::GaugeUp { name: "active_connections_number".to_owned() },
        );
        TrackedStream { start, inner }
    }

    /// Hands on what came of polling the stream. An item is a message to the
    /// subscriber.
    pub fn poll_next<I>(&self, polled: Polled<I>, updates: &mut Vec<MetricUpdate>) -> (r: Polled<I>)
        ensures
            r == polled,
            metrics::metric_views(final(updates)@) == if polled is Item {
                metrics::metric_views(old(updates)@).push(
                    MetricView::Count {
                        name: "messages_sent_to_clients_total"@,
                        labels: Seq::empty(),
                    },
                )
            } else {
                metrics::metric_views(old(updates)@)
            },
    {
        match polled {
            Polled::Item(item) => {
                let labels: Vec<(String, String)> = Vec::new();
                assert(metrics::label_views(labels@) =~= Seq::<(Seq<char>, Seq<char>)>::empty());
                push_update(
                    updates,
                    MetricUpdate::Count {
                        name: "messages_sent_to_clients_total".to_owned(),
                        labels,
                    },
                );
                Polled::Item(item)
            },
            Polled::End => Polled::End,
            Polled::Pending => Polled::Pending,
        }
    }

    /// Closes the stream.
    pub fn closed(&self, now: u128, updates: &mut Vec<MetricUpdate>)
        ensures
            metrics::metric_views(final(updates)@) == metrics::metric_views(old(updates)@).push(
                MetricView::RecordDuration {
                    name: "sse_session_duration_seconds"@,
                    labels: Seq::empty(),
                    nanos: if self.start <= now {
                        (now - self.start) as u128
                    } else {
                        0
                    },
                },
            ).push(MetricView::GaugeDown { name: "active_connections_number"@ }),
    {
        let nanos: u128 = if self.start <= now {
            now - self.start
        } else {
            0
        };
        let labels: Vec<(String, String)> = Vec::new();
        assert(metrics::label_views(labels@) =~= Seq::<(Seq<char>, Seq<char>)>::empty());
        push_update(
            updates,
            MetricUpdate::RecordDuration {
                name: "sse_session_duration_seconds".to_owned(),
                labels,
                nanos,
            },
        );
        push_update(
            updates,
            MetricUpdate::GaugeDown { name: "active_connections_number".to_owned() },
        );
    }
}

/// A stream that was opened and closed leaves the number of active connections
/// as it was, however many messages went through it.
pub proof fn law_connections_balance(
    before: Seq<metrics::MetricView>,
    between: Seq<metrics::MetricView>,
    duration: metrics::MetricView,
)
    requires
        forall|i: int|
            0 <= i < between.len() ==> #[trigger] between[i] == (MetricView::Count {
                name: "messages_sent_to_clients_total"@,
                labels: Seq::empty(),
            }),
        duration is RecordDuration,
    ensures
        ({
            let gauge = "active_connections_number"@;
            let opened = before.push(MetricView::GaugeUp { name: gauge });
            let closed = (opened + between).push(duration).push(
                MetricView::GaugeDown { name: gauge },
            );
            &&& metrics::gauge_change(opened, gauge) == metrics::gauge_change(before, gauge) + 1
            &&& metrics::gauge_change(closed, gauge) == metrics::gauge_change(before, gauge)
        }),
{
    let gauge = "active_connections_number"@;
    let opened = before.push(MetricView::GaugeUp { name: gauge });
    metrics::lemma_gauge_push(before, MetricView::GaugeUp { name: gauge }, gauge);
    lemma_counts_move_no_gauge(opened, between, gauge);
    metrics::lemma_gauge_push(opened + between, duration, gauge);
    metrics::lemma_gauge_push(
        (opened + between).push(duration),
        MetricView::GaugeDown { name: gauge },
        gauge,
    );
}

proof fn lemma_counts_move_no_gauge(
    before: Seq<metrics::MetricView>,
    between: Seq<metrics::MetricView>,
    gauge: Seq<char>,
)
    requires
        forall|i: int| 0 <= i < between.len() ==> #[trigger] between[i] is Count,
    ensures
        metrics::gauge_change(before + between, gauge) == metrics::gauge_change(before, gauge),
    decreases between.len(),
{
    if between.len() == 0 {
        assert(before + between =~= before);
    } else {
        lemma_counts_move_no_gauge(before, between.drop_last(), gauge);
        assert(before + between =~= (before + between.drop_last()).push(between.last()));
        assert(between[between.len() - 1] is Count);
        metrics::lemma_gauge_push(before + between.drop_last(), between.last(), gauge);
    }
}

} // verus!
