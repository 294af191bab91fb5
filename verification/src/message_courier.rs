//! The courier that brings live messages to the subscribers.

use crate::metrics;
use crate::metrics::{push_update, MetricUpdate, MetricView};
use crate::models::{TonEvent, TonEventView};
use crate::storage::{EntryPayload, EntryPayloadView};
use crate::text;
use tokio::sync::mpsc::{UnboundedReceiver, UnboundedSender};
use vstd::hash_map::*;
use vstd::prelude::*;
use vstd::string::*;

verus! {

broadcast use vstd::hash_map::group_hash_map_axioms;

#[verifier::external_type_specification]
#[verifier::external_body]
#[verifier::reject_recursive_types(T)]
pub struct ExUnboundedSender<T>(UnboundedSender<T>);

#[verifier::external_type_specification]
#[verifier::external_body]
#[verifier::reject_recursive_types(T)]
pub struct ExUnboundedReceiver<T>(UnboundedReceiver<T>);

/// The events that a channel took from this sender, in order. The courier keeps
/// its senders to itself, so these are all events that go through the channel.
pub uninterp spec fn handed_over(tx: UnboundedSender<TonEvent>) -> Seq<TonEventView>;

/// Whether `rx` is the receiving end of the channel that `tx` sends on. A value
/// of `rx` stands for the receiving end, whatever waits there.
pub uninterp spec fn receives_from(
    rx: UnboundedReceiver<TonEvent>,
    tx: UnboundedSender<TonEvent>,
) -> bool;

/// Whether the receiving end of the channel was gone when the next event was
/// sent through this sender.
pub uninterp spec fn receiver_gone(tx: UnboundedSender<TonEvent>) -> bool;

/// `tokio::sync::mpsc::unbounded_channel`: the two ends of a new channel. It
/// has taken nothing yet, and it has this one receiving end. The senders of the
/// subscriptions that are there already send on other channels.
#[verifier::external_body]
fn event_channel(subscriptions: &Vec<ClientSubscription>) -> (r: (
    UnboundedSender<TonEvent>,
    UnboundedReceiver<TonEvent>,
))
    ensures
        forall|i: int|
            0 <= i < subscriptions@.len() ==> !receives_from(
                r.1,
                (#[trigger] subscriptions@[i]).tx,
            ),
        handed_over(r.0) == Seq::<TonEventView>::empty(),
        forall|rx: UnboundedReceiver<TonEvent>|
            #[trigger] receives_from(rx, r.0) <==> rx == r.1,
{
    tokio::sync::mpsc::unbounded_channel()
}

/// `tokio::sync::mpsc::UnboundedSender::send`: hands an event to the channel,
/// without waiting. The channel takes it, after all that it took before, or,
/// only where the receiving end is gone, gives it back. When it goes is up to
/// whoever holds it: no clause says. The sender stays one of the same channel.
#[verifier::external_body]
fn send_event(tx: &mut UnboundedSender<TonEvent>, event: TonEvent) -> (r: Result<(), TonEvent>)
    ensures
        r is Ok ==> handed_over(*final(tx)) == handed_over(*old(tx)).push(event@),
        r is Err ==> r->Err_0 == event && *final(tx) == *old(tx),
        r is Err ==> receiver_gone(*old(tx)),
        forall|rx: UnboundedReceiver<TonEvent>|
            #[trigger] receives_from(rx, *final(tx)) == receives_from(rx, *old(tx)),
{
    match tx.send(event) {
        Ok(()) => Ok(()),
        Err(e) => Err(e.0),
    }
}

/// A subscriber to the messages of one client.
#[derive(Debug)]
struct ClientSubscription {
    client_id: String,
    /// The way to reach it.
    tx: UnboundedSender<TonEvent>,
    /// When the last message was sent to it, or when it was registered, in
    /// nanoseconds since the courier started.
    last_message_at: u128,
}

/// What is known of a subscriber.
pub struct Subscriber {
    pub tx: UnboundedSender<TonEvent>,
    pub last_message_at: u128,
}

/// How much time passed from `since` to `now`; none where `since` comes later.
pub open spec fn elapsed(since: u128, now: u128) -> int {
    if since <= now {
        now - since
    } else {
        0
    }
}

impl Subscriber {
    /// Whether the subscriber got a message, or was registered, less than `ttl`
    /// ago.
    pub open spec fn is_active(self, now: u128, ttl: u128) -> bool {
        elapsed(self.last_message_at, now) < ttl
    }
}

/// The clients whose subscribers are not active.
pub open spec fn inactive_ids(
    subscribers: Map<Seq<char>, Subscriber>,
    now: u128,
    ttl: u128,
) -> Set<Seq<char>> {
    subscribers.dom().filter(|id: Seq<char>| !subscribers[id].is_active(now, ttl))
}

/// The subscribers once a message for a client was sent or could not be sent.
pub open spec fn after_sending(
    subscribers: Map<Seq<char>, Subscriber>,
    client_id: Seq<char>,
    sent: bool,
    now: u128,
) -> Map<Seq<char>, Subscriber> {
    if sent {
        subscribers.insert(
            client_id,
            Subscriber { tx: subscribers[client_id].tx, last_message_at: now },
        )
    } else {
        subscribers.remove(client_id)
    }
}

/// Something that happens to the subscribers.
pub enum CourierStep {
    /// Somebody subscribes to a client's messages, and receives them from `rx`.
    Registered { client_id: Seq<char>, rx: UnboundedReceiver<TonEvent>, now: u128 },
    /// An event is sent to the subscriber of its recipient.
    Sent { event: TonEventView, now: u128 },
    /// An event is not sent: the receiving end of the subscriber of its
    /// recipient is gone, and the subscriber is dropped.
    Gone { event: TonEventView },
    /// Subscribers that are not active are dropped.
    Cleaned { now: u128, ttl: u128 },
}

/// Whether a step leads from some subscribers to others.
pub open spec fn leads_to(
    before: Map<Seq<char>, Subscriber>,
    step: CourierStep,
    after: Map<Seq<char>, Subscriber>,
) -> bool {
    match step {
        CourierStep::Registered { client_id, rx, now } => {
            let subscriber = after[client_id];
            &&& after == before.insert(client_id, subscriber)
            &&& subscriber.last_message_at == now
            &&& forall|id: Seq<char>| #[trigger]
                before.contains_key(id) ==> !receives_from(rx, before[id].tx)
            &&& handed_over(subscriber.tx) == Seq::<TonEventView>::empty()
            &&& forall|other: UnboundedReceiver<TonEvent>|
                #[trigger] receives_from(other, subscriber.tx) <==> other == rx
        },
        CourierStep::Sent { event, now } => {
            let tx = after[event.to].tx;
            &&& before.contains_key(event.to)
            &&& after == before.insert(event.to, Subscriber { tx, last_message_at: now })
            &&& handed_over(tx) == handed_over(before[event.to].tx).push(event)
            &&& forall|rx: UnboundedReceiver<TonEvent>|
                #[trigger] receives_from(rx, tx) == receives_from(rx, before[event.to].tx)
        },
        CourierStep::Gone { event } => {
            &&& before.contains_key(event.to)
            &&& receiver_gone(before[event.to].tx)
            &&& after == before.remove(event.to)
        },
        CourierStep::Cleaned { now, ttl } => {
            after == before.remove_keys(inactive_ids(before, now, ttl))
        },
    }
}

/// Who is subscribed to which client's messages.
pub struct RedisMessageCourier {
    subscriptions: Vec<ClientSubscription>,
    /// Where the subscription to each client stands in `subscriptions`.
    positions: StringHashMap<usize>,
    /// How long a subscriber is kept that gets no messages, in nanoseconds.
    client_without_messages_ttl: u128,
}

impl View for RedisMessageCourier {
    type V = Map<Seq<char>, Subscriber>;

    closed spec fn view(&self) -> Map<Seq<char>, Subscriber> {
        Map::new(
            |id: Seq<char>| self.positions@.contains_key(id),
            |id: Seq<char>|
                {
                    let subscription = self.subscriptions@[self.positions@[id] as int];
                    Subscriber {
                        tx: subscription.tx,
                        last_message_at: subscription.last_message_at,
                    }
                },
        )
    }
}

/// Why an entry of the stream of all messages is not processed.
#[derive(Debug)]
pub enum StreamEventError {
    /// The entry has no event field.
    MissingField,
    /// The event field is not UTF-8; the text says why.
    NotUtf8(String),
    /// The event field is not the text of an event; the text says why.
    Malformed(String),
}

impl StreamEventError {
    /// What is logged.
    pub open spec fn text(self) -> Seq<char> {
        match self {
            StreamEventError::MissingField => "live stream entry doesn't contain event field"@,
            StreamEventError::NotUtf8(reason) => reason@,
            StreamEventError::Malformed(reason) => reason@,
        }
    }

    /// What is logged.
    pub fn message(self) -> (r: String)
        ensures
            r@ == self.text(),
    {
        match self {
            StreamEventError::MissingField => "live stream entry doesn't contain event field".to_owned(),
            StreamEventError::NotUtf8(reason) => reason,
            StreamEventError::Malformed(reason) => reason,
        }
    }
}

/// Whether `e` says what is wrong with an entry that holds no event.
pub open spec fn is_fault_of(e: StreamEventError, payload: EntryPayloadView) -> bool {
    match payload {
        EntryPayloadView::Missing => e is MissingField,
        EntryPayloadView::NotUtf8(reason) => e is NotUtf8 && e->NotUtf8_0@ == reason,
        EntryPayloadView::Malformed(reason) => e is Malformed && e->Malformed_0@ == reason,
        EntryPayloadView::Event(_) => false,
    }
}

/// What became of an event.
#[derive(Debug)]
pub enum Delivery {
    /// Nobody is subscribed to its recipient's messages.
    NoSubscriber,
    /// It was sent to the subscriber.
    Sent,
    /// The subscriber is gone. The event was not sent.
    Gone(TonEvent),
}

impl RedisMessageCourier {
    /// How long a subscriber is kept that gets no messages, in nanoseconds.
    pub closed spec fn ttl(&self) -> u128 {
        self.client_without_messages_ttl
    }

    /// Whether `positions` says where the subscriptions stand.
    pub closed spec fn wf(&self) -> bool {
        &&& forall|i: int|
            0 <= i < self.subscriptions@.len() ==> {
                let id = (#[trigger] self.subscriptions@[i]).client_id@;
                self.positions@.contains_key(id) && self.positions@[id] == i
            }
        &&& forall|id: Seq<char>| #[trigger]
            self.positions@.contains_key(id) ==> self.positions@[id] < self.subscriptions@.len()
                && self.subscriptions@[self.positions@[id] as int].client_id@ == id
    }

    /// A courier without subscribers.
    pub fn new(client_without_messages_ttl_sec: u64) -> (r: Self)
        ensures
            r.wf(),
            r@ == Map::<Seq<char>, Subscriber>::empty(),
            r.ttl() == client_without_messages_ttl_sec * 1_000_000_000,
    {
        let r: Self = RedisMessageCourier {
            subscriptions: Vec::new(),
            positions: StringHashMap::new(),
            client_without_messages_ttl: client_without_messages_ttl_sec as u128 * 1_000_000_000,
        };
        assert(r@ =~= Map::<Seq<char>, Subscriber>::empty());
        r
    }

    /// How many clients are subscribed to.
    pub fn len(&self) -> (r: usize)
        ensures
            r == self@.dom().len(),
    {
        assert(self@.dom() =~= self.positions@.dom());
        self.positions.len()
    }

    /// Subscribes to a client's messages. A subscriber that was there before is
    /// replaced.
    fn subscribe(&mut self, client_id: String, tx: UnboundedSender<TonEvent>, now: u128)
        requires
            old(self).wf(),
        ensures
            final(self).wf(),
            final(self).ttl() == old(self).ttl(),
            final(self)@ == old(self)@.insert(client_id@, Subscriber { tx, last_message_at: now }),
    {
        let known: Option<usize> = match self.positions.get(client_id.as_str()) {
            Some(i) => Some(*i),
            None => None,
        };
        let position: usize = match known {
            Some(i) => i,
            None => self.subscriptions.len(),
        };
        let subscription: ClientSubscription = ClientSubscription {
            client_id: client_id.clone(),
            tx,
            last_message_at: now,
        };
        if position < self.subscriptions.len() {
            self.subscriptions.set(position, subscription);
        } else {
            self.subscriptions.push(subscription);
        }
        self.positions.insert(client_id, position);
        assert(self@ =~= old(self)@.insert(client_id@, Subscriber { tx, last_message_at: now }));
    }

    /// Whether somebody is subscribed to a client's messages.
    pub fn is_subscribed(&self, client_id: &String) -> (r: bool)
        ensures
            r == self@.contains_key(client_id@),
    {
        self.positions.contains_key(client_id.as_str())
    }

    /// Drops the subscription at a position. The last subscription takes its
    /// place.
    fn remove_at(&mut self, position: usize) -> (r: ClientSubscription)
        requires
            old(self).wf(),
            position < old(self).subscriptions@.len(),
        ensures
            final(self).wf(),
            final(self).ttl() == old(self).ttl(),
            r == old(self).subscriptions@[position as int],
            final(self).subscriptions@ == old(self).subscriptions@.update(
                position as int,
                old(self).subscriptions@.last(),
            ).drop_last(),
            final(self)@ == old(self)@.remove(r.client_id@),
    {
        let removed: ClientSubscription = self.subscriptions.swap_remove(position);
        self.positions.remove(removed.client_id.as_str());
        if position < self.subscriptions.len() {
            self.positions.insert(self.subscriptions[position].client_id.clone(), position);
        }
        proof {
            let before = old(self).subscriptions@;
            assert(before.last() == before[before.len() - 1]);
            assert(self@ =~= old(self)@.remove(removed.client_id@));
        }
        removed
    }

    /// Takes note of what became of a message for a client: where it was sent
    /// at `now`, the subscriber is active; where it could not be sent, nobody
    /// is there any more.
    pub fn message_sent(&mut self, client_id: &String, sent: bool, now: u128)
        requires
            old(self).wf(),
            old(self)@.contains_key(client_id@),
        ensures
            final(self).wf(),
            final(self).ttl() == old(self).ttl(),
            final(self)@ == after_sending(old(self)@, client_id@, sent, now),
    {
        let position: usize = match self.positions.get(client_id.as_str()) {
            Some(i) => *i,
            None => {
                return;
            },
        };
        if sent {
            self.subscriptions[position].last_message_at = now;
            assert(self@ =~= after_sending(old(self)@, client_id@, sent, now));
        } else {
            self.remove_at(position);
        }
    }

    /// Drops the subscribers that are not active, and gives the clients that
    /// they were subscribed to.
    pub fn cleanup_inactive_clients(
        &mut self,
        now: u128,
        updates: &mut Vec<MetricUpdate>,
    ) -> (r: Vec<String>)
        requires
            old(self).wf(),
        ensures
            metrics::metric_views(final(updates)@) == metrics::metric_views(old(updates)@).push(
                MetricView::GaugeSet {
                    name: "active_tracked_client_ids"@,
                    value: old(self)@.dom().len() as usize,
                },
            ),
            final(self).wf(),
            final(self).ttl() == old(self).ttl(),
            leads_to(
                old(self)@,
                CourierStep::Cleaned { now, ttl: old(self).ttl() },
                final(self)@,
            ),
            text::texts(r@).no_duplicates(),
            text::texts(r@).to_set() == inactive_ids(old(self)@, now, old(self).ttl()),
    {
        push_update(
            updates,
            MetricUpdate::GaugeSet {
                name: "active_tracked_client_ids".to_owned(),
                value: self.len(),
            },
        );
        let mut removed: Vec<String> = Vec::new();
        let mut i: usize = 0;
        while i < self.subscriptions.len()
            invariant
                self.wf(),
                self.ttl() == old(self).ttl(),
                i <= self.subscriptions@.len(),
                forall|j: int|
                    0 <= j < i ==> elapsed(
                        (#[trigger] self.subscriptions@[j]).last_message_at,
                        now,
                    ) < self.ttl(),
                forall|k: int|
                    0 <= k < removed@.len() ==> {
                        let id = #[trigger] text::texts(removed@)[k];
                        !self@.contains_key(id) && inactive_ids(
                            old(self)@,
                            now,
                            old(self).ttl(),
                        ).contains(id)
                    },
                text::texts(removed@).no_duplicates(),
                forall|id: Seq<char>| #[trigger]
                    self@.contains_key(id) ==> old(self)@.contains_key(id) && self@[id]
                        == old(self)@[id],
                forall|id: Seq<char>| #[trigger]
                    old(self)@.contains_key(id) && !self@.contains_key(id) ==> text::texts(
                        removed@,
                    ).contains(id),
            decreases self.subscriptions@.len() - i,
        {
            let since: u128 = self.subscriptions[i].last_message_at;
            let passed: u128 = if since <= now {
                now - since
            } else {
                0
            };
            if passed < self.client_without_messages_ttl {
                i = i + 1;
            } else {
                let ghost before = text::texts(removed@);
                let ghost id = self.subscriptions@[i as int].client_id@;
                let ghost courier = self@;
                assert(courier.contains_key(id));
                let subscription: ClientSubscription = self.remove_at(i);
                removed.push(subscription.client_id);
                proof {
                    let after = text::texts(removed@);
                    assert(after =~= before.push(id));
                    assert forall|other: Seq<char>| #[trigger]
                        old(self)@.contains_key(other) && !self@.contains_key(
                            other,
                        ) implies after.contains(other) by {
                        if other == id {
                            assert(after.last() == id);
                        } else {
                            assert(!courier.contains_key(other));
                            assert(after[before.index_of(other)] == other);
                        }
                    }
                }
            }
        }
        proof {
            let gone = inactive_ids(old(self)@, now, old(self).ttl());
            let ids = text::texts(removed@);
            assert forall|id: Seq<char>| ids.to_set().contains(id) implies gone.contains(id) by {
                assert(ids[ids.index_of(id)] == id);
            }
            assert forall|id: Seq<char>| gone.contains(id) implies ids.to_set().contains(id) by {
                if self@.contains_key(id) {
                    let position = self.positions@[id] as int;
                    assert(self.subscriptions@[position].last_message_at
                        == self@[id].last_message_at);
                }
            }
            assert(ids.to_set() =~= gone);
            assert(self@ =~= old(self)@.remove_keys(gone));
        }
        removed
    }

    /// Decides what becomes of an entry of the stream of all messages: gives
    /// the event where somebody is subscribed to its recipient, and nothing
    /// where nobody is. An entry that holds no event is an error.
    pub fn route(&self, payload: EntryPayload) -> (r: Result<Option<TonEvent>, StreamEventError>)
        ensures
            match payload@ {
                EntryPayloadView::Event(event) => {
                    &&& r is Ok
                    &&& r->Ok_0 is Some <==> self@.contains_key(event.to)
                    &&& r->Ok_0 is Some ==> r->Ok_0->0@ == event
                },
                _ => r is Err && is_fault_of(r->Err_0, payload@),
            },
    {
        match payload {
            EntryPayload::Event(event) => {
                if self.is_subscribed(&event.to) {
                    Ok(Some(event))
                } else {
                    Ok(None)
                }
            },
            EntryPayload::Missing => Err(StreamEventError::MissingField),
            EntryPayload::NotUtf8(reason) => Err(StreamEventError::NotUtf8(reason)),
            EntryPayload::Malformed(reason) => Err(StreamEventError::Malformed(reason)),
        }
    }

    /// Subscribes to a client's messages, and gives the end of a new channel
    /// from which they can be received. A subscriber that was there before is
    /// replaced.
    pub fn register_client(&mut self, client_id: String, now: u128) -> (r: UnboundedReceiver<
        TonEvent,
    >)
        requires
            old(self).wf(),
        ensures
            final(self).wf(),
            final(self).ttl() == old(self).ttl(),
            leads_to(
                old(self)@,
                CourierStep::Registered { client_id: client_id@, rx: r, now },
                final(self)@,
            ),
    {
        let (tx, rx): (UnboundedSender<TonEvent>, UnboundedReceiver<TonEvent>) = event_channel(
            &self.subscriptions,
        );
        self.subscribe(client_id, tx, now);
        rx
    }

    /// Sends the event that an entry of the stream of all messages holds to the
    /// subscriber of its recipient, if there is one. A subscriber that got it is
    /// active from `now`; one that is gone is dropped. An entry that holds no
    /// event is an error, and changes nothing.
    pub fn process_stream_event(&mut self, payload: EntryPayload, now: u128) -> (r: Result<
        Delivery,
        StreamEventError,
    >)
        requires
            old(self).wf(),
        ensures
            final(self).wf(),
            final(self).ttl() == old(self).ttl(),
            match payload@ {
                EntryPayloadView::Event(event) => {
                    &&& r is Ok
                    &&& r->Ok_0 is NoSubscriber <==> !old(self)@.contains_key(event.to)
                    &&& r->Ok_0 is NoSubscriber ==> final(self)@ == old(self)@
                    &&& r->Ok_0 is Sent ==> leads_to(
                        old(self)@,
                        CourierStep::Sent { event, now },
                        final(self)@,
                    )
                    &&& r->Ok_0 is Gone ==> r->Ok_0->Gone_0@ == event && leads_to(
                        old(self)@,
                        CourierStep::Gone { event },
                        final(self)@,
                    )
                },
                _ => r is Err && is_fault_of(r->Err_0, payload@) && final(self)@ == old(self)@,
            },
    {
        let event: TonEvent = match self.route(payload) {
            Ok(Some(event)) => event,
            Ok(None) => {
                return Ok(Delivery::NoSubscriber);
            },
            Err(e) => {
                return Err(e);
            },
        };
        let to: String = event.to.clone();
        let position: usize = match self.positions.get(to.as_str()) {
            Some(i) => *i,
            None => {
                return Ok(Delivery::NoSubscriber);
            },
        };
        let sent: Result<(), TonEvent> = send_event(&mut self.subscriptions[position].tx, event);
        proof {
            let tx = self.subscriptions@[position as int].tx;
            let since = old(self)@[to@].last_message_at;
            assert(self@ =~= old(self)@.insert(to@, Subscriber { tx, last_message_at: since }));
        }
        match sent {
            Ok(_) => {
                self.message_sent(&to, true, now);
                assert(self@ =~= old(self)@.insert(
                    to@,
                    Subscriber { tx: self@[to@].tx, last_message_at: now },
                ));
                Ok(Delivery::Sent)
            },
            Err(event) => {
                self.message_sent(&to, false, now);
                assert(self@ =~= old(self)@.remove(to@));
                Ok(Delivery::Gone(event))
            },
        }
    }
}

/// Where a courier stands in the stream before it has read from it: at its end.
pub const STREAM_END: &'static str = "$";

/// How long a read waits for new entries, in milliseconds.
pub const READ_BLOCK_MS: usize = 1000;

/// How many entries a read gives at most.
pub const READ_COUNT: usize = 500;

/// How long a courier waits before it tries to connect again, in seconds.
pub const RECONNECT_PAUSE_SEC: u64 = 1;

/// An entry of the stream of all messages.
#[derive(Debug)]
pub struct StreamEntry {
    pub id: String,
    /// The event field, if the entry has one.
    pub event: Option<Vec<u8>>,
}

/// What a [`StreamEntry`] says.
pub struct StreamEntryView {
    pub id: Seq<char>,
    pub event: Option<Seq<u8>>,
}

impl View for StreamEntry {
    type V = StreamEntryView;

    open spec fn view(&self) -> StreamEntryView {
        StreamEntryView {
            id: self.id@,
            event: match self.event {
                Some(bytes) => Some(bytes@),
                None => None,
            },
        }
    }
}

/// What some entries say.
pub open spec fn stream_views(entries: Seq<StreamEntry>) -> Seq<StreamEntryView> {
    entries.map_values(|e: StreamEntry| e@)
}

/// The entries of a reply, one stream after the other.
pub open spec fn all_entries(streams: Seq<Vec<StreamEntry>>) -> Seq<StreamEntry>
    decreases streams.len(),
{
    if streams.len() == 0 {
        Seq::empty()
    } else {
        all_entries(streams.drop_last()) + streams.last()@
    }
}

/// How many entries the first `s` streams of a reply have.
pub open spec fn length_before(streams: Seq<Vec<StreamEntry>>, s: int) -> int
    decreases s,
{
    if s <= 0 {
        0
    } else {
        length_before(streams, s - 1) + streams[s - 1]@.len()
    }
}

proof fn lemma_length_before(streams: Seq<Vec<StreamEntry>>, more: Seq<Vec<StreamEntry>>, s: int)
    requires
        0 <= s <= streams.len(),
        s <= more.len(),
        forall|i: int| 0 <= i < s ==> streams[i] == more[i],
    ensures
        length_before(streams, s) == length_before(more, s),
    decreases s,
{
    if s > 0 {
        lemma_length_before(streams, more, s - 1);
        assert(streams[s - 1] == more[s - 1]);
    }
}

proof fn lemma_length_of_reply(streams: Seq<Vec<StreamEntry>>)
    ensures
        all_entries(streams).len() == length_before(streams, streams.len() as int),
    decreases streams.len(),
{
    if streams.len() > 0 {
        lemma_length_of_reply(streams.drop_last());
        lemma_length_before(streams.drop_last(), streams, streams.len() - 1);
    }
}

proof fn lemma_place_in_reply(streams: Seq<Vec<StreamEntry>>, s: int, j: int)
    requires
        0 <= s < streams.len(),
        0 <= j < streams[s]@.len(),
    ensures
        0 <= length_before(streams, s) + j < all_entries(streams).len(),
        all_entries(streams)[length_before(streams, s) + j] == streams[s]@[j],
    decreases streams.len(),
{
    let fewer = streams.drop_last();
    lemma_length_of_reply(fewer);
    lemma_length_before(fewer, streams, streams.len() - 1);
    if s < streams.len() - 1 {
        lemma_place_in_reply(fewer, s, j);
        lemma_length_before(fewer, streams, s);
    }
}

/// What a courier does with the stream.
#[derive(Debug, Clone, Copy, PartialEq, Eq, Structural)]
pub enum StreamPhase {
    /// It gets a connection.
    Connecting,
    /// It waits before it tries to get a connection again.
    Pausing,
    /// It reads the entries after the last one that it processed.
    Reading,
    /// It processes the entries that it read, one by one.
    Processing,
}

/// The state of a courier that reads a stream.
pub struct StreamState {
    pub phase: StreamPhase,
    /// The last entry that was processed.
    pub last_event_id: Seq<char>,
    /// The entries that were read and not processed yet.
    pub pending: Seq<StreamEntryView>,
}

impl StreamState {
    /// The state of a courier that has not read yet.
    pub open spec fn initial() -> StreamState {
        StreamState {
            phase: StreamPhase::Connecting,
            last_event_id: "$"@,
            pending: Seq::empty(),
        }
    }

    /// The state in another phase.
    pub open spec fn enters(self, phase: StreamPhase) -> StreamState {
        StreamState { phase, ..self }
    }

    /// The state once some entries were read.
    pub open spec fn reads(self, entries: Seq<StreamEntryView>) -> StreamState {
        StreamState {
            phase: if entries.len() == 0 {
                StreamPhase::Reading
            } else {
                StreamPhase::Processing
            },
            pending: entries,
            ..self
        }
    }

    /// The state once the first pending entry was processed.
    pub open spec fn processes(self) -> StreamState {
        let entry = self.pending.first();
        StreamState { last_event_id: entry.id, ..self }.reads(self.pending.drop_first())
    }

    /// The state once the first `n` pending entries were processed.
    pub open spec fn processes_many(self, n: nat) -> StreamState
        decreases n,
    {
        if n == 0 {
            self
        } else {
            self.processes_many((n - 1) as nat).processes()
        }
    }
}

/// What a courier is to do next with a stream.
#[derive(Debug)]
pub enum StreamAction {
    /// Get a connection.
    Connect,
    /// Wait for some seconds.
    Pause { seconds: u64 },
    /// `XREAD COUNT count BLOCK block_ms STREAMS stream after`
    Read { stream: String, after: String, block_ms: usize, count: usize },
    /// Process the current entry.
    Process,
}

/// What a [`StreamAction`] says.
pub enum StreamActionView {
    Connect,
    Pause { seconds: u64 },
    Read { stream: Seq<char>, after: Seq<char>, block_ms: usize, count: usize },
    Process,
}

impl View for StreamAction {
    type V = StreamActionView;

    open spec fn view(&self) -> StreamActionView {
        match self {
            StreamAction::Connect => StreamActionView::Connect,
            StreamAction::Pause { seconds } => StreamActionView::Pause { seconds: *seconds },
            StreamAction::Read { stream, after, block_ms, count } => StreamActionView::Read {
                stream: stream@,
                after: after@,
                block_ms: *block_ms,
                count: *count,
            },
            StreamAction::Process => StreamActionView::Process,
        }
    }
}

impl StreamState {
    /// What is to be done next with a stream.
    pub open spec fn action(self, stream: Seq<char>) -> StreamActionView {
        match self.phase {
            StreamPhase::Connecting => StreamActionView::Connect,
            StreamPhase::Pausing => StreamActionView::Pause { seconds: RECONNECT_PAUSE_SEC },
            StreamPhase::Reading => StreamActionView::Read {
                stream,
                after: self.last_event_id,
                block_ms: READ_BLOCK_MS,
                count: READ_COUNT,
            },
            StreamPhase::Processing => StreamActionView::Process,
        }
    }
}

/// A courier that reads a stream.
pub struct StreamReader {
    phase: StreamPhase,
    last_event_id: String,
    entries: Vec<StreamEntry>,
    /// How many of the entries were processed.
    processed: usize,
}

impl View for StreamReader {
    type V = StreamState;

    closed spec fn view(&self) -> StreamState {
        StreamState {
            phase: self.phase,
            last_event_id: self.last_event_id@,
            pending: stream_views(self.entries@).skip(self.processed as int),
        }
    }
}

impl StreamReader {
    /// Whether there are entries to process where, and only where, the courier
    /// processes entries.
    pub closed spec fn wf(&self) -> bool {
        &&& self.processed <= self.entries@.len()
        &&& self.phase == StreamPhase::Processing <==> self.processed < self.entries@.len()
    }

    /// A courier that has not read yet.
    pub fn new() -> (r: Self)
        ensures
            r.wf(),
            r@ == StreamState::initial(),
    {
        let r: StreamReader = StreamReader {
            phase: StreamPhase::Connecting,
            last_event_id: STREAM_END.to_owned(),
            entries: Vec::new(),
            processed: 0,
        };
        assert(r@.pending =~= Seq::<StreamEntryView>::empty());
        r
    }

    /// What is to be done next with a stream.
    pub fn next_action(&self, stream: &str) -> (r: StreamAction)
        ensures
            r@ == self@.action(stream@),
    {
        match self.phase {
            StreamPhase::Connecting => StreamAction::Connect,
            StreamPhase::Pausing => StreamAction::Pause { seconds: RECONNECT_PAUSE_SEC },
            StreamPhase::Reading => StreamAction::Read {
                stream: stream.to_owned(),
                after: self.last_event_id.clone(),
                block_ms: READ_BLOCK_MS,
                count: READ_COUNT,
            },
            StreamPhase::Processing => StreamAction::Process,
        }
    }

    /// Goes on once a connection was got or not.
    pub fn connected(&mut self, got: bool)
        requires
            old(self).wf(),
            old(self)@.phase == StreamPhase::Connecting,
        ensures
            final(self).wf(),
            final(self)@ == old(self)@.enters(
                if got {
                    StreamPhase::Reading
                } else {
                    StreamPhase::Pausing
                },
            ),
    {
        self.phase = if got {
            StreamPhase::Reading
        } else {
            StreamPhase::Pausing
        };
    }

    /// Goes on after the pause.
    pub fn paused(&mut self)
        requires
            old(self).wf(),
            old(self)@.phase == StreamPhase::Pausing,
        ensures
            final(self).wf(),
            final(self)@ == old(self)@.enters(StreamPhase::Connecting),
    {
        self.phase = StreamPhase::Connecting;
    }

    /// Goes on after a read that failed: gets a new connection, and reads on
    /// from where it was.
    pub fn read_failed(&mut self)
        requires
            old(self).wf(),
            old(self)@.phase == StreamPhase::Reading,
        ensures
            final(self).wf(),
            final(self)@ == old(self)@.enters(StreamPhase::Connecting),
    {
        self.phase = StreamPhase::Connecting;
    }

    /// Goes on with the entries that were read, for each stream that was read.
    pub fn replied(&mut self, streams: Vec<Vec<StreamEntry>>)
        requires
            old(self).wf(),
            old(self)@.phase == StreamPhase::Reading,
        ensures
            final(self).wf(),
            final(self)@ == old(self)@.reads(stream_views(all_entries(streams@))),
            final(self)@.last_event_id == old(self)@.last_event_id,
            final(self)@.pending.len() == length_before(streams@, streams@.len() as int),
            forall|s: int, j: int|
                0 <= s < streams@.len() && 0 <= j < streams@[s]@.len() ==> final(self)@.pending[
                length_before(streams@, s) + j] == (#[trigger] streams@[s]@[j])@,
    {
        let mut entries: Vec<StreamEntry> = Vec::new();
        for stream in it: streams
            invariant
                it.seq() == streams@,
                entries@ == all_entries(streams@.take(it.index())),
        {
            proof {
                assert(streams@.take(it.index() + 1).drop_last() =~= streams@.take(it.index()));
                assert(streams@.take(it.index() + 1).last() == stream);
            }
            let mut more: Vec<StreamEntry> = stream;
            entries.append(&mut more);
        }
        assert(streams@.take(streams@.len() as int) =~= streams@);
        self.phase = if entries.len() == 0 {
            StreamPhase::Reading
        } else {
            StreamPhase::Processing
        };
        self.entries = entries;
        self.processed = 0;
        assert(self@.pending =~= stream_views(all_entries(streams@)));
        proof {
            lemma_length_of_reply(streams@);
            assert forall|s: int, j: int|
                0 <= s < streams@.len() && 0 <= j < streams@[s]@.len() implies self@.pending[
            length_before(streams@, s) + j] == (#[trigger] streams@[s]@[j])@ by {
                lemma_place_in_reply(streams@, s, j);
            }
        }
    }

    /// The entry that is processed now.
    pub fn current(&self) -> (r: &StreamEntry)
        requires
            self.wf(),
            self@.phase == StreamPhase::Processing,
        ensures
            self@.pending.len() > 0,
            r@ == self@.pending.first(),
    {
        &self.entries[self.processed]
    }

    /// Goes on once the entry was processed, whether that failed or not.
    /// Failures are counted.
    pub fn processed(&mut self, failed: bool, updates: &mut Vec<MetricUpdate>)
        requires
            old(self).wf(),
            old(self)@.phase == StreamPhase::Processing,
        ensures
            final(self).wf(),
            final(self)@ == old(self)@.processes(),
            metrics::metric_views(final(updates)@) == if failed {
                metrics::metric_views(old(updates)@).push(
                    MetricView::Count {
                        name: "invalid_stream_events_total"@,
                        labels: Seq::empty(),
                    },
                )
            } else {
                metrics::metric_views(old(updates)@)
            },
    {
        if failed {
            let labels: Vec<(String, String)> = Vec::new();
            assert(metrics::label_views(labels@) =~= Seq::<(Seq<char>, Seq<char>)>::empty());
            push_update(
                updates,
                MetricUpdate::Count { name: "invalid_stream_events_total".to_owned(), labels },
            );
        }
        self.last_event_id = self.entries[self.processed].id.clone();
        assert(self.processed < self.entries.len());
        self.processed = self.processed + 1;
        if self.processed == self.entries.len() {
            self.phase = StreamPhase::Reading;
        }
        assert(self@.pending =~= old(self)@.pending.drop_first());
    }
}

/// Once some of the entries of a read were processed, those after them are
/// pending, in the order of the stream, and the courier stands at the last one
/// that was processed. Once all were, it reads on after the last one: no entry
/// is skipped, and none is processed twice.
pub proof fn law_no_entry_is_skipped(
    state: StreamState,
    entries: Seq<StreamEntryView>,
    n: nat,
)
    requires
        state.phase == StreamPhase::Reading,
        n <= entries.len(),
    ensures
        ({
            let after = state.reads(entries).processes_many(n);
            &&& after.pending == entries.skip(n as int)
            &&& after.phase == if n == entries.len() {
                StreamPhase::Reading
            } else {
                StreamPhase::Processing
            }
            &&& after.last_event_id == if n == 0 {
                state.last_event_id
            } else {
                entries[n - 1].id
            }
        }),
    decreases n,
{
    if n == 0 {
        assert(entries.skip(0) =~= entries);
    } else {
        law_no_entry_is_skipped(state, entries, (n - 1) as nat);
        assert(entries.skip(n - 1).drop_first() =~= entries.skip(n as int));
        assert(entries.skip(n - 1).first() == entries[n - 1]);
    }
}

/// A courier that loses its connection reads on from where it was, however
/// often it fails to get a new one.
pub proof fn law_outage_keeps_the_place(state: StreamState, failures: nat)
    requires
        state.phase == StreamPhase::Reading,
    ensures
        after_failures(state.enters(StreamPhase::Connecting), failures).enters(
            StreamPhase::Reading,
        ) == state,
    decreases failures,
{
    if failures > 0 {
        law_outage_keeps_the_place(state, (failures - 1) as nat);
    }
}

/// The state of a courier that failed to get a connection some times, and
/// paused after each failure.
pub open spec fn after_failures(state: StreamState, failures: nat) -> StreamState
    decreases failures,
{
    if failures == 0 {
        state
    } else {
        after_failures(state, (failures - 1) as nat).enters(StreamPhase::Pausing).enters(
            StreamPhase::Connecting,
        )
    }
}

/// All entries of all streams of a reply become pending, one stream after the
/// other, each in its order: the entry at `j` of the stream at `s` stands behind
/// all entries of the streams before it and the first `j` of its own, with its
/// id and its bytes. None is left out, and nothing else becomes pending.
pub proof fn law_reply_becomes_pending(
    state: StreamState,
    streams: Seq<Vec<StreamEntry>>,
    s: int,
    j: int,
)
    ensures
        ({
            let after = state.reads(stream_views(all_entries(streams)));
            let place = length_before(streams, s) + j;
            &&& after.pending.len() == length_before(streams, streams.len() as int)
            &&& streams.len() == 1 ==> after.pending.len() == streams[0]@.len()
            &&& 0 <= s < streams.len() && 0 <= j < streams[s]@.len() ==> {
                let entry = streams[s]@[j];
                &&& 0 <= place < after.pending.len()
                &&& after.pending[place].id == entry.id@
                &&& entry.event is Some ==> after.pending[place].event == Some(entry.event->0@)
                &&& entry.event is None ==> after.pending[place].event is None
            }
            &&& after.last_event_id == state.last_event_id
            &&& after.phase == if after.pending.len() == 0 {
                StreamPhase::Reading
            } else {
                StreamPhase::Processing
            }
        }),
{
    lemma_length_of_reply(streams);
    reveal_with_fuel(length_before, 2);
    if 0 <= s < streams.len() && 0 <= j < streams[s]@.len() {
        lemma_place_in_reply(streams, s, j);
    }
}

/// Processing takes the first pending entry away, keeps all others, and moves
/// the courier's place to it. The courier reads on once none is left.
pub proof fn law_processing_takes_the_first(state: StreamState, i: int)
    requires
        state.pending.len() > 0,
    ensures
        state.processes().last_event_id == state.pending[0].id,
        state.processes().pending.len() == state.pending.len() - 1,
        0 <= i < state.pending.len() - 1 ==> state.processes().pending[i] == state.pending[i + 1],
        state.processes().phase == if state.pending.len() == 1 {
            StreamPhase::Reading
        } else {
            StreamPhase::Processing
        },
{
}

/// A change of phase keeps the courier's place and what is pending. A courier
/// starts without a connection, at the end of the stream, with nothing pending.
pub proof fn law_phases(state: StreamState, phase: StreamPhase)
    ensures
        state.enters(phase).phase == phase,
        state.enters(phase).last_event_id == state.last_event_id,
        state.enters(phase).pending == state.pending,
        StreamState::initial().phase == StreamPhase::Connecting,
        StreamState::initial().last_event_id == seq!['$'],
        StreamState::initial().pending.len() == 0,
{
    reveal_strlit("$");
    assert("$"@ =~= seq!['$']);
}

/// What a courier does in each phase. It reads at most five hundred entries of
/// the stream that it is told, after its place, and waits a second for them. It
/// pauses for a second before it tries to connect again.
pub proof fn law_what_a_courier_does(state: StreamState, stream: Seq<char>)
    ensures
        state.phase == StreamPhase::Connecting ==> state.action(stream) is Connect,
        state.phase == StreamPhase::Pausing ==> state.action(stream) == (StreamActionView::Pause {
            seconds: 1,
        }),
        state.phase == StreamPhase::Reading ==> state.action(stream) == (StreamActionView::Read {
            stream,
            after: state.last_event_id,
            block_ms: 1000,
            count: 500,
        }),
        state.phase == StreamPhase::Processing ==> state.action(stream) is Process,
{
}

/// What entries of a stream, and actions, say is what they hold.
pub proof fn law_stream_views(
    entries: Seq<StreamEntry>,
    i: int,
    a: String,
    b: String,
    n: usize,
    m: usize,
    seconds: u64,
)
    ensures
        stream_views(entries).len() == entries.len(),
        0 <= i < entries.len() ==> {
            &&& stream_views(entries)[i].id == entries[i].id@
            &&& entries[i].event is Some ==> stream_views(entries)[i].event == Some(
                entries[i].event->0@,
            )
            &&& entries[i].event is None ==> stream_views(entries)[i].event is None
        },
        StreamAction::Connect@ == StreamActionView::Connect,
        (StreamAction::Pause { seconds })@ == (StreamActionView::Pause { seconds }),
        (StreamAction::Read { stream: a, after: b, block_ms: n, count: m })@ == (
        StreamActionView::Read { stream: a@, after: b@, block_ms: n, count: m }),
        StreamAction::Process@ == StreamActionView::Process,
{
}

/// Something that happens to a courier that reads a stream.
pub enum StreamStep {
    /// A connection was got or not.
    Connected { got: bool },
    /// The pause is over.
    Paused,
    /// A read failed.
    ReadFailed,
    /// A read gave some entries.
    Replied { entries: Seq<StreamEntryView> },
    /// The first pending entry was processed.
    Processed,
}

impl StreamState {
    /// Whether the step can happen in this state.
    pub open spec fn allows(self, step: StreamStep) -> bool {
        self.phase == match step {
            StreamStep::Connected { got } => StreamPhase::Connecting,
            StreamStep::Paused => StreamPhase::Pausing,
            StreamStep::ReadFailed => StreamPhase::Reading,
            StreamStep::Replied { entries } => StreamPhase::Reading,
            StreamStep::Processed => StreamPhase::Processing,
        }
    }

    /// The state once the step happened.
    pub open spec fn after(self, step: StreamStep) -> StreamState {
        match step {
            StreamStep::Connected { got } => self.enters(
                if got {
                    StreamPhase::Reading
                } else {
                    StreamPhase::Pausing
                },
            ),
            StreamStep::Paused => self.enters(StreamPhase::Connecting),
            StreamStep::ReadFailed => self.enters(StreamPhase::Connecting),
            StreamStep::Replied { entries } => self.reads(entries),
            StreamStep::Processed => self.processes(),
        }
    }

    /// The state once some steps happened.
    pub open spec fn after_all(self, steps: Seq<StreamStep>) -> StreamState
        decreases steps.len(),
    {
        if steps.len() == 0 {
            self
        } else {
            self.after_all(steps.drop_last()).after(steps.last())
        }
    }

    /// Whether the steps can happen, one after the other.
    pub open spec fn allows_all(self, steps: Seq<StreamStep>) -> bool
        decreases steps.len(),
    {
        steps.len() == 0 || {
            &&& self.allows_all(steps.drop_last())
            &&& self.after_all(steps.drop_last()).allows(steps.last())
        }
    }

    /// The entries that are processed in some steps, in order.
    pub open spec fn processed_in(self, steps: Seq<StreamStep>) -> Seq<StreamEntryView>
        decreases steps.len(),
    {
        if steps.len() == 0 {
            Seq::empty()
        } else {
            let before = self.processed_in(steps.drop_last());
            if steps.last() is Processed {
                before.push(self.after_all(steps.drop_last()).pending.first())
            } else {
                before
            }
        }
    }
}

/// The entries that the reads in some steps gave, in order.
pub open spec fn read_in(steps: Seq<StreamStep>) -> Seq<StreamEntryView>
    decreases steps.len(),
{
    if steps.len() == 0 {
        Seq::empty()
    } else {
        let before = read_in(steps.drop_last());
        match steps.last() {
            StreamStep::Replied { entries } => before + entries,
            _ => before,
        }
    }
}

/// Whatever sequence of reads and outages a courier goes through, every entry
/// that it reads is processed once, in order: those that are not processed yet
/// are pending. Where it reads, all were processed, and it asks for what comes
/// after the last of them.
pub proof fn law_every_entry_is_processed_once(steps: Seq<StreamStep>, stream: Seq<char>)
    requires
        StreamState::initial().allows_all(steps),
    ensures
        ({
            let state = StreamState::initial().after_all(steps);
            let done = StreamState::initial().processed_in(steps);
            &&& done + state.pending == read_in(steps)
            &&& state.phase == StreamPhase::Processing <==> state.pending.len() > 0
            &&& state.last_event_id == if done.len() == 0 {
                "$"@
            } else {
                done.last().id
            }
            &&& state.phase == StreamPhase::Reading ==> {
                &&& done == read_in(steps)
                &&& state.action(stream)->after == state.last_event_id
            }
        }),
    decreases steps.len(),
{
    let state = StreamState::initial().after_all(steps);
    let done = StreamState::initial().processed_in(steps);
    if steps.len() == 0 {
        assert(done + state.pending =~= read_in(steps));
    } else {
        let fewer = steps.drop_last();
        law_every_entry_is_processed_once(fewer, stream);
        let before = StreamState::initial().after_all(fewer);
        let done_before = StreamState::initial().processed_in(fewer);
        assert(state == before.after(steps.last()));
        match steps.last() {
            StreamStep::Replied { entries } => {
                assert(before.pending.len() == 0);
                assert(done_before + before.pending =~= done_before);
                assert(done + state.pending =~= read_in(steps));
            },
            StreamStep::Processed => {
                assert(before.pending =~= seq![before.pending.first()]
                    + before.pending.drop_first());
                assert(done + state.pending =~= done_before + before.pending);
            },
            _ => {},
        }
    }
    if state.phase == StreamPhase::Reading {
        assert(done + state.pending =~= done);
    }
}

/// An event that is sent is handed to the subscriber of its recipient, once, as
/// the last of all that it was handed, and to nobody else: for other clients
/// nothing changes, whatever becomes of the event.
pub proof fn law_event_goes_to_its_subscriber(
    before: Map<Seq<char>, Subscriber>,
    step: CourierStep,
    after: Map<Seq<char>, Subscriber>,
    event: TonEventView,
    now: u128,
    other: Seq<char>,
)
    requires
        leads_to(before, step, after),
        step == (CourierStep::Sent { event, now }) || step == (CourierStep::Gone { event }),
    ensures
        before.contains_key(event.to),
        step is Sent ==> {
            &&& after.contains_key(event.to)
            &&& after[event.to].last_message_at == now
            &&& handed_over(after[event.to].tx) == handed_over(before[event.to].tx).push(event)
            &&& forall|rx: UnboundedReceiver<TonEvent>|
                #[trigger] receives_from(rx, after[event.to].tx) == receives_from(
                    rx,
                    before[event.to].tx,
                )
        },
        step is Gone ==> !after.contains_key(event.to) && receiver_gone(before[event.to].tx),
        other != event.to ==> {
            &&& after.contains_key(other) == before.contains_key(other)
            &&& before.contains_key(other) ==> after[other] == before[other]
        },
{
}

/// Whether the steps lead through the given subscribers, one after the other.
pub open spec fn is_run(
    states: Seq<Map<Seq<char>, Subscriber>>,
    steps: Seq<CourierStep>,
) -> bool {
    &&& states.len() == steps.len() + 1
    &&& forall|i: int|
        0 <= i < steps.len() ==> leads_to(states[i], #[trigger] steps[i], states[i + 1])
}

/// The events for a client that are sent in some steps, in order.
pub open spec fn sent_to(steps: Seq<CourierStep>, client_id: Seq<char>) -> Seq<TonEventView>
    decreases steps.len(),
{
    if steps.len() == 0 {
        Seq::empty()
    } else {
        let before = sent_to(steps.drop_last(), client_id);
        match steps.last() {
            CourierStep::Sent { event, now } => if event.to == client_id {
                before.push(event)
            } else {
                before
            },
            _ => before,
        }
    }
}

/// Whoever registers for a client's messages receives all events for the client
/// that are sent from then on, each once and in order, and nobody else receives
/// them, until somebody else registers for them: as long as the subscription
/// stands, what was sent was handed to a sender that `rx` and no other end
/// receives from, and nothing else was.
pub proof fn law_receiver_gets_the_events(
    states: Seq<Map<Seq<char>, Subscriber>>,
    steps: Seq<CourierStep>,
    client_id: Seq<char>,
    rx: UnboundedReceiver<TonEvent>,
    now: u128,
)
    requires
        is_run(states, steps),
        steps.len() > 0,
        steps[0] == (CourierStep::Registered { client_id, rx, now }),
        forall|i: int|
            1 <= i < steps.len() && (#[trigger] steps[i]) is Registered
                ==> steps[i]->client_id != client_id,
        states.last().contains_key(client_id),
    ensures
        forall|other: UnboundedReceiver<TonEvent>|
            #[trigger] receives_from(other, states.last()[client_id].tx) <==> other == rx,
        handed_over(states.last()[client_id].tx) == sent_to(steps, client_id),
    decreases steps.len(),
{
    let n = steps.len();
    let last = steps[n - 1];
    let before = states[n - 1];
    assert(leads_to(before, last, states[n as int]));
    if n == 1 {
        assert(sent_to(steps.drop_last(), client_id) =~= Seq::<TonEventView>::empty());
        assert(sent_to(steps, client_id) =~= Seq::<TonEventView>::empty());
    } else {
        assert(before.contains_key(client_id));
        let fewer = steps.drop_last();
        assert forall|i: int| 0 <= i < fewer.len() implies leads_to(
            states.drop_last()[i],
            #[trigger] fewer[i],
            states.drop_last()[i + 1],
        ) by {
            assert(fewer[i] == steps[i]);
        }
        law_receiver_gets_the_events(states.drop_last(), fewer, client_id, rx, now);
    }
}

/// Whether no two subscribers share a receiving end.
pub open spec fn receivers_are_apart(subscribers: Map<Seq<char>, Subscriber>) -> bool {
    forall|a: Seq<char>, b: Seq<char>, rx: UnboundedReceiver<TonEvent>|
        subscribers.contains_key(a) && subscribers.contains_key(b) && #[trigger] receives_from(
            rx,
            subscribers[a].tx,
        ) && #[trigger] receives_from(rx, subscribers[b].tx) ==> a == b
}

/// No two subscribers ever share a receiving end: they do not where nobody is
/// subscribed, and no step changes that.
pub proof fn law_receivers_are_apart(
    states: Seq<Map<Seq<char>, Subscriber>>,
    steps: Seq<CourierStep>,
    k: int,
)
    requires
        is_run(states, steps),
        states[0] == Map::<Seq<char>, Subscriber>::empty(),
        0 <= k < states.len(),
    ensures
        receivers_are_apart(states[k]),
    decreases k,
{
    if k > 0 {
        law_receivers_are_apart(states, steps, k - 1);
        assert(leads_to(states[k - 1], steps[k - 1], states[k]));
        lemma_step_keeps_receivers_apart(states[k - 1], steps[k - 1], states[k]);
    }
}

proof fn lemma_step_keeps_receivers_apart(
    before: Map<Seq<char>, Subscriber>,
    step: CourierStep,
    after: Map<Seq<char>, Subscriber>,
)
    requires
        leads_to(before, step, after),
        receivers_are_apart(before),
    ensures
        receivers_are_apart(after),
{
    assert forall|a: Seq<char>, b: Seq<char>, rx: UnboundedReceiver<TonEvent>|
        after.contains_key(a) && after.contains_key(b) && #[trigger] receives_from(
            rx,
            after[a].tx,
        ) && #[trigger] receives_from(rx, after[b].tx) implies a == b by {
        match step {
            CourierStep::Registered { client_id, rx: new, now } => {
                if a != client_id {
                    assert(before.contains_key(a) && after[a] == before[a]);
                }
                if b != client_id {
                    assert(before.contains_key(b) && after[b] == before[b]);
                }
            },
            CourierStep::Sent { event, now } => {
                assert(before.contains_key(a) && before.contains_key(b));
                assert(receives_from(rx, before[a].tx));
                assert(receives_from(rx, before[b].tx));
            },
            _ => {
                assert(before.contains_key(a) && before.contains_key(b));
                assert(after[a] == before[a] && after[b] == before[b]);
            },
        }
    }
}

/// A second registration for a client's messages takes the place of the first.
/// Let `first` be the receiving end of the client's subscriber when `second` is
/// given out: they are two ends. All events for the client that are sent from
/// then on, until the next registration for it, go to `second`, in order, and
/// not to `first`; and right after the registration no subscriber at all has a
/// sender that `first` receives from. `started` is how the courier came to the
/// second registration, from nobody being subscribed.
pub proof fn law_second_registration_replaces_the_first(
    started: Seq<Map<Seq<char>, Subscriber>>,
    earlier: Seq<CourierStep>,
    states: Seq<Map<Seq<char>, Subscriber>>,
    steps: Seq<CourierStep>,
    client_id: Seq<char>,
    first: UnboundedReceiver<TonEvent>,
    second: UnboundedReceiver<TonEvent>,
    now: u128,
    id: Seq<char>,
)
    requires
        is_run(started, earlier),
        started[0] == Map::<Seq<char>, Subscriber>::empty(),
        is_run(states, steps),
        states[0] == started.last(),
        states[0].contains_key(client_id),
        receives_from(first, states[0][client_id].tx),
        steps.len() > 0,
        steps[0] == (CourierStep::Registered { client_id, rx: second, now }),
        forall|i: int|
            1 <= i < steps.len() && (#[trigger] steps[i]) is Registered
                ==> steps[i]->client_id != client_id,
    ensures
        first != second,
        states.last().contains_key(client_id) ==> {
            let tx = states.last()[client_id].tx;
            &&& receives_from(second, tx)
            &&& !receives_from(first, tx)
            &&& handed_over(tx) == sent_to(steps, client_id)
        },
        states[1].contains_key(id) ==> !receives_from(first, states[1][id].tx),
{
    assert(leads_to(states[0], steps[0], states[1]));
    if states.last().contains_key(client_id) {
        law_receiver_gets_the_events(states, steps, client_id, second, now);
    }
    law_receivers_are_apart(started, earlier, started.len() - 1);
    if states[1].contains_key(id) && id != client_id {
        assert(states[0].contains_key(id) && states[1][id] == states[0][id]);
    }
}

/// A receiving end that no subscriber has gets nothing more, unless a later
/// registration gives it out anew: no subscriber has a sender that it receives
/// from, at any time. What it was handed before stays.
pub proof fn law_replaced_receiver_gets_nothing_more(
    states: Seq<Map<Seq<char>, Subscriber>>,
    steps: Seq<CourierStep>,
    rx: UnboundedReceiver<TonEvent>,
    k: int,
    id: Seq<char>,
)
    requires
        is_run(states, steps),
        forall|other: Seq<char>| #[trigger]
            states[0].contains_key(other) ==> !receives_from(rx, states[0][other].tx),
        forall|i: int|
            0 <= i < steps.len() && (#[trigger] steps[i]) is Registered ==> steps[i]->rx != rx,
        0 <= k < states.len(),
        states[k].contains_key(id),
    ensures
        !receives_from(rx, states[k][id].tx),
    decreases k,
{
    if k > 0 {
        let step = steps[k - 1];
        let before = states[k - 1];
        assert(leads_to(before, step, states[k]));
        if step is Registered && step->client_id == id {
            assert(step->rx != rx);
        } else {
            assert(before.contains_key(id));
            law_replaced_receiver_gets_nothing_more(states, steps, rx, k - 1, id);
        }
    }
}

/// A registration starts with nothing handed over, replaces whoever was
/// registered for the client before, and leaves all other clients alone.
pub proof fn law_registration_replaces(
    before: Map<Seq<char>, Subscriber>,
    client_id: Seq<char>,
    rx: UnboundedReceiver<TonEvent>,
    now: u128,
    after: Map<Seq<char>, Subscriber>,
    other: Seq<char>,
)
    requires
        leads_to(before, CourierStep::Registered { client_id, rx, now }, after),
    ensures
        after.dom() == before.dom().insert(client_id),
        after[client_id].last_message_at == now,
        receives_from(rx, after[client_id].tx),
        handed_over(after[client_id].tx) == Seq::<TonEventView>::empty(),
        other != client_id ==> {
            &&& after.contains_key(other) == before.contains_key(other)
            &&& before.contains_key(other) ==> after[other] == before[other]
        },
{
    assert(after.dom() =~= before.dom().insert(client_id));
}

/// A subscriber that gets no message stays until the time to live is over, and
/// is dropped by the first clean-up after that. One whose last message is in the
/// future stays, unless there is no time to live at all. Nobody is added, and
/// those who stay are as they were; the inactive clients are those that go.
pub proof fn law_inactive_clients_are_removed(
    before: Map<Seq<char>, Subscriber>,
    now: u128,
    ttl: u128,
    after: Map<Seq<char>, Subscriber>,
    id: Seq<char>,
)
    requires
        leads_to(before, CourierStep::Cleaned { now, ttl }, after),
    ensures
        before.contains_key(id) && before[id].last_message_at <= now ==> (after.contains_key(id)
            <==> now < before[id].last_message_at + ttl),
        before.contains_key(id) && before[id].last_message_at > now ==> (after.contains_key(id)
            <==> ttl > 0),
        after.contains_key(id) ==> before.contains_key(id) && after[id] == before[id],
        inactive_ids(before, now, ttl).contains(id) <==> before.contains_key(id)
            && !after.contains_key(id),
{
}

/// A subscriber that a message was sent to stays, reached as before, and is
/// active from then on; one that could not be sent a message is dropped. Other
/// clients are not concerned.
pub proof fn law_outcome_of_a_message(
    subscribers: Map<Seq<char>, Subscriber>,
    client_id: Seq<char>,
    sent: bool,
    now: u128,
    other: Seq<char>,
)
    requires
        subscribers.contains_key(client_id),
    ensures
        ({
            let after = after_sending(subscribers, client_id, sent, now);
            &&& after.contains_key(client_id) == sent
            &&& sent ==> after[client_id].tx == subscribers[client_id].tx
                && after[client_id].last_message_at == now
            &&& other != client_id ==> {
                &&& after.contains_key(other) == subscribers.contains_key(other)
                &&& subscribers.contains_key(other) ==> after[other] == subscribers[other]
            }
        }),
{
}

/// An entry without an event is reported as such, and one whose field is not the
/// text of an event with what is wrong with it. No error is that of an entry
/// that holds an event.
pub proof fn law_faults(e: StreamEventError, reason: Seq<char>, event: TonEventView)
    ensures
        is_fault_of(e, EntryPayloadView::Missing) ==> e.text()
            == "live stream entry doesn't contain event field"@,
        is_fault_of(e, EntryPayloadView::NotUtf8(reason)) ==> e.text() == reason,
        is_fault_of(e, EntryPayloadView::Malformed(reason)) ==> e.text() == reason,
        !is_fault_of(e, EntryPayloadView::Event(event)),
{
}

/// A message that is sent keeps its subscriber for another time to live.
pub proof fn law_message_keeps_the_subscriber(
    before: Map<Seq<char>, Subscriber>,
    event: TonEventView,
    sent_at: u128,
    sent: Map<Seq<char>, Subscriber>,
    now: u128,
    ttl: u128,
    after: Map<Seq<char>, Subscriber>,
)
    requires
        leads_to(before, CourierStep::Sent { event, now: sent_at }, sent),
        leads_to(sent, CourierStep::Cleaned { now, ttl }, after),
        sent_at <= now < sent_at + ttl,
    ensures
        after.contains_key(event.to),
{
}

/// A second clean-up at the same time drops nobody.
pub proof fn law_cleanup_is_idempotent(
    before: Map<Seq<char>, Subscriber>,
    now: u128,
    ttl: u128,
    once: Map<Seq<char>, Subscriber>,
    twice: Map<Seq<char>, Subscriber>,
)
    requires
        leads_to(before, CourierStep::Cleaned { now, ttl }, once),
        leads_to(once, CourierStep::Cleaned { now, ttl }, twice),
    ensures
        twice == once,
        inactive_ids(once, now, ttl) == Set::<Seq<char>>::empty(),
{
    assert(inactive_ids(once, now, ttl) =~= Set::<Seq<char>>::empty());
    assert(twice =~= once);
}

} // verus!
