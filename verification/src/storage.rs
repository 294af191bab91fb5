//! The inboxes of the clients, and the stream that all messages go through.
//! Both are kept in Redis streams.

use crate::handlers::sse_handler::event_views;
use crate::json;
use crate::models::{TonEvent, TonEventView};
use crate::text;
use vstd::prelude::*;
use vstd::string::*;
use vstd::utf8::*;

verus! {

/// The stream that all messages go through.
pub const ALL_MSGS_STREAM: &'static str = "messages";

/// The field of a stream's entry that holds the event.
pub const EVENT_FIELD: &'static str = "event";

/// Why the storage failed.
#[derive(Debug)]
pub struct EventStorageError(pub String);

/// How many entries a stream keeps when one is appended.
#[derive(Debug, Clone, Copy, PartialEq, Eq, Structural)]
pub enum MaxLen {
    /// `MAXLEN = n`: the latest `n`, and no more.
    Exact(usize),
    /// `MAXLEN ~ n`: the latest `n`, and as many before them as is convenient.
    Approx(usize),
}

/// A command to the Redis server.
#[derive(Debug)]
pub enum StorageCommand {
    /// `XADD stream max_len * field value`
    Append { stream: String, max_len: MaxLen, field: String, value: String },
    /// `EXPIRE key seconds`
    Expire { key: String, seconds: i64 },
    /// `XRANGE stream start end`
    Range { stream: String, start: String, end: String },
}

/// What a [`StorageCommand`] says.
pub enum StorageCommandView {
    Append { stream: Seq<char>, max_len: MaxLen, field: Seq<char>, value: Seq<char> },
    Expire { key: Seq<char>, seconds: i64 },
    Range { stream: Seq<char>, start: Seq<char>, end: Seq<char> },
}

impl View for StorageCommand {
    type V = StorageCommandView;

    open spec fn view(&self) -> StorageCommandView {
        match self {
            StorageCommand::Append { stream, max_len, field, value } => StorageCommandView::Append {
                stream: stream@,
                max_len: *max_len,
                field: field@,
                value: value@,
            },
            StorageCommand::Expire { key, seconds } => StorageCommandView::Expire {
                key: key@,
                seconds: *seconds,
            },
            StorageCommand::Range { stream, start, end } => StorageCommandView::Range {
                stream: stream@,
                start: start@,
                end: end@,
            },
        }
    }
}

/// What some commands say.
pub open spec fn command_views(commands: Seq<StorageCommand>) -> Seq<StorageCommandView> {
    commands.map_values(|c: StorageCommand| c@)
}

/// Whether a stream that holds some entries can hold `after` once one more is
/// appended to it: the oldest entries are dropped, as many as `max_len` says.
pub open spec fn appended(
    before: Seq<Seq<char>>,
    value: Seq<char>,
    max_len: MaxLen,
    after: Seq<Seq<char>>,
) -> bool {
    let all = before.push(value);
    exists|dropped: int|
        0 <= dropped <= all.len() && after == #[trigger] all.skip(dropped) && match max_len {
            MaxLen::Exact(n) => dropped == if all.len() > n {
                all.len() - n
            } else {
                0
            },
            MaxLen::Approx(n) => dropped == 0 || all.len() - dropped >= n,
        }
}

/// A stream as the Redis server keeps it.
pub struct StoredStream {
    /// The values of its entries.
    pub entries: Seq<Seq<char>>,
    /// When it expires, in milliseconds since the Unix epoch; `None` where it
    /// does not.
    pub expires_at: Option<int>,
}

/// Whether a stream is there at `now`: it is until it has expired.
pub open spec fn is_there(
    streams: Map<Seq<char>, StoredStream>,
    key: Seq<char>,
    now: int,
) -> bool {
    streams.contains_key(key) && (streams[key].expires_at is None || now
        <= streams[key].expires_at->0)
}

/// What a read of a stream finds at `now`.
pub open spec fn found(
    streams: Map<Seq<char>, StoredStream>,
    key: Seq<char>,
    now: int,
) -> Seq<Seq<char>> {
    if is_there(streams, key, now) {
        streams[key].entries
    } else {
        Seq::empty()
    }
}

impl StorageCommandView {
    /// The stream that the command is about.
    pub open spec fn key(self) -> Seq<char> {
        match self {
            StorageCommandView::Append { stream, max_len, field, value } => stream,
            StorageCommandView::Expire { key, seconds } => key,
            StorageCommandView::Range { stream, start, end } => stream,
        }
    }

    /// Whether the server can keep `after` once it carried out the command at
    /// `now`, in milliseconds since the Unix epoch. An append makes the stream
    /// where it is not there, and does not change when it expires. A time to
    /// live counts from `now`, whatever it was before.
    pub open spec fn is_carried_out(
        self,
        before: Map<Seq<char>, StoredStream>,
        now: int,
        after: Map<Seq<char>, StoredStream>,
    ) -> bool {
        match self {
            StorageCommandView::Append { stream, max_len, field, value } => {
                &&& appended(found(before, stream, now), value, max_len, after[stream].entries)
                &&& after == before.insert(
                    stream,
                    StoredStream {
                        entries: after[stream].entries,
                        expires_at: if is_there(before, stream, now) {
                            before[stream].expires_at
                        } else {
                            None
                        },
                    },
                )
            },
            StorageCommandView::Expire { key, seconds } => after == if !is_there(before, key, now) {
                before
            } else if seconds <= 0 {
                before.remove(key)
            } else {
                before.insert(
                    key,
                    StoredStream {
                        entries: before[key].entries,
                        expires_at: Some(now + seconds * 1000),
                    },
                )
            },
            StorageCommandView::Range { stream, start, end } => after == before,
        }
    }
}

/// The key of a client's inbox.
pub open spec fn inbox_key(client_id: Seq<char>) -> Seq<char> {
    "inbox:"@ + client_id
}

/// The command that reads a client's entries after the given one.
pub open spec fn read_since(client_id: Seq<char>, event_id: Seq<char>) -> StorageCommandView {
    StorageCommandView::Range {
        stream: inbox_key(client_id),
        start: "("@ + event_id,
        end: "+"@,
    }
}

/// The text under which an event is stored.
pub open spec fn stored_text(event: TonEventView) -> Seq<char> {
    json::object_text(event.stored_members())
}

/// The rules for what is kept in Redis.
#[derive(Debug, Clone, Copy)]
pub struct RedisEventStorage {
    /// How long an inbox is kept that gets no messages, in seconds.
    pub inbox_inactive_ttl_sec: i64,
    /// How many messages an inbox holds.
    pub max_messages_per_inbox: usize,
    /// How many messages the global stream holds.
    pub global_stream_max_size: usize,
}

/// What the `event` field of an entry of a stream holds.
#[derive(Debug)]
pub enum EntryPayload {
    /// The entry has no such field.
    Missing,
    /// The field is not UTF-8; the text says why.
    NotUtf8(String),
    /// The field is text, but not that of an event; the text says why.
    Malformed(String),
    /// The field is the text of an event.
    Event(TonEvent),
}

/// What an [`EntryPayload`] says.
pub enum EntryPayloadView {
    Missing,
    NotUtf8(Seq<char>),
    Malformed(Seq<char>),
    Event(TonEventView),
}

impl View for EntryPayload {
    type V = EntryPayloadView;

    open spec fn view(&self) -> EntryPayloadView {
        match self {
            EntryPayload::Missing => EntryPayloadView::Missing,
            EntryPayload::NotUtf8(reason) => EntryPayloadView::NotUtf8(reason@),
            EntryPayload::Malformed(reason) => EntryPayloadView::Malformed(reason@),
            EntryPayload::Event(event) => EntryPayloadView::Event(event@),
        }
    }
}

/// An entry of an inbox.
#[derive(Debug)]
pub struct InboxEntry {
    pub id: String,
    pub payload: EntryPayload,
}

/// What an [`InboxEntry`] says.
pub struct InboxEntryView {
    pub id: Seq<char>,
    pub payload: EntryPayloadView,
}

impl View for InboxEntry {
    type V = InboxEntryView;

    open spec fn view(&self) -> InboxEntryView {
        InboxEntryView { id: self.id@, payload: self.payload@ }
    }
}

/// What some entries say.
pub open spec fn entry_views(entries: Seq<InboxEntry>) -> Seq<InboxEntryView> {
    entries.map_values(|e: InboxEntry| e@)
}

/// The text that the `event` field of an entry holds; where it holds none, what
/// is wrong with the entry.
pub fn entry_text(raw: Option<Vec<u8>>) -> (r: Result<String, EntryPayload>)
    ensures
        raw is None ==> r is Err && r->Err_0@ is Missing,
        raw is Some && !valid_utf8(raw->0@) ==> r is Err && r->Err_0@
            == EntryPayloadView::NotUtf8(text::utf8_fault(raw->0@)),
        raw is Some && valid_utf8(raw->0@) ==> r is Ok && r->Ok_0@ == decode_utf8(raw->0@),
{
    match raw {
        None => Err(EntryPayload::Missing),
        Some(bytes) => match text::text_of_bytes(bytes) {
            Ok(text) => Ok(text),
            Err(reason) => Err(EntryPayload::NotUtf8(reason)),
        },
    }
}

/// The events that a read of an inbox at `now` gives: those that have not
/// expired, in the order of the inbox, each under the id of its entry. The
/// first entry that holds no event makes the read fail.
pub open spec fn inbox_events(entries: Seq<InboxEntryView>, now: u64) -> Result<
    Seq<TonEventView>,
    Seq<char>,
>
    decreases entries.len(),
{
    if entries.len() == 0 {
        Ok(Seq::empty())
    } else {
        match inbox_events(entries.drop_last(), now) {
            Err(reason) => Err(reason),
            Ok(events) => match entries.last().payload {
                EntryPayloadView::Event(event) => if now > event.deadline {
                    Ok(events)
                } else {
                    Ok(events.push(event.with_id(entries.last().id)))
                },
                EntryPayloadView::Malformed(reason) => Err(reason),
                _ => Err("unexpected event data"@),
            },
        }
    }
}

/// Whether no entry that a read gets to holds anything but UTF-8.
pub open spec fn readable(entries: Seq<InboxEntryView>, now: u64) -> bool {
    forall|i: int|
        0 <= i < entries.len() && (#[trigger] entries[i]).payload is NotUtf8 ==> inbox_events(
            entries.take(i),
            now,
        ) is Err
}

impl RedisEventStorage {
    /// The rules, from the configuration.
    pub fn new(
        inbox_inactive_ttl_sec: u16,
        max_messages_per_inbox: usize,
        global_stream_max_size: usize,
    ) -> (r: Self)
        ensures
            r.inbox_inactive_ttl_sec == inbox_inactive_ttl_sec,
            r.max_messages_per_inbox == max_messages_per_inbox,
            r.global_stream_max_size == global_stream_max_size,
    {
        RedisEventStorage {
            inbox_inactive_ttl_sec: inbox_inactive_ttl_sec as i64,
            max_messages_per_inbox,
            global_stream_max_size,
        }
    }

    /// The commands that put an event into its recipient's inbox and keep the
    /// inbox for a while.
    pub open spec fn inbox_commands(self, event: TonEventView) -> Seq<StorageCommandView> {
        seq![
            StorageCommandView::Append {
                stream: inbox_key(event.to),
                max_len: MaxLen::Exact(self.max_messages_per_inbox),
                field: "event"@,
                value: stored_text(event),
            },
            StorageCommandView::Expire {
                key: inbox_key(event.to),
                seconds: self.inbox_inactive_ttl_sec,
            },
        ]
    }

    /// The command that announces an event to the subscribers.
    pub open spec fn announcement(self, event: TonEventView) -> StorageCommandView {
        StorageCommandView::Append {
            stream: "messages"@,
            max_len: MaxLen::Approx(self.global_stream_max_size),
            field: "event"@,
            value: stored_text(event),
        }
    }

    /// Starts to add an event: gives the commands that put it into the inbox of
    /// its recipient. The first of them replies with the id of the new entry.
    pub fn add(&self, event: &TonEvent) -> (r: Vec<StorageCommand>)
        ensures
            command_views(r@) == self.inbox_commands(event@),
            r@.len() == 2,
            r@[0]@ == (StorageCommandView::Append {
                stream: "inbox:"@ + event.to@,
                max_len: MaxLen::Exact(self.max_messages_per_inbox),
                field: "event"@,
                value: json::object_text(event@.stored_members()),
            }),
            r@[1]@ == (StorageCommandView::Expire {
                key: "inbox:"@ + event.to@,
                seconds: self.inbox_inactive_ttl_sec,
            }),
    {
        let key: String = "inbox:".to_owned().concat(event.to.as_str());
        let value: String = event.serialize().unwrap();
        let mut r: Vec<StorageCommand> = Vec::new();
        r.push(
            StorageCommand::Append {
                stream: key.clone(),
                max_len: MaxLen::Exact(self.max_messages_per_inbox),
                field: EVENT_FIELD.to_owned(),
                value,
            },
        );
        r.push(StorageCommand::Expire { key, seconds: self.inbox_inactive_ttl_sec });
        assert(command_views(r@) =~= self.inbox_commands(event@));
        r
    }

    /// Goes on to add an event, once the inbox replied with the id of the new
    /// entry or failed to: gives the command that announces the event.
    pub fn inbox_replied(&self, event: TonEvent, reply: Result<String, String>) -> (r: Result<
        StorageCommand,
        EventStorageError,
    >)
        ensures
            r is Ok <==> reply is Ok,
            r is Ok ==> r->Ok_0@ == self.announcement(event@.with_id(reply->Ok_0@)),
            r is Err ==> r->Err_0.0@ == reply->Err_0@,
    {
        match reply {
            Ok(id) => {
                let numbered: TonEvent = TonEvent {
                    id,
                    from: event.from,
                    to: event.to,
                    message: event.message,
                    deadline: event.deadline,
                };
                let value: String = numbered.serialize().unwrap();
                Ok(
                    StorageCommand::Append {
                        stream: ALL_MSGS_STREAM.to_owned(),
                        max_len: MaxLen::Approx(self.global_stream_max_size),
                        field: EVENT_FIELD.to_owned(),
                        value,
                    },
                )
            },
            Err(reason) => Err(EventStorageError(reason)),
        }
    }

    /// Ends the addition of an event, once it was announced or failed to be.
    pub fn announced(reply: Result<(), String>) -> (r: Result<(), EventStorageError>)
        ensures
            r is Ok <==> reply is Ok,
            r is Err ==> r->Err_0.0@ == reply->Err_0@,
    {
        match reply {
            Ok(_) => Ok(()),
            Err(reason) => Err(EventStorageError(reason)),
        }
    }

    /// Starts to read a client's events: gives the command that reads the
    /// entries of its inbox after the given one.
    pub fn get_since(&self, client_id: &String, event_id: &String) -> (r: StorageCommand)
        ensures
            r@ == read_since(client_id@, event_id@),
            r@ == (StorageCommandView::Range {
                stream: inbox_key(client_id@),
                start: "("@ + event_id@,
                end: "+"@,
            }),
    {
        StorageCommand::Range {
            stream: "inbox:".to_owned().concat(client_id.as_str()),
            start: "(".to_owned().concat(event_id.as_str()),
            end: "+".to_owned(),
        }
    }

    /// Ends the read of a client's events, at `now`, in seconds since the Unix
    /// epoch: gives the events of the entries that the inbox replied with.
    pub fn entries_read(entries: Result<Vec<InboxEntry>, String>, now: u64) -> (r: Result<
        Vec<TonEvent>,
        EventStorageError,
    >)
        requires
            entries is Ok ==> readable(entry_views(entries->Ok_0@), now),
        ensures
            entries is Err ==> r is Err && r->Err_0.0@ == entries->Err_0@,
            entries is Ok ==> {
                let events = inbox_events(entry_views(entries->Ok_0@), now);
                &&& r is Ok <==> events is Ok
                &&& r is Ok ==> event_views(r->Ok_0@) == events->Ok_0
                &&& r is Err ==> r->Err_0.0@ == events->Err_0
            },
    {
        match entries {
            Ok(entries) => unexpired_events(entries, now),
            Err(reason) => Err(EventStorageError(reason)),
        }
    }
}

/// Whether no entry that a read gets to holds anything but UTF-8.
pub fn is_readable(entries: &Vec<InboxEntry>, now: u64) -> (r: bool)
    ensures
        r == readable(entry_views(entries@), now),
{
    let ghost views = entry_views(entries@);
    let mut i: usize = 0;
    while i < entries.len()
        invariant
            views == entry_views(entries@),
            i <= entries@.len(),
            forall|j: int| 0 <= j < i ==> (#[trigger] views[j]).payload is Event,
        decreases entries@.len() - i,
    {
        assert(views[i as int] == entries@[i as int]@);
        match &entries[i].payload {
            EntryPayload::Event(_) => {
                i = i + 1;
            },
            EntryPayload::NotUtf8(_) => {
                proof {
                    lemma_read_succeeds(views.take(i as int), now);
                }
                return false;
            },
            _ => {
                proof {
                    let n = i as int;
                    assert(views.take(n + 1).drop_last() =~= views.take(n));
                    assert(inbox_events(views.take(n + 1), now) is Err);
                    assert forall|j: int|
                        0 <= j < views.len() && (#[trigger] views[j]).payload is NotUtf8 implies
                        inbox_events(views.take(j), now) is Err by {
                        assert(j > n);
                        assert(views.take(j).take(n + 1) =~= views.take(n + 1));
                        lemma_failure_stays(views.take(j), n + 1, now);
                    }
                }
                return true;
            },
        }
    }
    true
}

/// The events of some entries that have not expired.
fn unexpired_events(entries: Vec<InboxEntry>, now: u64) -> (r: Result<
    Vec<TonEvent>,
    EventStorageError,
>)
    requires
        readable(entry_views(entries@), now),
    ensures
        ({
            let events = inbox_events(entry_views(entries@), now);
            &&& r is Ok <==> events is Ok
            &&& r is Ok ==> event_views(r->Ok_0@) == events->Ok_0
            &&& r is Err ==> r->Err_0.0@ == events->Err_0
        }),
{
    let ghost views = entry_views(entries@);
    let mut events: Vec<TonEvent> = Vec::new();
    proof {
        assert(event_views(events@) =~= Seq::<TonEventView>::empty());
        assert(views.take(0) =~= Seq::<InboxEntryView>::empty());
    }
    for entry in it: entries
        invariant
            it.seq() == entries@,
            views == entry_views(entries@),
            readable(views, now),
            inbox_events(views.take(it.index()), now) == Ok::<Seq<TonEventView>, Seq<char>>(
                event_views(events@),
            ),
    {
        let ghost i = it.index();
        let ghost before = event_views(events@);
        proof {
            assert(views.take(i + 1).drop_last() =~= views.take(i));
            assert(views.take(i + 1).last() == entry@);
        }
        match entry.payload {
            EntryPayload::Event(event) => {
                if now <= event.deadline {
                    let numbered: TonEvent = TonEvent {
                        id: entry.id,
                        from: event.from,
                        to: event.to,
                        message: event.message,
                        deadline: event.deadline,
                    };
                    events.push(numbered);
                    assert(event_views(events@) =~= before.push(numbered@));
                }
            },
            EntryPayload::Malformed(reason) => {
                proof {
                    lemma_failure_stays(views, i + 1, now);
                }
                return Err(EventStorageError(reason));
            },
            _ => {
                proof {
                    lemma_failure_stays(views, i + 1, now);
                }
                return Err(EventStorageError("unexpected event data".to_owned()));
            },
        }
    }
    assert(views.take(views.len() as int) =~= views);
    Ok(events)
}

/// A read that fails on the first entries fails on all of them, and in the same
/// way.
proof fn lemma_failure_stays(entries: Seq<InboxEntryView>, n: int, now: u64)
    requires
        0 <= n <= entries.len(),
        inbox_events(entries.take(n), now) is Err,
    ensures
        inbox_events(entries, now) == inbox_events(entries.take(n), now),
    decreases entries.len() - n,
{
    if n < entries.len() {
        assert(entries.take(n + 1).drop_last() =~= entries.take(n));
        lemma_failure_stays(entries, n + 1, now);
    } else {
        assert(entries.take(n) =~= entries);
    }
}

/// Each client has an inbox of its own, and none of them is the stream that all
/// messages go through.
pub proof fn law_inboxes_are_separate(a: Seq<char>, b: Seq<char>)
    ensures
        inbox_key(a) == "inbox:"@ + a,
        inbox_key(a) == inbox_key(b) ==> a == b,
        inbox_key(a) != "messages"@,
{
    reveal_strlit("inbox:");
    reveal_strlit("messages");
    assert("inbox:"@[0] == 'i');
    assert(inbox_key(a)[0] == 'i');
    assert("messages"@[0] == 'm');
    if inbox_key(a) == inbox_key(b) {
        text::lemma_same_head("inbox:"@, a, b);
    }
}

/// An event is put into the inbox that its recipient reads, and into no inbox
/// that another client reads. The inbox is kept for a while from then on.
pub proof fn law_event_goes_to_its_recipient(
    storage: RedisEventStorage,
    event: TonEventView,
    reader: Seq<char>,
)
    ensures
        ({
            let commands = storage.inbox_commands(event);
            &&& commands[0]->Append_stream == inbox_key(reader) <==> reader == event.to
            &&& commands[1] == StorageCommandView::Expire {
                key: commands[0]->Append_stream,
                seconds: storage.inbox_inactive_ttl_sec,
            }
            &&& storage.announcement(event)->Append_stream != inbox_key(reader)
        }),
{
    law_inboxes_are_separate(reader, event.to);
}

/// An inbox holds no more messages than it may. The new event is the last one;
/// before it stand the latest of those that were there, unchanged: only the
/// oldest are dropped, and only where there are too many.
pub proof fn law_inbox_is_bounded(
    storage: RedisEventStorage,
    event: TonEventView,
    before: Seq<Seq<char>>,
    after: Seq<Seq<char>>,
)
    requires
        storage.max_messages_per_inbox >= 1,
        ({
            let command = storage.inbox_commands(event)[0];
            appended(before, command->value, command->max_len, after)
        }),
    ensures
        1 <= after.len() <= storage.max_messages_per_inbox,
        after.last() == stored_text(event),
        after.len() <= before.len() + 1,
        after.drop_last() == before.skip(before.len() + 1 - after.len()),
        before.len() + 1 <= storage.max_messages_per_inbox ==> after.len() == before.len() + 1,
        before.len() + 1 > storage.max_messages_per_inbox ==> after.len()
            == storage.max_messages_per_inbox,
{
    let all = before.push(stored_text(event));
    let max = storage.max_messages_per_inbox;
    let dropped = choose|dropped: int|
        0 <= dropped <= all.len() && after == #[trigger] all.skip(dropped) && dropped == if all.len()
            > max {
            all.len() - max
        } else {
            0
        };
    assert(after.drop_last() =~= before.skip(dropped));
}

/// Whether the server carries out the commands one after the other, each at its
/// time, and keeps the given streams in between.
pub open spec fn is_session(
    states: Seq<Map<Seq<char>, StoredStream>>,
    commands: Seq<StorageCommandView>,
    times: Seq<int>,
) -> bool {
    &&& states.len() == commands.len() + 1
    &&& times.len() == commands.len()
    &&& forall|i: int|
        0 <= i < commands.len() ==> (#[trigger] commands[i]).is_carried_out(
            states[i],
            times[i],
            states[i + 1],
        )
}

proof fn lemma_stream_stays(
    states: Seq<Map<Seq<char>, StoredStream>>,
    commands: Seq<StorageCommandView>,
    times: Seq<int>,
    key: Seq<char>,
    from: int,
    to: int,
)
    requires
        is_session(states, commands, times),
        0 <= from <= to < states.len(),
        forall|i: int|
            from <= i < to ==> (#[trigger] commands[i]).key() != key || commands[i] is Range,
    ensures
        states[to].contains_key(key) == states[from].contains_key(key),
        states[from].contains_key(key) ==> states[to][key] == states[from][key],
    decreases to - from,
{
    if from < to {
        lemma_stream_stays(states, commands, times, key, from, to - 1);
        assert(commands[to - 1].is_carried_out(states[to - 1], times[to - 1], states[to]));
        assert(commands[to - 1].key() != key || commands[to - 1] is Range);
    }
}

/// Where in a stream a range begins and ends, by the ids of the stream's
/// entries, in order: at the entry that `start` names, or right after it where a
/// parenthesis stands in front of its id, and at the end of the stream where
/// `end` is a plus sign, else after the entry that it names.
pub open spec fn range_of(ids: Seq<Seq<char>>, start: Seq<char>, end: Seq<char>) -> (int, int) {
    (
        if start.len() > 0 && start[0] == '(' {
            ids.index_of(start.skip(1)) + 1
        } else {
            ids.index_of(start)
        },
        if end == seq!['+'] {
            ids.len() as int
        } else {
            ids.index_of(end) + 1
        },
    )
}

/// A client that names the last event it has seen reads from its own inbox all
/// entries after that event, and only those: it misses none and sees none again.
pub proof fn law_missed_events_are_read(client_id: Seq<char>, ids: Seq<Seq<char>>, k: int)
    requires
        ids.no_duplicates(),
        0 <= k < ids.len(),
    ensures
        ({
            let command = read_since(client_id, ids[k]);
            &&& command is Range
            &&& command->Range_stream == "inbox:"@ + client_id
            &&& range_of(ids, command->start, command->end) == (k + 1, ids.len() as int)
        }),
{
    reveal_strlit("(");
    reveal_strlit("+");
    assert("+"@ =~= seq!['+']);
    let start = "("@ + ids[k];
    assert("("@[0] == '(');
    assert(start[0] == '(');
    assert(start.skip(1) =~= ids[k]);
    assert(ids[ids.index_of(ids[k])] == ids[k]);
}

/// What the addition of an event leaves. Let all the commands that add it, and
/// nothing else, be carried out at one time, on whatever the server keeps: the
/// recipient's inbox is there, the event is its last entry and the only new one,
/// before it stand the latest of those that were there, and the inbox expires
/// the configured time after that, and no sooner. Other streams are as before.
pub proof fn law_added_event_is_kept(
    storage: RedisEventStorage,
    event: TonEventView,
    states: Seq<Map<Seq<char>, StoredStream>>,
    times: Seq<int>,
    added_at: int,
    other: Seq<char>,
)
    requires
        storage.inbox_inactive_ttl_sec > 0,
        storage.max_messages_per_inbox >= 1,
        is_session(states, storage.inbox_commands(event), times),
        forall|i: int| 0 <= i < times.len() ==> #[trigger] times[i] == added_at,
    ensures
        ({
            let key = "inbox:"@ + event.to;
            let earlier = found(states[0], key, added_at);
            let inbox = states.last()[key];
            let n = inbox.entries.len();
            &&& storage.inbox_commands(event).len() == 2
            &&& is_there(states.last(), key, added_at)
            &&& 1 <= n <= storage.max_messages_per_inbox
            &&& inbox.entries.last() == json::object_text(event.stored_members())
            &&& n <= earlier.len() + 1
            &&& inbox.entries.drop_last() == earlier.skip(earlier.len() + 1 - n)
            &&& n < earlier.len() + 1 ==> n == storage.max_messages_per_inbox
            &&& inbox.expires_at == Some(added_at + storage.inbox_inactive_ttl_sec * 1000)
            &&& other != key ==> {
                &&& states.last().contains_key(other) == states[0].contains_key(other)
                &&& states[0].contains_key(other) ==> states.last()[other] == states[0][other]
            }
        }),
{
    let commands = storage.inbox_commands(event);
    let key = inbox_key(event.to);
    assert(times[0] == added_at && times[1] == added_at);
    assert(commands[0].is_carried_out(states[0], added_at, states[1]));
    assert(commands[1].is_carried_out(states[1], added_at, states[2]));
    assert(is_there(states[1], key, added_at));
    law_inbox_is_bounded(
        storage,
        event,
        found(states[0], key, added_at),
        states[1][key].entries,
    );
}

/// What the commands that add an event say, in full: one entry for the
/// recipient's inbox, whose one field `event` holds the event's text, a time to
/// live for the inbox, and, once the entry has an id, one entry for the stream
/// of all messages with the text of the event under that id.
pub proof fn law_commands_of_an_addition(
    storage: RedisEventStorage,
    event: TonEventView,
    id: Seq<char>,
)
    ensures
        storage.inbox_commands(event) == seq![
            StorageCommandView::Append {
                stream: "inbox:"@ + event.to,
                max_len: MaxLen::Exact(storage.max_messages_per_inbox),
                field: "event"@,
                value: json::object_text(event.stored_members()),
            },
            StorageCommandView::Expire {
                key: "inbox:"@ + event.to,
                seconds: storage.inbox_inactive_ttl_sec,
            },
        ],
        storage.announcement(event.with_id(id)) == (StorageCommandView::Append {
            stream: "messages"@,
            max_len: MaxLen::Approx(storage.global_stream_max_size),
            field: "event"@,
            value: json::object_text(event.with_id(id).stored_members()),
        }),
{
}

/// The first entry that holds no event makes a read fail, whatever comes after
/// it: where its field is not an event's text, with what is wrong with that
/// text, and where it has no such field, with a text of its own.
pub proof fn law_first_fault_fails_the_read(entries: Seq<InboxEntryView>, now: u64, n: int)
    requires
        0 <= n < entries.len(),
        forall|i: int| 0 <= i < n ==> (#[trigger] entries[i]).payload is Event,
        entries[n].payload !is Event,
    ensures
        inbox_events(entries, now) is Err,
        entries[n].payload is Malformed ==> inbox_events(entries, now)->Err_0
            == entries[n].payload->Malformed_0,
        entries[n].payload is Missing ==> inbox_events(entries, now)->Err_0
            == "unexpected event data"@,
{
    assert(entries.take(n + 1).drop_last() =~= entries.take(n));
    assert(entries.take(n + 1).last() == entries[n]);
    lemma_read_succeeds(entries.take(n), now);
    lemma_failure_stays(entries, n + 1, now);
}

/// What a read gives of one entry more: nothing of an event whose deadline is
/// over, and else the event, under the entry's id, after all that it gave
/// before. Of no entries it gives nothing.
pub proof fn law_read_of_one_more(
    entries: Seq<InboxEntryView>,
    id: Seq<char>,
    event: TonEventView,
    now: u64,
)
    requires
        inbox_events(entries, now) is Ok,
    ensures
        inbox_events(Seq::empty(), now) == Ok::<Seq<TonEventView>, Seq<char>>(Seq::empty()),
        ({
            let entry = InboxEntryView { id, payload: EntryPayloadView::Event(event) };
            let before = inbox_events(entries, now)->Ok_0;
            inbox_events(entries.push(entry), now) == Ok::<Seq<TonEventView>, Seq<char>>(
                if now > event.deadline {
                    before
                } else {
                    before.push(
                        TonEventView {
                            id,
                            from: event.from,
                            to: event.to,
                            message: event.message,
                            deadline: event.deadline,
                        },
                    )
                },
            )
        }),
{
    let entry = InboxEntryView { id, payload: EntryPayloadView::Event(event) };
    assert(entries.push(entry).drop_last() =~= entries);
    assert(entries.push(entry).last() == entry);
}

/// A read can be ended exactly where the first entry that holds no event, if
/// there is one, holds UTF-8 or nothing.
pub proof fn law_what_is_readable(entries: Seq<InboxEntryView>, now: u64, n: int)
    requires
        0 <= n <= entries.len(),
        forall|i: int| 0 <= i < n ==> (#[trigger] entries[i]).payload is Event,
        n < entries.len() ==> entries[n].payload !is Event,
    ensures
        readable(entries, now) <==> n == entries.len() || entries[n].payload !is NotUtf8,
{
    if n < entries.len() {
        if entries[n].payload is NotUtf8 {
            lemma_read_succeeds(entries.take(n), now);
        } else {
            assert forall|j: int|
                0 <= j < entries.len() && (#[trigger] entries[j]).payload is NotUtf8 implies
                inbox_events(entries.take(j), now) is Err by {
                assert(j > n);
                assert(entries.take(j)[n] == entries[n]);
                law_first_fault_fails_the_read(entries.take(j), now, n);
            }
        }
    }
}

/// What commands and entries say is what they hold, each, in order.
pub proof fn law_storage_views(commands: Seq<StorageCommand>, entries: Seq<InboxEntry>)
    ensures
        command_views(commands).len() == commands.len(),
        forall|i: int|
            0 <= i < commands.len() ==> #[trigger] command_views(commands)[i] == commands[i]@,
        entry_views(entries).len() == entries.len(),
        forall|i: int|
            0 <= i < entries.len() ==> (#[trigger] entry_views(entries)[i]).id == entries[i].id@
                && entry_views(entries)[i].payload == entries[i].payload@,
{
}

/// What a command says is what it holds.
pub proof fn law_view_of_a_command(
    a: String,
    b: String,
    c: String,
    max_len: MaxLen,
    seconds: i64,
)
    ensures
        (StorageCommand::Append { stream: a, max_len, field: b, value: c })@ == (
        StorageCommandView::Append { stream: a@, max_len, field: b@, value: c@ }),
        (StorageCommand::Expire { key: a, seconds })@ == (StorageCommandView::Expire {
            key: a@,
            seconds,
        }),
        (StorageCommand::Range { stream: a, start: b, end: c })@ == (StorageCommandView::Range {
            stream: a@,
            start: b@,
            end: c@,
        }),
{
}

/// What the event field of an entry says is what it holds.
pub proof fn law_view_of_a_payload(event: TonEvent, reason: String)
    ensures
        EntryPayload::Missing@ == EntryPayloadView::Missing,
        EntryPayload::NotUtf8(reason)@ == EntryPayloadView::NotUtf8(reason@),
        EntryPayload::Malformed(reason)@ == EntryPayloadView::Malformed(reason@),
        EntryPayload::Event(event)@ == EntryPayloadView::Event(event@),
{
}

/// An inbox expires as a whole, a fixed time after the last event was added to
/// it: that time counts anew from each event, whatever it was before. Let the
/// commands that add an event be carried out at `added_at`, in milliseconds
/// since the Unix epoch, and let no command after them change the inbox. Until
/// the time to live is over a read finds what the addition left there, unless
/// that time is zero, and once it is over a read finds nothing and gives no
/// events. Other streams, and when
/// they expire, are left alone by the addition.
pub proof fn law_idle_inbox_expires(
    storage: RedisEventStorage,
    event: TonEventView,
    states: Seq<Map<Seq<char>, StoredStream>>,
    commands: Seq<StorageCommandView>,
    times: Seq<int>,
    added_at: int,
    now: int,
    other: Seq<char>,
)
    requires
        storage.inbox_inactive_ttl_sec >= 0,
        is_session(states, commands, times),
        storage.inbox_commands(event).is_prefix_of(commands),
        forall|i: int|
            0 <= i < storage.inbox_commands(event).len() ==> #[trigger] times[i] == added_at,
        forall|i: int|
            storage.inbox_commands(event).len() <= i < commands.len() ==> (
            #[trigger] commands[i]).key() != inbox_key(event.to) || commands[i] is Range,
    ensures
        ({
            let key = inbox_key(event.to);
            let left = found(states.last(), key, now);
            &&& storage.inbox_inactive_ttl_sec > 0 && now <= added_at
                + storage.inbox_inactive_ttl_sec * 1000 ==> left == states[1][key].entries
            &&& now > added_at + storage.inbox_inactive_ttl_sec * 1000 ==> left.len() == 0
            &&& appended(
                found(states[0], key, added_at),
                stored_text(event),
                MaxLen::Exact(storage.max_messages_per_inbox),
                states[1][key].entries,
            )
            &&& other != key ==> {
                &&& states[2].contains_key(other) == states[0].contains_key(other)
                &&& states[0].contains_key(other) ==> states[2][other] == states[0][other]
            }
        }),
        forall|at: u64|
            #[trigger] inbox_events(Seq::empty(), at) == Ok::<Seq<TonEventView>, Seq<char>>(
                Seq::empty(),
            ),
{
    let key = inbox_key(event.to);
    let addition = storage.inbox_commands(event);
    assert(commands.take(2) =~= addition);
    assert(commands[0] == commands.take(2)[0] && commands[1] == commands.take(2)[1]);
    assert(times[0] == added_at && times[1] == added_at);
    assert(commands[0].is_carried_out(states[0], added_at, states[1]));
    assert(commands[1].is_carried_out(states[1], added_at, states[2]));
    assert(is_there(states[1], key, added_at));
    lemma_stream_stays(states, commands, times, key, 2, states.len() - 1);
}

/// The stream of all messages keeps at least as many of the latest messages as
/// it is meant to hold: an event is there until that many others came after it.
pub proof fn law_global_stream_keeps_the_latest(
    storage: RedisEventStorage,
    event: TonEventView,
    before: Seq<Seq<char>>,
    after: Seq<Seq<char>>,
    k: int,
)
    requires
        ({
            let command = storage.announcement(event);
            appended(before, command->value, command->max_len, after)
        }),
        0 <= k < storage.global_stream_max_size,
        k <= before.len(),
    ensures
        k < after.len(),
        after[after.len() - 1 - k] == before.push(stored_text(event))[before.len() - k],
{
}

/// Where every entry of an inbox holds an event, a read succeeds.
proof fn lemma_read_succeeds(entries: Seq<InboxEntryView>, now: u64)
    requires
        forall|i: int| 0 <= i < entries.len() ==> (#[trigger] entries[i]).payload is Event,
    ensures
        inbox_events(entries, now) is Ok,
    decreases entries.len(),
{
    if entries.len() > 0 {
        lemma_read_succeeds(entries.drop_last(), now);
        assert(entries[entries.len() - 1].payload is Event);
    }
}

/// What a read gives has not expired.
pub proof fn law_expired_events_are_not_read(entries: Seq<InboxEntryView>, now: u64)
    requires
        inbox_events(entries, now) is Ok,
    ensures
        forall|i: int|
            0 <= i < inbox_events(entries, now)->Ok_0.len() ==> now <= (#[trigger] inbox_events(
                entries,
                now,
            )->Ok_0[i]).deadline,
    decreases entries.len(),
{
    if entries.len() > 0 {
        law_expired_events_are_not_read(entries.drop_last(), now);
    }
}

/// The entry's event under the entry's id.
pub open spec fn entry_event(entry: InboxEntryView) -> TonEventView {
    entry.payload->Event_0.with_id(entry.id)
}

/// Whether the entry's event has not expired.
pub open spec fn entry_alive(entry: InboxEntryView, now: u64) -> bool {
    now <= entry.payload->Event_0.deadline
}

/// Where every entry of an inbox holds an event, a read gives all events that
/// have not expired, in the order of the inbox, and nothing else.
pub proof fn law_read_is_complete(entries: Seq<InboxEntryView>, now: u64)
    requires
        forall|i: int| 0 <= i < entries.len() ==> (#[trigger] entries[i]).payload is Event,
    ensures
        inbox_events(entries, now) is Ok,
        inbox_events(entries, now)->Ok_0 == entries.filter(
            |e: InboxEntryView| entry_alive(e, now),
        ).map_values(|e: InboxEntryView| entry_event(e)),
    decreases entries.len(),
{
    let alive = |e: InboxEntryView| entry_alive(e, now);
    let event = |e: InboxEntryView| entry_event(e);
    lemma_read_succeeds(entries, now);
    reveal(Seq::filter);
    if entries.len() > 0 {
        law_read_is_complete(entries.drop_last(), now);
        assert(entries[entries.len() - 1].payload is Event);
        let before = entries.drop_last().filter(alive);
        assert(before.push(entries.last()).map_values(event) =~= before.map_values(event).push(
            event(entries.last()),
        ));
    }
    assert(inbox_events(entries, now)->Ok_0 =~= entries.filter(alive).map_values(event));
}

/// Time only takes events away: a later read of the same entries gives some of
/// the events of an earlier one, in the same order.
pub proof fn law_expiry_is_final(entries: Seq<InboxEntryView>, earlier: u64, later: u64)
    requires
        earlier <= later,
        inbox_events(entries, earlier) is Ok,
    ensures
        inbox_events(entries, later) is Ok,
        inbox_events(entries, later)->Ok_0 == inbox_events(entries, earlier)->Ok_0.filter(
            |e: TonEventView| later <= e.deadline,
        ),
    decreases entries.len(),
{
    let alive = |e: TonEventView| later <= e.deadline;
    reveal(Seq::filter);
    if entries.len() > 0 {
        law_expiry_is_final(entries.drop_last(), earlier, later);
        let before = inbox_events(entries.drop_last(), earlier)->Ok_0;
        match entries.last().payload {
            EntryPayloadView::Event(event) => {
                let numbered = event.with_id(entries.last().id);
                assert(before.push(numbered).drop_last() =~= before);
                assert(before.push(numbered).last() == numbered);
            },
            _ => {},
        }
    }
}

/// What was added to an inbox is read from it, after all that was there before.
/// Let the text that [`RedisEventStorage::add`] puts into the inbox be the text
/// of `other`, and let the new entry be read back as that event, under the id
/// that the entry got: the read gives what it gave before, and after that the
/// event that was added, with its sender, its recipient, its message and its
/// deadline, under that id, until the deadline is over.
pub proof fn law_read_gives_what_was_added(
    storage: RedisEventStorage,
    before: Seq<InboxEntryView>,
    event: TonEventView,
    other: TonEventView,
    id: Seq<char>,
    now: u64,
)
    requires
        inbox_events(before, now) is Ok,
        storage.inbox_commands(event)[0]->value == stored_text(other),
    ensures
        ({
            let entry = InboxEntryView { id, payload: EntryPayloadView::Event(other.read_back()) };
            let events = inbox_events(before, now)->Ok_0;
            inbox_events(before.push(entry), now) == Ok::<Seq<TonEventView>, Seq<char>>(
                if now <= event.deadline {
                    events.push(event.with_id(id))
                } else {
                    events
                },
            )
        }),
{
    crate::models::law_stored_text_determines_event(event, other);
    let entry = InboxEntryView { id, payload: EntryPayloadView::Event(other.read_back()) };
    assert(before.push(entry).drop_last() =~= before);
    assert(before.push(entry).last() == entry);
}

/// The event that is announced to the subscribers is the one that a read of the
/// inbox gives: it has the same id, sender, recipient, message and deadline.
/// `announced` is an event that has the text of the announcement.
pub proof fn law_live_and_stored_events_agree(
    storage: RedisEventStorage,
    event: TonEventView,
    announced: TonEventView,
    id: Seq<char>,
    now: u64,
)
    requires
        id.len() > 0,
        now <= event.deadline,
        storage.announcement(event.with_id(id))->value == stored_text(announced),
    ensures
        ({
            let entry = InboxEntryView { id, payload: EntryPayloadView::Event(event.read_back()) };
            inbox_events(seq![entry], now) == Ok::<Seq<TonEventView>, Seq<char>>(
                seq![announced.read_back()],
            )
        }),
{
    crate::models::law_stored_text_determines_event(event.with_id(id), announced);
    let entry = InboxEntryView { id, payload: EntryPayloadView::Event(event.read_back()) };
    law_read_gives_what_was_added(storage, Seq::empty(), event, event, id, now);
    assert(Seq::<InboxEntryView>::empty().push(entry) =~= seq![entry]);
    assert(Seq::<TonEventView>::empty().push(event.with_id(id)) =~= seq![event.with_id(id)]);
}

} // verus!
