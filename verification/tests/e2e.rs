//! Whole conversations, with an in-memory stand-in for the Redis server.

use axum::response::sse::{Event, Sse};
use axum::response::IntoResponse;
use base64::prelude::{Engine, BASE64_STANDARD};
use serde_json::Value;
use std::collections::{HashMap, VecDeque};
use std::convert::Infallible;
use tokio::sync::mpsc::UnboundedReceiver;
use ton_connect_bridge::config::MessageLimits;
use ton_connect_bridge::handlers::message_handler::{
    message_handler, message_response, SendMessageQueryParams,
};
use ton_connect_bridge::handlers::sse_handler::{
    deserialize_list_of_strings, sse_handler, EventResponse, SseAction,
    SubscribeToEventsQueryParams,
};
use ton_connect_bridge::handlers::Query;
use ton_connect_bridge::message_courier::{
    RedisMessageCourier, StreamAction, StreamEntry, StreamReader,
};
use ton_connect_bridge::models::{default_id, TonEvent};
use ton_connect_bridge::storage::{
    entry_text, EntryPayload, InboxEntry, MaxLen, RedisEventStorage, StorageCommand,
};

const NOW: u64 = 1_700_000_000;

#[derive(Default)]
struct Server {
    next_id: u64,
    streams: HashMap<String, Vec<(u64, String)>>,
}

fn entry_id(n: u64) -> String {
    format!("1700000000000-{n}")
}

fn entry_number(id: &str) -> u64 {
    id.rsplit('-').next().unwrap().parse().unwrap()
}

impl Server {
    fn append(&mut self, command: &StorageCommand) -> String {
        match command {
            StorageCommand::Append { stream, max_len, field, value } => {
                assert_eq!(field, "event");
                self.next_id += 1;
                let entries = self.streams.entry(stream.clone()).or_default();
                entries.push((self.next_id, value.clone()));
                let (MaxLen::Exact(n) | MaxLen::Approx(n)) = max_len;
                if entries.len() > *n {
                    entries.remove(0);
                }
                entry_id(self.next_id)
            }
            other => panic!("{other:?}"),
        }
    }

    fn after(&self, stream: &str, id: u64) -> Vec<(String, Vec<u8>)> {
        self.streams
            .get(stream)
            .map(|entries| {
                entries
                    .iter()
                    .filter(|(n, _)| *n > id)
                    .map(|(n, value)| (entry_id(*n), value.clone().into_bytes()))
                    .collect()
            })
            .unwrap_or_default()
    }
}

fn payload(raw: Option<Vec<u8>>) -> EntryPayload {
    let text = match entry_text(raw) {
        Ok(text) => text,
        Err(payload) => return payload,
    };
    match serde_json::from_str::<Value>(&text) {
        Ok(value) => {
            let field = |name: &str| value[name].as_str().unwrap().to_string();
            EntryPayload::Event(TonEvent {
                id: value["id"].as_str().map(str::to_string).unwrap_or_else(default_id),
                from: field("from"),
                to: field("to"),
                message: field("message"),
                deadline: value["deadline"].as_u64().unwrap(),
            })
        }
        Err(e) => EntryPayload::Malformed(e.to_string()),
    }
}

struct Bridge {
    server: Server,
    storage: RedisEventStorage,
    courier: RedisMessageCourier,
    reader: StreamReader,
}

/// What a subscriber is sent: the events that were read, then the live ones.
struct Events {
    backlog: VecDeque<TonEvent>,
    live: Vec<UnboundedReceiver<TonEvent>>,
}

impl Events {
    fn next(&mut self) -> Option<EventResponse> {
        if let Some(event) = self.backlog.pop_front() {
            return Some(EventResponse::Message(event));
        }
        for rx in &mut self.live {
            if let Ok(event) = rx.try_recv() {
                return Some(EventResponse::Message(event));
            }
        }
        None
    }
}

impl Bridge {
    fn new() -> Self {
        let mut reader = StreamReader::new();
        reader.connected(true);
        Bridge {
            server: Server::default(),
            storage: RedisEventStorage::new(300, 100, 1000),
            courier: RedisMessageCourier::new(300),
            reader,
        }
    }

    fn must_send_message(&mut self, from: &str, to: &str, message: &str) {
        let query = SendMessageQueryParams {
            client_id: from.to_string(),
            to: to.to_string(),
            ttl: None,
        };
        let body = BASE64_STANDARD.encode(message);
        let event = message_handler(Query(query), body, MessageLimits::default(), NOW).unwrap();
        let commands = self.storage.add(&event);
        let id = self.server.append(&commands[0]);
        let announcement = self.storage.inbox_replied(event, Ok(id)).unwrap();
        self.server.append(&announcement);
        let stored = RedisEventStorage::announced(Ok(()));
        let response = message_response(stored).unwrap().into_response();
        assert_eq!(response.status, 200);
        assert_eq!(response.body, "{\"message\":\"OK\",\"statusCode\":200}");
        self.deliver();
    }

    fn deliver(&mut self) {
        loop {
            match self.reader.next_action("messages") {
                StreamAction::Read { stream, after, .. } => {
                    let last = if after == "$" { 0 } else { entry_number(&after) };
                    let entries: Vec<StreamEntry> = self
                        .server
                        .after(&stream, last)
                        .into_iter()
                        .map(|(id, raw)| StreamEntry { id, event: Some(raw) })
                        .collect();
                    if entries.is_empty() {
                        return;
                    }
                    self.reader.replied(vec![entries]);
                }
                StreamAction::Process => {
                    let payload = payload(self.reader.current().event.clone());
                    self.courier.process_stream_event(payload, 1).unwrap();
                    self.reader.processed(false, &mut Vec::new());
                }
                other => panic!("{other:?}"),
            }
        }
    }

    fn must_subscribe_to_events(&mut self, client_id: &str, last_event_id: Option<&str>) -> Events {
        let params = SubscribeToEventsQueryParams {
            client_ids: deserialize_list_of_strings(&client_id.to_string()),
            last_event_id: last_event_id.map(str::to_string),
        };
        let mut subscription = sse_handler(Query(params), 10, &mut Vec::new()).unwrap();
        let mut live = Vec::new();
        loop {
            match subscription.next_action() {
                SseAction::ReadInbox { client_id, event_id } => {
                    let command = self.storage.get_since(&client_id, &event_id);
                    let entries = match command {
                        StorageCommand::Range { stream, start, end } => {
                            assert_eq!(end, "+");
                            let last = entry_number(start.strip_prefix('(').unwrap());
                            self.server.after(&stream, last)
                        }
                        other => panic!("{other:?}"),
                    };
                    let entries = entries
                        .into_iter()
                        .map(|(id, raw)| InboxEntry { id, payload: payload(Some(raw)) })
                        .collect();
                    subscription
                        .inbox_read(RedisEventStorage::entries_read(Ok(entries), NOW))
                        .unwrap();
                }
                SseAction::Register { client_id } => {
                    live.push(self.courier.register_client(client_id, 0));
                    subscription.client_registered();
                }
                SseAction::Open => break,
            }
        }
        Events { backlog: subscription.into_backlog().into_iter().flatten().collect(), live }
    }
}

/// What a subscriber gets over HTTP: the content type, the cache control and
/// the text of the stream.
fn sent_text(event: Event) -> (String, String, String) {
    let stream = futures::stream::iter(vec![Ok::<Event, Infallible>(event)]);
    let response = Sse::new(stream).into_response();
    let header = |name: &str| response.headers()[name].to_str().unwrap().to_string();
    let (content_type, cache_control) = (header("content-type"), header("cache-control"));
    let body = axum::body::to_bytes(response.into_body(), usize::MAX);
    let bytes = futures::executor::block_on(body).unwrap();
    (content_type, cache_control, String::from_utf8(bytes.to_vec()).unwrap())
}

fn validate_sse_message(
    response: Option<EventResponse>,
    expected_from: &str,
    expected_message: &str,
) -> String {
    let response = response.expect("no event");
    let id = match &response {
        EventResponse::Message(event) => event.id.clone(),
        other => panic!("{other:?}"),
    };
    assert!(id.len() > 5, "id must be a non-empty string");
    assert!(response.is_sendable());
    let (content_type, cache_control, text) = sent_text(response.into_event());
    assert_eq!(content_type, "text/event-stream");
    assert_eq!(cache_control, "no-cache");

    let lines: Vec<&str> = text.split('\n').collect();
    assert_eq!(lines.len(), 5, "{text}");
    assert_eq!(lines[0], "event: message");
    assert_eq!(lines[1], format!("id: {id}"));
    let data = lines[2].strip_prefix("data: ").unwrap();
    let mut expected = serde_json::Map::new();
    expected.insert("from".to_string(), Value::from(expected_from));
    expected.insert(
        "message".to_string(),
        Value::from(BASE64_STANDARD.encode(expected_message)),
    );
    let parsed: Value = serde_json::from_str(data).unwrap();
    assert_eq!(parsed, Value::Object(expected));
    assert_eq!(&lines[3..], ["", ""]);
    id
}

#[test]
fn test_post_and_receive_single_message() {
    let mut bridge = Bridge::new();
    let client_id = "test_client";
    let mut stream = bridge.must_subscribe_to_events(client_id, None);

    let message = "hello world!";
    bridge.must_send_message("app", client_id, message);

    validate_sse_message(stream.next(), "app", message);
}

#[test]
fn test_multiple_clients_communication() {
    let mut bridge = Bridge::new();

    const NUM_WALLETS: usize = 20;
    let mut wallet_streams = Vec::with_capacity(NUM_WALLETS);
    for w_idx in 0..NUM_WALLETS {
        wallet_streams.push(bridge.must_subscribe_to_events(&format!("wallet_{}", w_idx), None));
    }
    let mut dapp_stream = bridge.must_subscribe_to_events("dapp", None);

    const NUM_MESSAGE_CYCLES: usize = 5;
    for cycle_idx in 0..NUM_MESSAGE_CYCLES {
        for w_idx in 0..NUM_WALLETS {
            let wallet_msg = format!("[cycle{}] Hello from Wallet{}", cycle_idx, w_idx);
            bridge.must_send_message(&format!("wallet_{}", w_idx), "dapp", &wallet_msg);
            let chunk = dapp_stream.next();
            validate_sse_message(chunk, &format!("wallet_{w_idx}"), &wallet_msg);
        }
        for w_idx in 0..NUM_WALLETS {
            let dapp_reply = format!("Reply to Wallet{}", w_idx);
            bridge.must_send_message("dapp", &format!("wallet_{}", w_idx), &dapp_reply);
            let chunk = wallet_streams[w_idx].next();
            validate_sse_message(chunk, "dapp", &dapp_reply);
        }
    }
    for (i, mut stream) in wallet_streams.into_iter().enumerate() {
        assert!(
            stream.next().is_none(),
            "wallet_{} received an unexpected message",
            i
        );
    }
}

#[test]
fn test_wallet_reconnection_with_missed_messages() {
    let mut bridge = Bridge::new();
    let mut wallet_stream = bridge.must_subscribe_to_events("wallet", None);
    let mut dapp_stream = bridge.must_subscribe_to_events("dapp", None);

    let wallet_msg = "Hello from Wallet";
    bridge.must_send_message("wallet", "dapp", wallet_msg);
    validate_sse_message(dapp_stream.next(), "wallet", wallet_msg);

    let dapp_msg = "Hello from Dapp";
    bridge.must_send_message("dapp", "wallet", dapp_msg);
    let last_event_id = validate_sse_message(wallet_stream.next(), "dapp", dapp_msg);

    // the wallet disconnects
    drop(wallet_stream);

    for i in 0..5 {
        let msg = format!("Offline message {}", i);
        bridge.must_send_message("dapp", "wallet", &msg);
    }

    let mut reconnected = bridge.must_subscribe_to_events("wallet", Some(&last_event_id));
    for i in 0..5 {
        let expected_msg = format!("Offline message {}", i);
        validate_sse_message(reconnected.next(), "dapp", &expected_msg);
    }
    assert!(reconnected.next().is_none());
}

#[test]
fn inboxes_keep_the_latest_messages() {
    let mut bridge = Bridge::new();
    bridge.storage = RedisEventStorage::new(300, 3, 1000);
    for i in 0..5 {
        bridge.must_send_message("dapp", "wallet", &format!("message {i}"));
    }
    let first = entry_id(0);
    let mut stream = bridge.must_subscribe_to_events("wallet", Some(&first));
    for i in 2..5 {
        validate_sse_message(stream.next(), "dapp", &format!("message {i}"));
    }
    assert!(stream.next().is_none());
}
