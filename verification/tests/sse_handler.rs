use serde_json::Value;
use ton_connect_bridge::handlers::sse_handler::{
    deserialize_list_of_strings, sse_handler, valid_event_id, EventResponse, Polled, SseAction,
    SubscribeToEventsQueryParams, Subscription, TrackedStream,
};
use ton_connect_bridge::handlers::{JsonResponse, Query, MAX_CLIENT_ID_LEN};
use ton_connect_bridge::metrics::MetricUpdate;
use ton_connect_bridge::models::TonEvent;
use ton_connect_bridge::storage::EventStorageError;

const MAX_CLIENT_IDS: usize = 10;

fn subscribe(client_id: &str, last_event_id: Option<&str>) -> Result<Subscription, JsonResponse> {
    let params = SubscribeToEventsQueryParams {
        client_ids: deserialize_list_of_strings(&client_id.to_string()),
        last_event_id: last_event_id.map(|id| id.to_string()),
    };
    let mut updates = Vec::new();
    let count = params.client_ids.len();
    let result = sse_handler(Query(params), MAX_CLIENT_IDS, &mut updates);
    if result.is_ok() {
        assert_eq!(updates.len(), 1);
        assert!(matches!(&updates[0], MetricUpdate::RecordNumber { name, value }
            if name == "client_ids_per_connection" && *value == count));
    } else {
        assert!(updates.is_empty());
    }
    result.map_err(|e| e.into_response())
}

fn refused(client_id: &str, last_event_id: Option<&str>, message: &str) {
    let response = subscribe(client_id, last_event_id).unwrap_err();
    assert_eq!(response.status, 400);
    let mut expected = serde_json::Map::new();
    expected.insert("message".to_string(), Value::from(message));
    expected.insert("statusCode".to_string(), Value::from(400));
    let body: Value = serde_json::from_str(&response.body).unwrap();
    assert_eq!(body, Value::Object(expected));
}

fn event(id: &str, message: &str) -> TonEvent {
    TonEvent {
        id: id.to_string(),
        from: "app".to_string(),
        to: "wallet".to_string(),
        message: message.to_string(),
        deadline: 7,
    }
}

#[test]
fn sse_handler_test_empty_client_id() {
    refused(
        "",
        Some("2"),
        "Failed to deserialize query string: field `client_id` is empty",
    );
}

#[test]
fn test_to_many_client_ids() {
    let ids = (1..MAX_CLIENT_IDS * 2)
        .map(|i| i.to_string())
        .collect::<Vec<String>>()
        .join(",");
    refused(
        &ids,
        None,
        &format!("Failed to deserialize query string: field `client_id` must contain no more than {MAX_CLIENT_IDS} ids"),
    );
}

#[test]
fn test_too_long_client_id_value() {
    let long_id = "a".repeat(MAX_CLIENT_ID_LEN + 1);
    refused(
        &format!("1,{long_id}"),
        None,
        &format!("Failed to deserialize query string: field `client_id` must not exceed {MAX_CLIENT_ID_LEN} characters"),
    );
}

#[test]
fn as_many_ids_as_allowed() {
    let ids: Vec<String> = (0..MAX_CLIENT_IDS).map(|i| i.to_string()).collect();
    let mut subscription = subscribe(&ids.join(","), None).unwrap();
    for id in &ids {
        assert_eq!(step(&subscription), format!("register {id}"));
        subscription.client_registered();
    }
    assert_eq!(step(&subscription), "open");
}

#[test]
fn lists_of_client_ids() {
    let parse = |s: &str| deserialize_list_of_strings(&s.to_string());
    assert_eq!(parse("a"), ["a"]);
    assert_eq!(parse("a,b,c"), ["a", "b", "c"]);
    assert_eq!(parse(" a , b\t,\nc "), ["a", "b", "c"]);
    assert_eq!(parse(",a,, ,b,"), ["a", "b"]);
    assert_eq!(parse("a b, c"), ["a b", "c"]);
    assert_eq!(parse("\u{2003}\u{e9}\u{a0},x"), ["\u{e9}", "x"]);
    assert!(parse("").is_empty());
    assert!(parse(" , ,").is_empty());
}

#[test]
fn white_space_around_ids() {
    let white = [
        '\u{9}', '\u{a}', '\u{b}', '\u{c}', '\u{d}', '\u{20}', '\u{85}', '\u{a0}', '\u{1680}',
        '\u{2000}', '\u{2001}', '\u{2002}', '\u{2003}', '\u{2004}', '\u{2005}', '\u{2006}',
        '\u{2007}', '\u{2008}', '\u{2009}', '\u{200a}', '\u{2028}', '\u{2029}', '\u{202f}',
        '\u{205f}', '\u{3000}',
    ];
    for n in 0..0x11000u32 {
        if let Some(c) = char::from_u32(n) {
            let items = deserialize_list_of_strings(&format!("{c}x{c}"));
            if c == ',' || white.contains(&c) {
                assert_eq!(items, ["x"], "{n:x}");
            } else {
                assert_eq!(items, [format!("{c}x{c}")], "{n:x}");
            }
        }
    }
}

#[test]
fn joined_lists_read_back() {
    let ids = vec!["wallet".to_string(), "d app".to_string(), "\u{e9}".to_string()];
    assert_eq!(deserialize_list_of_strings(&ids.join(",")), ids);
    let mut both = deserialize_list_of_strings(&" a,b ".to_string());
    both.extend(deserialize_list_of_strings(&",c".to_string()));
    assert_eq!(deserialize_list_of_strings(&" a,b ,,c".to_string()), both);
}

#[test]
fn heartbeat_event() {
    let event = EventResponse::Heartbeat;
    assert!(event.is_sendable());
    let text = format!("{:?}", event.into_event());
    assert!(text.contains("b\"event: heartbeat\\n\""), "{text}");
}

#[test]
fn message_event() {
    let response = EventResponse::Message(event("17-0", "aGk="));
    assert!(response.is_sendable());
    let text = format!("{:?}", response.into_event());
    let expected = "b\"event: message\\nid: 17-0\\ndata: {\\\"from\\\":\\\"app\\\",\\\"message\\\":\\\"aGk=\\\"}\\n\"";
    assert!(text.contains(expected), "{text}");
}

#[test]
fn message_event_of_several_lines() {
    let response = EventResponse::Message(event("17-0", "a\r\nb"));
    let text = format!("{:?}", response.into_event());
    let expected = "data: {\\\"from\\\":\\\"app\\\",\\\"message\\\":\\\"a\\\\r\\\\nb\\\"}\\n\"";
    assert!(text.contains(expected), "{text}");
}

#[test]
fn ids_of_events() {
    assert!(valid_event_id("1700000000000-0"));
    assert!(valid_event_id(""));
    assert!(!valid_event_id("a\nb"));
    assert!(!valid_event_id("a\r"));
    assert!(!valid_event_id("\0"));
    assert!(!EventResponse::Message(event("a\nb", "aGk=")).is_sendable());
}

fn step(subscription: &Subscription) -> String {
    match subscription.next_action() {
        SseAction::ReadInbox { client_id, event_id } => format!("read {client_id} after {event_id}"),
        SseAction::Register { client_id } => format!("register {client_id}"),
        SseAction::Open => "open".to_string(),
    }
}

#[test]
fn subscription_with_missed_events() {
    let mut subscription = subscribe("a,b", Some("5-0")).unwrap();
    assert_eq!(step(&subscription), "read a after 5-0");
    subscription.inbox_read(Ok(vec![event("6-0", "x"), event("7-0", "y")])).unwrap();
    assert_eq!(step(&subscription), "read b after 5-0");
    subscription.inbox_read(Ok(Vec::new())).unwrap();
    assert_eq!(step(&subscription), "register a");
    subscription.client_registered();
    assert_eq!(step(&subscription), "register b");
    subscription.client_registered();
    assert_eq!(step(&subscription), "open");
    let backlog = subscription.into_backlog();
    assert_eq!(backlog, vec![vec![event("6-0", "x"), event("7-0", "y")], Vec::new()]);
}

#[test]
fn subscription_without_missed_events() {
    let mut subscription = subscribe("a", None).unwrap();
    assert_eq!(step(&subscription), "register a");
    subscription.client_registered();
    assert_eq!(step(&subscription), "open");
    assert!(subscription.into_backlog().is_empty());
}

#[test]
fn subscription_fails_with_the_storage() {
    let mut subscription = subscribe("a,b", Some("5-0")).unwrap();
    subscription.inbox_read(Ok(Vec::new())).unwrap();
    let error = subscription
        .inbox_read(Err(EventStorageError("down".to_string())))
        .unwrap_err();
    assert_eq!(error.status, 500);
    assert_eq!(error.message, "something went wrong");
    assert_eq!(step(&subscription), "read b after 5-0");
}

#[test]
fn tracked_stream_is_measured() {
    let mut updates = Vec::new();
    let stream = TrackedStream::new("inner", 1_000, &mut updates);
    assert_eq!(stream.inner, "inner");
    assert!(matches!(stream.poll_next(Polled::Item(3), &mut updates), Polled::Item(3)));
    assert!(matches!(stream.poll_next(Polled::<u8>::Pending, &mut updates), Polled::Pending));
    assert!(matches!(stream.poll_next(Polled::<u8>::End, &mut updates), Polled::End));
    stream.closed(3_500, &mut updates);
    assert_eq!(updates.len(), 4);
    assert!(matches!(&updates[0], MetricUpdate::GaugeUp { name } if name == "active_connections_number"));
    assert!(matches!(&updates[1], MetricUpdate::Count { name, labels }
        if name == "messages_sent_to_clients_total" && labels.is_empty()));
    assert!(matches!(&updates[2], MetricUpdate::RecordDuration { name, nanos: 2_500, .. }
        if name == "sse_session_duration_seconds"));
    assert!(matches!(&updates[3], MetricUpdate::GaugeDown { name } if name == "active_connections_number"));
}
