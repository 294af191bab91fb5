use tokio::sync::mpsc::error::TryRecvError;
use ton_connect_bridge::message_courier::{
    Delivery, RedisMessageCourier, StreamAction, StreamEntry, StreamEventError, StreamReader,
};
use ton_connect_bridge::metrics::MetricUpdate;
use ton_connect_bridge::models::TonEvent;
use ton_connect_bridge::storage::{entry_text, EntryPayload};

const SEC: u128 = 1_000_000_000;

fn event(id: &str, to: &str) -> TonEvent {
    TonEvent {
        id: id.to_string(),
        from: "dapp".to_string(),
        to: to.to_string(),
        message: "hello".to_string(),
        deadline: 10,
    }
}

fn is_registered(courier: &RedisMessageCourier, id: &str) -> bool {
    courier.is_subscribed(&id.to_string())
}

#[test]
fn test_inactive_client_is_removed() {
    let mut courier = RedisMessageCourier::new(1);
    let client_id = "wallet_client".to_string();
    let mut rx = courier.register_client(client_id.clone(), 0);

    let event = event("123", "wallet_client");
    let delivery = courier
        .process_stream_event(EntryPayload::Event(event.clone()), SEC / 10)
        .unwrap();
    assert!(matches!(delivery, Delivery::Sent));

    match rx.try_recv() {
        Ok(received_event) => assert_eq!(event, received_event),
        Err(TryRecvError::Disconnected) => panic!("channel closed unexpectedly"),
        Err(TryRecvError::Empty) => panic!("did not receive the expected event"),
    }

    let mut updates = Vec::new();
    let removed = courier.cleanup_inactive_clients(2 * SEC + SEC / 10, &mut updates);
    assert_eq!(removed, ["wallet_client"]);
    assert!(!courier.is_subscribed(&client_id), "inactive client wasn't removed");
    assert_eq!(updates.len(), 1);
    assert!(matches!(&updates[0], MetricUpdate::GaugeSet { name, value: 1 }
        if name == "active_tracked_client_ids"));
    assert!(matches!(rx.try_recv(), Err(TryRecvError::Disconnected)));
}

#[test]
fn events_go_to_the_channel_of_their_recipient() {
    let mut courier = RedisMessageCourier::new(10);
    let mut a = courier.register_client("a".to_string(), 0);
    let mut b = courier.register_client("b".to_string(), 0);
    for (id, to) in [("1-0", "a"), ("2-0", "b"), ("3-0", "a")] {
        let delivery = courier.process_stream_event(EntryPayload::Event(event(id, to)), 1).unwrap();
        assert!(matches!(delivery, Delivery::Sent));
    }
    let nobody = courier.process_stream_event(EntryPayload::Event(event("4-0", "c")), 1).unwrap();
    assert!(matches!(nobody, Delivery::NoSubscriber));
    assert_eq!(a.try_recv(), Ok(event("1-0", "a")));
    assert_eq!(a.try_recv(), Ok(event("3-0", "a")));
    assert_eq!(a.try_recv(), Err(TryRecvError::Empty));
    assert_eq!(b.try_recv(), Ok(event("2-0", "b")));
    assert_eq!(b.try_recv(), Err(TryRecvError::Empty));
}

#[test]
fn sent_events_keep_the_subscriber() {
    let mut courier = RedisMessageCourier::new(10);
    let _a = courier.register_client("a".to_string(), 0);
    let _b = courier.register_client("b".to_string(), 0);
    courier.process_stream_event(EntryPayload::Event(event("1-0", "a")), 5 * SEC).unwrap();
    assert_eq!(courier.cleanup_inactive_clients(14 * SEC, &mut Vec::new()), ["b"]);
    assert_eq!(courier.cleanup_inactive_clients(15 * SEC, &mut Vec::new()), ["a"]);
}

#[test]
fn events_for_closed_channels_come_back() {
    let mut courier = RedisMessageCourier::new(10);
    let rx = courier.register_client("a".to_string(), 0);
    drop(rx);
    match courier.process_stream_event(EntryPayload::Event(event("1-0", "a")), 1).unwrap() {
        Delivery::Gone(back) => assert_eq!(back, event("1-0", "a")),
        other => panic!("{other:?}"),
    }
    assert_eq!(courier.len(), 0);
    let again = courier.process_stream_event(EntryPayload::Event(event("2-0", "a")), 1).unwrap();
    assert!(matches!(again, Delivery::NoSubscriber));
}

#[test]
fn latest_channel_gets_the_events() {
    let mut courier = RedisMessageCourier::new(10);
    let mut first = courier.register_client("a".to_string(), 0);
    let mut second = courier.register_client("a".to_string(), 0);
    courier.process_stream_event(EntryPayload::Event(event("1-0", "a")), 1).unwrap();
    assert_eq!(first.try_recv(), Err(TryRecvError::Disconnected));
    assert_eq!(second.try_recv(), Ok(event("1-0", "a")));
}

#[test]
fn faulty_entries_change_nothing() {
    let mut courier = RedisMessageCourier::new(10);
    let mut a = courier.register_client("a".to_string(), 0);
    let missing = courier.process_stream_event(EntryPayload::Missing, 1);
    assert!(matches!(missing, Err(StreamEventError::MissingField)));
    let malformed =
        courier.process_stream_event(EntryPayload::Malformed("expected value".to_string()), 1);
    assert_eq!(malformed.unwrap_err().message(), "expected value");
    let not_utf8 =
        courier.process_stream_event(EntryPayload::NotUtf8("bad byte".to_string()), 1);
    assert_eq!(not_utf8.unwrap_err().message(), "bad byte");
    assert_eq!(courier.len(), 1);
    assert_eq!(a.try_recv(), Err(TryRecvError::Empty));
}

#[test]
fn active_clients_stay() {
    let mut courier = RedisMessageCourier::new(10);
    let mut channels = Vec::new();
    for n in 0..6u32 {
        channels.push(courier.register_client(format!("client_{n}"), n as u128 * SEC));
    }
    assert_eq!(courier.len(), 6);
    courier.message_sent(&"client_1".to_string(), true, 9 * SEC);
    let mut removed = courier.cleanup_inactive_clients(12 * SEC + 1, &mut Vec::new());
    removed.sort();
    assert_eq!(removed, ["client_0", "client_2"]);
    assert_eq!(courier.len(), 4);
    assert!(courier.cleanup_inactive_clients(12 * SEC + 1, &mut Vec::new()).is_empty());
    for n in [1usize, 3, 4, 5] {
        let event = event("1-0", &format!("client_{n}"));
        courier.process_stream_event(EntryPayload::Event(event.clone()), 13 * SEC).unwrap();
        assert_eq!(channels[n].try_recv(), Ok(event));
        assert_eq!(channels[n].try_recv(), Err(TryRecvError::Empty));
    }
    for n in [0usize, 2] {
        assert_eq!(channels[n].try_recv(), Err(TryRecvError::Disconnected));
    }
}

#[test]
fn time_to_live_is_exact() {
    let mut courier = RedisMessageCourier::new(10);
    let _rx = courier.register_client("a".to_string(), 5);
    assert!(courier.cleanup_inactive_clients(10 * SEC + 4, &mut Vec::new()).is_empty());
    assert_eq!(courier.cleanup_inactive_clients(10 * SEC + 5, &mut Vec::new()), ["a"]);
}

#[test]
fn clock_behind_the_registration() {
    let mut courier = RedisMessageCourier::new(1);
    let _rx = courier.register_client("a".to_string(), 5 * SEC);
    assert!(courier.cleanup_inactive_clients(0, &mut Vec::new()).is_empty());
    let mut strict = RedisMessageCourier::new(0);
    let _rx = strict.register_client("a".to_string(), 5 * SEC);
    assert_eq!(strict.cleanup_inactive_clients(0, &mut Vec::new()), ["a"]);
}

#[test]
fn replaced_receiver_keeps_what_it_was_handed() {
    let mut courier = RedisMessageCourier::new(10);
    let mut first = courier.register_client("a".to_string(), 0);
    let mut other = courier.register_client("b".to_string(), 0);
    courier.process_stream_event(EntryPayload::Event(event("1-0", "a")), 1).unwrap();
    courier.process_stream_event(EntryPayload::Event(event("2-0", "b")), 1).unwrap();
    let mut second = courier.register_client("a".to_string(), 2);
    assert_eq!(courier.len(), 2);
    assert_eq!(second.try_recv(), Err(TryRecvError::Empty));
    courier.process_stream_event(EntryPayload::Event(event("3-0", "a")), 3).unwrap();
    courier.process_stream_event(EntryPayload::Event(event("4-0", "a")), 3).unwrap();
    assert_eq!(first.try_recv(), Ok(event("1-0", "a")));
    assert_eq!(first.try_recv(), Err(TryRecvError::Disconnected));
    assert_eq!(second.try_recv(), Ok(event("3-0", "a")));
    assert_eq!(second.try_recv(), Ok(event("4-0", "a")));
    assert_eq!(second.try_recv(), Err(TryRecvError::Empty));
    assert_eq!(other.try_recv(), Ok(event("2-0", "b")));
    assert_eq!(other.try_recv(), Err(TryRecvError::Empty));
}

#[test]
fn subscribers_that_are_gone_are_dropped() {
    let mut courier = RedisMessageCourier::new(10);
    let mut channels = Vec::new();
    for n in 0..3u32 {
        channels.push(courier.register_client(n.to_string(), 0));
    }
    courier.message_sent(&"0".to_string(), false, 1);
    assert!(!is_registered(&courier, "0"));
    assert!(is_registered(&courier, "1"));
    assert!(is_registered(&courier, "2"));
    courier.process_stream_event(EntryPayload::Event(event("1-0", "2")), 1).unwrap();
    assert_eq!(channels[2].try_recv(), Ok(event("1-0", "2")));
    assert_eq!(channels[1].try_recv(), Err(TryRecvError::Empty));
    courier.message_sent(&"2".to_string(), false, 1);
    courier.message_sent(&"1".to_string(), false, 1);
    assert_eq!(courier.len(), 0);
    let mut again = courier.register_client("0".to_string(), 2);
    courier.process_stream_event(EntryPayload::Event(event("2-0", "0")), 3).unwrap();
    assert_eq!(again.try_recv(), Ok(event("2-0", "0")));
}

#[test]
fn messages_for_others_are_not_delivered() {
    let mut courier = RedisMessageCourier::new(10);
    let _rx = courier.register_client("a".to_string(), 0);
    assert_eq!(courier.route(EntryPayload::Event(event("1-0", "b"))).unwrap(), None);
    assert_eq!(
        courier.route(EntryPayload::Event(event("1-0", "a"))).unwrap(),
        Some(event("1-0", "a"))
    );
}

#[test]
fn faulty_entries() {
    let courier = RedisMessageCourier::new(10);
    let error = courier.route(EntryPayload::Missing).unwrap_err();
    assert!(matches!(error, StreamEventError::MissingField));
    assert_eq!(error.message(), "live stream entry doesn't contain event field");
    let fault = entry_text(Some(vec![0xff])).unwrap_err();
    let error = courier.route(fault).unwrap_err();
    assert!(matches!(error, StreamEventError::NotUtf8(_)));
    assert_eq!(error.message(), "invalid utf-8 sequence of 1 bytes from index 0");
    let error = courier
        .route(EntryPayload::Malformed("expected value".to_string()))
        .unwrap_err();
    assert_eq!(error.message(), "expected value");
}

fn entry(id: &str) -> StreamEntry {
    StreamEntry { id: id.to_string(), event: None }
}

fn step(reader: &StreamReader) -> String {
    match reader.next_action("messages") {
        StreamAction::Connect => "connect".to_string(),
        StreamAction::Pause { seconds } => format!("pause {seconds}"),
        StreamAction::Read { stream, after, block_ms, count } => {
            format!("read {stream} after {after} block {block_ms} count {count}")
        }
        StreamAction::Process => format!("process {}", reader.current().id),
    }
}

#[test]
fn stream_is_read_in_order() {
    let mut reader = StreamReader::new();
    let mut updates = Vec::new();
    assert_eq!(step(&reader), "connect");
    reader.connected(true);
    assert_eq!(step(&reader), "read messages after $ block 1000 count 500");
    reader.replied(Vec::new());
    assert_eq!(step(&reader), "read messages after $ block 1000 count 500");
    reader.replied(vec![vec![entry("1-0"), entry("2-0")], Vec::new(), vec![entry("3-0")]]);
    assert_eq!(step(&reader), "process 1-0");
    reader.processed(false, &mut updates);
    assert_eq!(step(&reader), "process 2-0");
    reader.processed(true, &mut updates);
    assert_eq!(step(&reader), "process 3-0");
    reader.processed(false, &mut updates);
    assert_eq!(step(&reader), "read messages after 3-0 block 1000 count 500");
    assert_eq!(updates.len(), 1);
    assert!(matches!(&updates[0], MetricUpdate::Count { name, .. }
        if name == "invalid_stream_events_total"));
}

#[test]
fn outages_do_not_lose_the_place() {
    let mut reader = StreamReader::new();
    reader.connected(false);
    assert_eq!(step(&reader), "pause 1");
    reader.paused();
    assert_eq!(step(&reader), "connect");
    reader.connected(true);
    reader.replied(vec![vec![entry("1-0")]]);
    reader.processed(false, &mut Vec::new());
    reader.read_failed();
    assert_eq!(step(&reader), "connect");
    reader.connected(false);
    reader.paused();
    reader.connected(true);
    assert_eq!(step(&reader), "read messages after 1-0 block 1000 count 500");
}

#[test]
fn every_entry_is_processed_once() {
    let mut reader = StreamReader::new();
    let mut seen = Vec::new();
    let mut replies = vec![
        vec![vec!["5-0".to_string()], vec!["6-0".to_string(), "7-0".to_string()]],
        vec![],
        vec![vec!["2-0".to_string(), "3-0".to_string()]],
        vec![vec!["1-0".to_string()]],
    ];
    let mut connects = 0;
    let mut reads = 0;
    while seen.len() < 6 {
        match reader.next_action("messages") {
            StreamAction::Connect => {
                connects += 1;
                reader.connected(connects % 3 != 0);
            }
            StreamAction::Pause { .. } => reader.paused(),
            StreamAction::Read { after, .. } => {
                assert_eq!(after, seen.last().cloned().unwrap_or("$".to_string()));
                reads += 1;
                assert!(reads < 100);
                if reads % 2 == 0 {
                    reader.read_failed();
                } else {
                    let streams = replies.pop().unwrap_or_default();
                    reader.replied(
                        streams
                            .iter()
                            .map(|ids| ids.iter().map(|id| entry(id)).collect())
                            .collect(),
                    );
                }
            }
            StreamAction::Process => {
                seen.push(reader.current().id.clone());
                reader.processed(false, &mut Vec::new());
            }
        }
    }
    assert_eq!(seen, ["1-0", "2-0", "3-0", "5-0", "6-0", "7-0"]);
    assert!(connects > 3);
}
