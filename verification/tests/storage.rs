use ton_connect_bridge::models::TonEvent;
use ton_connect_bridge::storage::{
    entry_text, is_readable, EntryPayload, InboxEntry, MaxLen, RedisEventStorage, StorageCommand,
    ALL_MSGS_STREAM, EVENT_FIELD,
};

fn event(id: &str, to: &str, deadline: u64) -> TonEvent {
    TonEvent {
        id: id.to_string(),
        from: "dapp".to_string(),
        to: to.to_string(),
        message: "aGk=".to_string(),
        deadline,
    }
}

fn entry(id: &str, payload: EntryPayload) -> InboxEntry {
    InboxEntry { id: id.to_string(), payload }
}

fn storage() -> RedisEventStorage {
    RedisEventStorage::new(300, 20, 1000)
}

#[test]
fn events_go_to_the_inbox_of_the_recipient() {
    let event = event("", "wallet", 5);
    let commands = storage().add(&event);
    assert_eq!(commands.len(), 2);
    match &commands[0] {
        StorageCommand::Append { stream, max_len, field, value } => {
            assert_eq!(stream, "inbox:wallet");
            assert_eq!(*max_len, MaxLen::Exact(20));
            assert_eq!(field, EVENT_FIELD);
            assert_eq!(
                value,
                "{\"from\":\"dapp\",\"to\":\"wallet\",\"message\":\"aGk=\",\"deadline\":5}"
            );
        }
        other => panic!("{other:?}"),
    }
    match &commands[1] {
        StorageCommand::Expire { key, seconds } => {
            assert_eq!(key, "inbox:wallet");
            assert_eq!(*seconds, 300);
        }
        other => panic!("{other:?}"),
    }
}

#[test]
fn stored_events_are_announced() {
    let command = storage()
        .inbox_replied(event("", "wallet", 5), Ok("17-3".to_string()))
        .unwrap();
    match command {
        StorageCommand::Append { stream, max_len, field, value } => {
            assert_eq!(stream, ALL_MSGS_STREAM);
            assert_eq!(stream, "messages");
            assert_eq!(max_len, MaxLen::Approx(1000));
            assert_eq!(field, "event");
            assert_eq!(
                value,
                "{\"id\":\"17-3\",\"from\":\"dapp\",\"to\":\"wallet\",\"message\":\"aGk=\",\"deadline\":5}"
            );
        }
        other => panic!("{other:?}"),
    }
    assert!(RedisEventStorage::announced(Ok(())).is_ok());
}

#[test]
fn failures_of_the_server_are_reported() {
    let error = storage()
        .inbox_replied(event("", "wallet", 5), Err("timed out".to_string()))
        .unwrap_err();
    assert_eq!(error.0, "timed out");
    assert_eq!(RedisEventStorage::announced(Err("gone".to_string())).unwrap_err().0, "gone");
    assert_eq!(
        RedisEventStorage::entries_read(Err("closed".to_string()), 0).unwrap_err().0,
        "closed"
    );
}

#[test]
fn reads_start_after_the_last_event() {
    match storage().get_since(&"wallet".to_string(), &"17-3".to_string()) {
        StorageCommand::Range { stream, start, end } => {
            assert_eq!(stream, "inbox:wallet");
            assert_eq!(start, "(17-3");
            assert_eq!(end, "+");
        }
        other => panic!("{other:?}"),
    }
}

#[test]
fn inboxes_are_separate() {
    let key = |id: &str| match storage().get_since(&id.to_string(), &"0".to_string()) {
        StorageCommand::Range { stream, .. } => stream,
        other => panic!("{other:?}"),
    };
    assert_ne!(key("a"), key("b"));
    assert_ne!(key("messages"), "messages");
}

#[test]
fn expired_events_are_not_returned() {
    let entries = || {
        Ok(vec![
            entry("1-0", EntryPayload::Event(event("n/a", "wallet", 9))),
            entry("2-0", EntryPayload::Event(event("n/a", "wallet", 10))),
            entry("3-0", EntryPayload::Event(event("n/a", "wallet", 11))),
        ])
    };
    let ids = |now: u64| -> Vec<String> {
        RedisEventStorage::entries_read(entries(), now)
            .unwrap()
            .into_iter()
            .map(|e| e.id)
            .collect()
    };
    assert_eq!(ids(9), ["1-0", "2-0", "3-0"]);
    assert_eq!(ids(10), ["2-0", "3-0"]);
    assert_eq!(ids(11), ["3-0"]);
    assert!(ids(12).is_empty());
}

#[test]
fn events_get_the_id_of_their_entry() {
    let events = RedisEventStorage::entries_read(
        Ok(vec![entry("4-0", EntryPayload::Event(event("n/a", "wallet", 9)))]),
        1,
    )
    .unwrap();
    assert_eq!(events, [event("4-0", "wallet", 9)]);
}

#[test]
fn the_first_faulty_entry_fails_the_read() {
    let error = RedisEventStorage::entries_read(
        Ok(vec![
            entry("1-0", EntryPayload::Event(event("n/a", "wallet", 9))),
            entry("2-0", EntryPayload::Missing),
            entry("3-0", EntryPayload::Malformed("expected value".to_string())),
        ]),
        1,
    )
    .unwrap_err();
    assert_eq!(error.0, "unexpected event data");
    let error = RedisEventStorage::entries_read(
        Ok(vec![
            entry("2-0", EntryPayload::Malformed("expected value".to_string())),
            entry("3-0", EntryPayload::Missing),
        ]),
        1,
    )
    .unwrap_err();
    assert_eq!(error.0, "expected value");
}

#[test]
fn readable_inboxes() {
    let good = || entry("1-0", EntryPayload::Event(event("n/a", "wallet", 9)));
    let not_utf8 = || entry("2-0", EntryPayload::NotUtf8("bad byte".to_string()));
    let missing = || entry("3-0", EntryPayload::Missing);
    assert!(is_readable(&vec![], 1));
    assert!(is_readable(&vec![good(), good()], 1));
    assert!(!is_readable(&vec![good(), not_utf8()], 1));
    assert!(!is_readable(&vec![not_utf8(), missing()], 1));
    assert!(is_readable(&vec![good(), missing(), not_utf8()], 1));
    let error =
        RedisEventStorage::entries_read(Ok(vec![good(), missing(), not_utf8()]), 1).unwrap_err();
    assert_eq!(error.0, "unexpected event data");
}

fn utf8_fault(bytes: &[u8]) -> String {
    match entry_text(Some(bytes.to_vec())) {
        Err(EntryPayload::NotUtf8(reason)) => reason,
        other => panic!("{other:?}"),
    }
}

#[test]
fn texts_of_entries() {
    assert!(matches!(entry_text(None), Err(EntryPayload::Missing)));
    assert_eq!(utf8_fault(&[0xff, 0x00]), "invalid utf-8 sequence of 1 bytes from index 0");
    assert_eq!(utf8_fault(&[0x61, 0xc0, 0x80]), "invalid utf-8 sequence of 1 bytes from index 1");
    assert_eq!(utf8_fault(&[0xed, 0xa0, 0x80]), "invalid utf-8 sequence of 1 bytes from index 0");
    assert_eq!(utf8_fault(&[0xe2, 0x82]), "incomplete utf-8 byte sequence from index 0");
    assert_eq!(entry_text(Some("caf\u{e9}".as_bytes().to_vec())).unwrap(), "caf\u{e9}");
    assert_eq!(entry_text(Some(Vec::new())).unwrap(), "");
}
