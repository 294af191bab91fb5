use serde_json::Value;
use ton_connect_bridge::models::{default_id, TonEvent};

fn event(id: &str, from: &str, message: &str, deadline: u64) -> TonEvent {
    TonEvent {
        id: id.to_string(),
        from: from.to_string(),
        to: "wallet".to_string(),
        message: message.to_string(),
        deadline,
    }
}

#[test]
fn subscribers_see_sender_and_message() {
    let text = event("1-0", "dapp", "aGk=", 5).serialize_for_sse().unwrap();
    assert_eq!(text, "{\"from\":\"dapp\",\"message\":\"aGk=\"}");
}

#[test]
fn stored_event() {
    assert_eq!(
        event("1-0", "dapp", "aGk=", 1_700_000_000).serialize().unwrap(),
        "{\"id\":\"1-0\",\"from\":\"dapp\",\"to\":\"wallet\",\"message\":\"aGk=\",\"deadline\":1700000000}"
    );
}

#[test]
fn stored_event_without_id() {
    assert_eq!(
        event("", "dapp", "aGk=", 0).serialize().unwrap(),
        "{\"from\":\"dapp\",\"to\":\"wallet\",\"message\":\"aGk=\",\"deadline\":0}"
    );
    assert_eq!(
        event("", "", "", u64::MAX).serialize().unwrap(),
        "{\"from\":\"\",\"to\":\"wallet\",\"message\":\"\",\"deadline\":18446744073709551615}"
    );
}

#[test]
fn special_characters_are_escaped() {
    let text = event("1-0", "\"\\/\u{8}\u{c}\n\r\t", "\u{0}\u{1f}\u{7f}\u{e9}\u{1f600}", 5)
        .serialize_for_sse()
        .unwrap();
    assert_eq!(
        text,
        "{\"from\":\"\\\"\\\\/\\b\\f\\n\\r\\t\",\"message\":\"\\u0000\\u001f\u{7f}\u{e9}\u{1f600}\"}"
    );
}

#[test]
fn every_character_is_read_back() {
    let mut all = String::new();
    for n in 0..0x3000u32 {
        if let Some(c) = char::from_u32(n) {
            all.push(c);
        }
    }
    let text = event("1-0", &all, "m", 5).serialize_for_sse().unwrap();
    assert!(text.chars().all(|c| c as u32 >= 32));
    let value: Value = serde_json::from_str(&text).unwrap();
    assert_eq!(value["from"].as_str(), Some(all.as_str()));
    assert_eq!(value["message"].as_str(), Some("m"));
}

#[test]
fn every_control_character_is_escaped() {
    for n in 0..32u32 {
        let c = char::from_u32(n).unwrap();
        let text = event("", &c.to_string(), "", 5).serialize_for_sse().unwrap();
        let escape = match n {
            8 => "\\b".to_string(),
            9 => "\\t".to_string(),
            10 => "\\n".to_string(),
            12 => "\\f".to_string(),
            13 => "\\r".to_string(),
            _ => format!("\\u{n:04x}"),
        };
        assert_eq!(text, format!("{{\"from\":\"{escape}\",\"message\":\"\"}}"));
    }
}

#[test]
fn different_events_have_different_texts() {
    let events = [
        event("", "a", "b", 1),
        event("", "a", "b", 10),
        event("", "a\"", "b", 1),
        event("", "a", "\"b", 1),
        event("1", "a", "b", 1),
        event("n/a", "a", "b", 1),
    ];
    for (i, a) in events.iter().enumerate() {
        for (j, b) in events.iter().enumerate() {
            assert_eq!(a.serialize().unwrap() == b.serialize().unwrap(), i == j);
        }
    }
}

#[test]
fn id_of_events_without_one() {
    assert_eq!(default_id(), "n/a");
}
