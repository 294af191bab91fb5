use base64::prelude::{Engine, BASE64_STANDARD};
use serde_json::Value;
use ton_connect_bridge::config::{MessageLimits, MAX_TTL_SECS, MIN_ALLOWED_TTL_SECS};
use ton_connect_bridge::handlers::message_handler::{
    grant_ttl, message_handler, message_response, validate_message_body, SendMessageQueryParams,
};
use ton_connect_bridge::handlers::{JsonResponse, Query, MAX_CLIENT_ID_LEN};
use ton_connect_bridge::models::TonEvent;
use ton_connect_bridge::storage::EventStorageError;

const NOW: u64 = 1_700_000_000;

fn send(client_id: &str, to: &str, ttl: Option<u16>, body: &str) -> Result<TonEvent, JsonResponse> {
    let query = SendMessageQueryParams {
        client_id: client_id.to_string(),
        to: to.to_string(),
        ttl,
    };
    message_handler(Query(query), body.to_string(), MessageLimits::default(), NOW)
        .map_err(|e| e.into_response())
}

fn json(message: &str, status: u16) -> Value {
    let mut object = serde_json::Map::new();
    object.insert("message".to_string(), Value::from(message));
    object.insert("statusCode".to_string(), Value::from(status));
    Value::Object(object)
}

fn refused(client_id: &str, to: &str, ttl: Option<u16>, body: &str, message: &str) {
    let response = send(client_id, to, ttl, body).unwrap_err();
    assert_eq!(response.status, 400);
    let body: Value = serde_json::from_str(&response.body).unwrap();
    assert_eq!(body, json(message, 400));
}

#[test]
fn message_handler_test_empty_client_id() {
    refused(
        "",
        "2",
        None,
        "",
        "Failed to deserialize query string: empty field `client_id`",
    );
}

#[test]
fn test_too_long_client_id() {
    let long_id = "a".repeat(MAX_CLIENT_ID_LEN + 1);
    refused(
        &long_id,
        "2",
        None,
        "",
        &format!("Failed to deserialize query string: field `client_id` must not exceed {MAX_CLIENT_ID_LEN} characters"),
    );
}

#[test]
fn test_empty_to() {
    refused(
        "1",
        "",
        None,
        "",
        "Failed to deserialize query string: empty field `to`",
    );
}

#[test]
fn test_too_long_to() {
    let long_id = "a".repeat(MAX_CLIENT_ID_LEN + 1);
    refused(
        "1",
        &long_id,
        None,
        "",
        &format!("Failed to deserialize query string: field `to` must not exceed {MAX_CLIENT_ID_LEN} characters"),
    );
}

#[test]
fn test_large_ttl() {
    let ttl = MAX_TTL_SECS + 1;
    refused(
        "1",
        "2",
        Some(ttl),
        "",
        &format!("Failed to deserialize query string: `ttl` value must be less than {MAX_TTL_SECS}"),
    );
}

#[test]
fn test_missing_message_body() {
    refused("1", "2", None, "", "Missing request body");
}

#[test]
fn test_not_base64_request_body() {
    refused(
        "1",
        "2",
        None,
        "hello world!",
        "Request body must be a valid base64 message",
    );
}

#[test]
fn test_valid_request_with_ttl() {
    let body = BASE64_STANDARD.encode("hello world!");
    let event = send("1", "2", Some(100), &body).unwrap();
    assert_eq!(event.id, "");
    assert_eq!(event.from, "1");
    assert_eq!(event.to, "2");
    assert_eq!(event.message, BASE64_STANDARD.encode("hello world!"));
    assert_eq!(event.as_ref(), BASE64_STANDARD.encode("hello world!"));
    assert!((98..=100).contains(&(event.deadline - NOW)));
    assert_eq!(event.deadline, NOW + 100);

    let response = message_response(Ok(())).unwrap().into_response();
    assert_eq!(response.status, 200);
    let body: Value = serde_json::from_str(&response.body).unwrap();
    assert_eq!(body, json("OK", 200));
    assert_eq!(response.body, "{\"message\":\"OK\",\"statusCode\":200}");
}

#[test]
fn storage_failure_is_answered_without_details() {
    let error = message_response(Err(EventStorageError("redis is down".to_string()))).unwrap_err();
    let response = error.into_response();
    assert_eq!(response.status, 500);
    assert_eq!(
        response.body,
        "{\"message\":\"something went wrong\",\"statusCode\":500}"
    );
}

#[test]
fn ids_are_measured_in_bytes() {
    let longest = "a".repeat(MAX_CLIENT_ID_LEN);
    assert!(send(&longest, &longest, None, "aGk=").is_ok());
    // 33 characters of two bytes each
    let wide = "\u{e9}".repeat(33);
    refused(
        &wide,
        "2",
        None,
        "aGk=",
        "Failed to deserialize query string: field `client_id` must not exceed 64 characters",
    );
    assert!(send("1", &"\u{e9}".repeat(32), None, "aGk=").is_ok());
}

#[test]
fn lifetime_of_messages() {
    let limits = MessageLimits::default();
    assert_eq!(MAX_TTL_SECS, 500);
    assert_eq!(MIN_ALLOWED_TTL_SECS, 10);
    assert_eq!(grant_ttl(None, limits), 500);
    assert_eq!(grant_ttl(Some(0), limits), 500);
    assert_eq!(grant_ttl(Some(9), limits), 500);
    assert_eq!(grant_ttl(Some(10), limits), 10);
    assert_eq!(grant_ttl(Some(499), limits), 499);
    assert_eq!(grant_ttl(Some(500), limits), 500);
    assert_eq!(send("1", "2", Some(500), "aGk=").unwrap().deadline, NOW + 500);
    assert_eq!(send("1", "2", Some(9), "aGk=").unwrap().deadline, NOW + 500);
    assert_eq!(send("1", "2", None, "aGk=").unwrap().deadline, NOW + 500);
}

#[test]
fn communication_is_symmetrical() {
    assert!(send("wallet", "dapp", None, "aGk=").is_ok());
    assert!(send("dapp", "wallet", None, "aGk=").is_ok());
    assert!(send("dapp", "", None, "aGk=").is_err());
    assert!(send("", "dapp", None, "aGk=").is_err());
}

#[test]
fn bodies_are_canonical_base64() {
    let accepted = [
        "AA==", "AAA=", "AAAA", "/w==", "//8=", "////", "+/+/", "aGVsbG8gd29ybGQh", "09az",
    ];
    for body in accepted {
        assert!(validate_message_body(&body.to_string()).is_ok(), "{body}");
    }
    let rejected = [
        "A", "AA", "AAA", "A===", "====", "AA=A", "=AAA", "A=AA", "AB==", "AAB=", "/x==", "//9=",
        "AAAA====", "AA==AAAA", "AAA\n", "AA-_", "\u{e9}\u{e9}\u{e9}\u{e9}", "AAAAA", " AAA",
        "AAAA=", "AAAAA===",
    ];
    for body in rejected {
        let error = validate_message_body(&body.to_string()).unwrap_err();
        assert_eq!(error.0, "Request body must be a valid base64 message", "{body}");
    }
    assert_eq!(
        validate_message_body(&String::new()).unwrap_err().0,
        "Missing request body"
    );
}

#[test]
fn encoded_bytes_are_accepted() {
    for length in 0..70u8 {
        let bytes: Vec<u8> = (0..=length).map(|i| i.wrapping_mul(37).wrapping_add(length)).collect();
        let body = BASE64_STANDARD.encode(&bytes);
        assert!(validate_message_body(&body).is_ok(), "{body}");
    }
}
