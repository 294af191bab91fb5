use ton_connect_bridge::config::host_and_port;
use ton_connect_bridge::config::{level_named, Config, LogLevel};
use ton_connect_bridge::metrics::{count_http_request, http_metrics_middleware, MetricUpdate};
use ton_connect_bridge::server::healthcheck;
use ton_connect_bridge::text::{byte_len, decimal_text};

fn config(log_level: &str) -> Config {
    Config {
        log_level: log_level.to_string(),
        redis_url: "redis://localhost:6379".to_string(),
        redis_conn_timeout_sec: 3,
        server_address: "127.0.0.1:3000".to_string(),
        metrics_server_address: "127.0.0.1:3001".to_string(),
        sse_heartbeat_interval_sec: 15,
        sse_client_without_messages_ttl_sec: 300,
        inbox_max_message_ttl_sec: 400,
        inbox_min_message_ttl_sec: 20,
        inbox_max_messages_per_client: 100,
        inbox_inactive_ttl_sec: 300,
        max_client_ids_per_connection: 10,
        global_stream_max_size: 10_000,
    }
}

#[test]
fn log_levels() {
    assert_eq!(config("debug").log_level(), LogLevel::Debug);
    assert_eq!(config("info").log_level(), LogLevel::Info);
    assert_eq!(config("error").log_level(), LogLevel::Error);
    assert_eq!(config("DEBUG").log_level(), LogLevel::Debug);
    assert_eq!(config("Error").log_level(), LogLevel::Error);
    assert_eq!(config("eRRoR").log_level(), LogLevel::Error);
    assert_eq!(config("trace").log_level(), LogLevel::Info);
    assert_eq!(config("").log_level(), LogLevel::Info);
    assert_eq!(config("\u{df}\u{c9}").log_level(), LogLevel::Info);
    assert_eq!(level_named(&"DEBUG".to_string()), LogLevel::Info);
}

#[test]
fn limits_come_from_the_configuration() {
    let limits = config("info").message_limits();
    assert_eq!(limits.max_ttl_sec, 400);
    assert_eq!(limits.min_ttl_sec, 20);
}

fn pairs(labels: &[(String, String)]) -> Vec<(&str, &str)> {
    labels.iter().map(|(k, v)| (k.as_str(), v.as_str())).collect()
}

#[test]
fn http_requests_are_counted() {
    let mut updates = Vec::new();
    count_http_request(
        "GET".to_string(),
        "/events".to_string(),
        "200".to_string(),
        &mut updates,
    );
    match &updates[..] {
        [MetricUpdate::Count { name, labels }] => {
            assert_eq!(name, "http_requests_total");
            assert_eq!(
                pairs(labels),
                [("method", "GET"), ("path", "/events"), ("status", "200")]
            );
        }
        other => panic!("{other:?}"),
    }
}

#[test]
fn http_requests_are_timed() {
    let mut updates = Vec::new();
    http_metrics_middleware("POST".to_string(), None, 404, 1_500, &mut updates);
    http_metrics_middleware(
        "POST".to_string(),
        Some("/message".to_string()),
        200,
        7,
        &mut updates,
    );
    assert_eq!(updates.len(), 4);
    match &updates[..] {
        [MetricUpdate::Count { labels: a, .. }, MetricUpdate::RecordDuration { name, labels: b, nanos: 1_500 }, MetricUpdate::Count { labels: c, .. }, MetricUpdate::RecordDuration { nanos: 7, .. }] =>
        {
            assert_eq!(name, "http_requests_duration_seconds");
            let invalid = [("method", "POST"), ("path", "invalid"), ("status", "404")];
            assert_eq!(pairs(a), invalid);
            assert_eq!(pairs(b), invalid);
            assert_eq!(
                pairs(c),
                [("method", "POST"), ("path", "/message"), ("status", "200")]
            );
        }
        other => panic!("{other:?}"),
    }
}

#[test]
fn server_is_healthy() {
    assert_eq!(healthcheck(), "OK");
}

#[test]
fn decimal_numerals() {
    for n in [0, 1, 9, 10, 11, 99, 100, 500, 65535, 1_000_000, u64::MAX] {
        assert_eq!(decimal_text(n), n.to_string());
    }
}

#[test]
fn lengths_in_bytes() {
    assert_eq!(byte_len(""), 0);
    assert_eq!(byte_len("abc"), 3);
    assert_eq!(byte_len("\u{e9}\u{20ac}\u{1f600}"), 9);
}

#[test]
fn addresses_with_and_without_a_scheme() {
    let of = |address: &str| host_and_port(&address.to_string());
    assert_eq!(of("http://localhost:3000"), "localhost:3000");
    assert_eq!(of("127.0.0.1:3001"), "127.0.0.1:3001");
    assert_eq!(of("[::1]:80"), "[::1]:80");
    assert_eq!(of("http:/x:1"), "http:/x:1");
    assert_eq!(of("http://"), "");
    assert_eq!(of(""), "");
}
