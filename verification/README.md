# TON Connect HTTP bridge

A bridge delivers messages from an app to a wallet and back. Both are clients to
it: a sender posts a message for a recipient, the bridge keeps it in the
recipient's inbox, and hands it out over a stream of server-sent events.

* `src/` is the library, verified with Verus: which requests are refused, what is
  stored and read back, who gets which message, and how the bridge reads the
  stream of all messages. It decides; it does not wait for anything.
* `app/` is the server around it: configuration, Redis and HTTP.
* `tests/` runs the library, in whole conversations too.

## Modules

| module | what it holds |
| --- | --- |
| `models` | events, and their JSON texts |
| `handlers::message_handler` | messages that clients send |
| `handlers::sse_handler` | subscriptions, and server-sent events |
| `storage` | the Redis commands for an event, and reading an inbox |
| `message_courier` | live messages: the subscribers, and the reader of the stream |
| `metrics` | what is measured |
| `config` | settings |
| `json`, `encoding`, `text` | the formats that the others use |

What the library takes on trust from `serde_json`, `base64`, `axum`, `tokio` and
the standard library stands in functions marked `external_body`, each with a
comment that says what is claimed.
