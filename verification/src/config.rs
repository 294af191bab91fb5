//! What the bridge can be told about how to run.

use crate::text;
use vstd::prelude::*;
use vstd::string::*;

verus! {

/// How much the application logs.
#[derive(Debug, Clone, Copy, PartialEq, Eq, Structural)]
pub enum LogLevel {
    Debug,
    Info,
    Error,
}

/// The longest time that a message may live, in seconds, where nothing else is
/// configured.
pub const MAX_TTL_SECS: u16 = 500;

/// The shortest time that a sender can ask for, in seconds, where nothing else
/// is configured.
pub const MIN_ALLOWED_TTL_SECS: u16 = 10;

/// How long messages may live.
#[derive(Debug, Clone, Copy)]
pub struct MessageLimits {
    /// The longest time that a message may live, in seconds.
    pub max_ttl_sec: u16,
    /// A sender that asks for less than this gets the longest time instead.
    pub min_ttl_sec: u16,
}

impl Default for MessageLimits {
    fn default() -> (r: Self)
        ensures
            r.max_ttl_sec == MAX_TTL_SECS == 500,
            r.min_ttl_sec == MIN_ALLOWED_TTL_SECS == 10,
    {
        MessageLimits { max_ttl_sec: MAX_TTL_SECS, min_ttl_sec: MIN_ALLOWED_TTL_SECS }
    }
}

/// The configuration of the bridge.
#[derive(Debug, Clone)]
pub struct Config {
    /// The log level: debug, info or error.
    pub log_level: String,
    /// The URL of the Redis server.
    pub redis_url: String,
    /// How long to wait for a connection to Redis, in seconds.
    pub redis_conn_timeout_sec: u64,
    /// The address of the bridge server: host and port, `http://localhost:3000`
    /// for one.
    pub server_address: String,
    /// The address of the metrics server: host and port, `http://localhost:3001`
    /// for one.
    pub metrics_server_address: String,
    /// How often a heartbeat goes to a subscriber, in seconds.
    pub sse_heartbeat_interval_sec: u64,
    /// How long a subscriber that gets no messages is kept, in seconds.
    pub sse_client_without_messages_ttl_sec: u64,
    /// The longest time that a message may live, in seconds.
    pub inbox_max_message_ttl_sec: u16,
    /// A sender that asks for less than this gets the longest time instead.
    pub inbox_min_message_ttl_sec: u16,
    /// How many messages an inbox holds. Older messages are dropped first.
    pub inbox_max_messages_per_client: usize,
    /// How long an inbox is kept that gets no messages, in seconds.
    pub inbox_inactive_ttl_sec: u16,
    /// How many client ids one subscription may name.
    pub max_client_ids_per_connection: usize,
    /// How many messages the global stream holds.
    pub global_stream_max_size: usize,
}

/// The log level that a name in lower case stands for. Names that are not
/// known stand for `Info`.
pub open spec fn level_of(name: Seq<char>) -> LogLevel {
    if name == "debug"@ {
        LogLevel::Debug
    } else if name == "error"@ {
        LogLevel::Error
    } else {
        LogLevel::Info
    }
}

/// The log level that a name in lower case stands for.
pub fn level_named(name: &String) -> (r: LogLevel)
    ensures
        r == level_of(name@),
{
    if *name == "debug".to_owned() {
        LogLevel::Debug
    } else if *name == "error".to_owned() {
        LogLevel::Error
    } else {
        LogLevel::Info
    }
}

/// An address without the scheme in front of it: host and port.
pub open spec fn host_and_port_of(address: Seq<char>) -> Seq<char> {
    if "http://"@.is_prefix_of(address) {
        address.skip("http://"@.len() as int)
    } else {
        address
    }
}

/// The host and port of a server's address, which may have a scheme in front of
/// them.
pub fn host_and_port(address: &String) -> (r: String)
    ensures
        r@ == host_and_port_of(address@),
{
    let chars: Vec<char> = text::characters(address.as_str());
    let scheme: Vec<char> = text::characters("http://");
    if chars.len() < scheme.len() {
        return address.clone();
    }
    let mut i: usize = 0;
    while i < scheme.len()
        invariant
            chars@ == address@,
            scheme@ == "http://"@,
            i <= scheme@.len() <= chars@.len(),
            forall|j: int| 0 <= j < i ==> chars@[j] == scheme@[j],
        decreases scheme@.len() - i,
    {
        if chars[i] != scheme[i] {
            assert(address@.take("http://"@.len() as int)[i as int] != "http://"@[i as int]);
            return address.clone();
        }
        i = i + 1;
    }
    assert("http://"@ =~= address@.take("http://"@.len() as int));
    let rest: String = address.as_str().substring_char(scheme.len(), chars.len()).to_owned();
    assert(rest@ =~= address@.skip("http://"@.len() as int));
    rest
}

impl Config {
    /// The log level, whatever the case in which it is written.
    pub fn log_level(&self) -> (r: LogLevel)
        ensures
            r == level_of(text::lowercase(self.log_level@)),
            vstd::utf8::is_ascii_chars(self.log_level@) ==> r == level_of(
                self.log_level@.map_values(|c: char| text::ascii_lowercase(c)),
            ),
    {
        level_named(&text::to_lowercase(self.log_level.as_str()))
    }

    /// How long messages may live.
    pub fn message_limits(&self) -> (r: MessageLimits)
        ensures
            r.max_ttl_sec == self.inbox_max_message_ttl_sec,
            r.min_ttl_sec == self.inbox_min_message_ttl_sec,
    {
        MessageLimits {
            max_ttl_sec: self.inbox_max_message_ttl_sec,
            min_ttl_sec: self.inbox_min_message_ttl_sec,
        }
    }
}

/// The names `debug` and `error` stand for these levels, and every other name,
/// `info` among them, for `Info`.
pub proof fn law_log_levels(name: Seq<char>)
    ensures
        level_of(name) is Debug <==> name == seq!['d', 'e', 'b', 'u', 'g'],
        level_of(name) is Error <==> name == seq!['e', 'r', 'r', 'o', 'r'],
        level_of(name) is Info <==> name != seq!['d', 'e', 'b', 'u', 'g'] && name != seq![
            'e',
            'r',
            'r',
            'o',
            'r',
        ],
{
    reveal_strlit("debug");
    reveal_strlit("error");
    assert("debug"@ =~= seq!['d', 'e', 'b', 'u', 'g']);
    assert("error"@ =~= seq!['e', 'r', 'r', 'o', 'r']);
    assert("debug"@[0] != "error"@[0]);
}

/// A scheme in front of an address does not count, and an address without one
/// stays as it is.
pub proof fn law_host_and_port(address: Seq<char>)
    ensures
        host_and_port_of(seq!['h', 't', 't', 'p', ':', '/', '/'] + address) == address,
        (address.len() < 7 || address.take(7) != seq!['h', 't', 't', 'p', ':', '/', '/'])
            ==> host_and_port_of(address) == address,
{
    reveal_strlit("http://");
    let scheme = seq!['h', 't', 't', 'p', ':', '/', '/'];
    assert("http://"@ =~= scheme);
    assert((scheme + address).take(7) =~= scheme);
    assert(scheme.is_prefix_of(scheme + address));
    assert((scheme + address).skip(7) =~= address);
}

} // verus!
