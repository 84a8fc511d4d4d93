use vstd::prelude::*;

pub mod util;
pub mod virtue;
pub mod grant;

pub use virtue::{Phase, Progress, Virtue};

verus! {

/// The commands that a request can name.
#[allow(non_camel_case_types, clippy::upper_case_acronyms)]
#[derive(Debug, Clone, Copy, PartialEq, Eq, Structural)]
pub enum Command {
    PING,
    SET,
    GET,
    EX,
    INCR,
    INCRBY,
    DECR,
    APPEND,
    STRLEN,
    EXISTS,
    DEL,
    HSET,
    HGET,
    HMGET,
    HDEL,
    HEXISTS,
    HLEN,
    LPUSH,
    LPOP,
    RPUSH,
    RPOP,
    LLEN,
    LRANGE,
    LINDEX,
    LSET,
    LREM,
    EXPIRE,
    TTL,
    SUBSCRIBE,
    PUBLISH,
    MSET,
    MGET,
    SADD,
    SREM,
    SISMEMBER,
    HGETALL,
    SMEMBERS,
    CONFIG,
    COMMAND,
}

/// A request the server refuses, and why.
#[derive(Debug, Clone, Copy, PartialEq, Eq, Structural)]
pub enum Sacrilege {
    IncorrectNumberOfArguments(Command),
    IncorrectUsage(Command),
    UnknownCommand,
    SubscriberOnlyMode,
}

/// The fixed status replies.
#[derive(Debug, Clone, Copy, PartialEq, Eq, Structural)]
pub enum InfoType {
    Okay,
    Pong,
    Command,
}

/// A reply to a client, before it is put on the wire.
#[derive(Debug)]
pub enum Response {
    Error(Sacrilege),
    Info(InfoType),
    BulkString(Option<Vec<u8>>),
    BulkStringArray(Option<Vec<Option<Vec<u8>>>>),
    Amount(u32),
    Number(i64),
    Length(usize),
    SubscribedChannels(Vec<(Vec<u8>, usize)>),
    UnsubscribedChannels(Option<Vec<(Vec<u8>, usize)>>),
}

/// `Response` as mathematics.
pub enum Reply {
    Error(Sacrilege),
    Info(InfoType),
    BulkString(Option<Seq<u8>>),
    BulkStringArray(Option<Seq<Option<Seq<u8>>>>),
    Amount(u32),
    Number(i64),
    Length(usize),
    SubscribedChannels(Seq<(Seq<u8>, nat)>),
    UnsubscribedChannels(Option<Seq<(Seq<u8>, nat)>>),
}

impl View for Response {
    type V = Reply;

    open spec fn view(&self) -> Reply {
        match self {
            Response::Error(s) => Reply::Error(*s),
            Response::Info(i) => Reply::Info(*i),
            Response::BulkString(b) => Reply::BulkString(opt_bytes(*b)),
            Response::BulkStringArray(Some(a)) => Reply::BulkStringArray(Some(opt_bytes_seq(a@))),
            Response::BulkStringArray(None) => Reply::BulkStringArray(None),
            Response::Amount(n) => Reply::Amount(*n),
            Response::Number(n) => Reply::Number(*n),
            Response::Length(n) => Reply::Length(*n),
            Response::SubscribedChannels(c) => Reply::SubscribedChannels(channels_view(c@)),
            Response::UnsubscribedChannels(Some(c)) => Reply::UnsubscribedChannels(Some(channels_view(c@))),
            Response::UnsubscribedChannels(None) => Reply::UnsubscribedChannels(None),
        }
    }
}

/// A channel list with counts, as mathematics.
pub open spec fn channels_view(s: Seq<(Vec<u8>, usize)>) -> Seq<(Seq<u8>, nat)> {
    s.map_values(|p: (Vec<u8>, usize)| (p.0@, p.1 as nat))
}

/// Why reading a client's requests stopped.
#[derive(Debug, Clone, Copy, PartialEq, Eq, Structural)]
pub enum Sin {
    Utf8Error,
    ParseError,
    Disconnected,
    Blasphemy,
}

/// The view of an optional byte string.
pub open spec fn opt_bytes(o: Option<Vec<u8>>) -> Option<Seq<u8>> {
    match o {
        Some(v) => Some(v@),
        None => None,
    }
}

/// The view of a list of optional byte strings.
pub open spec fn opt_bytes_seq(s: Seq<Option<Vec<u8>>>) -> Seq<Option<Seq<u8>>> {
    s.map_values(|o: Option<Vec<u8>>| opt_bytes(o))
}

/// The view of a list of byte strings.
pub open spec fn bytes_seq(s: Seq<Vec<u8>>) -> Seq<Seq<u8>> {
    s.map_values(|v: Vec<u8>| v@)
}

} // verus!
