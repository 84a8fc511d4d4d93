use vstd::prelude::*;

use crate::temple::soul::{pairs_view, Datum, Moment, Value};
use crate::wish::bytes_seq;

pub mod laws;
pub mod pubsub;
pub mod sanctum;
pub mod soul;
pub mod table;

pub use pubsub::{ClientMap, EventMap};

verus! {

/// A request from a client for the keyspace's thread.
pub enum ClientCommandType {
    Database(DatabaseCommand),
    Broadcast(BroadcastCommand),
}

/// `ClientCommandType` as mathematics.
pub enum Ask {
    Database(Query),
    Broadcast(Tidings),
}

impl View for ClientCommandType {
    type V = Ask;

    open spec fn view(&self) -> Ask {
        match self {
            ClientCommandType::Database(d) => Ask::Database(d@),
            ClientCommandType::Broadcast(b) => Ask::Broadcast(b@),
        }
    }
}

/// A publish/subscribe request.
pub enum BroadcastCommand {
    Subscribe { events: Vec<Vec<u8>> },
    Publish { event: Vec<u8>, message: Vec<u8> },
    Unsubscribe { terms: Vec<Vec<u8>> },
}

/// `BroadcastCommand` as mathematics.
pub enum Tidings {
    Subscribe { events: Seq<Seq<u8>> },
    Publish { event: Seq<u8>, message: Seq<u8> },
    Unsubscribe { terms: Seq<Seq<u8>> },
}

impl View for BroadcastCommand {
    type V = Tidings;

    open spec fn view(&self) -> Tidings {
        match self {
            BroadcastCommand::Subscribe { events } => Tidings::Subscribe { events: bytes_seq(events@) },
            BroadcastCommand::Publish { event, message } => Tidings::Publish {
                event: event@,
                message: message@,
            },
            BroadcastCommand::Unsubscribe { terms } => Tidings::Unsubscribe { terms: bytes_seq(terms@) },
        }
    }
}

/// A request for the keyspace, with the time it was made at where the
/// command looks at expiry times.
pub enum DatabaseCommand {
    Get { key: Vec<u8>, time: u64 },
    Assign { key: Vec<u8>, value: (Value, Option<u64>) },
    Del { keys: Vec<Vec<u8>>, time: u64 },
    Append { key: Vec<u8>, value: Vec<u8>, time: u64 },
    Incr { key: Vec<u8>, time: u64 },
    Incrby { key: Vec<u8>, number: i64, time: u64 },
    Decr { key: Vec<u8>, time: u64 },
    Strlen { key: Vec<u8>, time: u64 },
    Exists { keys: Vec<Vec<u8>>, time: u64 },
    Hset { key: Vec<u8>, field_value_pairs: Vec<(Vec<u8>, Vec<u8>)>, time: u64 },
    Hget { key: Vec<u8>, field: Vec<u8>, time: u64 },
    Hmget { key: Vec<u8>, fields: Vec<Vec<u8>>, time: u64 },
    Hdel { key: Vec<u8>, fields: Vec<Vec<u8>>, time: u64 },
    Hexists { key: Vec<u8>, field: Vec<u8>, time: u64 },
    Hlen { key: Vec<u8>, time: u64 },
    Lpush { key: Vec<u8>, elements: Vec<Vec<u8>>, time: u64 },
    Lpop { key: Vec<u8>, time: u64 },
    LpopM { key: Vec<u8>, count: usize, time: u64 },
    Rpush { key: Vec<u8>, elements: Vec<Vec<u8>>, time: u64 },
    Rpop { key: Vec<u8>, time: u64 },
    RpopM { key: Vec<u8>, count: usize, time: u64 },
    Llen { key: Vec<u8>, time: u64 },
    Lrange { key: Vec<u8>, starting_index: i32, ending_index: i32, time: u64 },
    Lindex { key: Vec<u8>, index: i32, time: u64 },
    Lset { key: Vec<u8>, index: i32, element: Vec<u8>, time: u64 },
    Lrem { key: Vec<u8>, count: i32, element: Vec<u8>, time: u64 },
    Expire { key: Vec<u8>, expiry: u64, time: u64 },
    Ttl { key: Vec<u8>, time: Moment },
    Mset { terms: Vec<Vec<u8>> },
    Mget { terms: Vec<Vec<u8>>, time: u64 },
    Sadd { key: Vec<u8>, values: Vec<Vec<u8>>, time: u64 },
    Srem { key: Vec<u8>, values: Vec<Vec<u8>>, time: u64 },
    Sismember { key: Vec<u8>, value: Vec<u8>, time: u64 },
    Hgetall { key: Vec<u8>, time: u64 },
    Smembers { key: Vec<u8>, time: u64 },
    ConfigGet { properties: Vec<Vec<u8>> },
}

/// `DatabaseCommand` as mathematics.
pub enum Query {
    Get { key: Seq<u8>, time: u64 },
    Assign { key: Seq<u8>, value: (Datum, Option<u64>) },
    Del { keys: Seq<Seq<u8>>, time: u64 },
    Append { key: Seq<u8>, value: Seq<u8>, time: u64 },
    Incr { key: Seq<u8>, time: u64 },
    Incrby { key: Seq<u8>, number: i64, time: u64 },
    Decr { key: Seq<u8>, time: u64 },
    Strlen { key: Seq<u8>, time: u64 },
    Exists { keys: Seq<Seq<u8>>, time: u64 },
    Hset { key: Seq<u8>, field_value_pairs: Seq<(Seq<u8>, Seq<u8>)>, time: u64 },
    Hget { key: Seq<u8>, field: Seq<u8>, time: u64 },
    Hmget { key: Seq<u8>, fields: Seq<Seq<u8>>, time: u64 },
    Hdel { key: Seq<u8>, fields: Seq<Seq<u8>>, time: u64 },
    Hexists { key: Seq<u8>, field: Seq<u8>, time: u64 },
    Hlen { key: Seq<u8>, time: u64 },
    Lpush { key: Seq<u8>, elements: Seq<Seq<u8>>, time: u64 },
    Lpop { key: Seq<u8>, time: u64 },
    LpopM { key: Seq<u8>, count: usize, time: u64 },
    Rpush { key: Seq<u8>, elements: Seq<Seq<u8>>, time: u64 },
    Rpop { key: Seq<u8>, time: u64 },
    RpopM { key: Seq<u8>, count: usize, time: u64 },
    Llen { key: Seq<u8>, time: u64 },
    Lrange { key: Seq<u8>, starting_index: i32, ending_index: i32, time: u64 },
    Lindex { key: Seq<u8>, index: i32, time: u64 },
    Lset { key: Seq<u8>, index: i32, element: Seq<u8>, time: u64 },
    Lrem { key: Seq<u8>, count: i32, element: Seq<u8>, time: u64 },
    Expire { key: Seq<u8>, expiry: u64, time: u64 },
    Ttl { key: Seq<u8>, time: Moment },
    Mset { terms: Seq<Seq<u8>> },
    Mget { terms: Seq<Seq<u8>>, time: u64 },
    Sadd { key: Seq<u8>, values: Seq<Seq<u8>>, time: u64 },
    Srem { key: Seq<u8>, values: Seq<Seq<u8>>, time: u64 },
    Sismember { key: Seq<u8>, value: Seq<u8>, time: u64 },
    Hgetall { key: Seq<u8>, time: u64 },
    Smembers { key: Seq<u8>, time: u64 },
    ConfigGet { properties: Seq<Seq<u8>> },
}

impl View for DatabaseCommand {
    type V = Query;

    open spec fn view(&self) -> Query {
        match self {
            DatabaseCommand::Get { key, time } => Query::Get { key: key@, time: *time },
            DatabaseCommand::Assign { key, value } => Query::Assign { key: key@, value: (value.0@, value.1) },
            DatabaseCommand::Del { keys, time } => Query::Del { keys: bytes_seq(keys@), time: *time },
            DatabaseCommand::Append { key, value, time } => Query::Append { key: key@, value: value@, time: *time },
            DatabaseCommand::Incr { key, time } => Query::Incr { key: key@, time: *time },
            DatabaseCommand::Incrby { key, number, time } => Query::Incrby { key: key@, number: *number, time: *time },
            DatabaseCommand::Decr { key, time } => Query::Decr { key: key@, time: *time },
            DatabaseCommand::Strlen { key, time } => Query::Strlen { key: key@, time: *time },
            DatabaseCommand::Exists { keys, time } => Query::Exists { keys: bytes_seq(keys@), time: *time },
            DatabaseCommand::Hset { key, field_value_pairs, time } => Query::Hset { key: key@, field_value_pairs: pairs_view(field_value_pairs@), time: *time },
            DatabaseCommand::Hget { key, field, time } => Query::Hget { key: key@, field: field@, time: *time },
            DatabaseCommand::Hmget { key, fields, time } => Query::Hmget { key: key@, fields: bytes_seq(fields@), time: *time },
            DatabaseCommand::Hdel { key, fields, time } => Query::Hdel { key: key@, fields: bytes_seq(fields@), time: *time },
            DatabaseCommand::Hexists { key, field, time } => Query::Hexists { key: key@, field: field@, time: *time },
            DatabaseCommand::Hlen { key, time } => Query::Hlen { key: key@, time: *time },
            DatabaseCommand::Lpush { key, elements, time } => Query::Lpush { key: key@, elements: bytes_seq(elements@), time: *time },
            DatabaseCommand::Lpop { key, time } => Query::Lpop { key: key@, time: *time },
            DatabaseCommand::LpopM { key, count, time } => Query::LpopM { key: key@, count: *count, time: *time },
            DatabaseCommand::Rpush { key, elements, time } => Query::Rpush { key: key@, elements: bytes_seq(elements@), time: *time },
            DatabaseCommand::Rpop { key, time } => Query::Rpop { key: key@, time: *time },
            DatabaseCommand::RpopM { key, count, time } => Query::RpopM { key: key@, count: *count, time: *time },
            DatabaseCommand::Llen { key, time } => Query::Llen { key: key@, time: *time },
            DatabaseCommand::Lrange { key, starting_index, ending_index, time } => Query::Lrange { key: key@, starting_index: *starting_index, ending_index: *ending_index, time: *time },
            DatabaseCommand::Lindex { key, index, time } => Query::Lindex { key: key@, index: *index, time: *time },
            DatabaseCommand::Lset { key, index, element, time } => Query::Lset { key: key@, index: *index, element: element@, time: *time },
            DatabaseCommand::Lrem { key, count, element, time } => Query::Lrem { key: key@, count: *count, element: element@, time: *time },
            DatabaseCommand::Expire { key, expiry, time } => Query::Expire { key: key@, expiry: *expiry, time: *time },
            DatabaseCommand::Ttl { key, time } => Query::Ttl { key: key@, time: *time },
            DatabaseCommand::Mset { terms } => Query::Mset { terms: bytes_seq(terms@) },
            DatabaseCommand::Mget { terms, time } => Query::Mget { terms: bytes_seq(terms@), time: *time },
            DatabaseCommand::Sadd { key, values, time } => Query::Sadd { key: key@, values: bytes_seq(values@), time: *time },
            DatabaseCommand::Srem { key, values, time } => Query::Srem { key: key@, values: bytes_seq(values@), time: *time },
            DatabaseCommand::Sismember { key, value, time } => Query::Sismember { key: key@, value: value@, time: *time },
            DatabaseCommand::Hgetall { key, time } => Query::Hgetall { key: key@, time: *time },
            DatabaseCommand::Smembers { key, time } => Query::Smembers { key: key@, time: *time },
            DatabaseCommand::ConfigGet { properties } => Query::ConfigGet { properties: bytes_seq(properties@) },
        }
    }
}

} // verus!
