//! An in-memory key/value store speaking the RESP wire protocol: request
//! framing, command dispatch, the keyspace itself, publish/subscribe
//! bookkeeping and reply encoding.
pub mod wish;
pub mod temple;
pub mod egress;
pub mod roster;
