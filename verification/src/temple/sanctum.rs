use vstd::prelude::*;
use vstd::string::StringSliceAdditionalSpecFns;

use crate::temple::soul::{
    addressable, assigned, counted, deletion, expired, fetched, fields_removed, fields_set, live,
    lists_fields, lists_members, lookup, lrem_rest, members_added, members_removed, present,
    probing, purged, remaining, shrunk, span, position, Datum, Keyspace, Soul, Value,
};
use crate::temple::table::ByteMap;
use crate::temple::pubsub::{
    countdown, joined, lemma_joined, lemma_parted, lemma_subscribing_members,
    lemma_unsubscribing_members, named, parted, subscribers, subscribing, unsubscribing,
};
use crate::temple::{Ask, BroadcastCommand, ClientCommandType, DatabaseCommand, Query, Tidings};
use crate::wish::grant::{Decree, Edict, Gift};
use crate::wish::{Command, InfoType, Reply, Response, Sacrilege};

verus! {

/// A result of the keyspace as a reply: a signed number.
pub open spec fn number_of(r: Result<i64, Sacrilege>) -> Reply {
    match r {
        Ok(n) => Reply::Number(n),
        Err(s) => Reply::Error(s),
    }
}

/// A list under `key` too long for 32-bit signed indices.
pub open spec fn overlong(m: Keyspace, key: Seq<u8>, now: u64) -> bool {
    !addressable(m, key, now)
}

/// The requests whose counts fit the replies: at most `u32::MAX` keys or
/// fields where the reply counts them, a well-formed time for TTL.
pub open spec fn feasible(q: Query) -> bool {
    match q {
        Query::Del { keys, .. } => keys.len() <= u32::MAX,
        Query::Exists { keys, .. } => keys.len() <= u32::MAX,
        Query::Hset { field_value_pairs, .. } => field_value_pairs.len() <= u32::MAX,
        Query::Hdel { fields, .. } => fields.len() <= u32::MAX,
        Query::Ttl { time, .. } => time.wf(),
        _ => true,
    }
}

/// A stored value in a request is well formed.
pub open spec fn well_built(c: DatabaseCommand) -> bool {
    match c {
        DatabaseCommand::Assign { value, .. } => value.0.wf(),
        _ => true,
    }
}

/// How the keyspace answers a request on strings, keys and expiry times:
/// it goes from `m` to `m2` and replies `r`.
pub open spec fn served_keys(m: Keyspace, q: Query, m2: Keyspace, r: Reply) -> bool {
    match q {
        Query::Get { key, time } => m2 == purged(m, key, time) && r == match live(m, key, time) {
            Some(Datum::Text(s)) => Reply::BulkString(Some(s)),
            Some(_) => Reply::Error(Sacrilege::IncorrectUsage(Command::GET)),
            None => Reply::BulkString(None),
        },
        Query::Assign { key, value } => m2 == m.insert(key, value) && r == Reply::Info(InfoType::Okay),
        Query::Del { keys, time } => {
            &&& m2 == deletion(m, keys, time).0
            &&& r == Reply::Amount(deletion(m, keys, time).1 as u32)
        },
        Query::Exists { keys, time } => {
            &&& m2 == probing(m, keys, time).0
            &&& r == Reply::Amount(probing(m, keys, time).1 as u32)
        },
        Query::Append { key, value, time } => match live(m, key, time) {
            Some(Datum::Text(s)) => {
                &&& m2 == m.insert(key, (Datum::Text(s + value), m[key].1))
                &&& r == Reply::Length((s.len() + value.len()) as usize)
            },
            Some(_) => m2 == m && r == Reply::Error(Sacrilege::IncorrectUsage(Command::APPEND)),
            None => {
                &&& m2 == m.insert(key, (Datum::Text(value), None))
                &&& r == Reply::Length(value.len() as usize)
            },
        },
        Query::Incr { key, time } => {
            let (m1, res) = counted(m, key, time, 1, Command::INCR);
            m2 == m1 && r == number_of(res)
        },
        Query::Incrby { key, number, time } => {
            let (m1, res) = counted(m, key, time, number as int, Command::INCRBY);
            m2 == m1 && r == number_of(res)
        },
        Query::Decr { key, time } => {
            let (m1, res) = counted(m, key, time, -1, Command::DECR);
            m2 == m1 && r == number_of(res)
        },
        Query::Strlen { key, time } => m2 == purged(m, key, time) && r == match live(m, key, time) {
            Some(Datum::Text(s)) => Reply::Length(s.len() as usize),
            Some(_) => Reply::Error(Sacrilege::IncorrectUsage(Command::STRLEN)),
            None => Reply::Length(0),
        },
        Query::Expire { key, expiry, time } => match live(m, key, time) {
            Some(d) => m2 == m.insert(key, (d, Some(expiry))) && r == Reply::Amount(1),
            None => m2 == purged(m, key, time) && r == Reply::Amount(0),
        },
        Query::Ttl { key, time } => if !m.contains_key(key) {
            m2 == m && r == Reply::Number(-2i64)
        } else {
            match m[key].1 {
                None => m2 == m && r == Reply::Number(-1i64),
                Some(e) => if e > i64::MAX {
                    m2 == m && r == Reply::Error(Sacrilege::IncorrectUsage(Command::TTL))
                } else {
                    match remaining(e, time) {
                        Some(left) => m2 == m && r == Reply::Number(left as i64),
                        None => m2 == m.remove(key) && r == Reply::Number(-2i64),
                    }
                },
            }
        },
        Query::Mset { terms } => m2 == assigned(m, terms) && r == Reply::Info(InfoType::Okay),
        Query::Mget { terms, time } => {
            &&& m2 == fetched(m, terms, time).0
            &&& r == Reply::BulkStringArray(Some(fetched(m, terms, time).1))
        },
        _ => false,
    }
}

/// How the keyspace answers a request on hashes.
pub open spec fn served_fields(m: Keyspace, q: Query, m2: Keyspace, r: Reply) -> bool {
    match q {
        Query::Hset { key, field_value_pairs, time } => match live(m, key, time) {
            Some(Datum::Fields(h)) => {
                let (h1, c) = fields_set(h, field_value_pairs);
                &&& m2 == m.insert(key, (Datum::Fields(h1), m[key].1))
                &&& r == Reply::Amount(c as u32)
            },
            Some(_) => m2 == m && r == Reply::Error(Sacrilege::IncorrectUsage(Command::HSET)),
            None => {
                &&& m2 == m.insert(key, (Datum::Fields(fields_set(Map::empty(), field_value_pairs).0), None))
                &&& r == Reply::Amount(field_value_pairs.len() as u32)
            },
        },
        Query::Hget { key, field, time } => m2 == purged(m, key, time) && r == match live(m, key, time) {
            Some(Datum::Fields(h)) => Reply::BulkString(lookup(h, field)),
            Some(_) => Reply::Error(Sacrilege::IncorrectUsage(Command::HGET)),
            None => Reply::BulkString(None),
        },
        Query::Hmget { key, fields, time } => m2 == purged(m, key, time) && r == match live(m, key, time) {
            Some(Datum::Fields(h)) => Reply::BulkStringArray(
                Some(fields.map_values(|f: Seq<u8>| lookup(h, f))),
            ),
            Some(_) => Reply::Error(Sacrilege::IncorrectUsage(Command::HMGET)),
            None => Reply::BulkStringArray(None),
        },
        Query::Hdel { key, fields, time } => match live(m, key, time) {
            Some(Datum::Fields(h)) => {
                let (h1, c) = fields_removed(h, fields);
                &&& m2 == m.insert(key, (Datum::Fields(h1), m[key].1))
                &&& r == Reply::Amount(c as u32)
            },
            Some(_) => m2 == m && r == Reply::Error(Sacrilege::IncorrectUsage(Command::HDEL)),
            None => m2 == purged(m, key, time) && r == Reply::Amount(0),
        },
        Query::Hexists { key, field, time } => m2 == purged(m, key, time) && r == match live(m, key, time) {
            Some(Datum::Fields(h)) => Reply::Amount(if h.contains_key(field) { 1u32 } else { 0u32 }),
            Some(_) => Reply::Error(Sacrilege::IncorrectUsage(Command::HEXISTS)),
            None => Reply::Amount(0),
        },
        Query::Hlen { key, time } => m2 == purged(m, key, time) && r == match live(m, key, time) {
            Some(Datum::Fields(h)) => Reply::Length(h.len() as usize),
            Some(_) => Reply::Error(Sacrilege::IncorrectUsage(Command::HLEN)),
            None => Reply::Length(0),
        },
        Query::Hgetall { key, time } => m2 == purged(m, key, time) && match live(m, key, time) {
            Some(Datum::Fields(h)) => r matches Reply::BulkStringArray(Some(flat)) && lists_fields(flat, h),
            Some(_) => r == Reply::Error(Sacrilege::IncorrectUsage(Command::HGETALL)),
            None => r == Reply::BulkStringArray(None),
        },
        _ => false,
    }
}

/// How the keyspace answers a request on sets.
pub open spec fn served_members(m: Keyspace, q: Query, m2: Keyspace, r: Reply) -> bool {
    match q {
        Query::Sadd { key, values, time } => match live(m, key, time) {
            Some(Datum::Members(s)) => {
                let (s1, c) = members_added(s, values);
                &&& m2 == m.insert(key, (Datum::Members(s1), m[key].1))
                &&& r == Reply::Length(c as usize)
            },
            Some(_) => m2 == m && r == Reply::Error(Sacrilege::IncorrectUsage(Command::SADD)),
            None => {
                let (s1, c) = members_added(Set::empty(), values);
                &&& m2 == m.insert(key, (Datum::Members(s1), None))
                &&& r == Reply::Length(c as usize)
            },
        },
        Query::Srem { key, values, time } => match live(m, key, time) {
            Some(Datum::Members(s)) => {
                let (s1, c) = members_removed(s, values);
                &&& m2 == (if s1.len() == 0 {
                    m.remove(key)
                } else {
                    m.insert(key, (Datum::Members(s1), m[key].1))
                })
                &&& r == Reply::Length(c as usize)
            },
            Some(_) => m2 == m && r == Reply::Error(Sacrilege::IncorrectUsage(Command::SREM)),
            None => m2 == purged(m, key, time) && r == Reply::Length(0),
        },
        Query::Sismember { key, value, time } => m2 == purged(m, key, time) && r == match live(m, key, time) {
            Some(Datum::Members(s)) => Reply::Length(if s.contains(value) { 1usize } else { 0usize }),
            Some(_) => Reply::Error(Sacrilege::IncorrectUsage(Command::SISMEMBER)),
            None => Reply::Length(0),
        },
        Query::Smembers { key, time } => m2 == purged(m, key, time) && match live(m, key, time) {
            Some(Datum::Members(s)) => r matches Reply::BulkStringArray(Some(flat)) && lists_members(flat, s),
            Some(_) => r == Reply::Error(Sacrilege::IncorrectUsage(Command::SMEMBERS)),
            None => r == Reply::BulkStringArray(None),
        },
        _ => false,
    }
}

/// How the keyspace answers LPOP (`left`) or RPOP, taking `count` elements
/// or, without a count, one.
pub open spec fn served_pop(m: Keyspace, key: Seq<u8>, count: Option<usize>, time: u64, left: bool, m2: Keyspace, r: Reply) -> bool {
    let c = if left { Command::LPOP } else { Command::RPOP };
    if !m.contains_key(key) {
        m2 == m && r == (if count is Some { Reply::BulkStringArray(None) } else { Reply::BulkString(None) })
    } else {
        match m[key].0 {
            Datum::Items(l) => match count {
                None => if expired(m[key].1, time) || l.len() == 0 {
                    m2 == m.remove(key) && r == Reply::BulkString(None)
                } else {
                    &&& r == Reply::BulkString(Some(if left { l[0] } else { l.last() }))
                    &&& m2 == shrunk(m, key, if left { l.drop_first() } else { l.drop_last() }, m[key].1)
                },
                Some(k) => if expired(m[key].1, time) {
                    m2 == m.remove(key) && r == Reply::BulkStringArray(None)
                } else {
                    let n = if k < l.len() { k as int } else { l.len() as int };
                    &&& r == Reply::BulkStringArray(
                        Some(present(if left { l.take(n) } else { l.skip(l.len() - n).reverse() })),
                    )
                    &&& m2 == shrunk(m, key, if left { l.skip(n) } else { l.take(l.len() - n) }, m[key].1)
                },
            },
            _ => m2 == m && r == Reply::Error(Sacrilege::IncorrectUsage(c)),
        }
    }
}

/// How the keyspace answers a request on lists. A list too long for 32-bit
/// indices is refused by the commands that take an index.
pub open spec fn served_items(m: Keyspace, q: Query, m2: Keyspace, r: Reply) -> bool {
    match q {
        Query::Lpush { key, elements, time } => match live(m, key, time) {
            Some(Datum::Items(l)) => {
                let l1 = elements.reverse() + l;
                &&& m2 == m.insert(key, (Datum::Items(l1), m[key].1))
                &&& r == Reply::Length(l1.len() as usize)
            },
            Some(_) => m2 == m && r == Reply::Error(Sacrilege::IncorrectUsage(Command::LPUSH)),
            None => {
                &&& m2 == m.insert(key, (Datum::Items(elements.reverse()), None))
                &&& r == Reply::Length(elements.len() as usize)
            },
        },
        Query::Rpush { key, elements, time } => match live(m, key, time) {
            Some(Datum::Items(l)) => {
                let l1 = l + elements;
                &&& m2 == m.insert(key, (Datum::Items(l1), m[key].1))
                &&& r == Reply::Length(l1.len() as usize)
            },
            Some(_) => m2 == m && r == Reply::Error(Sacrilege::IncorrectUsage(Command::RPUSH)),
            None => {
                &&& m2 == m.insert(key, (Datum::Items(elements), None))
                &&& r == Reply::Length(elements.len() as usize)
            },
        },
        Query::Lpop { key, time } => served_pop(m, key, None, time, true, m2, r),
        Query::LpopM { key, count, time } => served_pop(m, key, Some(count), time, true, m2, r),
        Query::Rpop { key, time } => served_pop(m, key, None, time, false, m2, r),
        Query::RpopM { key, count, time } => served_pop(m, key, Some(count), time, false, m2, r),
        Query::Llen { key, time } => m2 == purged(m, key, time) && r == match live(m, key, time) {
            Some(Datum::Items(l)) => Reply::Length(l.len() as usize),
            Some(_) => Reply::Error(Sacrilege::IncorrectUsage(Command::LLEN)),
            None => Reply::Length(0),
        },
        Query::Lrange { key, starting_index, ending_index, time } => m2 == purged(m, key, time) && if overlong(m, key, time) {
            r == Reply::Error(Sacrilege::IncorrectUsage(Command::LRANGE))
        } else {
            r == match live(m, key, time) {
                Some(Datum::Items(l)) => Reply::BulkStringArray(
                    Some(
                        match span(l.len() as int, starting_index as int, ending_index as int) {
                            Some((a, b)) => present(l.subrange(a, b + 1)),
                            None => Seq::empty(),
                        },
                    ),
                ),
                Some(_) => Reply::Error(Sacrilege::IncorrectUsage(Command::LRANGE)),
                None => Reply::BulkStringArray(Some(Seq::empty())),
            }
        },
        Query::Lindex { key, index, time } => m2 == purged(m, key, time) && if overlong(m, key, time) {
            r == Reply::Error(Sacrilege::IncorrectUsage(Command::LINDEX))
        } else {
            r == match live(m, key, time) {
                Some(Datum::Items(l)) => match position(l.len() as int, index as int) {
                    Some(p) => Reply::BulkString(Some(l[p])),
                    None => Reply::BulkString(None),
                },
                Some(_) => Reply::Error(Sacrilege::IncorrectUsage(Command::LINDEX)),
                None => Reply::BulkString(None),
            }
        },
        Query::Lset { key, index, element, time } => if overlong(m, key, time) {
            m2 == purged(m, key, time) && r == Reply::Error(Sacrilege::IncorrectUsage(Command::LSET))
        } else {
            match live(m, key, time) {
                Some(Datum::Items(l)) => match position(l.len() as int, index as int) {
                    Some(p) => {
                        &&& m2 == m.insert(key, (Datum::Items(l.update(p, element)), m[key].1))
                        &&& r == Reply::Info(InfoType::Okay)
                    },
                    None => m2 == m && r == Reply::Error(Sacrilege::IncorrectUsage(Command::LSET)),
                },
                _ => m2 == purged(m, key, time) && r == Reply::Error(Sacrilege::IncorrectUsage(Command::LSET)),
            }
        },
        Query::Lrem { key, count, element, time } => if overlong(m, key, time) {
            m2 == purged(m, key, time) && r == Reply::Error(Sacrilege::IncorrectUsage(Command::LREM))
        } else {
            match live(m, key, time) {
                Some(Datum::Items(l)) => {
                    let rest = lrem_rest(l, element, count as int);
                    &&& m2 == m.insert(key, (Datum::Items(rest), m[key].1))
                    &&& r == Reply::Length((l.len() - rest.len()) as usize)
                },
                Some(_) => m2 == m && r == Reply::Error(Sacrilege::IncorrectUsage(Command::LREM)),
                None => m2 == purged(m, key, time) && r == Reply::Length(0),
            }
        },
        _ => false,
    }
}

/// How the keyspace answers a request: it goes from `m` to `m2` and replies
/// `r`. (CONFIG GET does not touch the keyspace; see `Sanctum::consult`.)
pub open spec fn served(m: Keyspace, q: Query, m2: Keyspace, r: Reply) -> bool {
    match q {
        Query::Get { .. } | Query::Assign { .. } | Query::Del { .. } | Query::Exists { .. }
        | Query::Append { .. } | Query::Incr { .. } | Query::Incrby { .. } | Query::Decr { .. }
        | Query::Strlen { .. } | Query::Expire { .. } | Query::Ttl { .. } | Query::Mset { .. }
        | Query::Mget { .. } => served_keys(m, q, m2, r),
        Query::Hset { .. } | Query::Hget { .. } | Query::Hmget { .. } | Query::Hdel { .. }
        | Query::Hexists { .. } | Query::Hlen { .. } | Query::Hgetall { .. } => served_fields(m, q, m2, r),
        Query::Sadd { .. } | Query::Srem { .. } | Query::Sismember { .. } | Query::Smembers { .. } => served_members(
            m,
            q,
            m2,
            r,
        ),
        Query::ConfigGet { .. } => m2 == m,
        _ => served_items(m, q, m2, r),
    }
}

/// Answers a request on strings, keys and expiry times.
pub fn consult_keys(soul: &mut Soul, command: DatabaseCommand) -> (r: Response)
    requires
        old(soul).wf(),
        feasible(command@),
        well_built(command),
    ensures
        final(soul).wf(),
        match command@ {
            Query::Get { .. } | Query::Assign { .. } | Query::Del { .. } | Query::Exists { .. }
            | Query::Append { .. } | Query::Incr { .. } | Query::Incrby { .. } | Query::Decr { .. }
            | Query::Strlen { .. } | Query::Expire { .. } | Query::Ttl { .. } | Query::Mset { .. }
            | Query::Mget { .. } => served_keys(old(soul)@, command@, final(soul)@, r@),
            _ => final(soul)@ == old(soul)@,
        },
{
    match command {
        DatabaseCommand::Get { key, time } => match soul.get(key, time) {
            Ok(b) => Response::BulkString(b),
            Err(s) => Response::Error(s),
        },
        DatabaseCommand::Assign { key, value } => {
            soul.set(key, value);
            Response::Info(InfoType::Okay)
        },
        DatabaseCommand::Del { keys, time } => Response::Amount(soul.del(keys, time)),
        DatabaseCommand::Exists { keys, time } => Response::Amount(soul.exist(keys, time)),
        DatabaseCommand::Append { key, value, time } => match soul.append(key, value, time) {
            Ok(n) => Response::Length(n),
            Err(s) => Response::Error(s),
        },
        DatabaseCommand::Incr { key, time } => match soul.incr(key, time) {
            Ok(n) => Response::Number(n),
            Err(s) => Response::Error(s),
        },
        DatabaseCommand::Incrby { key, number, time } => match soul.incrby(key, number, time) {
            Ok(n) => Response::Number(n),
            Err(s) => Response::Error(s),
        },
        DatabaseCommand::Decr { key, time } => match soul.decr(key, time) {
            Ok(n) => Response::Number(n),
            Err(s) => Response::Error(s),
        },
        DatabaseCommand::Strlen { key, time } => match soul.strlen(key, time) {
            Ok(n) => Response::Length(n),
            Err(s) => Response::Error(s),
        },
        DatabaseCommand::Expire { key, expiry, time } => Response::Amount(soul.expire(key, expiry, time)),
        DatabaseCommand::Ttl { key, time } => {
            if let Some(Some(e)) = soul.expiry_of(&key) {
                if e > i64::MAX as u64 {
                    return Response::Error(Sacrilege::IncorrectUsage(Command::TTL));
                }
            }
            Response::Number(soul.ttl(key, time))
        },
        DatabaseCommand::Mset { terms } => {
            soul.mset(terms);
            Response::Info(InfoType::Okay)
        },
        DatabaseCommand::Mget { terms, time } => Response::BulkStringArray(soul.mget(terms, time)),
        _ => Response::Info(InfoType::Okay),
    }
}

/// Answers a request on hashes.
pub fn consult_fields(soul: &mut Soul, command: DatabaseCommand) -> (r: Response)
    requires
        old(soul).wf(),
        feasible(command@),
    ensures
        final(soul).wf(),
        match command@ {
            Query::Hset { .. } | Query::Hget { .. } | Query::Hmget { .. } | Query::Hdel { .. }
            | Query::Hexists { .. } | Query::Hlen { .. } | Query::Hgetall { .. } => served_fields(
                old(soul)@,
                command@,
                final(soul)@,
                r@,
            ),
            _ => final(soul)@ == old(soul)@,
        },
{
    match command {
        DatabaseCommand::Hset { key, field_value_pairs, time } => match soul.hset(key, field_value_pairs, time) {
            Ok(n) => Response::Amount(n),
            Err(s) => Response::Error(s),
        },
        DatabaseCommand::Hget { key, field, time } => match soul.hget(key, field, time) {
            Ok(b) => Response::BulkString(b),
            Err(s) => Response::Error(s),
        },
        DatabaseCommand::Hmget { key, fields, time } => match soul.hmget(key, fields, time) {
            Ok(a) => Response::BulkStringArray(a),
            Err(s) => Response::Error(s),
        },
        DatabaseCommand::Hdel { key, fields, time } => match soul.hdel(key, fields, time) {
            Ok(n) => Response::Amount(n),
            Err(s) => Response::Error(s),
        },
        DatabaseCommand::Hexists { key, field, time } => match soul.hexists(key, field, time) {
            Ok(n) => Response::Amount(n),
            Err(s) => Response::Error(s),
        },
        DatabaseCommand::Hlen { key, time } => match soul.hlen(key, time) {
            Ok(n) => Response::Length(n),
            Err(s) => Response::Error(s),
        },
        DatabaseCommand::Hgetall { key, time } => match soul.hgetall(key, time) {
            Ok(a) => Response::BulkStringArray(a),
            Err(s) => Response::Error(s),
        },
        _ => Response::Info(InfoType::Okay),
    }
}

/// Answers a request on sets.
pub fn consult_members(soul: &mut Soul, command: DatabaseCommand) -> (r: Response)
    requires
        old(soul).wf(),
    ensures
        final(soul).wf(),
        match command@ {
            Query::Sadd { .. } | Query::Srem { .. } | Query::Sismember { .. } | Query::Smembers { .. } => served_members(
                old(soul)@,
                command@,
                final(soul)@,
                r@,
            ),
            _ => final(soul)@ == old(soul)@,
        },
{
    match command {
        DatabaseCommand::Sadd { key, values, time } => match soul.sadd(key, values, time) {
            Ok(n) => Response::Length(n),
            Err(s) => Response::Error(s),
        },
        DatabaseCommand::Srem { key, values, time } => match soul.srem(key, values, time) {
            Ok(n) => Response::Length(n),
            Err(s) => Response::Error(s),
        },
        DatabaseCommand::Sismember { key, value, time } => match soul.sismember(key, value, time) {
            Ok(n) => Response::Length(n),
            Err(s) => Response::Error(s),
        },
        DatabaseCommand::Smembers { key, time } => match soul.smembers(key, time) {
            Ok(a) => Response::BulkStringArray(a),
            Err(s) => Response::Error(s),
        },
        _ => Response::Info(InfoType::Okay),
    }
}

/// Checks that the list under `key` can be addressed with 32-bit indices,
/// dropping the entry first if it has expired.
fn addressable_list(soul: &mut Soul, key: &Vec<u8>, time: u64) -> (ok: bool)
    requires
        old(soul).wf(),
    ensures
        final(soul).wf(),
        final(soul)@ == purged(old(soul)@, key@, time),
        ok == addressable(old(soul)@, key@, time),
        live(final(soul)@, key@, time) == live(old(soul)@, key@, time),
{
    proof {
        if old(soul)@.contains_key(key@) {
            old(soul).lemma_list_len(key@);
        }
    }
    match soul.llen(key.clone(), time) {
        Ok(n) => n <= i32::MAX as usize,
        Err(_) => true,
    }
}

/// Answers a request on lists.
pub fn consult_items(soul: &mut Soul, command: DatabaseCommand) -> (r: Response)
    requires
        old(soul).wf(),
    ensures
        final(soul).wf(),
        match command@ {
            Query::Lpush { .. } | Query::Rpush { .. } | Query::Lpop { .. } | Query::LpopM { .. }
            | Query::Rpop { .. } | Query::RpopM { .. } | Query::Llen { .. } | Query::Lrange { .. }
            | Query::Lindex { .. } | Query::Lset { .. } | Query::Lrem { .. } => served_items(
                old(soul)@,
                command@,
                final(soul)@,
                r@,
            ),
            _ => final(soul)@ == old(soul)@,
        },
{
    match command {
        DatabaseCommand::Lpush { key, elements, time } => match soul.lpush(key, elements, time) {
            Ok(n) => Response::Length(n),
            Err(s) => Response::Error(s),
        },
        DatabaseCommand::Rpush { key, elements, time } => match soul.rpush(key, elements, time) {
            Ok(n) => Response::Length(n),
            Err(s) => Response::Error(s),
        },
        DatabaseCommand::Lpop { key, time } => match soul.lpop(key, time) {
            Ok(b) => Response::BulkString(b),
            Err(s) => Response::Error(s),
        },
        DatabaseCommand::LpopM { key, count, time } => match soul.lpop_m(key, count, time) {
            Ok(a) => Response::BulkStringArray(a),
            Err(s) => Response::Error(s),
        },
        DatabaseCommand::Rpop { key, time } => match soul.rpop(key, time) {
            Ok(b) => Response::BulkString(b),
            Err(s) => Response::Error(s),
        },
        DatabaseCommand::RpopM { key, count, time } => match soul.rpop_m(key, count, time) {
            Ok(a) => Response::BulkStringArray(a),
            Err(s) => Response::Error(s),
        },
        DatabaseCommand::Llen { key, time } => match soul.llen(key, time) {
            Ok(n) => Response::Length(n),
            Err(s) => Response::Error(s),
        },
        DatabaseCommand::Lrange { key, starting_index, ending_index, time } => {
            if !addressable_list(soul, &key, time) {
                return Response::Error(Sacrilege::IncorrectUsage(Command::LRANGE));
            }
            match soul.lrange(key, starting_index, ending_index, time) {
                Ok(a) => {
                    proof {
                        if let Some(v) = &a {
                            if v@.len() == 0 {
                                assert(crate::wish::opt_bytes_seq(v@) =~= Seq::<Option<Seq<u8>>>::empty());
                            }
                        }
                    }
                    Response::BulkStringArray(a)
                },
                Err(s) => Response::Error(s),
            }
        },
        DatabaseCommand::Lindex { key, index, time } => {
            if !addressable_list(soul, &key, time) {
                return Response::Error(Sacrilege::IncorrectUsage(Command::LINDEX));
            }
            match soul.lindex(key, index, time) {
                Ok(b) => Response::BulkString(b),
                Err(s) => Response::Error(s),
            }
        },
        DatabaseCommand::Lset { key, index, element, time } => {
            if !addressable_list(soul, &key, time) {
                return Response::Error(Sacrilege::IncorrectUsage(Command::LSET));
            }
            match soul.lset(key, index, element, time) {
                Ok(_) => Response::Info(InfoType::Okay),
                Err(s) => Response::Error(s),
            }
        },
        DatabaseCommand::Lrem { key, count, element, time } => {
            if !addressable_list(soul, &key, time) {
                return Response::Error(Sacrilege::IncorrectUsage(Command::LREM));
            }
            match soul.lrem(key, count, element, time) {
                Ok(n) => Response::Length(n),
                Err(s) => Response::Error(s),
            }
        },
        _ => Response::Info(InfoType::Okay),
    }
}

/// The name of the pseudo-setting that CONFIG GET always knows.
pub const DATABASES: &'static str = "databases";

/// Its value.
pub const ONE_DATABASE: &'static str = "1";

/// The property name that asks for every setting.
pub const EVERY_SETTING: &'static str = "*";

/// The settings named in `names`, each followed by its value.
pub open spec fn listed_settings(names: Seq<Seq<u8>>, c: Map<Seq<u8>, Seq<u8>>) -> Seq<Option<Seq<u8>>>
    decreases names.len(),
{
    if names.len() == 0 {
        Seq::empty()
    } else {
        listed_settings(names.drop_last(), c) + seq![Some(names.last()), Some(c[names.last()])]
    }
}

/// The properties of `props` that are settings, each followed by its
/// value; the others are left out.
pub open spec fn found_settings(props: Seq<Seq<u8>>, c: Map<Seq<u8>, Seq<u8>>) -> Seq<Option<Seq<u8>>>
    decreases props.len(),
{
    if props.len() == 0 {
        Seq::empty()
    } else {
        let rest = found_settings(props.drop_last(), c);
        let p = props.last();
        if c.contains_key(p) {
            rest + seq![Some(p), Some(c[p])]
        } else {
            rest
        }
    }
}

/// CONFIG GET: with `*` among the properties every setting (in the order
/// `names` lists them), otherwise the settings asked for; either way
/// `databases 1` at the end when `*` or `databases` is asked for.
pub open spec fn config_reply(names: Seq<Seq<u8>>, c: Map<Seq<u8>, Seq<u8>>, props: Seq<Seq<u8>>) -> Seq<
    Option<Seq<u8>>,
> {
    let db = seq![Some(DATABASES.spec_bytes()), Some(ONE_DATABASE.spec_bytes())];
    if props.contains(EVERY_SETTING.spec_bytes()) {
        listed_settings(names, c) + db
    } else {
        found_settings(props, c) + if props.contains(DATABASES.spec_bytes()) {
            db
        } else {
            Seq::empty()
        }
    }
}

/// Whether `name` is one of `props`.
fn names_one_of(props: &Vec<Vec<u8>>, name: &[u8]) -> (r: bool)
    ensures
        r == crate::wish::bytes_seq(props@).contains(name@),
{
    let ghost ps = crate::wish::bytes_seq(props@);
    let mut i: usize = 0;
    while i < props.len()
        invariant
            i <= props.len(),
            ps == crate::wish::bytes_seq(props@),
            forall|j: int| 0 <= j < i ==> ps[j] != name@,
        decreases props.len() - i,
    {
        if crate::wish::util::bytes_eq(props[i].as_slice(), name) {
            proof {
                assert(ps[i as int] == name@);
            }
            return true;
        }
        i = i + 1;
    }
    proof {
        assert forall|j: int| 0 <= j < ps.len() implies ps[j] != name@ by {}
    }
    false
}

/// The subscribers listed for each channel are exactly the clients whose
/// channel sets hold it.
pub open spec fn coherent(channels: Map<Seq<u8>, Seq<usize>>, events: Map<usize, Set<Seq<u8>>>) -> bool {
    forall|e: Seq<u8>, t: usize|
        #![trigger subscribers(channels, e).contains(t)]
        #![trigger events[t].contains(e)]
        subscribers(channels, e).contains(t) <==> (events.contains_key(t) && events[t].contains(e))
}

/// A client request the keyspace's thread can take: a well-formed request
/// for the keyspace, or a subscription to at least one channel.
pub open spec fn admissible(c: ClientCommandType) -> bool {
    match c {
        ClientCommandType::Database(d) => feasible(d@) && well_built(d),
        ClientCommandType::Broadcast(BroadcastCommand::Subscribe { events }) => events@.len() > 0,
        _ => true,
    }
}

/// The path of the snapshot file `dbfilename` in the directory `dir`.
pub fn snapshot_path(dir: &Vec<u8>, dbfilename: &Vec<u8>) -> (r: Vec<u8>)
    ensures
        r@ == dir@ + seq![47u8] + dbfilename@,
{
    let mut path: Vec<u8> = Vec::new();
    path.extend_from_slice(dir.as_slice());
    path.push(47u8);
    path.extend_from_slice(dbfilename.as_slice());
    path
}

/// Checks whether the keyspace's thread can take a client request.
pub fn is_admissible(c: &ClientCommandType) -> (r: bool)
    ensures
        r == admissible(*c),
{
    match c {
        ClientCommandType::Database(d) => match d {
            DatabaseCommand::Del { keys, .. } => keys.len() <= 0xffff_ffffusize,
            DatabaseCommand::Exists { keys, .. } => keys.len() <= 0xffff_ffffusize,
            DatabaseCommand::Hset { field_value_pairs, .. } => field_value_pairs.len() <= 0xffff_ffffusize,
            DatabaseCommand::Hdel { fields, .. } => fields.len() <= 0xffff_ffffusize,
            DatabaseCommand::Ttl { time, .. } => time.nanos < 1_000_000_000u32,
            DatabaseCommand::Assign { value, .. } => value.0.well_formed(),
            _ => true,
        },
        ClientCommandType::Broadcast(BroadcastCommand::Subscribe { events }) => events.len() > 0,
        _ => true,
    }
}

/// A copy of a list of byte strings.
fn copy_terms(v: &Vec<Vec<u8>>) -> (r: Vec<Vec<u8>>)
    ensures
        crate::wish::bytes_seq(r@) == crate::wish::bytes_seq(v@),
{
    let mut r: Vec<Vec<u8>> = Vec::new();
    let mut i: usize = 0;
    while i < v.len()
        invariant
            i <= v.len(),
            crate::wish::bytes_seq(r@) == crate::wish::bytes_seq(v@).take(i as int),
        decreases v.len() - i,
    {
        let ghost before = r@;
        let e = v[i].clone();
        assert(e@ =~= v@[i as int]@);
        r.push(e);
        proof {
            assert(crate::wish::bytes_seq(r@) =~= crate::wish::bytes_seq(before).push(v@[i as int]@));
            assert(crate::wish::bytes_seq(v@).take(i + 1) =~= crate::wish::bytes_seq(v@).take(
                i as int,
            ).push(v@[i as int]@));
        }
        i = i + 1;
    }
    proof {
        assert(crate::wish::bytes_seq(v@).take(i as int) =~= crate::wish::bytes_seq(v@));
    }
    r
}

/// Counting down names exactly the listed channels.
proof fn lemma_named_countdown(listing: Seq<Seq<u8>>)
    ensures
        named(countdown(listing)) == listing,
{
    assert(named(countdown(listing)) =~= listing);
}

/// Unsubscribing names exactly the channels asked for.
proof fn lemma_named_unsubscribing(s: Set<Seq<u8>>, events: Seq<Seq<u8>>)
    ensures
        named(unsubscribing(s, events).1) == events,
    decreases events.len(),
{
    if events.len() > 0 {
        lemma_named_unsubscribing(s, events.drop_last());
        let (s1, out) = unsubscribing(s, events.drop_last());
        let e = events.last();
        assert(named(out.push((e, s1.remove(e).len()))) =~= named(out).push(e));
        assert(events.drop_last().push(e) =~= events);
    }
}

/// The settings a server starts with.
pub open spec fn initial_settings(
    dir: Seq<u8>,
    dbfilename: Seq<u8>,
    ipv4_address: Seq<u8>,
    port: Seq<u8>,
    io_threads: Seq<u8>,
    event_capacity: Seq<u8>,
    max_memory: Seq<u8>,
    append_only: Seq<u8>,
) -> Map<Seq<u8>, Seq<u8>> {
    Map::empty().insert("dir".spec_bytes(), dir).insert("dbfilename".spec_bytes(), dbfilename).insert(
        "ipv4_address".spec_bytes(),
        ipv4_address,
    ).insert("port".spec_bytes(), port).insert("io_threads".spec_bytes(), io_threads).insert(
        "max_memory".spec_bytes(),
        max_memory,
    ).insert("event_capacity".spec_bytes(), event_capacity).insert("append_only".spec_bytes(), append_only)
}

/// The keyspace's thread: the keyspace, who subscribes to what, and the
/// server's settings.
pub struct Sanctum {
    soul: Soul,
    client_map: crate::temple::ClientMap,
    event_map: crate::temple::EventMap,
    subscribed_clients: std::collections::HashSet<usize>,
    config: ByteMap<Vec<u8>>,
}

impl Sanctum {
    /// The keyspace.
    pub closed spec fn keyspace(self) -> Keyspace {
        self.soul@
    }

    /// For each client, the channels it subscribes to.
    pub closed spec fn events(self) -> Map<usize, Set<Seq<u8>>> {
        self.event_map@
    }

    /// A subscribed client's channels, in the order it subscribed to them.
    pub closed spec fn listing(self, token: usize) -> Seq<Seq<u8>> {
        self.event_map.listing(token)
    }

    /// For each channel, its subscribers in the order they subscribed.
    pub closed spec fn channels(self) -> Map<Seq<u8>, Seq<usize>> {
        self.client_map@
    }

    /// The clients in subscriber-only mode.
    pub closed spec fn subscribed(self) -> Set<usize> {
        self.subscribed_clients@
    }

    /// The settings.
    pub closed spec fn settings(self) -> Map<Seq<u8>, Seq<u8>> {
        self.config@
    }

    /// The names of the settings, in the order they were made.
    pub closed spec fn setting_names(self) -> Seq<Seq<u8>> {
        self.config.keys()
    }

    /// The parts are well formed, a client is in subscriber-only mode
    /// exactly when it subscribes to some channel, and the subscribers
    /// listed for each channel are exactly the clients subscribed to it.
    pub closed spec fn wf(self) -> bool {
        &&& self.soul.wf()
        &&& self.client_map.wf()
        &&& self.event_map.wf()
        &&& self.config.wf()
        &&& self.subscribed_clients@ == self.event_map@.dom()
        &&& coherent(self.client_map@, self.event_map@)
    }

    /// The keyspace's thread with the keyspace `soul`, no subscriptions, and
    /// the given settings.
    pub fn new(
        soul: Soul,
        dir: Vec<u8>,
        dbfilename: Vec<u8>,
        ipv4_address: Vec<u8>,
        port: Vec<u8>,
        io_threads: Vec<u8>,
        event_capacity: Vec<u8>,
        max_memory: Vec<u8>,
        append_only: Vec<u8>,
    ) -> (s: Self)
        requires
            soul.wf(),
        ensures
            s.wf(),
            s.keyspace() == soul@,
            s.events() == Map::<usize, Set<Seq<u8>>>::empty(),
            s.channels() == Map::<Seq<u8>, Seq<usize>>::empty(),
            s.subscribed() == Set::<usize>::empty(),
            s.settings() == initial_settings(
                dir@,
                dbfilename@,
                ipv4_address@,
                port@,
                io_threads@,
                event_capacity@,
                max_memory@,
                append_only@,
            ),
    {
        let mut config: ByteMap<Vec<u8>> = ByteMap::new();
        config.insert(vstd::slice::slice_to_vec("dir".as_bytes()), dir);
        config.insert(vstd::slice::slice_to_vec("dbfilename".as_bytes()), dbfilename);
        config.insert(vstd::slice::slice_to_vec("ipv4_address".as_bytes()), ipv4_address);
        config.insert(vstd::slice::slice_to_vec("port".as_bytes()), port);
        config.insert(vstd::slice::slice_to_vec("io_threads".as_bytes()), io_threads);
        config.insert(vstd::slice::slice_to_vec("max_memory".as_bytes()), max_memory);
        config.insert(vstd::slice::slice_to_vec("event_capacity".as_bytes()), event_capacity);
        config.insert(vstd::slice::slice_to_vec("append_only".as_bytes()), append_only);
        let s = Sanctum {
            soul,
            client_map: crate::temple::ClientMap::new(),
            event_map: crate::temple::EventMap::new(),
            subscribed_clients: std::collections::HashSet::new(),
            config,
        };
        proof {
            assert(s.subscribed_clients@ =~= s.event_map@.dom());
            assert forall|e: Seq<u8>, t: usize|
                #![trigger subscribers(s.client_map@, e).contains(t)]
                #![trigger s.event_map@[t].contains(e)]
                subscribers(s.client_map@, e).contains(t) <==> (s.event_map@.contains_key(t)
                    && s.event_map@[t].contains(e)) by {}
        }
        s
    }

    /// CONFIG GET (see `config_reply`).
    pub fn config_get(&self, properties: Vec<Vec<u8>>) -> (r: Vec<Option<Vec<u8>>>)
        requires
            self.wf(),
        ensures
            crate::wish::opt_bytes_seq(r@) == config_reply(
                self.setting_names(),
                self.settings(),
                crate::wish::bytes_seq(properties@),
            ),
    {
        let ghost names = self.config.keys();
        let ghost c = self.config@;
        let ghost ps = crate::wish::bytes_seq(properties@);
        let mut result: Vec<Option<Vec<u8>>> = Vec::new();
        proof {
            self.config.lemma_view();
            assert(crate::wish::opt_bytes_seq(result@) =~= Seq::<Option<Seq<u8>>>::empty());
        }
        let every = names_one_of(&properties, EVERY_SETTING.as_bytes());
        if every {
            let mut i: usize = 0;
            proof {
                assert(names.take(0) =~= Seq::<Seq<u8>>::empty());
            }
            while i < self.config.len()
                invariant
                    self.wf(),
                    names == self.config.keys(),
                    c == self.config@,
                    i <= names.len(),
                    crate::wish::opt_bytes_seq(result@) == listed_settings(names.take(i as int), c),
                decreases names.len() - i,
            {
                proof {
                    self.config.lemma_view();
                    assert(names.take(i + 1).drop_last() =~= names.take(i as int));
                }
                let ghost before = result@;
                let name = self.config.key_at(i).clone();
                let value = self.config.value_at(i).clone();
                result.push(Some(name));
                result.push(Some(value));
                proof {
                    assert(crate::wish::opt_bytes_seq(result@) =~= crate::wish::opt_bytes_seq(before)
                        + seq![Some(names[i as int]), Some(c[names[i as int]])]);
                }
                i = i + 1;
            }
            proof {
                assert(names.take(i as int) =~= names);
            }
        } else {
            let mut i: usize = 0;
            proof {
                assert(ps.take(0) =~= Seq::<Seq<u8>>::empty());
            }
            while i < properties.len()
                invariant
                    self.wf(),
                    c == self.config@,
                    ps == crate::wish::bytes_seq(properties@),
                    i <= properties.len(),
                    crate::wish::opt_bytes_seq(result@) == found_settings(ps.take(i as int), c),
                decreases properties.len() - i,
            {
                proof {
                    assert(ps.take(i + 1).drop_last() =~= ps.take(i as int));
                    assert(ps.take(i + 1).last() == properties@[i as int]@);
                }
                let ghost before = result@;
                match self.config.get(properties[i].as_slice()) {
                    Some(value) => {
                        result.push(Some(properties[i].clone()));
                        result.push(Some(value.clone()));
                        proof {
                            assert(crate::wish::opt_bytes_seq(result@) =~= crate::wish::opt_bytes_seq(
                                before,
                            ) + seq![Some(ps[i as int]), Some(c[ps[i as int]])]);
                        }
                    },
                    None => {},
                }
                i = i + 1;
            }
            proof {
                assert(ps.take(i as int) =~= ps);
            }
        }
        if every || names_one_of(&properties, DATABASES.as_bytes()) {
            let ghost before = result@;
            result.push(Some(vstd::slice::slice_to_vec(DATABASES.as_bytes())));
            result.push(Some(vstd::slice::slice_to_vec(ONE_DATABASE.as_bytes())));
            proof {
                assert(crate::wish::opt_bytes_seq(result@) =~= crate::wish::opt_bytes_seq(before) + seq![
                    Some(DATABASES.spec_bytes()),
                    Some(ONE_DATABASE.spec_bytes()),
                ]);
            }
        } else {
            proof {
                assert(crate::wish::opt_bytes_seq(result@) =~= crate::wish::opt_bytes_seq(result@)
                    + Seq::<Option<Seq<u8>>>::empty());
            }
        }
        result
    }

    /// The snapshot file's path: the `dir` setting, `/`, and the
    /// `dbfilename` setting.
    pub fn file_path(&self) -> (r: Result<Vec<u8>, crate::temple::soul::ServerError>)
        requires
            self.wf(),
        ensures
            ({
                let c = self.settings();
                let dir = "dir".spec_bytes();
                let file = "dbfilename".spec_bytes();
                if c.contains_key(dir) && c.contains_key(file) {
                    r matches Ok(p) && p@ == c[dir] + seq![47u8] + c[file]
                } else {
                    r matches Err(crate::temple::soul::ServerError::ValueNotSet)
                }
            }),
    {
        let dir = match self.config.get("dir".as_bytes()) {
            Some(d) => d,
            None => {
                return Err(crate::temple::soul::ServerError::ValueNotSet);
            },
        };
        let file = match self.config.get("dbfilename".as_bytes()) {
            Some(f) => f,
            None => {
                return Err(crate::temple::soul::ServerError::ValueNotSet);
            },
        };
        Ok(snapshot_path(dir, file))
    }

    /// The keyspace, for taking a snapshot.
    pub fn soul(&self) -> (s: &Soul)
        ensures
            s@ == self.keyspace(),
    {
        &self.soul
    }

    /// Answers a request for the keyspace (see `served`; CONFIG GET answers
    /// from the settings).
    pub fn consult(&mut self, command: DatabaseCommand) -> (r: Response)
        requires
            old(self).wf(),
            feasible(command@),
            well_built(command),
        ensures
            final(self).wf(),
            final(self).events() == old(self).events(),
            final(self).channels() == old(self).channels(),
            final(self).subscribed() == old(self).subscribed(),
            final(self).settings() == old(self).settings(),
            final(self).setting_names() == old(self).setting_names(),
            forall|t: usize| final(self).listing(t) == old(self).listing(t),
            served(old(self).keyspace(), command@, final(self).keyspace(), r@),
            command@ matches Query::ConfigGet { properties } ==> r@ == Reply::BulkStringArray(
                Some(config_reply(old(self).setting_names(), old(self).settings(), properties)),
            ),
    {
        match command {
            DatabaseCommand::ConfigGet { properties } => Response::BulkStringArray(
                Some(self.config_get(properties)),
            ),
            DatabaseCommand::Hset { .. } | DatabaseCommand::Hget { .. } | DatabaseCommand::Hmget { .. }
            | DatabaseCommand::Hdel { .. } | DatabaseCommand::Hexists { .. } | DatabaseCommand::Hlen { .. }
            | DatabaseCommand::Hgetall { .. } => consult_fields(&mut self.soul, command),
            DatabaseCommand::Sadd { .. } | DatabaseCommand::Srem { .. } | DatabaseCommand::Sismember { .. }
            | DatabaseCommand::Smembers { .. } => consult_members(&mut self.soul, command),
            DatabaseCommand::Lpush { .. } | DatabaseCommand::Rpush { .. } | DatabaseCommand::Lpop { .. }
            | DatabaseCommand::LpopM { .. } | DatabaseCommand::Rpop { .. } | DatabaseCommand::RpopM { .. }
            | DatabaseCommand::Llen { .. } | DatabaseCommand::Lrange { .. } | DatabaseCommand::Lindex { .. }
            | DatabaseCommand::Lset { .. } | DatabaseCommand::Lrem { .. } => consult_items(&mut self.soul, command),
            _ => consult_keys(&mut self.soul, command),
        }
    }

    /// Handles a client's request: subscriptions and publications, and,
    /// unless the client is in subscriber-only mode, requests for the
    /// keyspace. Says what to hand to the thread that writes to clients.
    pub fn serve(&mut self, token: usize, command: ClientCommandType) -> (d: Decree)
        requires
            old(self).wf(),
            admissible(command),
        ensures
            final(self).wf(),
            final(self).settings() == old(self).settings(),
            final(self).setting_names() == old(self).setting_names(),
            match command@ {
                Ask::Broadcast(Tidings::Subscribe { events }) => {
                    let s0 = if old(self).events().contains_key(token) {
                        old(self).events()[token]
                    } else {
                        Set::empty()
                    };
                    let (s1, out) = subscribing(s0, events);
                    &&& final(self).keyspace() == old(self).keyspace()
                    &&& final(self).events() == old(self).events().insert(token, s1)
                    &&& final(self).subscribed() == old(self).subscribed().insert(token)
                    &&& final(self).channels() == joined(old(self).channels(), token, events)
                    &&& d@ == Edict::Deliver(token, Reply::SubscribedChannels(out))
                },
                Ask::Broadcast(Tidings::Unsubscribe { terms }) => {
                    &&& final(self).keyspace() == old(self).keyspace()
                    &&& !old(self).events().contains_key(token) ==> {
                        &&& final(self).events() == old(self).events()
                        &&& final(self).subscribed() == old(self).subscribed()
                        &&& final(self).channels() == old(self).channels()
                        &&& d@ == Edict::Deliver(token, Reply::UnsubscribedChannels(None))
                    }
                    &&& old(self).events().contains_key(token) && terms.len() == 0 ==> {
                        let listing = old(self).listing(token);
                        &&& final(self).events() == old(self).events().remove(token)
                        &&& final(self).subscribed() == old(self).subscribed().remove(token)
                        &&& final(self).channels() == parted(old(self).channels(), token, listing)
                        &&& d@ == Edict::Deliver(token, Reply::UnsubscribedChannels(Some(countdown(listing))))
                    }
                    &&& old(self).events().contains_key(token) && terms.len() > 0 ==> {
                        let (s1, out) = unsubscribing(old(self).events()[token], terms);
                        &&& s1.len() == 0 ==> final(self).events() == old(self).events().remove(token)
                            && final(self).subscribed() == old(self).subscribed().remove(token)
                        &&& s1.len() > 0 ==> final(self).events() == old(self).events().insert(token, s1)
                            && final(self).subscribed() == old(self).subscribed()
                        &&& final(self).channels() == parted(old(self).channels(), token, terms)
                        &&& d@ == Edict::Deliver(token, Reply::UnsubscribedChannels(Some(out)))
                    }
                },
                Ask::Broadcast(Tidings::Publish { event, message }) => {
                    &&& final(self).keyspace() == old(self).keyspace()
                    &&& final(self).events() == old(self).events()
                    &&& final(self).subscribed() == old(self).subscribed()
                    &&& final(self).channels() == old(self).channels()
                    &&& d@ == Edict::Broadcast(
                        token,
                        event,
                        message,
                        if old(self).channels().contains_key(event) {
                            old(self).channels()[event]
                        } else {
                            Seq::empty()
                        },
                    )
                },
                Ask::Database(q) => {
                    &&& final(self).events() == old(self).events()
                    &&& final(self).subscribed() == old(self).subscribed()
                    &&& final(self).channels() == old(self).channels()
                    &&& if old(self).subscribed().contains(token) {
                        &&& final(self).keyspace() == old(self).keyspace()
                        &&& d@ == Edict::Deliver(token, Reply::Error(Sacrilege::SubscriberOnlyMode))
                    } else {
                        d@ matches Edict::Deliver(t, r) && t == token && served(
                            old(self).keyspace(),
                            q,
                            final(self).keyspace(),
                            r,
                        ) && (q matches Query::ConfigGet { properties } ==> r == Reply::BulkStringArray(
                            Some(config_reply(old(self).setting_names(), old(self).settings(), properties)),
                        ))
                    }
                },
            },
    {
        match command {
            ClientCommandType::Broadcast(BroadcastCommand::Subscribe { events }) => {
                let ghost es = crate::wish::bytes_seq(events@);
                let ghost s0 = if self.event_map@.contains_key(token) {
                    self.event_map@[token]
                } else {
                    Set::empty()
                };
                proof {
                    self.client_map.lemma_lists();
                }
                self.subscribed_clients.insert(token);
                let channels = self.event_map.subscribe(token, copy_terms(&events));
                self.client_map.subscribe(token, events);
                proof {
                    assert(self.subscribed_clients@ =~= self.event_map@.dom());
                    let ch = old(self).client_map@;
                    let ev = old(self).event_map@;
                    assert forall|e: Seq<u8>, t: usize|
                        #![trigger subscribers(self.client_map@, e).contains(t)]
                        #![trigger self.event_map@[t].contains(e)]
                        subscribers(self.client_map@, e).contains(t) <==> (self.event_map@.contains_key(t)
                            && self.event_map@[t].contains(e)) by {
                        lemma_joined(ch, token, es, e, t);
                        lemma_subscribing_members(s0, es, e);
                        assert(subscribers(ch, e).contains(t) <==> (ev.contains_key(t) && ev[t].contains(e)));
                    }
                }
                Decree::Deliver(Gift { token, response: Response::SubscribedChannels(channels) })
            },
            ClientCommandType::Broadcast(BroadcastCommand::Unsubscribe { terms }) => {
                let ghost had = self.event_map@.contains_key(token);
                let ghost listing = self.event_map.listing(token);
                let ghost ts = crate::wish::bytes_seq(terms@);
                proof {
                    self.client_map.lemma_lists();
                    if had {
                        self.event_map.lemma_listing(token);
                    }
                }
                let gone = self.event_map.unsubscribe(terms, token, &mut self.subscribed_clients);
                proof {
                    if had {
                        if ts.len() == 0 {
                            lemma_named_countdown(listing);
                        } else {
                            lemma_named_unsubscribing(old(self).event_map@[token], ts);
                        }
                    }
                }
                self.client_map.unsubscribe(token, &gone);
                proof {
                    assert(self.subscribed_clients@ =~= self.event_map@.dom());
                    let ch = old(self).client_map@;
                    let ev = old(self).event_map@;
                    if had {
                        let named_terms = if ts.len() == 0 { listing } else { ts };
                        assert forall|e: Seq<u8>, t: usize|
                            #![trigger subscribers(self.client_map@, e).contains(t)]
                            #![trigger self.event_map@[t].contains(e)]
                            subscribers(self.client_map@, e).contains(t) <==> (self.event_map@.contains_key(t)
                                && self.event_map@[t].contains(e)) by {
                            lemma_parted(ch, token, named_terms, e, t);
                            assert(subscribers(ch, e).contains(t) <==> (ev.contains_key(t) && ev[t].contains(e)));
                            if ts.len() == 0 {
                                assert(listing.contains(e) <==> listing.to_set().contains(e));
                            } else {
                                lemma_unsubscribing_members(ev[token], ts, e);
                                let s1 = unsubscribing(ev[token], ts).0;
                                if s1.len() == 0 {
                                    s1.lemma_len0_is_empty();
                                }
                            }
                        }
                    }
                }
                Decree::Deliver(Gift { token, response: Response::UnsubscribedChannels(gone) })
            },
            ClientCommandType::Broadcast(BroadcastCommand::Publish { event, message }) => {
                let clients = self.client_map.publish(event.clone());
                Decree::Broadcast(token, event, message, clients)
            },
            ClientCommandType::Database(command) => {
                if self.subscribed_clients.contains(&token) {
                    return Decree::Deliver(
                        Gift { token, response: Response::Error(Sacrilege::SubscriberOnlyMode) },
                    );
                }
                let response = self.consult(command);
                Decree::Deliver(Gift { token, response })
            },
        }
    }
}

/// A client is in subscriber-only mode exactly while it subscribes to some
/// channel.
pub proof fn law_subscriber_mode(s: Sanctum)
    requires
        s.wf(),
    ensures
        s.subscribed() == s.events().dom(),
{
}

/// A published message reaches exactly the clients subscribed to its
/// channel, each once.
pub proof fn law_publish_reaches_subscribers(s: Sanctum, event: Seq<u8>, token: usize)
    requires
        s.wf(),
    ensures
        subscribers(s.channels(), event).contains(token) <==> (s.events().contains_key(token)
            && s.events()[token].contains(event)),
        subscribers(s.channels(), event).no_duplicates(),
{
    s.client_map.lemma_lists();
}

} // verus!
