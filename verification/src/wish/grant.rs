use vstd::prelude::*;
use vstd::string::StringSliceAdditionalSpecFns;

use crate::temple::soul::{Datum, Moment, Value};
use crate::temple::{Ask, BroadcastCommand, ClientCommandType, DatabaseCommand, Query, Tidings};
use crate::wish::util::{bytes_to_i32, bytes_to_i64, bytes_to_u64, bytes_to_usize, signed_numeral, unsigned_numeral};
use crate::wish::{bytes_seq, Command, InfoType, Reply, Response, Sacrilege};

verus! {

/// A reply for one client, named by its connection token.
pub struct Gift {
    pub token: usize,
    pub response: Response,
}

/// What the keyspace's thread hands to the thread that writes to clients.
pub enum Decree {
    /// A reply for one client.
    Deliver(Gift),
    /// A message published by the client `.0` on the channel `.1`, with the
    /// message `.2`, for the subscribed clients `.3`.
    Broadcast(usize, Vec<u8>, Vec<u8>, Vec<usize>),
}

/// `Decree` as mathematics.
pub enum Edict {
    Deliver(usize, Reply),
    Broadcast(usize, Seq<u8>, Seq<u8>, Seq<usize>),
}

impl View for Decree {
    type V = Edict;

    open spec fn view(&self) -> Edict {
        match self {
            Decree::Deliver(g) => Edict::Deliver(g.token, g.response@),
            Decree::Broadcast(t, e, m, c) => Edict::Broadcast(*t, e@, m@, c@),
        }
    }
}

/// What handling a request comes to, in order.
pub enum Petition {
    /// A reply that needs nothing from the keyspace.
    Answer(Response),
    /// Work for the keyspace's thread, which replies itself.
    Consult(ClientCommandType),
}

/// `Petition` as mathematics.
pub enum Plea {
    Answer(Response),
    Consult(Ask),
}

impl View for Petition {
    type V = Plea;

    open spec fn view(&self) -> Plea {
        match self {
            Petition::Answer(r) => Plea::Answer(*r),
            Petition::Consult(c) => Plea::Consult(c@),
        }
    }
}

/// A list of petitions as mathematics.
pub open spec fn petitions_view(s: Seq<Petition>) -> Seq<Plea> {
    s.map_values(|p: Petition| p@)
}

/// A refusal and nothing else.
pub open spec fn fail(s: Sacrilege) -> Seq<Plea> {
    seq![Plea::Answer(Response::Error(s))]
}

/// A reply and nothing else.
pub open spec fn answer(r: Response) -> Seq<Plea> {
    seq![Plea::Answer(r)]
}

/// A request for the keyspace and nothing else.
pub open spec fn ask(q: Query) -> Seq<Plea> {
    seq![Plea::Consult(Ask::Database(q))]
}

/// A publish/subscribe request and nothing else.
pub open spec fn tell(b: Tidings) -> Seq<Plea> {
    seq![Plea::Consult(Ask::Broadcast(b))]
}

/// An ASCII upper-case letter made lower-case; other bytes unchanged.
pub open spec fn ascii_lower(b: u8) -> u8 {
    if 65 <= b <= 90 {
        (b + 32) as u8
    } else {
        b
    }
}

/// Two names that differ at most in the case of ASCII letters.
pub open spec fn same_name(a: Seq<u8>, b: Seq<u8>) -> bool {
    a.len() == b.len() && forall|i: int| 0 <= i < a.len() ==> ascii_lower(a[i]) == ascii_lower(b[i])
}

/// Compares two names ignoring the case of ASCII letters.
pub fn names_match(a: &[u8], b: &[u8]) -> (r: bool)
    ensures
        r == same_name(a@, b@),
{
    if a.len() != b.len() {
        return false;
    }
    let mut i: usize = 0;
    while i < a.len()
        invariant
            i <= a.len(),
            a.len() == b.len(),
            forall|j: int| 0 <= j < i ==> ascii_lower(a@[j]) == ascii_lower(b@[j]),
        decreases a.len() - i,
    {
        let x = a[i];
        let y = b[i];
        let lx = if 65u8 <= x && x <= 90u8 { x + 32 } else { x };
        let ly = if 65u8 <= y && y <= 90u8 { y + 32 } else { y };
        if lx != ly {
            return false;
        }
        i = i + 1;
    }
    true
}

/// Consecutive terms taken two by two; a last odd term is left out.
pub open spec fn pairs_of(s: Seq<Seq<u8>>) -> Seq<(Seq<u8>, Seq<u8>)> {
    Seq::new(s.len() / 2, |i: int| (s[2 * i], s[2 * i + 1]))
}

/// A refusal, ready to hand on.
fn refuse(s: Sacrilege) -> (r: Vec<Petition>)
    ensures
        petitions_view(r@) == fail(s),
{
    let mut r: Vec<Petition> = Vec::new();
    r.push(Petition::Answer(Response::Error(s)));
    proof {
        assert(petitions_view(r@) =~= fail(s));
    }
    r
}

/// A reply, ready to hand on.
fn reply(response: Response) -> (r: Vec<Petition>)
    ensures
        petitions_view(r@) == answer(response),
{
    let ghost g = response;
    let mut r: Vec<Petition> = Vec::new();
    r.push(Petition::Answer(response));
    proof {
        assert(petitions_view(r@) =~= answer(g));
    }
    r
}

/// A request for the keyspace, ready to hand on.
fn consult(d: DatabaseCommand) -> (r: Vec<Petition>)
    ensures
        petitions_view(r@) == ask(d@),
{
    let ghost q = d@;
    let mut r: Vec<Petition> = Vec::new();
    r.push(Petition::Consult(ClientCommandType::Database(d)));
    proof {
        assert(petitions_view(r@) =~= ask(q));
    }
    r
}

/// A publish/subscribe request, ready to hand on.
fn announce(b: BroadcastCommand) -> (r: Vec<Petition>)
    ensures
        petitions_view(r@) == tell(b@),
{
    let ghost q = b@;
    let mut r: Vec<Petition> = Vec::new();
    r.push(Petition::Consult(ClientCommandType::Broadcast(b)));
    proof {
        assert(petitions_view(r@) =~= tell(q));
    }
    r
}

/// The terms from position `at` on.
fn tail(terms: Vec<Vec<u8>>, at: usize) -> (r: Vec<Vec<u8>>)
    requires
        at <= terms@.len(),
    ensures
        bytes_seq(r@) == bytes_seq(terms@).skip(at as int),
{
    let ghost t = terms@;
    let mut terms = terms;
    let r = terms.split_off(at);
    proof {
        assert(bytes_seq(r@) =~= bytes_seq(t).skip(at as int));
    }
    r
}

/// SET takes a key and a value, optionally followed by `EX` and a number
/// of seconds until it expires.
pub open spec fn set_pleas(t: Seq<Seq<u8>>, now: Moment) -> Seq<Plea> {
    if t.len() > 5 || t.len() < 3 {
        fail(Sacrilege::IncorrectNumberOfArguments(Command::SET))
    } else if t.len() == 3 {
        ask(Query::Assign { key: t[1], value: (Datum::Text(t[2]), None) })
    } else if !same_name(t[3], "EX".spec_bytes()) {
        fail(Sacrilege::IncorrectNumberOfArguments(Command::SET))
    } else if t.len() == 4 {
        fail(Sacrilege::IncorrectUsage(Command::SET))
    } else {
        match unsigned_numeral(t[4], u64::MAX as nat) {
            Some(e) => if now.secs + e <= u64::MAX {
                ask(
                    Query::Assign {
                        key: t[1],
                        value: (Datum::Text(t[2]), Some((now.secs + e) as u64)),
                    },
                )
            } else {
                fail(Sacrilege::IncorrectUsage(Command::SET))
            },
            None => fail(Sacrilege::IncorrectUsage(Command::SET)),
        }
    }
}

/// PING takes no argument; with arguments the refusal is followed by the
/// reply all the same.
pub open spec fn ping_pleas(t: Seq<Seq<u8>>) -> Seq<Plea> {
    if t.len() != 1 {
        seq![
            Plea::Answer(Response::Error(Sacrilege::IncorrectNumberOfArguments(Command::PING))),
            Plea::Answer(Response::Info(InfoType::Pong)),
        ]
    } else {
        answer(Response::Info(InfoType::Pong))
    }
}

/// COMMAND takes no argument; with arguments the refusal is followed by
/// the reply all the same.
pub open spec fn command_pleas(t: Seq<Seq<u8>>) -> Seq<Plea> {
    if t.len() != 1 {
        seq![
            Plea::Answer(Response::Error(Sacrilege::IncorrectNumberOfArguments(Command::COMMAND))),
            Plea::Answer(Response::Info(InfoType::Command)),
        ]
    } else {
        answer(Response::Info(InfoType::Command))
    }
}

/// INCRBY takes a key and a signed 64-bit increment.
pub open spec fn incrby_pleas(t: Seq<Seq<u8>>, now: Moment) -> Seq<Plea> {
    if t.len() != 3 {
        fail(Sacrilege::IncorrectNumberOfArguments(Command::INCRBY))
    } else {
        match signed_numeral(t[2], i64::MAX as nat) {
            Some(v) => ask(Query::Incrby { key: t[1], number: v as i64, time: now.secs }),
            None => fail(Sacrilege::IncorrectUsage(Command::INCRBY)),
        }
    }
}

/// HSET takes a key and field/value pairs.
pub open spec fn hset_pleas(t: Seq<Seq<u8>>, now: Moment) -> Seq<Plea> {
    if t.len() < 4 || t.len() % 2 == 1 {
        fail(Sacrilege::IncorrectNumberOfArguments(Command::HSET))
    } else {
        ask(Query::Hset { key: t[1], field_value_pairs: pairs_of(t.skip(2)), time: now.secs })
    }
}

/// LPOP and RPOP take a key and optionally a count.
pub open spec fn pop_pleas(t: Seq<Seq<u8>>, now: Moment, left: bool) -> Seq<Plea> {
    let c = if left { Command::LPOP } else { Command::RPOP };
    if t.len() > 3 || t.len() < 2 {
        fail(Sacrilege::IncorrectNumberOfArguments(c))
    } else if t.len() == 2 {
        ask(if left { Query::Lpop { key: t[1], time: now.secs } } else { Query::Rpop { key: t[1], time: now.secs } })
    } else {
        match unsigned_numeral(t[2], usize::MAX as nat) {
            Some(n) => ask(
                if left {
                    Query::LpopM { key: t[1], count: n as usize, time: now.secs }
                } else {
                    Query::RpopM { key: t[1], count: n as usize, time: now.secs }
                },
            ),
            None => fail(Sacrilege::IncorrectUsage(c)),
        }
    }
}

/// LLEN takes one key; with more arguments the refusal is followed by the
/// length of the first key's list, without a key by a second refusal.
pub open spec fn llen_pleas(t: Seq<Seq<u8>>, now: Moment) -> Seq<Plea> {
    let refusal = Plea::Answer(Response::Error(Sacrilege::IncorrectNumberOfArguments(Command::LLEN)));
    if t.len() == 2 {
        ask(Query::Llen { key: t[1], time: now.secs })
    } else if t.len() < 2 {
        seq![refusal, refusal]
    } else {
        seq![refusal, Plea::Consult(Ask::Database(Query::Llen { key: t[1], time: now.secs }))]
    }
}

/// LINDEX takes a key and a signed 32-bit index; with more arguments the
/// refusal is followed by the lookup with the first two, without an index
/// by a second refusal.
pub open spec fn lindex_pleas(t: Seq<Seq<u8>>, now: Moment) -> Seq<Plea> {
    let head = if t.len() != 3 {
        fail(Sacrilege::IncorrectNumberOfArguments(Command::LINDEX))
    } else {
        Seq::empty()
    };
    let body = if t.len() >= 3 {
        match signed_numeral(t[2], i32::MAX as nat) {
            Some(i) => ask(Query::Lindex { key: t[1], index: i as i32, time: now.secs }),
            None => fail(Sacrilege::IncorrectUsage(Command::LINDEX)),
        }
    } else {
        fail(Sacrilege::IncorrectNumberOfArguments(Command::LINDEX))
    };
    head + body
}

/// LRANGE takes a key and two signed 32-bit indices.
pub open spec fn lrange_pleas(t: Seq<Seq<u8>>, now: Moment) -> Seq<Plea> {
    if t.len() != 4 {
        fail(Sacrilege::IncorrectNumberOfArguments(Command::LRANGE))
    } else {
        match (signed_numeral(t[2], i32::MAX as nat), signed_numeral(t[3], i32::MAX as nat)) {
            (Some(a), Some(b)) => ask(
                Query::Lrange {
                    key: t[1],
                    starting_index: a as i32,
                    ending_index: b as i32,
                    time: now.secs,
                },
            ),
            _ => fail(Sacrilege::IncorrectUsage(Command::LRANGE)),
        }
    }
}

/// LSET takes a key, a signed 32-bit index and an element.
pub open spec fn lset_pleas(t: Seq<Seq<u8>>, now: Moment) -> Seq<Plea> {
    if t.len() != 4 {
        fail(Sacrilege::IncorrectNumberOfArguments(Command::LSET))
    } else {
        match signed_numeral(t[2], i32::MAX as nat) {
            Some(i) => ask(Query::Lset { key: t[1], index: i as i32, element: t[3], time: now.secs }),
            None => fail(Sacrilege::IncorrectUsage(Command::LSET)),
        }
    }
}

/// LREM takes a key, a signed 32-bit count and an element.
pub open spec fn lrem_pleas(t: Seq<Seq<u8>>, now: Moment) -> Seq<Plea> {
    if t.len() != 4 {
        fail(Sacrilege::IncorrectNumberOfArguments(Command::LREM))
    } else {
        match signed_numeral(t[2], i32::MAX as nat) {
            Some(c) => ask(Query::Lrem { key: t[1], count: c as i32, element: t[3], time: now.secs }),
            None => fail(Sacrilege::IncorrectUsage(Command::LREM)),
        }
    }
}

/// EXPIRE takes a key and a number of seconds from now.
pub open spec fn expire_pleas(t: Seq<Seq<u8>>, now: Moment) -> Seq<Plea> {
    if t.len() != 3 {
        fail(Sacrilege::IncorrectNumberOfArguments(Command::EXPIRE))
    } else {
        match unsigned_numeral(t[2], u64::MAX as nat) {
            Some(e) => if now.secs + e <= u64::MAX {
                ask(Query::Expire { key: t[1], expiry: (now.secs + e) as u64, time: now.secs })
            } else {
                fail(Sacrilege::IncorrectUsage(Command::EXPIRE))
            },
            None => fail(Sacrilege::IncorrectUsage(Command::EXPIRE)),
        }
    }
}

/// TTL takes one key.
pub open spec fn ttl_pleas(t: Seq<Seq<u8>>, now: Moment) -> Seq<Plea> {
    if t.len() != 2 {
        fail(Sacrilege::IncorrectNumberOfArguments(Command::TTL))
    } else {
        ask(Query::Ttl { key: t[1], time: now })
    }
}

/// SUBSCRIBE takes at least one channel.
pub open spec fn subscribe_pleas(t: Seq<Seq<u8>>) -> Seq<Plea> {
    if t.len() < 2 {
        fail(Sacrilege::IncorrectNumberOfArguments(Command::SUBSCRIBE))
    } else {
        tell(Tidings::Subscribe { events: t.skip(1) })
    }
}

/// PUBLISH takes a channel and a message.
pub open spec fn publish_pleas(t: Seq<Seq<u8>>) -> Seq<Plea> {
    if t.len() != 3 {
        fail(Sacrilege::IncorrectNumberOfArguments(Command::PUBLISH))
    } else {
        tell(Tidings::Publish { event: t[1], message: t[2] })
    }
}

/// MSET takes key/value pairs.
pub open spec fn mset_pleas(t: Seq<Seq<u8>>) -> Seq<Plea> {
    if t.len() < 3 || t.len() % 2 == 0 {
        fail(Sacrilege::IncorrectNumberOfArguments(Command::MSET))
    } else {
        ask(Query::Mset { terms: t.skip(1) })
    }
}

/// CONFIG takes `GET` and at least one property name.
pub open spec fn config_pleas(t: Seq<Seq<u8>>) -> Seq<Plea> {
    if t.len() < 3 {
        fail(Sacrilege::IncorrectNumberOfArguments(Command::CONFIG))
    } else if !same_name(t[1], "GET".spec_bytes()) {
        fail(Sacrilege::IncorrectUsage(Command::CONFIG))
    } else {
        ask(Query::ConfigGet { properties: t.skip(2) })
    }
}

/// GET takes one key.
pub open spec fn get_pleas(t: Seq<Seq<u8>>, now: Moment) -> Seq<Plea> {
    if t.len() != 2 {
        fail(Sacrilege::IncorrectNumberOfArguments(Command::GET))
    } else {
        ask(Query::Get { key: t[1], time: now.secs })
    }
}

/// INCR takes one key.
pub open spec fn incr_pleas(t: Seq<Seq<u8>>, now: Moment) -> Seq<Plea> {
    if t.len() != 2 {
        fail(Sacrilege::IncorrectNumberOfArguments(Command::INCR))
    } else {
        ask(Query::Incr { key: t[1], time: now.secs })
    }
}

/// DECR takes one key.
pub open spec fn decr_pleas(t: Seq<Seq<u8>>, now: Moment) -> Seq<Plea> {
    if t.len() != 2 {
        fail(Sacrilege::IncorrectNumberOfArguments(Command::DECR))
    } else {
        ask(Query::Decr { key: t[1], time: now.secs })
    }
}

/// STRLEN takes one key.
pub open spec fn strlen_pleas(t: Seq<Seq<u8>>, now: Moment) -> Seq<Plea> {
    if t.len() != 2 {
        fail(Sacrilege::IncorrectNumberOfArguments(Command::STRLEN))
    } else {
        ask(Query::Strlen { key: t[1], time: now.secs })
    }
}

/// HLEN takes one key.
pub open spec fn hlen_pleas(t: Seq<Seq<u8>>, now: Moment) -> Seq<Plea> {
    if t.len() != 2 {
        fail(Sacrilege::IncorrectNumberOfArguments(Command::HLEN))
    } else {
        ask(Query::Hlen { key: t[1], time: now.secs })
    }
}

/// SMEMBERS takes one key.
pub open spec fn smembers_pleas(t: Seq<Seq<u8>>, now: Moment) -> Seq<Plea> {
    if t.len() != 2 {
        fail(Sacrilege::IncorrectNumberOfArguments(Command::SMEMBERS))
    } else {
        ask(Query::Smembers { key: t[1], time: now.secs })
    }
}

/// HGETALL takes one key.
pub open spec fn hgetall_pleas(t: Seq<Seq<u8>>, now: Moment) -> Seq<Plea> {
    if t.len() != 2 {
        fail(Sacrilege::IncorrectNumberOfArguments(Command::HGETALL))
    } else {
        ask(Query::Hgetall { key: t[1], time: now.secs })
    }
}

/// HGET takes a key and a field.
pub open spec fn hget_pleas(t: Seq<Seq<u8>>, now: Moment) -> Seq<Plea> {
    if t.len() != 3 {
        fail(Sacrilege::IncorrectNumberOfArguments(Command::HGET))
    } else {
        ask(Query::Hget { key: t[1], field: t[2], time: now.secs })
    }
}

/// HEXISTS takes a key and a field.
pub open spec fn hexists_pleas(t: Seq<Seq<u8>>, now: Moment) -> Seq<Plea> {
    if t.len() != 3 {
        fail(Sacrilege::IncorrectNumberOfArguments(Command::HEXISTS))
    } else {
        ask(Query::Hexists { key: t[1], field: t[2], time: now.secs })
    }
}

/// APPEND takes a key and a value.
pub open spec fn append_pleas(t: Seq<Seq<u8>>, now: Moment) -> Seq<Plea> {
    if t.len() != 3 {
        fail(Sacrilege::IncorrectNumberOfArguments(Command::APPEND))
    } else {
        ask(Query::Append { key: t[1], value: t[2], time: now.secs })
    }
}

/// SISMEMBER takes a key and a value.
pub open spec fn sismember_pleas(t: Seq<Seq<u8>>, now: Moment) -> Seq<Plea> {
    if t.len() != 3 {
        fail(Sacrilege::IncorrectNumberOfArguments(Command::SISMEMBER))
    } else {
        ask(Query::Sismember { key: t[1], value: t[2], time: now.secs })
    }
}

/// HMGET takes a key and at least one more term.
pub open spec fn hmget_pleas(t: Seq<Seq<u8>>, now: Moment) -> Seq<Plea> {
    if t.len() < 3 {
        fail(Sacrilege::IncorrectNumberOfArguments(Command::HMGET))
    } else {
        ask(Query::Hmget { key: t[1], fields: t.skip(2), time: now.secs })
    }
}

/// HDEL takes a key and at least one more term.
pub open spec fn hdel_pleas(t: Seq<Seq<u8>>, now: Moment) -> Seq<Plea> {
    if t.len() < 3 {
        fail(Sacrilege::IncorrectNumberOfArguments(Command::HDEL))
    } else {
        ask(Query::Hdel { key: t[1], fields: t.skip(2), time: now.secs })
    }
}

/// LPUSH takes a key and at least one more term.
pub open spec fn lpush_pleas(t: Seq<Seq<u8>>, now: Moment) -> Seq<Plea> {
    if t.len() < 3 {
        fail(Sacrilege::IncorrectNumberOfArguments(Command::LPUSH))
    } else {
        ask(Query::Lpush { key: t[1], elements: t.skip(2), time: now.secs })
    }
}

/// RPUSH takes a key and at least one more term.
pub open spec fn rpush_pleas(t: Seq<Seq<u8>>, now: Moment) -> Seq<Plea> {
    if t.len() < 3 {
        fail(Sacrilege::IncorrectNumberOfArguments(Command::RPUSH))
    } else {
        ask(Query::Rpush { key: t[1], elements: t.skip(2), time: now.secs })
    }
}

/// SADD takes a key and at least one more term.
pub open spec fn sadd_pleas(t: Seq<Seq<u8>>, now: Moment) -> Seq<Plea> {
    if t.len() < 3 {
        fail(Sacrilege::IncorrectNumberOfArguments(Command::SADD))
    } else {
        ask(Query::Sadd { key: t[1], values: t.skip(2), time: now.secs })
    }
}

/// SREM takes a key and at least one more term.
pub open spec fn srem_pleas(t: Seq<Seq<u8>>, now: Moment) -> Seq<Plea> {
    if t.len() < 3 {
        fail(Sacrilege::IncorrectNumberOfArguments(Command::SREM))
    } else {
        ask(Query::Srem { key: t[1], values: t.skip(2), time: now.secs })
    }
}

/// DEL takes at least one key.
pub open spec fn del_pleas(t: Seq<Seq<u8>>, now: Moment) -> Seq<Plea> {
    if t.len() < 2 {
        fail(Sacrilege::IncorrectNumberOfArguments(Command::DEL))
    } else {
        ask(Query::Del { keys: t.skip(1), time: now.secs })
    }
}

/// EXISTS takes at least one key.
pub open spec fn exists_pleas(t: Seq<Seq<u8>>, now: Moment) -> Seq<Plea> {
    if t.len() < 2 {
        fail(Sacrilege::IncorrectNumberOfArguments(Command::EXISTS))
    } else {
        ask(Query::Exists { keys: t.skip(1), time: now.secs })
    }
}

/// MGET takes at least one key.
pub open spec fn mget_pleas(t: Seq<Seq<u8>>, now: Moment) -> Seq<Plea> {
    if t.len() < 2 {
        fail(Sacrilege::IncorrectNumberOfArguments(Command::MGET))
    } else {
        ask(Query::Mget { terms: t.skip(1), time: now.secs })
    }
}

/// The commands a request can name.
#[allow(non_camel_case_types, clippy::upper_case_acronyms)]
pub enum Verb {
    SET,
    GET,
    PING,
    DEL,
    EXISTS,
    INCRBY,
    INCR,
    DECR,
    APPEND,
    HSET,
    HGET,
    HMGET,
    STRLEN,
    HDEL,
    HEXISTS,
    HLEN,
    LPUSH,
    LPOP,
    RPUSH,
    RPOP,
    LLEN,
    LRANGE,
    LINDEX,
    LSET,
    LREM,
    EXPIRE,
    TTL,
    SUBSCRIBE,
    PUBLISH,
    MSET,
    MGET,
    SADD,
    SREM,
    SISMEMBER,
    HGETALL,
    SMEMBERS,
    UNSUBSCRIBE,
    CONFIG,
    QUIT,
    COMMAND,
}

/// The command a name stands for, comparing without regard to ASCII case.
pub open spec fn verb_of(name: Seq<u8>) -> Option<Verb> {
    if same_name(name, "SET".spec_bytes()) {
        Some(Verb::SET)
    } else if same_name(name, "GET".spec_bytes()) {
        Some(Verb::GET)
    } else if same_name(name, "PING".spec_bytes()) {
        Some(Verb::PING)
    } else if same_name(name, "DEL".spec_bytes()) {
        Some(Verb::DEL)
    } else if same_name(name, "EXISTS".spec_bytes()) {
        Some(Verb::EXISTS)
    } else if same_name(name, "INCRBY".spec_bytes()) {
        Some(Verb::INCRBY)
    } else if same_name(name, "INCR".spec_bytes()) {
        Some(Verb::INCR)
    } else if same_name(name, "DECR".spec_bytes()) {
        Some(Verb::DECR)
    } else if same_name(name, "APPEND".spec_bytes()) {
        Some(Verb::APPEND)
    } else if same_name(name, "HSET".spec_bytes()) {
        Some(Verb::HSET)
    } else if same_name(name, "HGET".spec_bytes()) {
        Some(Verb::HGET)
    } else if same_name(name, "HMGET".spec_bytes()) {
        Some(Verb::HMGET)
    } else if same_name(name, "STRLEN".spec_bytes()) {
        Some(Verb::STRLEN)
    } else if same_name(name, "HDEL".spec_bytes()) {
        Some(Verb::HDEL)
    } else if same_name(name, "HEXISTS".spec_bytes()) {
        Some(Verb::HEXISTS)
    } else if same_name(name, "HLEN".spec_bytes()) {
        Some(Verb::HLEN)
    } else if same_name(name, "LPUSH".spec_bytes()) {
        Some(Verb::LPUSH)
    } else if same_name(name, "LPOP".spec_bytes()) {
        Some(Verb::LPOP)
    } else if same_name(name, "RPUSH".spec_bytes()) {
        Some(Verb::RPUSH)
    } else if same_name(name, "RPOP".spec_bytes()) {
        Some(Verb::RPOP)
    } else if same_name(name, "LLEN".spec_bytes()) {
        Some(Verb::LLEN)
    } else if same_name(name, "LRANGE".spec_bytes()) {
        Some(Verb::LRANGE)
    } else if same_name(name, "LINDEX".spec_bytes()) {
        Some(Verb::LINDEX)
    } else if same_name(name, "LSET".spec_bytes()) {
        Some(Verb::LSET)
    } else if same_name(name, "LREM".spec_bytes()) {
        Some(Verb::LREM)
    } else if same_name(name, "EXPIRE".spec_bytes()) {
        Some(Verb::EXPIRE)
    } else if same_name(name, "TTL".spec_bytes()) {
        Some(Verb::TTL)
    } else if same_name(name, "SUBSCRIBE".spec_bytes()) {
        Some(Verb::SUBSCRIBE)
    } else if same_name(name, "PUBLISH".spec_bytes()) {
        Some(Verb::PUBLISH)
    } else if same_name(name, "MSET".spec_bytes()) {
        Some(Verb::MSET)
    } else if same_name(name, "MGET".spec_bytes()) {
        Some(Verb::MGET)
    } else if same_name(name, "SADD".spec_bytes()) {
        Some(Verb::SADD)
    } else if same_name(name, "SREM".spec_bytes()) {
        Some(Verb::SREM)
    } else if same_name(name, "SISMEMBER".spec_bytes()) {
        Some(Verb::SISMEMBER)
    } else if same_name(name, "HGETALL".spec_bytes()) {
        Some(Verb::HGETALL)
    } else if same_name(name, "SMEMBERS".spec_bytes()) {
        Some(Verb::SMEMBERS)
    } else if same_name(name, "UNSUBSCRIBE".spec_bytes()) {
        Some(Verb::UNSUBSCRIBE)
    } else if same_name(name, "CONFIG".spec_bytes()) {
        Some(Verb::CONFIG)
    } else if same_name(name, "QUIT".spec_bytes()) {
        Some(Verb::QUIT)
    } else if same_name(name, "COMMAND".spec_bytes()) {
        Some(Verb::COMMAND)
    } else {
        None
    }
}

/// What a request with the terms `t` asks for, by the command its first
/// term names.
pub open spec fn pleas(t: Seq<Seq<u8>>, now: Moment) -> Seq<Plea> {
    match verb_of(t[0]) {
        Some(Verb::SET) => set_pleas(t, now),
        Some(Verb::GET) => get_pleas(t, now),
        Some(Verb::PING) => ping_pleas(t),
        Some(Verb::DEL) => del_pleas(t, now),
        Some(Verb::EXISTS) => exists_pleas(t, now),
        Some(Verb::INCRBY) => incrby_pleas(t, now),
        Some(Verb::INCR) => incr_pleas(t, now),
        Some(Verb::DECR) => decr_pleas(t, now),
        Some(Verb::APPEND) => append_pleas(t, now),
        Some(Verb::HSET) => hset_pleas(t, now),
        Some(Verb::HGET) => hget_pleas(t, now),
        Some(Verb::HMGET) => hmget_pleas(t, now),
        Some(Verb::STRLEN) => strlen_pleas(t, now),
        Some(Verb::HDEL) => hdel_pleas(t, now),
        Some(Verb::HEXISTS) => hexists_pleas(t, now),
        Some(Verb::HLEN) => hlen_pleas(t, now),
        Some(Verb::LPUSH) => lpush_pleas(t, now),
        Some(Verb::LPOP) => pop_pleas(t, now, true),
        Some(Verb::RPUSH) => rpush_pleas(t, now),
        Some(Verb::RPOP) => pop_pleas(t, now, false),
        Some(Verb::LLEN) => llen_pleas(t, now),
        Some(Verb::LRANGE) => lrange_pleas(t, now),
        Some(Verb::LINDEX) => lindex_pleas(t, now),
        Some(Verb::LSET) => lset_pleas(t, now),
        Some(Verb::LREM) => lrem_pleas(t, now),
        Some(Verb::EXPIRE) => expire_pleas(t, now),
        Some(Verb::TTL) => ttl_pleas(t, now),
        Some(Verb::SUBSCRIBE) => subscribe_pleas(t),
        Some(Verb::PUBLISH) => publish_pleas(t),
        Some(Verb::MSET) => mset_pleas(t),
        Some(Verb::MGET) => mget_pleas(t, now),
        Some(Verb::SADD) => sadd_pleas(t, now),
        Some(Verb::SREM) => srem_pleas(t, now),
        Some(Verb::SISMEMBER) => sismember_pleas(t, now),
        Some(Verb::HGETALL) => hgetall_pleas(t, now),
        Some(Verb::SMEMBERS) => smembers_pleas(t, now),
        Some(Verb::UNSUBSCRIBE) => tell(Tidings::Unsubscribe { terms: t.skip(1) }),
        Some(Verb::CONFIG) => config_pleas(t),
        Some(Verb::QUIT) => answer(Response::Info(InfoType::Okay)),
        Some(Verb::COMMAND) => command_pleas(t),
        None => fail(Sacrilege::UnknownCommand),
    }
}

/// Two names equal up to ASCII case compare alike with any third.
proof fn lemma_same_name_alike(a: Seq<u8>, b: Seq<u8>, c: Seq<u8>)
    requires
        same_name(a, b),
    ensures
        same_name(a, c) == same_name(b, c),
{
    if same_name(a, c) {
        assert forall|i: int| 0 <= i < b.len() implies ascii_lower(b[i]) == ascii_lower(c[i]) by {
            assert(ascii_lower(a[i]) == ascii_lower(b[i]));
        }
    }
    if same_name(b, c) {
        assert forall|i: int| 0 <= i < a.len() implies ascii_lower(a[i]) == ascii_lower(c[i]) by {
            assert(ascii_lower(a[i]) == ascii_lower(b[i]));
        }
    }
}

/// Command names are matched without regard to ASCII case: two names that
/// differ only in the case of their letters name the same command.
pub proof fn law_names_ignore_case(a: Seq<u8>, b: Seq<u8>)
    requires
        same_name(a, b),
    ensures
        verb_of(a) == verb_of(b),
{
    lemma_same_name_alike(a, b, "SET".spec_bytes());
    lemma_same_name_alike(a, b, "GET".spec_bytes());
    lemma_same_name_alike(a, b, "PING".spec_bytes());
    lemma_same_name_alike(a, b, "DEL".spec_bytes());
    lemma_same_name_alike(a, b, "EXISTS".spec_bytes());
    lemma_same_name_alike(a, b, "INCRBY".spec_bytes());
    lemma_same_name_alike(a, b, "INCR".spec_bytes());
    lemma_same_name_alike(a, b, "DECR".spec_bytes());
    lemma_same_name_alike(a, b, "APPEND".spec_bytes());
    lemma_same_name_alike(a, b, "HSET".spec_bytes());
    lemma_same_name_alike(a, b, "HGET".spec_bytes());
    lemma_same_name_alike(a, b, "HMGET".spec_bytes());
    lemma_same_name_alike(a, b, "STRLEN".spec_bytes());
    lemma_same_name_alike(a, b, "HDEL".spec_bytes());
    lemma_same_name_alike(a, b, "HEXISTS".spec_bytes());
    lemma_same_name_alike(a, b, "HLEN".spec_bytes());
    lemma_same_name_alike(a, b, "LPUSH".spec_bytes());
    lemma_same_name_alike(a, b, "LPOP".spec_bytes());
    lemma_same_name_alike(a, b, "RPUSH".spec_bytes());
    lemma_same_name_alike(a, b, "RPOP".spec_bytes());
    lemma_same_name_alike(a, b, "LLEN".spec_bytes());
    lemma_same_name_alike(a, b, "LRANGE".spec_bytes());
    lemma_same_name_alike(a, b, "LINDEX".spec_bytes());
    lemma_same_name_alike(a, b, "LSET".spec_bytes());
    lemma_same_name_alike(a, b, "LREM".spec_bytes());
    lemma_same_name_alike(a, b, "EXPIRE".spec_bytes());
    lemma_same_name_alike(a, b, "TTL".spec_bytes());
    lemma_same_name_alike(a, b, "SUBSCRIBE".spec_bytes());
    lemma_same_name_alike(a, b, "PUBLISH".spec_bytes());
    lemma_same_name_alike(a, b, "MSET".spec_bytes());
    lemma_same_name_alike(a, b, "MGET".spec_bytes());
    lemma_same_name_alike(a, b, "SADD".spec_bytes());
    lemma_same_name_alike(a, b, "SREM".spec_bytes());
    lemma_same_name_alike(a, b, "SISMEMBER".spec_bytes());
    lemma_same_name_alike(a, b, "HGETALL".spec_bytes());
    lemma_same_name_alike(a, b, "SMEMBERS".spec_bytes());
    lemma_same_name_alike(a, b, "UNSUBSCRIBE".spec_bytes());
    lemma_same_name_alike(a, b, "CONFIG".spec_bytes());
    lemma_same_name_alike(a, b, "QUIT".spec_bytes());
    lemma_same_name_alike(a, b, "COMMAND".spec_bytes());
}

/// Whole requests are dispatched without regard to the ASCII case of the
/// command name: two requests whose names differ only in the case of
/// their letters, and whose arguments are the same, are answered alike.
pub proof fn law_requests_ignore_name_case(t1: Seq<Seq<u8>>, t2: Seq<Seq<u8>>, now: Moment)
    requires
        t1.len() > 0,
        t1.len() == t2.len(),
        same_name(t1[0], t2[0]),
        forall|i: int| 1 <= i < t1.len() ==> t1[i] == t2[i],
    ensures
        pleas(t1, now) == pleas(t2, now),
{
    law_names_ignore_case(t1[0], t2[0]);
    assert(t1.skip(1) =~= t2.skip(1));
    if t1.len() >= 2 {
        assert(t1[1] == t2[1]);
        assert(t1.skip(2) =~= t2.skip(2));
    }
    if t1.len() >= 3 {
        assert(t1[2] == t2[2]);
    }
    if t1.len() >= 4 {
        assert(t1[3] == t2[3]);
    }
    if t1.len() >= 5 {
        assert(t1[4] == t2[4]);
    }
}

/// Checks the arguments of GET.
fn grant_get(terms: Vec<Vec<u8>>, now: Moment) -> (r: Vec<Petition>)
    ensures
        petitions_view(r@) == get_pleas(bytes_seq(terms@), now),
{
    if terms.len() != 2 {
        return refuse(Sacrilege::IncorrectNumberOfArguments(Command::GET));
    }
    let key = terms[1].clone();
    consult(DatabaseCommand::Get { key, time: now.secs })
}

/// Checks the arguments of INCR.
fn grant_incr(terms: Vec<Vec<u8>>, now: Moment) -> (r: Vec<Petition>)
    ensures
        petitions_view(r@) == incr_pleas(bytes_seq(terms@), now),
{
    if terms.len() != 2 {
        return refuse(Sacrilege::IncorrectNumberOfArguments(Command::INCR));
    }
    let key = terms[1].clone();
    consult(DatabaseCommand::Incr { key, time: now.secs })
}

/// Checks the arguments of DECR.
fn grant_decr(terms: Vec<Vec<u8>>, now: Moment) -> (r: Vec<Petition>)
    ensures
        petitions_view(r@) == decr_pleas(bytes_seq(terms@), now),
{
    if terms.len() != 2 {
        return refuse(Sacrilege::IncorrectNumberOfArguments(Command::DECR));
    }
    let key = terms[1].clone();
    consult(DatabaseCommand::Decr { key, time: now.secs })
}

/// Checks the arguments of STRLEN.
fn grant_strlen(terms: Vec<Vec<u8>>, now: Moment) -> (r: Vec<Petition>)
    ensures
        petitions_view(r@) == strlen_pleas(bytes_seq(terms@), now),
{
    if terms.len() != 2 {
        return refuse(Sacrilege::IncorrectNumberOfArguments(Command::STRLEN));
    }
    let key = terms[1].clone();
    consult(DatabaseCommand::Strlen { key, time: now.secs })
}

/// Checks the arguments of HLEN.
fn grant_hlen(terms: Vec<Vec<u8>>, now: Moment) -> (r: Vec<Petition>)
    ensures
        petitions_view(r@) == hlen_pleas(bytes_seq(terms@), now),
{
    if terms.len() != 2 {
        return refuse(Sacrilege::IncorrectNumberOfArguments(Command::HLEN));
    }
    let key = terms[1].clone();
    consult(DatabaseCommand::Hlen { key, time: now.secs })
}

/// Checks the arguments of SMEMBERS.
fn grant_smembers(terms: Vec<Vec<u8>>, now: Moment) -> (r: Vec<Petition>)
    ensures
        petitions_view(r@) == smembers_pleas(bytes_seq(terms@), now),
{
    if terms.len() != 2 {
        return refuse(Sacrilege::IncorrectNumberOfArguments(Command::SMEMBERS));
    }
    let key = terms[1].clone();
    consult(DatabaseCommand::Smembers { key, time: now.secs })
}

/// Checks the arguments of HGETALL.
fn grant_hgetall(terms: Vec<Vec<u8>>, now: Moment) -> (r: Vec<Petition>)
    ensures
        petitions_view(r@) == hgetall_pleas(bytes_seq(terms@), now),
{
    if terms.len() != 2 {
        return refuse(Sacrilege::IncorrectNumberOfArguments(Command::HGETALL));
    }
    let key = terms[1].clone();
    consult(DatabaseCommand::Hgetall { key, time: now.secs })
}

/// Checks the arguments of HGET.
fn grant_hget(terms: Vec<Vec<u8>>, now: Moment) -> (r: Vec<Petition>)
    ensures
        petitions_view(r@) == hget_pleas(bytes_seq(terms@), now),
{
    if terms.len() != 3 {
        return refuse(Sacrilege::IncorrectNumberOfArguments(Command::HGET));
    }
    let key = terms[1].clone();
    let field = terms[2].clone();
    consult(DatabaseCommand::Hget { key, field, time: now.secs })
}

/// Checks the arguments of HEXISTS.
fn grant_hexists(terms: Vec<Vec<u8>>, now: Moment) -> (r: Vec<Petition>)
    ensures
        petitions_view(r@) == hexists_pleas(bytes_seq(terms@), now),
{
    if terms.len() != 3 {
        return refuse(Sacrilege::IncorrectNumberOfArguments(Command::HEXISTS));
    }
    let key = terms[1].clone();
    let field = terms[2].clone();
    consult(DatabaseCommand::Hexists { key, field, time: now.secs })
}

/// Checks the arguments of APPEND.
fn grant_append(terms: Vec<Vec<u8>>, now: Moment) -> (r: Vec<Petition>)
    ensures
        petitions_view(r@) == append_pleas(bytes_seq(terms@), now),
{
    if terms.len() != 3 {
        return refuse(Sacrilege::IncorrectNumberOfArguments(Command::APPEND));
    }
    let key = terms[1].clone();
    let value = terms[2].clone();
    consult(DatabaseCommand::Append { key, value, time: now.secs })
}

/// Checks the arguments of SISMEMBER.
fn grant_sismember(terms: Vec<Vec<u8>>, now: Moment) -> (r: Vec<Petition>)
    ensures
        petitions_view(r@) == sismember_pleas(bytes_seq(terms@), now),
{
    if terms.len() != 3 {
        return refuse(Sacrilege::IncorrectNumberOfArguments(Command::SISMEMBER));
    }
    let key = terms[1].clone();
    let value = terms[2].clone();
    consult(DatabaseCommand::Sismember { key, value, time: now.secs })
}

/// Checks the arguments of HMGET.
fn grant_hmget(terms: Vec<Vec<u8>>, now: Moment) -> (r: Vec<Petition>)
    ensures
        petitions_view(r@) == hmget_pleas(bytes_seq(terms@), now),
{
    if terms.len() < 3 {
        return refuse(Sacrilege::IncorrectNumberOfArguments(Command::HMGET));
    }
    let key = terms[1].clone();
    let fields = tail(terms, 2);
    consult(DatabaseCommand::Hmget { key, fields, time: now.secs })
}

/// Checks the arguments of HDEL.
fn grant_hdel(terms: Vec<Vec<u8>>, now: Moment) -> (r: Vec<Petition>)
    ensures
        petitions_view(r@) == hdel_pleas(bytes_seq(terms@), now),
{
    if terms.len() < 3 {
        return refuse(Sacrilege::IncorrectNumberOfArguments(Command::HDEL));
    }
    let key = terms[1].clone();
    let fields = tail(terms, 2);
    consult(DatabaseCommand::Hdel { key, fields, time: now.secs })
}

/// Checks the arguments of LPUSH.
fn grant_lpush(terms: Vec<Vec<u8>>, now: Moment) -> (r: Vec<Petition>)
    ensures
        petitions_view(r@) == lpush_pleas(bytes_seq(terms@), now),
{
    if terms.len() < 3 {
        return refuse(Sacrilege::IncorrectNumberOfArguments(Command::LPUSH));
    }
    let key = terms[1].clone();
    let elements = tail(terms, 2);
    consult(DatabaseCommand::Lpush { key, elements, time: now.secs })
}

/// Checks the arguments of RPUSH.
fn grant_rpush(terms: Vec<Vec<u8>>, now: Moment) -> (r: Vec<Petition>)
    ensures
        petitions_view(r@) == rpush_pleas(bytes_seq(terms@), now),
{
    if terms.len() < 3 {
        return refuse(Sacrilege::IncorrectNumberOfArguments(Command::RPUSH));
    }
    let key = terms[1].clone();
    let elements = tail(terms, 2);
    consult(DatabaseCommand::Rpush { key, elements, time: now.secs })
}

/// Checks the arguments of SADD.
fn grant_sadd(terms: Vec<Vec<u8>>, now: Moment) -> (r: Vec<Petition>)
    ensures
        petitions_view(r@) == sadd_pleas(bytes_seq(terms@), now),
{
    if terms.len() < 3 {
        return refuse(Sacrilege::IncorrectNumberOfArguments(Command::SADD));
    }
    let key = terms[1].clone();
    let values = tail(terms, 2);
    consult(DatabaseCommand::Sadd { key, values, time: now.secs })
}

/// Checks the arguments of SREM.
fn grant_srem(terms: Vec<Vec<u8>>, now: Moment) -> (r: Vec<Petition>)
    ensures
        petitions_view(r@) == srem_pleas(bytes_seq(terms@), now),
{
    if terms.len() < 3 {
        return refuse(Sacrilege::IncorrectNumberOfArguments(Command::SREM));
    }
    let key = terms[1].clone();
    let values = tail(terms, 2);
    consult(DatabaseCommand::Srem { key, values, time: now.secs })
}

/// Checks the arguments of DEL.
fn grant_del(terms: Vec<Vec<u8>>, now: Moment) -> (r: Vec<Petition>)
    ensures
        petitions_view(r@) == del_pleas(bytes_seq(terms@), now),
{
    if terms.len() < 2 {
        return refuse(Sacrilege::IncorrectNumberOfArguments(Command::DEL));
    }
    let keys = tail(terms, 1);
    consult(DatabaseCommand::Del { keys, time: now.secs })
}

/// Checks the arguments of EXISTS.
fn grant_exists(terms: Vec<Vec<u8>>, now: Moment) -> (r: Vec<Petition>)
    ensures
        petitions_view(r@) == exists_pleas(bytes_seq(terms@), now),
{
    if terms.len() < 2 {
        return refuse(Sacrilege::IncorrectNumberOfArguments(Command::EXISTS));
    }
    let keys = tail(terms, 1);
    consult(DatabaseCommand::Exists { keys, time: now.secs })
}

/// Checks the arguments of MGET.
fn grant_mget(terms: Vec<Vec<u8>>, now: Moment) -> (r: Vec<Petition>)
    ensures
        petitions_view(r@) == mget_pleas(bytes_seq(terms@), now),
{
    if terms.len() < 2 {
        return refuse(Sacrilege::IncorrectNumberOfArguments(Command::MGET));
    }
    let terms = tail(terms, 1);
    consult(DatabaseCommand::Mget { terms, time: now.secs })
}
/// Checks the arguments of SET.
fn grant_set(terms: Vec<Vec<u8>>, now: Moment) -> (r: Vec<Petition>)
    ensures
        petitions_view(r@) == set_pleas(bytes_seq(terms@), now),
{
    let ghost t = bytes_seq(terms@);
    if terms.len() > 5 || terms.len() < 3 {
        return refuse(Sacrilege::IncorrectNumberOfArguments(Command::SET));
    }
    let key = terms[1].clone();
    let value = terms[2].clone();
    if terms.len() == 3 {
        return consult(DatabaseCommand::Assign { key, value: (Value::String(value), None) });
    }
    assert(t[3] == terms@[3]@);
    if !names_match(terms[3].as_slice(), "EX".as_bytes()) {
        return refuse(Sacrilege::IncorrectNumberOfArguments(Command::SET));
    }
    if terms.len() == 4 {
        return refuse(Sacrilege::IncorrectUsage(Command::SET));
    }
    assert(t[4] == terms@[4]@);
    match bytes_to_u64(terms[4].as_slice()) {
        Ok(seconds) => match now.secs.checked_add(seconds) {
            Some(expiry) => consult(
                DatabaseCommand::Assign { key, value: (Value::String(value), Some(expiry)) },
            ),
            None => refuse(Sacrilege::IncorrectUsage(Command::SET)),
        },
        Err(_) => refuse(Sacrilege::IncorrectUsage(Command::SET)),
    }
}

/// Checks the arguments of PING.
fn grant_ping(terms: Vec<Vec<u8>>) -> (r: Vec<Petition>)
    ensures
        petitions_view(r@) == ping_pleas(bytes_seq(terms@)),
{
    let mut r: Vec<Petition> = Vec::new();
    if terms.len() != 1 {
        r.push(Petition::Answer(Response::Error(Sacrilege::IncorrectNumberOfArguments(Command::PING))));
    }
    r.push(Petition::Answer(Response::Info(InfoType::Pong)));
    proof {
        assert(petitions_view(r@) =~= ping_pleas(bytes_seq(terms@)));
    }
    r
}

/// Checks the arguments of COMMAND.
fn grant_command(terms: Vec<Vec<u8>>) -> (r: Vec<Petition>)
    ensures
        petitions_view(r@) == command_pleas(bytes_seq(terms@)),
{
    let mut r: Vec<Petition> = Vec::new();
    if terms.len() != 1 {
        r.push(
            Petition::Answer(Response::Error(Sacrilege::IncorrectNumberOfArguments(Command::COMMAND))),
        );
    }
    r.push(Petition::Answer(Response::Info(InfoType::Command)));
    proof {
        assert(petitions_view(r@) =~= command_pleas(bytes_seq(terms@)));
    }
    r
}

/// Checks the arguments of INCRBY.
fn grant_incrby(terms: Vec<Vec<u8>>, now: Moment) -> (r: Vec<Petition>)
    ensures
        petitions_view(r@) == incrby_pleas(bytes_seq(terms@), now),
{
    if terms.len() != 3 {
        return refuse(Sacrilege::IncorrectNumberOfArguments(Command::INCRBY));
    }
    let key = terms[1].clone();
    match bytes_to_i64(terms[2].as_slice()) {
        Ok(number) => consult(DatabaseCommand::Incrby { key, number, time: now.secs }),
        Err(_) => refuse(Sacrilege::IncorrectUsage(Command::INCRBY)),
    }
}

/// Checks the arguments of HSET.
fn grant_hset(terms: Vec<Vec<u8>>, now: Moment) -> (r: Vec<Petition>)
    ensures
        petitions_view(r@) == hset_pleas(bytes_seq(terms@), now),
{
    let ghost t = bytes_seq(terms@);
    if terms.len() < 4 || terms.len() % 2 == 1 {
        return refuse(Sacrilege::IncorrectNumberOfArguments(Command::HSET));
    }
    let key = terms[1].clone();
    let ghost rest = t.skip(2);
    let mut field_value_pairs: Vec<(Vec<u8>, Vec<u8>)> = Vec::new();
    let mut j: usize = 0;
    while j < (terms.len() - 2) / 2
        invariant
            4 <= terms@.len(),
            terms@.len() % 2 == 0,
            t == bytes_seq(terms@),
            rest == t.skip(2),
            j <= (terms@.len() - 2) / 2,
            field_value_pairs@.len() == j,
            forall|k: int|
                0 <= k < j ==> (#[trigger] field_value_pairs@[k]).0@ == rest[2 * k]
                    && field_value_pairs@[k].1@ == rest[2 * k + 1],
        decreases (terms@.len() - 2) / 2 - j,
    {
        let field = terms[2 + 2 * j].clone();
        let value = terms[3 + 2 * j].clone();
        field_value_pairs.push((field, value));
        j = j + 1;
    }
    proof {
        assert(crate::temple::soul::pairs_view(field_value_pairs@) =~= pairs_of(rest));
    }
    consult(DatabaseCommand::Hset { key, field_value_pairs, time: now.secs })
}

/// Checks the arguments of LPOP (`left`) or RPOP.
fn grant_pop(terms: Vec<Vec<u8>>, now: Moment, left: bool) -> (r: Vec<Petition>)
    ensures
        petitions_view(r@) == pop_pleas(bytes_seq(terms@), now, left),
{
    let c = if left { Command::LPOP } else { Command::RPOP };
    if terms.len() > 3 || terms.len() < 2 {
        return refuse(Sacrilege::IncorrectNumberOfArguments(c));
    }
    let key = terms[1].clone();
    if terms.len() == 2 {
        if left {
            return consult(DatabaseCommand::Lpop { key, time: now.secs });
        } else {
            return consult(DatabaseCommand::Rpop { key, time: now.secs });
        }
    }
    match bytes_to_usize(terms[2].as_slice()) {
        Ok(count) => if left {
            consult(DatabaseCommand::LpopM { key, count, time: now.secs })
        } else {
            consult(DatabaseCommand::RpopM { key, count, time: now.secs })
        },
        Err(_) => refuse(Sacrilege::IncorrectUsage(c)),
    }
}

/// Checks the arguments of LLEN.
fn grant_llen(terms: Vec<Vec<u8>>, now: Moment) -> (r: Vec<Petition>)
    ensures
        petitions_view(r@) == llen_pleas(bytes_seq(terms@), now),
{
    let mut r: Vec<Petition> = Vec::new();
    if terms.len() != 2 {
        r.push(Petition::Answer(Response::Error(Sacrilege::IncorrectNumberOfArguments(Command::LLEN))));
    }
    if terms.len() >= 2 {
        let key = terms[1].clone();
        r.push(Petition::Consult(ClientCommandType::Database(DatabaseCommand::Llen { key, time: now.secs })));
    } else {
        r.push(Petition::Answer(Response::Error(Sacrilege::IncorrectNumberOfArguments(Command::LLEN))));
    }
    proof {
        assert(petitions_view(r@) =~= llen_pleas(bytes_seq(terms@), now));
    }
    r
}

/// Checks the arguments of LINDEX.
fn grant_lindex(terms: Vec<Vec<u8>>, now: Moment) -> (r: Vec<Petition>)
    ensures
        petitions_view(r@) == lindex_pleas(bytes_seq(terms@), now),
{
    let mut r: Vec<Petition> = Vec::new();
    if terms.len() != 3 {
        r.push(
            Petition::Answer(Response::Error(Sacrilege::IncorrectNumberOfArguments(Command::LINDEX))),
        );
    }
    if terms.len() >= 3 {
        let key = terms[1].clone();
        match bytes_to_i32(terms[2].as_slice()) {
            Ok(index) => {
                r.push(
                    Petition::Consult(
                        ClientCommandType::Database(DatabaseCommand::Lindex { key, index, time: now.secs }),
                    ),
                );
            },
            Err(_) => {
                r.push(Petition::Answer(Response::Error(Sacrilege::IncorrectUsage(Command::LINDEX))));
            },
        }
    } else {
        r.push(
            Petition::Answer(Response::Error(Sacrilege::IncorrectNumberOfArguments(Command::LINDEX))),
        );
    }
    proof {
        assert(petitions_view(r@) =~= lindex_pleas(bytes_seq(terms@), now));
    }
    r
}

/// Checks the arguments of LRANGE.
fn grant_lrange(terms: Vec<Vec<u8>>, now: Moment) -> (r: Vec<Petition>)
    ensures
        petitions_view(r@) == lrange_pleas(bytes_seq(terms@), now),
{
    if terms.len() != 4 {
        return refuse(Sacrilege::IncorrectNumberOfArguments(Command::LRANGE));
    }
    let key = terms[1].clone();
    match (bytes_to_i32(terms[2].as_slice()), bytes_to_i32(terms[3].as_slice())) {
        (Ok(starting_index), Ok(ending_index)) => consult(
            DatabaseCommand::Lrange { key, starting_index, ending_index, time: now.secs },
        ),
        _ => refuse(Sacrilege::IncorrectUsage(Command::LRANGE)),
    }
}

/// Checks the arguments of LSET.
fn grant_lset(terms: Vec<Vec<u8>>, now: Moment) -> (r: Vec<Petition>)
    ensures
        petitions_view(r@) == lset_pleas(bytes_seq(terms@), now),
{
    if terms.len() != 4 {
        return refuse(Sacrilege::IncorrectNumberOfArguments(Command::LSET));
    }
    let key = terms[1].clone();
    let element = terms[3].clone();
    match bytes_to_i32(terms[2].as_slice()) {
        Ok(index) => consult(DatabaseCommand::Lset { key, index, element, time: now.secs }),
        Err(_) => refuse(Sacrilege::IncorrectUsage(Command::LSET)),
    }
}

/// Checks the arguments of LREM.
fn grant_lrem(terms: Vec<Vec<u8>>, now: Moment) -> (r: Vec<Petition>)
    ensures
        petitions_view(r@) == lrem_pleas(bytes_seq(terms@), now),
{
    if terms.len() != 4 {
        return refuse(Sacrilege::IncorrectNumberOfArguments(Command::LREM));
    }
    let key = terms[1].clone();
    let element = terms[3].clone();
    match bytes_to_i32(terms[2].as_slice()) {
        Ok(count) => consult(DatabaseCommand::Lrem { key, count, element, time: now.secs }),
        Err(_) => refuse(Sacrilege::IncorrectUsage(Command::LREM)),
    }
}

/// Checks the arguments of EXPIRE.
fn grant_expire(terms: Vec<Vec<u8>>, now: Moment) -> (r: Vec<Petition>)
    ensures
        petitions_view(r@) == expire_pleas(bytes_seq(terms@), now),
{
    if terms.len() != 3 {
        return refuse(Sacrilege::IncorrectNumberOfArguments(Command::EXPIRE));
    }
    let key = terms[1].clone();
    match bytes_to_u64(terms[2].as_slice()) {
        Ok(seconds) => match now.secs.checked_add(seconds) {
            Some(expiry) => consult(DatabaseCommand::Expire { key, expiry, time: now.secs }),
            None => refuse(Sacrilege::IncorrectUsage(Command::EXPIRE)),
        },
        Err(_) => refuse(Sacrilege::IncorrectUsage(Command::EXPIRE)),
    }
}

/// Checks the arguments of TTL.
fn grant_ttl(terms: Vec<Vec<u8>>, now: Moment) -> (r: Vec<Petition>)
    ensures
        petitions_view(r@) == ttl_pleas(bytes_seq(terms@), now),
{
    if terms.len() != 2 {
        return refuse(Sacrilege::IncorrectNumberOfArguments(Command::TTL));
    }
    let key = terms[1].clone();
    consult(DatabaseCommand::Ttl { key, time: now })
}

/// Checks the arguments of SUBSCRIBE.
fn grant_subscribe(terms: Vec<Vec<u8>>) -> (r: Vec<Petition>)
    ensures
        petitions_view(r@) == subscribe_pleas(bytes_seq(terms@)),
{
    if terms.len() < 2 {
        return refuse(Sacrilege::IncorrectNumberOfArguments(Command::SUBSCRIBE));
    }
    let events = tail(terms, 1);
    announce(BroadcastCommand::Subscribe { events })
}

/// Checks the arguments of PUBLISH.
fn grant_publish(terms: Vec<Vec<u8>>) -> (r: Vec<Petition>)
    ensures
        petitions_view(r@) == publish_pleas(bytes_seq(terms@)),
{
    if terms.len() != 3 {
        return refuse(Sacrilege::IncorrectNumberOfArguments(Command::PUBLISH));
    }
    let event = terms[1].clone();
    let message = terms[2].clone();
    announce(BroadcastCommand::Publish { event, message })
}

/// UNSUBSCRIBE takes any number of channels.
fn grant_unsubscribe(terms: Vec<Vec<u8>>) -> (r: Vec<Petition>)
    requires
        terms@.len() >= 1,
    ensures
        petitions_view(r@) == tell(Tidings::Unsubscribe { terms: bytes_seq(terms@).skip(1) }),
{
    let rest = tail(terms, 1);
    announce(BroadcastCommand::Unsubscribe { terms: rest })
}

/// Checks the arguments of MSET.
fn grant_mset(terms: Vec<Vec<u8>>) -> (r: Vec<Petition>)
    ensures
        petitions_view(r@) == mset_pleas(bytes_seq(terms@)),
{
    if terms.len() < 3 || terms.len() % 2 == 0 {
        return refuse(Sacrilege::IncorrectNumberOfArguments(Command::MSET));
    }
    let rest = tail(terms, 1);
    consult(DatabaseCommand::Mset { terms: rest })
}

/// Checks the arguments of CONFIG.
fn grant_config(terms: Vec<Vec<u8>>) -> (r: Vec<Petition>)
    ensures
        petitions_view(r@) == config_pleas(bytes_seq(terms@)),
{
    let ghost t = bytes_seq(terms@);
    if terms.len() < 3 {
        return refuse(Sacrilege::IncorrectNumberOfArguments(Command::CONFIG));
    }
    assert(t[1] == terms@[1]@);
    if !names_match(terms[1].as_slice(), "GET".as_bytes()) {
        return refuse(Sacrilege::IncorrectUsage(Command::CONFIG));
    }
    let properties = tail(terms, 2);
    consult(DatabaseCommand::ConfigGet { properties })
}

/// Checks a request's command name and arguments and says what it asks
/// for: replies that need nothing from the keyspace, and work for the
/// keyspace's thread (see `pleas`).
pub fn grant(terms: Vec<Vec<u8>>, now: Moment) -> (r: Vec<Petition>)
    requires
        terms@.len() >= 1,
    ensures
        petitions_view(r@) == pleas(bytes_seq(terms@), now),
{
    let ghost t = bytes_seq(terms@);
    assert(t[0] == terms@[0]@);
    let name = terms[0].as_slice();
    if names_match(name, "SET".as_bytes()) {
        grant_set(terms, now)
    } else if names_match(name, "GET".as_bytes()) {
        grant_get(terms, now)
    } else if names_match(name, "PING".as_bytes()) {
        grant_ping(terms)
    } else if names_match(name, "DEL".as_bytes()) {
        grant_del(terms, now)
    } else if names_match(name, "EXISTS".as_bytes()) {
        grant_exists(terms, now)
    } else if names_match(name, "INCRBY".as_bytes()) {
        grant_incrby(terms, now)
    } else if names_match(name, "INCR".as_bytes()) {
        grant_incr(terms, now)
    } else if names_match(name, "DECR".as_bytes()) {
        grant_decr(terms, now)
    } else if names_match(name, "APPEND".as_bytes()) {
        grant_append(terms, now)
    } else if names_match(name, "HSET".as_bytes()) {
        grant_hset(terms, now)
    } else if names_match(name, "HGET".as_bytes()) {
        grant_hget(terms, now)
    } else if names_match(name, "HMGET".as_bytes()) {
        grant_hmget(terms, now)
    } else if names_match(name, "STRLEN".as_bytes()) {
        grant_strlen(terms, now)
    } else if names_match(name, "HDEL".as_bytes()) {
        grant_hdel(terms, now)
    } else if names_match(name, "HEXISTS".as_bytes()) {
        grant_hexists(terms, now)
    } else if names_match(name, "HLEN".as_bytes()) {
        grant_hlen(terms, now)
    } else if names_match(name, "LPUSH".as_bytes()) {
        grant_lpush(terms, now)
    } else if names_match(name, "LPOP".as_bytes()) {
        grant_pop(terms, now, true)
    } else if names_match(name, "RPUSH".as_bytes()) {
        grant_rpush(terms, now)
    } else if names_match(name, "RPOP".as_bytes()) {
        grant_pop(terms, now, false)
    } else if names_match(name, "LLEN".as_bytes()) {
        grant_llen(terms, now)
    } else if names_match(name, "LRANGE".as_bytes()) {
        grant_lrange(terms, now)
    } else if names_match(name, "LINDEX".as_bytes()) {
        grant_lindex(terms, now)
    } else if names_match(name, "LSET".as_bytes()) {
        grant_lset(terms, now)
    } else if names_match(name, "LREM".as_bytes()) {
        grant_lrem(terms, now)
    } else if names_match(name, "EXPIRE".as_bytes()) {
        grant_expire(terms, now)
    } else if names_match(name, "TTL".as_bytes()) {
        grant_ttl(terms, now)
    } else if names_match(name, "SUBSCRIBE".as_bytes()) {
        grant_subscribe(terms)
    } else if names_match(name, "PUBLISH".as_bytes()) {
        grant_publish(terms)
    } else if names_match(name, "MSET".as_bytes()) {
        grant_mset(terms)
    } else if names_match(name, "MGET".as_bytes()) {
        grant_mget(terms, now)
    } else if names_match(name, "SADD".as_bytes()) {
        grant_sadd(terms, now)
    } else if names_match(name, "SREM".as_bytes()) {
        grant_srem(terms, now)
    } else if names_match(name, "SISMEMBER".as_bytes()) {
        grant_sismember(terms, now)
    } else if names_match(name, "HGETALL".as_bytes()) {
        grant_hgetall(terms, now)
    } else if names_match(name, "SMEMBERS".as_bytes()) {
        grant_smembers(terms, now)
    } else if names_match(name, "UNSUBSCRIBE".as_bytes()) {
        grant_unsubscribe(terms)
    } else if names_match(name, "CONFIG".as_bytes()) {
        grant_config(terms)
    } else if names_match(name, "QUIT".as_bytes()) {
        reply(Response::Info(InfoType::Okay))
    } else if names_match(name, "COMMAND".as_bytes()) {
        grant_command(terms)
    } else {
        refuse(Sacrilege::UnknownCommand)
    }
}

/// PING, QUIT and COMMAND are answered without the keyspace's thread, so a
/// client in subscriber-only mode gets their replies too.
pub proof fn law_answered_without_the_keyspace(t: Seq<Seq<u8>>, now: Moment)
    requires
        t.len() >= 1,
        verb_of(t[0]) == Some(Verb::PING) || verb_of(t[0]) == Some(Verb::QUIT) || verb_of(t[0])
            == Some(Verb::COMMAND),
    ensures
        forall|i: int| 0 <= i < pleas(t, now).len() ==> #[trigger] pleas(t, now)[i] is Answer,
{
}

/// A name that is SET up to ASCII case names SET.
proof fn lemma_names_set(a: Seq<u8>)
    requires
        same_name(a, "SET".spec_bytes()),
    ensures
        verb_of(a) == Some(Verb::SET),
{
    law_names_ignore_case(a, "SET".spec_bytes());
    reveal_strlit("SET");
    vstd::string::is_ascii_spec_bytes("SET");
    let n = "SET".spec_bytes();
    assert(n.len() == 3);
}

/// A name that is INCR up to ASCII case names INCR.
proof fn lemma_names_incr(a: Seq<u8>)
    requires
        same_name(a, "INCR".spec_bytes()),
    ensures
        verb_of(a) == Some(Verb::INCR),
{
    law_names_ignore_case(a, "INCR".spec_bytes());
    reveal_strlit("SET");
    vstd::string::is_ascii_spec_bytes("SET");
    reveal_strlit("GET");
    vstd::string::is_ascii_spec_bytes("GET");
    reveal_strlit("PING");
    vstd::string::is_ascii_spec_bytes("PING");
    reveal_strlit("DEL");
    vstd::string::is_ascii_spec_bytes("DEL");
    reveal_strlit("EXISTS");
    vstd::string::is_ascii_spec_bytes("EXISTS");
    reveal_strlit("INCRBY");
    vstd::string::is_ascii_spec_bytes("INCRBY");
    reveal_strlit("INCR");
    vstd::string::is_ascii_spec_bytes("INCR");
    let n = "INCR".spec_bytes();
    assert(n.len() == 4);
    assert(ascii_lower(n[0]) != ascii_lower("PING".spec_bytes()[0]));
}

/// A name that is DECR up to ASCII case names DECR.
proof fn lemma_names_decr(a: Seq<u8>)
    requires
        same_name(a, "DECR".spec_bytes()),
    ensures
        verb_of(a) == Some(Verb::DECR),
{
    law_names_ignore_case(a, "DECR".spec_bytes());
    reveal_strlit("SET");
    vstd::string::is_ascii_spec_bytes("SET");
    reveal_strlit("GET");
    vstd::string::is_ascii_spec_bytes("GET");
    reveal_strlit("PING");
    vstd::string::is_ascii_spec_bytes("PING");
    reveal_strlit("DEL");
    vstd::string::is_ascii_spec_bytes("DEL");
    reveal_strlit("EXISTS");
    vstd::string::is_ascii_spec_bytes("EXISTS");
    reveal_strlit("INCRBY");
    vstd::string::is_ascii_spec_bytes("INCRBY");
    reveal_strlit("INCR");
    vstd::string::is_ascii_spec_bytes("INCR");
    reveal_strlit("DECR");
    vstd::string::is_ascii_spec_bytes("DECR");
    let n = "DECR".spec_bytes();
    assert(n.len() == 4);
    assert(ascii_lower(n[0]) != ascii_lower("PING".spec_bytes()[0]));
    assert(ascii_lower(n[0]) != ascii_lower("INCR".spec_bytes()[0]));
}

/// A name that is INCRBY up to ASCII case names INCRBY.
proof fn lemma_names_incrby(a: Seq<u8>)
    requires
        same_name(a, "INCRBY".spec_bytes()),
    ensures
        verb_of(a) == Some(Verb::INCRBY),
{
    law_names_ignore_case(a, "INCRBY".spec_bytes());
    reveal_strlit("SET");
    vstd::string::is_ascii_spec_bytes("SET");
    reveal_strlit("GET");
    vstd::string::is_ascii_spec_bytes("GET");
    reveal_strlit("PING");
    vstd::string::is_ascii_spec_bytes("PING");
    reveal_strlit("DEL");
    vstd::string::is_ascii_spec_bytes("DEL");
    reveal_strlit("EXISTS");
    vstd::string::is_ascii_spec_bytes("EXISTS");
    reveal_strlit("INCRBY");
    vstd::string::is_ascii_spec_bytes("INCRBY");
    let n = "INCRBY".spec_bytes();
    assert(n.len() == 6);
    assert(ascii_lower(n[0]) != ascii_lower("EXISTS".spec_bytes()[0]));
}

/// A name that is EXPIRE up to ASCII case names EXPIRE.
proof fn lemma_names_expire(a: Seq<u8>)
    requires
        same_name(a, "EXPIRE".spec_bytes()),
    ensures
        verb_of(a) == Some(Verb::EXPIRE),
{
    law_names_ignore_case(a, "EXPIRE".spec_bytes());
    reveal_strlit("SET");
    vstd::string::is_ascii_spec_bytes("SET");
    reveal_strlit("GET");
    vstd::string::is_ascii_spec_bytes("GET");
    reveal_strlit("PING");
    vstd::string::is_ascii_spec_bytes("PING");
    reveal_strlit("DEL");
    vstd::string::is_ascii_spec_bytes("DEL");
    reveal_strlit("EXISTS");
    vstd::string::is_ascii_spec_bytes("EXISTS");
    reveal_strlit("INCRBY");
    vstd::string::is_ascii_spec_bytes("INCRBY");
    reveal_strlit("INCR");
    vstd::string::is_ascii_spec_bytes("INCR");
    reveal_strlit("DECR");
    vstd::string::is_ascii_spec_bytes("DECR");
    reveal_strlit("APPEND");
    vstd::string::is_ascii_spec_bytes("APPEND");
    reveal_strlit("HSET");
    vstd::string::is_ascii_spec_bytes("HSET");
    reveal_strlit("HGET");
    vstd::string::is_ascii_spec_bytes("HGET");
    reveal_strlit("HMGET");
    vstd::string::is_ascii_spec_bytes("HMGET");
    reveal_strlit("STRLEN");
    vstd::string::is_ascii_spec_bytes("STRLEN");
    reveal_strlit("HDEL");
    vstd::string::is_ascii_spec_bytes("HDEL");
    reveal_strlit("HEXISTS");
    vstd::string::is_ascii_spec_bytes("HEXISTS");
    reveal_strlit("HLEN");
    vstd::string::is_ascii_spec_bytes("HLEN");
    reveal_strlit("LPUSH");
    vstd::string::is_ascii_spec_bytes("LPUSH");
    reveal_strlit("LPOP");
    vstd::string::is_ascii_spec_bytes("LPOP");
    reveal_strlit("RPUSH");
    vstd::string::is_ascii_spec_bytes("RPUSH");
    reveal_strlit("RPOP");
    vstd::string::is_ascii_spec_bytes("RPOP");
    reveal_strlit("LLEN");
    vstd::string::is_ascii_spec_bytes("LLEN");
    reveal_strlit("LRANGE");
    vstd::string::is_ascii_spec_bytes("LRANGE");
    reveal_strlit("LINDEX");
    vstd::string::is_ascii_spec_bytes("LINDEX");
    reveal_strlit("LSET");
    vstd::string::is_ascii_spec_bytes("LSET");
    reveal_strlit("LREM");
    vstd::string::is_ascii_spec_bytes("LREM");
    reveal_strlit("EXPIRE");
    vstd::string::is_ascii_spec_bytes("EXPIRE");
    let n = "EXPIRE".spec_bytes();
    assert(n.len() == 6);
    assert(ascii_lower(n[2]) != ascii_lower("EXISTS".spec_bytes()[2]));
    assert(ascii_lower(n[0]) != ascii_lower("INCRBY".spec_bytes()[0]));
    assert(ascii_lower(n[0]) != ascii_lower("APPEND".spec_bytes()[0]));
    assert(ascii_lower(n[0]) != ascii_lower("STRLEN".spec_bytes()[0]));
    assert(ascii_lower(n[0]) != ascii_lower("LRANGE".spec_bytes()[0]));
    assert(ascii_lower(n[0]) != ascii_lower("LINDEX".spec_bytes()[0]));
}

/// A name that is TTL up to ASCII case names TTL.
proof fn lemma_names_ttl(a: Seq<u8>)
    requires
        same_name(a, "TTL".spec_bytes()),
    ensures
        verb_of(a) == Some(Verb::TTL),
{
    law_names_ignore_case(a, "TTL".spec_bytes());
    reveal_strlit("SET");
    vstd::string::is_ascii_spec_bytes("SET");
    reveal_strlit("GET");
    vstd::string::is_ascii_spec_bytes("GET");
    reveal_strlit("PING");
    vstd::string::is_ascii_spec_bytes("PING");
    reveal_strlit("DEL");
    vstd::string::is_ascii_spec_bytes("DEL");
    reveal_strlit("EXISTS");
    vstd::string::is_ascii_spec_bytes("EXISTS");
    reveal_strlit("INCRBY");
    vstd::string::is_ascii_spec_bytes("INCRBY");
    reveal_strlit("INCR");
    vstd::string::is_ascii_spec_bytes("INCR");
    reveal_strlit("DECR");
    vstd::string::is_ascii_spec_bytes("DECR");
    reveal_strlit("APPEND");
    vstd::string::is_ascii_spec_bytes("APPEND");
    reveal_strlit("HSET");
    vstd::string::is_ascii_spec_bytes("HSET");
    reveal_strlit("HGET");
    vstd::string::is_ascii_spec_bytes("HGET");
    reveal_strlit("HMGET");
    vstd::string::is_ascii_spec_bytes("HMGET");
    reveal_strlit("STRLEN");
    vstd::string::is_ascii_spec_bytes("STRLEN");
    reveal_strlit("HDEL");
    vstd::string::is_ascii_spec_bytes("HDEL");
    reveal_strlit("HEXISTS");
    vstd::string::is_ascii_spec_bytes("HEXISTS");
    reveal_strlit("HLEN");
    vstd::string::is_ascii_spec_bytes("HLEN");
    reveal_strlit("LPUSH");
    vstd::string::is_ascii_spec_bytes("LPUSH");
    reveal_strlit("LPOP");
    vstd::string::is_ascii_spec_bytes("LPOP");
    reveal_strlit("RPUSH");
    vstd::string::is_ascii_spec_bytes("RPUSH");
    reveal_strlit("RPOP");
    vstd::string::is_ascii_spec_bytes("RPOP");
    reveal_strlit("LLEN");
    vstd::string::is_ascii_spec_bytes("LLEN");
    reveal_strlit("LRANGE");
    vstd::string::is_ascii_spec_bytes("LRANGE");
    reveal_strlit("LINDEX");
    vstd::string::is_ascii_spec_bytes("LINDEX");
    reveal_strlit("LSET");
    vstd::string::is_ascii_spec_bytes("LSET");
    reveal_strlit("LREM");
    vstd::string::is_ascii_spec_bytes("LREM");
    reveal_strlit("EXPIRE");
    vstd::string::is_ascii_spec_bytes("EXPIRE");
    reveal_strlit("TTL");
    vstd::string::is_ascii_spec_bytes("TTL");
    let n = "TTL".spec_bytes();
    assert(n.len() == 3);
    assert(ascii_lower(n[0]) != ascii_lower("SET".spec_bytes()[0]));
    assert(ascii_lower(n[0]) != ascii_lower("GET".spec_bytes()[0]));
    assert(ascii_lower(n[0]) != ascii_lower("DEL".spec_bytes()[0]));
}

/// INCRBY asks the keyspace to add exactly the increment written in the
/// request, a signed decimal numeral, to the key named.
pub proof fn law_incrby_adds_the_increment(t: Seq<Seq<u8>>, now: Moment, v: int)
    requires
        t.len() == 3,
        same_name(t[0], "INCRBY".spec_bytes()),
        signed_numeral(t[2], i64::MAX as nat) == Some(v),
    ensures
        pleas(t, now) == seq![Plea::Consult(Ask::Database(Query::Incrby { key: t[1], number: v as i64, time: now.secs }))],
        i64::MIN <= v <= i64::MAX,
{
    lemma_names_incrby(t[0]);
    assert(pleas(t, now) =~= seq![Plea::Consult(Ask::Database(Query::Incrby { key: t[1], number: v as i64, time: now.secs }))]);
}

/// EXPIRE asks the keyspace to set the key's expiry time to the current
/// time plus the seconds written in the request, as SET ... EX does.
pub proof fn law_expire_counts_from_now(t: Seq<Seq<u8>>, now: Moment, e: nat)
    requires
        t.len() == 3,
        same_name(t[0], "EXPIRE".spec_bytes()),
        unsigned_numeral(t[2], u64::MAX as nat) == Some(e),
        now.secs + e <= u64::MAX,
    ensures
        pleas(t, now) == seq![Plea::Consult(Ask::Database(Query::Expire { key: t[1], expiry: (e + now.secs) as u64, time: now.secs }))],
{
    lemma_names_expire(t[0]);
    assert(pleas(t, now) =~= seq![Plea::Consult(Ask::Database(Query::Expire { key: t[1], expiry: (e + now.secs) as u64, time: now.secs }))]);
}

/// TTL asks the keyspace about the key named, at the current moment.
pub proof fn law_ttl_asks_now(t: Seq<Seq<u8>>, now: Moment)
    requires
        t.len() == 2,
        same_name(t[0], "TTL".spec_bytes()),
    ensures
        pleas(t, now) == seq![Plea::Consult(Ask::Database(Query::Ttl { key: t[1], time: now }))],
{
    lemma_names_ttl(t[0]);
    assert(pleas(t, now) =~= seq![Plea::Consult(Ask::Database(Query::Ttl { key: t[1], time: now }))]);
}

/// INCR and DECR ask the keyspace to step the key named, up and down
/// respectively.
pub proof fn law_incr_decr_step_the_key(t: Seq<Seq<u8>>, now: Moment)
    requires
        t.len() == 2,
    ensures
        same_name(t[0], "INCR".spec_bytes()) ==> pleas(t, now) == seq![Plea::Consult(Ask::Database(Query::Incr { key: t[1], time: now.secs }))],
        same_name(t[0], "DECR".spec_bytes()) ==> pleas(t, now) == seq![Plea::Consult(Ask::Database(Query::Decr { key: t[1], time: now.secs }))],
{
    if same_name(t[0], "INCR".spec_bytes()) {
        lemma_names_incr(t[0]);
        assert(pleas(t, now) =~= seq![Plea::Consult(Ask::Database(Query::Incr { key: t[1], time: now.secs }))]);
    }
    if same_name(t[0], "DECR".spec_bytes()) {
        lemma_names_decr(t[0]);
        assert(pleas(t, now) =~= seq![Plea::Consult(Ask::Database(Query::Decr { key: t[1], time: now.secs }))]);
    }
}

/// SET k v stores v without an expiry time; SET k v EX s (EX in any case)
/// stores it to expire `s` seconds after the moment of the request.
pub proof fn law_set_expiry_counts_from_now(t: Seq<Seq<u8>>, now: Moment, e: nat)
    requires
        same_name(t[0], "SET".spec_bytes()),
        t.len() == 3 || (t.len() == 5 && same_name(t[3], "EX".spec_bytes()) && unsigned_numeral(
            t[4],
            u64::MAX as nat,
        ) == Some(e) && e + now.secs <= u64::MAX),
    ensures
        t.len() == 3 ==> pleas(t, now) == seq![Plea::Consult(Ask::Database(Query::Assign { key: t[1], value: (Datum::Text(t[2]), None) }))],
        t.len() == 5 ==> pleas(t, now) == seq![Plea::Consult(Ask::Database(Query::Assign { key: t[1], value: (Datum::Text(t[2]), Some((e + now.secs) as u64)) }))],
{
    lemma_names_set(t[0]);
    if t.len() == 3 {
        assert(pleas(t, now) =~= seq![Plea::Consult(Ask::Database(Query::Assign { key: t[1], value: (Datum::Text(t[2]), None) }))]);
    } else {
        assert(pleas(t, now) =~= seq![Plea::Consult(Ask::Database(Query::Assign { key: t[1], value: (Datum::Text(t[2]), Some((e + now.secs) as u64)) }))]);
    }
}

} // verus!
