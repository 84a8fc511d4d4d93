use vstd::prelude::*;
use vstd::string::StringSliceAdditionalSpecFns;

use crate::wish::util::{decimal_int, decimal_nat, decimal_text};
use crate::wish::{channels_view, Command, InfoType, Response, Sacrilege};

verus! {

/// The reply to a request that succeeded without a value.
pub const OK_REPLY: &'static str = "+OK\r\n";

/// The reply to PING.
pub const PONG_REPLY: &'static str = "+PONG\r\n";

/// The null bulk string.
pub const NIL_REPLY: &'static str = "$-1\r\n";

/// The line break of the protocol.
pub const CRLF: &'static str = "\r\n";

/// The start of a subscription confirmation, up to the channel's length.
pub const SUBSCRIBE_HEAD: &'static str = "*3\r\n$9\r\nsubscribe\r\n$";

/// The start of an unsubscription confirmation, up to the channel's length.
pub const UNSUBSCRIBE_HEAD: &'static str = "*3\r\n$11\r\nunsubscribe\r\n$";

/// The reply to UNSUBSCRIBE from a client that had no subscriptions.
pub const UNSUBSCRIBE_NONE: &'static str = "*3\r\n$11\r\nunsubscribe\r\n$-1\r\n:0\r\n";

/// Between a channel's name and its count in a confirmation.
pub const NAME_THEN_COUNT: &'static str = "\r\n:";

/// The start of a published message, up to the channel's length.
pub const MESSAGE_HEAD: &'static str = "*3\r\n$7\r\nmessage\r\n$";

/// Between the channel and the length of the message in a published message.
pub const NAME_THEN_LENGTH: &'static str = "\r\n$";

/// The reply to COMMAND: a description of the commands served.
pub const COMMAND_TABLE: &'static str = "*32\r\n\
    *6\r\n$3\r\nset\r\n:-3\r\n*2\r\n+write\r\n+denyoom\r\n:1\r\n:1\r\n:1\r\n\
    *6\r\n$3\r\nget\r\n:2\r\n*2\r\n+readonly\r\n+fast\r\n:1\r\n:1\r\n:1\r\n\
    *6\r\n$6\r\nappend\r\n:3\r\n*2\r\n+write\r\n+denyoom\r\n:1\r\n:1\r\n:1\r\n\
    *6\r\n$4\r\nincr\r\n:2\r\n*2\r\n+write\r\n+denyoom\r\n:1\r\n:1\r\n:1\r\n\
    *6\r\n$4\r\ndecr\r\n:2\r\n*2\r\n+write\r\n+denyoom\r\n:1\r\n:1\r\n:1\r\n\
    *6\r\n$6\r\nstrlen\r\n:2\r\n*2\r\n+readonly\r\n+fast\r\n:1\r\n:1\r\n:1\r\n\
    *6\r\n$5\r\nlpush\r\n:-3\r\n*2\r\n+write\r\n+denyoom\r\n:1\r\n:1\r\n:1\r\n\
    *6\r\n$5\r\nrpush\r\n:-3\r\n*2\r\n+write\r\n+denyoom\r\n:1\r\n:1\r\n:1\r\n\
    *6\r\n$4\r\nlpop\r\n:-2\r\n*2\r\n+write\r\n+fast\r\n:1\r\n:1\r\n:1\r\n\
    *6\r\n$4\r\nrpop\r\n:-2\r\n*2\r\n+write\r\n+fast\r\n:1\r\n:1\r\n:1\r\n\
    *6\r\n$6\r\nlrange\r\n:4\r\n*2\r\n+readonly\r\n+fast\r\n:1\r\n:1\r\n:1\r\n\
    *6\r\n$4\r\nlrem\r\n:4\r\n*2\r\n+write\r\n+fast\r\n:1\r\n:1\r\n:1\r\n\
    *6\r\n$6\r\nlindex\r\n:3\r\n*2\r\n+readonly\r\n+fast\r\n:1\r\n:1\r\n:1\r\n\
    *6\r\n$4\r\nllen\r\n:2\r\n*2\r\n+readonly\r\n+fast\r\n:1\r\n:1\r\n:1\r\n\
    *6\r\n$4\r\nlset\r\n:4\r\n*2\r\n+write\r\n+denyoom\r\n:1\r\n:1\r\n:1\r\n\
    *6\r\n$4\r\nhset\r\n:-4\r\n*2\r\n+write\r\n+denyoom\r\n:1\r\n:1\r\n:1\r\n\
    *6\r\n$5\r\nhmget\r\n:-3\r\n*2\r\n+readonly\r\n+fast\r\n:1\r\n:1\r\n:1\r\n\
    *6\r\n$4\r\nhget\r\n:3\r\n*2\r\n+readonly\r\n+fast\r\n:1\r\n:1\r\n:1\r\n\
    *6\r\n$4\r\nhdel\r\n:-3\r\n*2\r\n+write\r\n+fast\r\n:1\r\n:1\r\n:1\r\n\
    *6\r\n$7\r\nhexists\r\n:3\r\n*2\r\n+readonly\r\n+fast\r\n:1\r\n:1\r\n:1\r\n\
    *6\r\n$4\r\nhlen\r\n:2\r\n*2\r\n+readonly\r\n+fast\r\n:1\r\n:1\r\n:1\r\n\
    *6\r\n$7\r\nhgetall\r\n:2\r\n*2\r\n+readonly\r\n+fast\r\n:1\r\n:1\r\n:1\r\n\
    *6\r\n$4\r\nsadd\r\n:-3\r\n*2\r\n+write\r\n+denyoom\r\n:1\r\n:1\r\n:1\r\n\
    *6\r\n$4\r\nsrem\r\n:-3\r\n*2\r\n+write\r\n+fast\r\n:1\r\n:1\r\n:1\r\n\
    *6\r\n$9\r\nsismember\r\n:3\r\n*2\r\n+readonly\r\n+fast\r\n:1\r\n:1\r\n:1\r\n\
    *6\r\n$8\r\nsmembers\r\n:2\r\n*2\r\n+readonly\r\n+sort_for_script\r\n:1\r\n:1\r\n:1\r\n\
    *6\r\n$6\r\nexists\r\n:-2\r\n*2\r\n+readonly\r\n+fast\r\n:1\r\n-1\r\n:1\r\n\
    *6\r\n$3\r\ndel\r\n:-2\r\n*2\r\n+write\r\n+fast\r\n:1\r\n-1\r\n:1\r\n\
    *6\r\n$3\r\nttl\r\n:2\r\n*2\r\n+readonly\r\n+fast\r\n:1\r\n:1\r\n:1\r\n\
    *6\r\n$6\r\nexpire\r\n:3\r\n*2\r\n+write\r\n+fast\r\n:1\r\n:1\r\n:1\r\n\
    *6\r\n$7\r\npublish\r\n:3\r\n*3\r\n+pubsub\r\n+loading\r\n+stale\r\n:0\r\n:0\r\n:0\r\n\
    *6\r\n$4\r\nping\r\n:-1\r\n*2\r\n+stale\r\n+fast\r\n:0\r\n:0\r\n:0\r\n";

/// The error line for a refused request.
pub open spec fn error_text(s: Sacrilege) -> &'static str {
    match s {
        Sacrilege::UnknownCommand => "-ERR unknown command\r\n",
        Sacrilege::IncorrectUsage(c) => match c {
            Command::INCR | Command::DECR | Command::INCRBY => "-ERR value is not an integer or out of range\r\n",
            Command::LSET | Command::LINDEX => "-ERR index out of range\r\n",
            Command::CONFIG => "-ERR Unknown Command after 'config'\r\n",
            _ => "-WRONGTYPE Operation against a key holding the wrong kind of value\r\n",
        },
        Sacrilege::IncorrectNumberOfArguments(c) => arity_text(c),
        Sacrilege::SubscriberOnlyMode => "-ERR only SUBSCRIBE / UNSUBSCRIBE / PING / QUIT allowed in this context\r\n",
    }
}

/// The error line for a request with the wrong number of arguments.
pub open spec fn arity_text(c: Command) -> &'static str {
    match c {
            Command::PING => "-ERR wrong number of arguments for 'ping' command\r\n",
            Command::SET => "-ERR wrong number of arguments for 'set' command\r\n",
            Command::GET => "-ERR wrong number of arguments for 'get' command\r\n",
            Command::EX => "-ERR wrong number of arguments for 'ex' command\r\n",
            Command::INCR => "-ERR wrong number of arguments for 'incr' command\r\n",
            Command::INCRBY => "-ERR wrong number of arguments for 'incrby' command\r\n",
            Command::DECR => "-ERR wrong number of arguments for 'decr' command\r\n",
            Command::APPEND => "-ERR wrong number of arguments for 'append' command\r\n",
            Command::STRLEN => "-ERR wrong number of arguments for 'strlen' command\r\n",
            Command::EXISTS => "-ERR wrong number of arguments for 'exists' command\r\n",
            Command::DEL => "-ERR wrong number of arguments for 'del' command\r\n",
            Command::HSET => "-ERR wrong number of arguments for 'hset' command\r\n",
            Command::HGET => "-ERR wrong number of arguments for 'hget' command\r\n",
            Command::HMGET => "-ERR wrong number of arguments for 'hmget' command\r\n",
            Command::HDEL => "-ERR wrong number of arguments for 'hdel' command\r\n",
            Command::HEXISTS => "-ERR wrong number of arguments for 'hexists' command\r\n",
            Command::HLEN => "-ERR wrong number of arguments for 'hlen' command\r\n",
            Command::LPUSH => "-ERR wrong number of arguments for 'lpush' command\r\n",
            Command::LPOP => "-ERR wrong number of arguments for 'lpop' command\r\n",
            Command::RPUSH => "-ERR wrong number of arguments for 'rpush' command\r\n",
            Command::RPOP => "-ERR wrong number of arguments for 'rpop' command\r\n",
            Command::LLEN => "-ERR wrong number of arguments for 'llen' command\r\n",
            Command::LRANGE => "-ERR wrong number of arguments for 'lrange' command\r\n",
            Command::LINDEX => "-ERR wrong number of arguments for 'lindex' command\r\n",
            Command::LSET => "-ERR wrong number of arguments for 'lset' command\r\n",
            Command::LREM => "-ERR wrong number of arguments for 'lrem' command\r\n",
            Command::EXPIRE => "-ERR wrong number of arguments for 'expire' command\r\n",
            Command::TTL => "-ERR wrong number of arguments for 'ttl' command\r\n",
            Command::SUBSCRIBE => "-ERR wrong number of arguments for 'subscribe' command\r\n",
            Command::PUBLISH => "-ERR wrong number of arguments for 'publish' command\r\n",
            Command::MSET => "-ERR wrong number of arguments for 'mset' command\r\n",
            Command::MGET => "-ERR wrong number of arguments for 'mget' command\r\n",
            Command::SADD => "-ERR wrong number of arguments for 'sadd' command\r\n",
            Command::SREM => "-ERR wrong number of arguments for 'srem' command\r\n",
            Command::SISMEMBER => "-ERR wrong number of arguments for 'sismember' command\r\n",
            Command::HGETALL => "-ERR wrong number of arguments for 'hgetall' command\r\n",
            Command::SMEMBERS => "-ERR wrong number of arguments for 'smembers' command\r\n",
            Command::CONFIG => "-ERR wrong number of arguments for 'config' command\r\n",
            Command::COMMAND => "-ERR wrong number of arguments for 'command' command\r\n",
    }
}

/// The error line for a refused request, to put on the wire.
pub fn error_line(s: Sacrilege) -> (t: &'static str)
    ensures
        t == error_text(s),
{
    match s {
        Sacrilege::UnknownCommand => "-ERR unknown command\r\n",
        Sacrilege::IncorrectUsage(c) => match c {
            Command::INCR | Command::DECR | Command::INCRBY => "-ERR value is not an integer or out of range\r\n",
            Command::LSET | Command::LINDEX => "-ERR index out of range\r\n",
            Command::CONFIG => "-ERR Unknown Command after 'config'\r\n",
            _ => "-WRONGTYPE Operation against a key holding the wrong kind of value\r\n",
        },
        Sacrilege::IncorrectNumberOfArguments(c) => arity_line(c),
        Sacrilege::SubscriberOnlyMode => "-ERR only SUBSCRIBE / UNSUBSCRIBE / PING / QUIT allowed in this context\r\n",
    }
}

/// The error line for a request with the wrong number of arguments, to put
/// on the wire.
fn arity_line(c: Command) -> (t: &'static str)
    ensures
        t == arity_text(c),
{
    match c {
            Command::PING => "-ERR wrong number of arguments for 'ping' command\r\n",
            Command::SET => "-ERR wrong number of arguments for 'set' command\r\n",
            Command::GET => "-ERR wrong number of arguments for 'get' command\r\n",
            Command::EX => "-ERR wrong number of arguments for 'ex' command\r\n",
            Command::INCR => "-ERR wrong number of arguments for 'incr' command\r\n",
            Command::INCRBY => "-ERR wrong number of arguments for 'incrby' command\r\n",
            Command::DECR => "-ERR wrong number of arguments for 'decr' command\r\n",
            Command::APPEND => "-ERR wrong number of arguments for 'append' command\r\n",
            Command::STRLEN => "-ERR wrong number of arguments for 'strlen' command\r\n",
            Command::EXISTS => "-ERR wrong number of arguments for 'exists' command\r\n",
            Command::DEL => "-ERR wrong number of arguments for 'del' command\r\n",
            Command::HSET => "-ERR wrong number of arguments for 'hset' command\r\n",
            Command::HGET => "-ERR wrong number of arguments for 'hget' command\r\n",
            Command::HMGET => "-ERR wrong number of arguments for 'hmget' command\r\n",
            Command::HDEL => "-ERR wrong number of arguments for 'hdel' command\r\n",
            Command::HEXISTS => "-ERR wrong number of arguments for 'hexists' command\r\n",
            Command::HLEN => "-ERR wrong number of arguments for 'hlen' command\r\n",
            Command::LPUSH => "-ERR wrong number of arguments for 'lpush' command\r\n",
            Command::LPOP => "-ERR wrong number of arguments for 'lpop' command\r\n",
            Command::RPUSH => "-ERR wrong number of arguments for 'rpush' command\r\n",
            Command::RPOP => "-ERR wrong number of arguments for 'rpop' command\r\n",
            Command::LLEN => "-ERR wrong number of arguments for 'llen' command\r\n",
            Command::LRANGE => "-ERR wrong number of arguments for 'lrange' command\r\n",
            Command::LINDEX => "-ERR wrong number of arguments for 'lindex' command\r\n",
            Command::LSET => "-ERR wrong number of arguments for 'lset' command\r\n",
            Command::LREM => "-ERR wrong number of arguments for 'lrem' command\r\n",
            Command::EXPIRE => "-ERR wrong number of arguments for 'expire' command\r\n",
            Command::TTL => "-ERR wrong number of arguments for 'ttl' command\r\n",
            Command::SUBSCRIBE => "-ERR wrong number of arguments for 'subscribe' command\r\n",
            Command::PUBLISH => "-ERR wrong number of arguments for 'publish' command\r\n",
            Command::MSET => "-ERR wrong number of arguments for 'mset' command\r\n",
            Command::MGET => "-ERR wrong number of arguments for 'mget' command\r\n",
            Command::SADD => "-ERR wrong number of arguments for 'sadd' command\r\n",
            Command::SREM => "-ERR wrong number of arguments for 'srem' command\r\n",
            Command::SISMEMBER => "-ERR wrong number of arguments for 'sismember' command\r\n",
            Command::HGETALL => "-ERR wrong number of arguments for 'hgetall' command\r\n",
            Command::SMEMBERS => "-ERR wrong number of arguments for 'smembers' command\r\n",
            Command::CONFIG => "-ERR wrong number of arguments for 'config' command\r\n",
            Command::COMMAND => "-ERR wrong number of arguments for 'command' command\r\n",
    }
}

/// A bulk string on the wire: `$<length>\r\n<bytes>\r\n`, or the null
/// bulk string.
pub open spec fn bulk(b: Option<Seq<u8>>) -> Seq<u8> {
    match b {
        Some(v) => seq![36u8] + decimal_nat(v.len()) + CRLF.spec_bytes() + v + CRLF.spec_bytes(),
        None => NIL_REPLY.spec_bytes(),
    }
}

/// Bulk strings one after another.
pub open spec fn bulks(s: Seq<Option<Seq<u8>>>) -> Seq<u8>
    decreases s.len(),
{
    if s.len() == 0 {
        Seq::empty()
    } else {
        bulks(s.drop_last()) + bulk(s.last())
    }
}

/// An integer reply: `:<number>\r\n`.
pub open spec fn integer(n: int) -> Seq<u8> {
    seq![58u8] + decimal_int(n) + CRLF.spec_bytes()
}

/// One confirmation per channel: `head`, the channel as a bulk string body
/// and the count of the client's subscriptions after it.
pub open spec fn confirmations(head: &'static str, s: Seq<(Seq<u8>, nat)>) -> Seq<u8>
    decreases s.len(),
{
    if s.len() == 0 {
        Seq::empty()
    } else {
        confirmations(head, s.drop_last()) + head.spec_bytes() + decimal_nat(s.last().0.len())
            + CRLF.spec_bytes() + s.last().0 + NAME_THEN_COUNT.spec_bytes() + decimal_nat(
            s.last().1,
        ) + CRLF.spec_bytes()
    }
}

/// A reply as it goes on the wire.
pub open spec fn wire(r: Response) -> Seq<u8> {
    match r {
        Response::Info(InfoType::Okay) => OK_REPLY.spec_bytes(),
        Response::Info(InfoType::Pong) => PONG_REPLY.spec_bytes(),
        Response::Info(InfoType::Command) => COMMAND_TABLE.spec_bytes(),
        Response::BulkString(b) => bulk(crate::wish::opt_bytes(b)),
        Response::BulkStringArray(Some(a)) => seq![42u8] + decimal_nat(a@.len()) + CRLF.spec_bytes()
            + bulks(crate::wish::opt_bytes_seq(a@)),
        Response::BulkStringArray(None) => NIL_REPLY.spec_bytes(),
        Response::Amount(n) => integer(n as int),
        Response::Number(n) => integer(n as int),
        Response::Length(n) => integer(n as int),
        Response::SubscribedChannels(c) => confirmations(SUBSCRIBE_HEAD, channels_view(c@)),
        Response::UnsubscribedChannels(Some(c)) => confirmations(UNSUBSCRIBE_HEAD, channels_view(c@)),
        Response::UnsubscribedChannels(None) => UNSUBSCRIBE_NONE.spec_bytes(),
        Response::Error(s) => error_text(s).spec_bytes(),
    }
}

/// Appends text.
fn put_text(out: &mut Vec<u8>, t: &str)
    ensures
        final(out)@ == old(out)@ + t.spec_bytes(),
{
    out.extend_from_slice(t.as_bytes());
}

/// Appends bytes.
fn put_bytes(out: &mut Vec<u8>, b: &[u8])
    ensures
        final(out)@ == old(out)@ + b@,
{
    out.extend_from_slice(b);
}

/// Appends a number in decimal.
fn put_number(out: &mut Vec<u8>, n: i128)
    ensures
        final(out)@ == old(out)@ + decimal_int(n as int),
{
    let digits = decimal_text(n);
    out.extend_from_slice(digits.as_slice());
}

/// Appends a bulk string.
fn put_bulk(out: &mut Vec<u8>, b: &Option<Vec<u8>>)
    ensures
        final(out)@ == old(out)@ + bulk(crate::wish::opt_bytes(*b)),
{
    match b {
        Some(value) => {
            out.push(36u8);
            put_number(out, value.len() as i128);
            put_text(out, CRLF);
            put_bytes(out, value.as_slice());
            put_text(out, CRLF);
            proof {
                assert(decimal_int(value@.len() as int) == decimal_nat(value@.len()));
            }
        },
        None => put_text(out, NIL_REPLY),
    }
}

/// Appends one confirmation per channel.
fn put_confirmations(out: &mut Vec<u8>, head: &'static str, channels: &Vec<(Vec<u8>, usize)>)
    ensures
        final(out)@ == old(out)@ + confirmations(head, channels_view(channels@)),
{
    let ghost cs = channels_view(channels@);
    let mut i: usize = 0;
    proof {
        assert(cs.take(0) =~= Seq::<(Seq<u8>, nat)>::empty());
        assert(out@ =~= old(out)@ + confirmations(head, cs.take(0)));
    }
    while i < channels.len()
        invariant
            i <= channels.len(),
            cs == channels_view(channels@),
            out@ == old(out)@ + confirmations(head, cs.take(i as int)),
        decreases channels.len() - i,
    {
        let ghost before = out@;
        let (name, count) = &channels[i];
        put_text(out, head);
        put_number(out, name.len() as i128);
        put_text(out, CRLF);
        put_bytes(out, name.as_slice());
        put_text(out, NAME_THEN_COUNT);
        put_number(out, *count as i128);
        put_text(out, CRLF);
        proof {
            let t = cs.take(i + 1);
            assert(t.drop_last() =~= cs.take(i as int));
            assert(t.last() == (name@, *count as nat));
            assert(decimal_int(name@.len() as int) == decimal_nat(name@.len()));
            assert(decimal_int(*count as int) == decimal_nat(*count as nat));
            assert(out@ =~= old(out)@ + confirmations(head, t));
        }
        i = i + 1;
    }
    proof {
        assert(cs.take(i as int) =~= cs);
    }
}

/// Puts a reply in `out` as it goes on the wire (`out` is cleared first).
pub fn encode_response(response: Response, out: &mut Vec<u8>)
    ensures
        final(out)@ == wire(response),
{
    out.clear();
    match response {
        Response::Info(InfoType::Okay) => put_text(out, OK_REPLY),
        Response::Info(InfoType::Pong) => put_text(out, PONG_REPLY),
        Response::Info(InfoType::Command) => put_text(out, COMMAND_TABLE),
        Response::BulkString(b) => put_bulk(out, &b),
        Response::BulkStringArray(Some(a)) => {
            out.push(42u8);
            put_number(out, a.len() as i128);
            put_text(out, CRLF);
            let ghost head = out@;
            let ghost items = crate::wish::opt_bytes_seq(a@);
            let mut i: usize = 0;
            proof {
                assert(items.take(0) =~= Seq::<Option<Seq<u8>>>::empty());
                assert(out@ =~= head + bulks(items.take(0)));
            }
            while i < a.len()
                invariant
                    i <= a.len(),
                    items == crate::wish::opt_bytes_seq(a@),
                    out@ == head + bulks(items.take(i as int)),
                decreases a.len() - i,
            {
                put_bulk(out, &a[i]);
                proof {
                    let t = items.take(i + 1);
                    assert(t.drop_last() =~= items.take(i as int));
                    assert(out@ =~= head + bulks(t));
                }
                i = i + 1;
            }
            proof {
                assert(items.take(i as int) =~= items);
                assert(decimal_int(a@.len() as int) == decimal_nat(a@.len()));
            }
        },
        Response::BulkStringArray(None) => put_text(out, NIL_REPLY),
        Response::Amount(n) => {
            out.push(58u8);
            put_number(out, n as i128);
            put_text(out, CRLF);
        },
        Response::Number(n) => {
            out.push(58u8);
            put_number(out, n as i128);
            put_text(out, CRLF);
        },
        Response::Length(n) => {
            out.push(58u8);
            put_number(out, n as i128);
            put_text(out, CRLF);
        },
        Response::SubscribedChannels(c) => put_confirmations(out, SUBSCRIBE_HEAD, &c),
        Response::UnsubscribedChannels(Some(c)) => put_confirmations(out, UNSUBSCRIBE_HEAD, &c),
        Response::UnsubscribedChannels(None) => put_text(out, UNSUBSCRIBE_NONE),
        Response::Error(s) => put_text(out, error_line(s)),
    }
}

/// A published message as it goes to each subscriber:
/// `*3\r\n$7\r\nmessage\r\n` and then the channel and the message as bulk
/// strings.
pub open spec fn message_wire(event: Seq<u8>, message: Seq<u8>) -> Seq<u8> {
    MESSAGE_HEAD.spec_bytes() + decimal_nat(event.len()) + CRLF.spec_bytes() + event
        + NAME_THEN_LENGTH.spec_bytes() + decimal_nat(message.len()) + CRLF.spec_bytes() + message
        + CRLF.spec_bytes()
}

/// Encodes a message published on `event` for its subscribers.
pub fn encode_message(event: &Vec<u8>, message: &Vec<u8>) -> (out: Vec<u8>)
    ensures
        out@ == message_wire(event@, message@),
{
    let mut out: Vec<u8> = Vec::new();
    put_text(&mut out, MESSAGE_HEAD);
    put_number(&mut out, event.len() as i128);
    put_text(&mut out, CRLF);
    put_bytes(&mut out, event.as_slice());
    put_text(&mut out, NAME_THEN_LENGTH);
    put_number(&mut out, message.len() as i128);
    put_text(&mut out, CRLF);
    put_bytes(&mut out, message.as_slice());
    put_text(&mut out, CRLF);
    proof {
        assert(decimal_int(event@.len() as int) == decimal_nat(event@.len()));
        assert(decimal_int(message@.len() as int) == decimal_nat(message@.len()));
    }
    out
}

/// A bulk string reply is framed exactly as a request term is, so a reader
/// of terms reads it back.
pub proof fn law_bulk_frames_like_a_term(v: Seq<u8>)
    ensures
        bulk(Some(v)) == crate::wish::virtue::encoded_term(v),
{
    reveal_strlit("\r\n");
    vstd::string::is_ascii_spec_bytes(CRLF);
    assert(CRLF.spec_bytes() =~= seq![13u8, 10u8]);
}

} // verus!
