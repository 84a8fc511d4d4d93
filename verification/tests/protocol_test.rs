// Tests of the request reader, the argument checks, the reply encoder and
// the keyspace's thread, on concrete values.

use heaven::egress::{encode_message, encode_response};
use heaven::temple::sanctum::Sanctum;
use heaven::temple::soul::{Moment, Soul, Value};
use heaven::temple::{BroadcastCommand, ClientCommandType, DatabaseCommand};
use heaven::wish::grant::{grant, Decree, Petition};
use heaven::wish::util::{bytes_to_i32, bytes_to_i64, bytes_to_u64, bytes_to_usize, find_crlf};
use heaven::wish::{Command, InfoType, Progress, Response, Sacrilege, Sin, Virtue};

fn b(s: &str) -> Vec<u8> {
    s.as_bytes().to_vec()
}

fn terms(words: &[&str]) -> Vec<Vec<u8>> {
    words.iter().map(|w| b(w)).collect()
}

fn at(secs: u64) -> Moment {
    Moment { secs, nanos: 0 }
}

fn wire(response: Response) -> Vec<u8> {
    let mut out = Vec::new();
    encode_response(response, &mut out);
    out
}

fn sanctum() -> Sanctum {
    Sanctum::new(
        Soul::new(),
        b("/data"),
        b("dump.rdb"),
        b("127.0.0.1"),
        b("6379"),
        b("3"),
        b("128"),
        b("0"),
        b("no"),
    )
}

fn delivered(d: Decree) -> (usize, Vec<u8>) {
    match d {
        Decree::Deliver(gift) => (gift.token, wire(gift.response)),
        Decree::Broadcast(..) => panic!("expected a reply"),
    }
}

fn database(c: DatabaseCommand) -> ClientCommandType {
    ClientCommandType::Database(c)
}

// ── the request reader ──────────────────────────────────────────────────────

#[test]
fn reader_reads_a_whole_request() {
    let mut v = Virtue::new();
    v.absorb(b"*2\r\n$3\r\nGET\r\n$1\r\nk\r\n");
    match v.next_event() {
        Ok(Progress::Request(t)) => assert_eq!(t, terms(&["GET", "k"])),
        other => panic!("unexpected {:?}", other),
    }
    assert!(matches!(v.next_event(), Ok(Progress::Drained)));
}

#[test]
fn reader_reads_two_pipelined_requests() {
    let mut v = Virtue::new();
    v.absorb(b"*1\r\n$4\r\nPING\r\n*2\r\n$4\r\nECHO\r\n$0\r\n\r\n");
    match v.next_event() {
        Ok(Progress::Request(t)) => assert_eq!(t, terms(&["PING"])),
        other => panic!("unexpected {:?}", other),
    }
    match v.next_event() {
        Ok(Progress::Request(t)) => assert_eq!(t, vec![b("ECHO"), Vec::new()]),
        other => panic!("unexpected {:?}", other),
    }
    assert!(matches!(v.next_event(), Ok(Progress::Drained)));
}

#[test]
fn reader_waits_for_the_rest_of_a_request() {
    let mut v = Virtue::new();
    v.absorb(b"*2\r\n$3\r\nGET\r\n$1\r");
    assert!(matches!(v.next_event(), Ok(Progress::NeedMore)));
    v.absorb(b"\nk\r\n");
    match v.next_event() {
        Ok(Progress::Request(t)) => assert_eq!(t, terms(&["GET", "k"])),
        other => panic!("unexpected {:?}", other),
    }
}

#[test]
fn reader_refuses_a_request_without_a_star() {
    let mut v = Virtue::new();
    v.absorb(b"GET k\r\n");
    assert!(matches!(v.next_event(), Err(Sin::Blasphemy)));
}

#[test]
fn reader_refuses_a_malformed_count() {
    let mut v = Virtue::new();
    v.absorb(b"*x\r\n");
    assert!(matches!(v.next_event(), Err(Sin::ParseError)));
}

#[test]
fn reader_refuses_a_term_without_its_line_break() {
    let mut v = Virtue::new();
    v.absorb(b"*1\r\n$2\r\nabcd");
    assert!(matches!(v.next_event(), Err(Sin::Blasphemy)));
}

#[test]
fn reader_makes_room_by_compacting_and_growing() {
    let mut v = Virtue::new();
    assert_eq!(v.room(), 4096);
    let chunk = vec![b'x'; 3500];
    v.absorb(b"*1\r\n$3500\r\n");
    assert!(matches!(v.next_event(), Ok(Progress::Drained)));
    let room = v.room();
    v.absorb(&chunk[..room.min(chunk.len())]);
    assert!(matches!(v.next_event(), Ok(Progress::NeedMore)));
    assert!(v.make_room().is_ok());
    assert!(v.room() >= 1024);
}

#[test]
fn reader_refuses_to_grow_past_its_limit() {
    let mut v = Virtue::new();
    v.absorb(b"*1\r\n$100000000\r\n");
    assert!(matches!(v.next_event(), Ok(Progress::Drained)));
    let mut refused = false;
    for _ in 0..20 {
        if v.make_room().is_err() {
            refused = true;
            break;
        }
        let fill = vec![b'y'; v.room()];
        v.absorb(&fill);
    }
    assert!(refused);
}

// ── numerals and line breaks ────────────────────────────────────────────────

#[test]
fn numerals_parse_within_their_ranges() {
    assert_eq!(find_crlf(b"12\r\nx"), Some(2));
    assert_eq!(find_crlf(b"12\n\r"), None);
    assert_eq!(bytes_to_i32(b"-17").ok(), Some(-17));
    assert!(bytes_to_i32(b"2147483648").is_err());
    assert!(bytes_to_i32(b"").is_err());
    assert_eq!(bytes_to_i64(b"9223372036854775807").ok(), Some(i64::MAX));
    assert!(bytes_to_i64(b"12a").is_err());
    assert_eq!(bytes_to_u64(b"18446744073709551615").ok(), Some(u64::MAX));
    assert!(bytes_to_u64(b"-1").is_err());
    assert_eq!(bytes_to_usize(b"42").ok(), Some(42));
}

// ── argument checks ─────────────────────────────────────────────────────────

#[test]
fn grant_names_ignore_case() {
    let r = grant(terms(&["gEt", "k"]), at(7));
    assert_eq!(r.len(), 1);
    match &r[0] {
        Petition::Consult(ClientCommandType::Database(DatabaseCommand::Get { key, time })) => {
            assert_eq!(key, &b("k"));
            assert_eq!(*time, 7);
        }
        _ => panic!("expected GET"),
    }
}

#[test]
fn grant_refuses_unknown_commands() {
    let r = grant(terms(&["FLY", "k"]), at(7));
    assert_eq!(r.len(), 1);
    assert!(matches!(r[0], Petition::Answer(Response::Error(Sacrilege::UnknownCommand))));
}

#[test]
fn grant_checks_argument_counts() {
    let r = grant(terms(&["GET"]), at(7));
    assert!(matches!(
        r[0],
        Petition::Answer(Response::Error(Sacrilege::IncorrectNumberOfArguments(Command::GET)))
    ));
    let r = grant(terms(&["HSET", "h", "f"]), at(7));
    assert!(matches!(
        r[0],
        Petition::Answer(Response::Error(Sacrilege::IncorrectNumberOfArguments(Command::HSET)))
    ));
}

#[test]
fn grant_ping_with_arguments_refuses_and_still_replies() {
    let r = grant(terms(&["PING", "x"]), at(7));
    assert_eq!(r.len(), 2);
    assert!(matches!(
        r[0],
        Petition::Answer(Response::Error(Sacrilege::IncorrectNumberOfArguments(Command::PING)))
    ));
    assert!(matches!(r[1], Petition::Answer(Response::Info(InfoType::Pong))));
}

#[test]
fn grant_set_with_expiry_adds_the_current_time() {
    let r = grant(terms(&["set", "k", "v", "ex", "10"]), at(100));
    match &r[0] {
        Petition::Consult(ClientCommandType::Database(DatabaseCommand::Assign { key, value })) => {
            assert_eq!(key, &b("k"));
            assert_eq!(value.1, Some(110));
            assert!(matches!(&value.0, Value::String(s) if s == &b("v")));
        }
        _ => panic!("expected SET"),
    }
    let r = grant(terms(&["SET", "k", "v", "EX", "ten"]), at(100));
    assert!(matches!(r[0], Petition::Answer(Response::Error(Sacrilege::IncorrectUsage(Command::SET)))));
    let r = grant(terms(&["SET", "k", "v", "PX", "10"]), at(100));
    assert!(matches!(
        r[0],
        Petition::Answer(Response::Error(Sacrilege::IncorrectNumberOfArguments(Command::SET)))
    ));
}

#[test]
fn grant_hset_pairs_fields_with_values() {
    let r = grant(terms(&["HSET", "h", "f1", "v1", "f2", "v2"]), at(1));
    match &r[0] {
        Petition::Consult(ClientCommandType::Database(DatabaseCommand::Hset {
            key,
            field_value_pairs,
            ..
        })) => {
            assert_eq!(key, &b("h"));
            assert_eq!(field_value_pairs, &vec![(b("f1"), b("v1")), (b("f2"), b("v2"))]);
        }
        _ => panic!("expected HSET"),
    }
}

#[test]
fn grant_lindex_with_extra_arguments_refuses_then_looks_up() {
    let r = grant(terms(&["LINDEX", "l", "0", "x"]), at(1));
    assert_eq!(r.len(), 2);
    assert!(matches!(
        r[0],
        Petition::Answer(Response::Error(Sacrilege::IncorrectNumberOfArguments(Command::LINDEX)))
    ));
    assert!(matches!(
        r[1],
        Petition::Consult(ClientCommandType::Database(DatabaseCommand::Lindex { index: 0, .. }))
    ));
}

#[test]
fn grant_subscribe_and_config() {
    let r = grant(terms(&["SUBSCRIBE", "news", "sport"]), at(1));
    match &r[0] {
        Petition::Consult(ClientCommandType::Broadcast(BroadcastCommand::Subscribe { events })) => {
            assert_eq!(events, &terms(&["news", "sport"]))
        }
        _ => panic!("expected SUBSCRIBE"),
    }
    let r = grant(terms(&["CONFIG", "SET", "x"]), at(1));
    assert!(matches!(r[0], Petition::Answer(Response::Error(Sacrilege::IncorrectUsage(Command::CONFIG)))));
    let r = grant(terms(&["QUIT"]), at(1));
    assert!(matches!(r[0], Petition::Answer(Response::Info(InfoType::Okay))));
}

// ── replies on the wire ─────────────────────────────────────────────────────

#[test]
fn replies_are_encoded_as_resp() {
    assert_eq!(wire(Response::Info(InfoType::Okay)), b("+OK\r\n"));
    assert_eq!(wire(Response::Info(InfoType::Pong)), b("+PONG\r\n"));
    assert_eq!(wire(Response::BulkString(Some(b("hello")))), b("$5\r\nhello\r\n"));
    assert_eq!(wire(Response::BulkString(None)), b("$-1\r\n"));
    assert_eq!(
        wire(Response::BulkStringArray(Some(vec![Some(b("a")), None]))),
        b("*2\r\n$1\r\na\r\n$-1\r\n")
    );
    assert_eq!(wire(Response::BulkStringArray(None)), b("$-1\r\n"));
    assert_eq!(wire(Response::Amount(3)), b(":3\r\n"));
    assert_eq!(wire(Response::Number(-42)), b(":-42\r\n"));
    assert_eq!(wire(Response::Length(0)), b(":0\r\n"));
    assert_eq!(
        wire(Response::SubscribedChannels(vec![(b("news"), 1)])),
        b("*3\r\n$9\r\nsubscribe\r\n$4\r\nnews\r\n:1\r\n")
    );
    assert_eq!(
        wire(Response::UnsubscribedChannels(None)),
        b("*3\r\n$11\r\nunsubscribe\r\n$-1\r\n:0\r\n")
    );
    assert!(wire(Response::Info(InfoType::Command)).starts_with(b"*32\r\n*6\r\n$3\r\nset\r\n"));
}

#[test]
fn errors_are_encoded_with_their_messages() {
    assert_eq!(wire(Response::Error(Sacrilege::UnknownCommand)), b("-ERR unknown command\r\n"));
    assert_eq!(
        wire(Response::Error(Sacrilege::IncorrectUsage(Command::INCR))),
        b("-ERR value is not an integer or out of range\r\n")
    );
    assert_eq!(
        wire(Response::Error(Sacrilege::IncorrectUsage(Command::LSET))),
        b("-ERR index out of range\r\n")
    );
    assert_eq!(
        wire(Response::Error(Sacrilege::IncorrectUsage(Command::GET))),
        b("-WRONGTYPE Operation against a key holding the wrong kind of value\r\n")
    );
    assert_eq!(
        wire(Response::Error(Sacrilege::IncorrectNumberOfArguments(Command::HGETALL))),
        b("-ERR wrong number of arguments for 'hgetall' command\r\n")
    );
    assert_eq!(
        wire(Response::Error(Sacrilege::SubscriberOnlyMode)),
        b("-ERR only SUBSCRIBE / UNSUBSCRIBE / PING / QUIT allowed in this context\r\n")
    );
}

#[test]
fn published_messages_are_encoded_for_subscribers() {
    assert_eq!(
        encode_message(&b("news"), &b("hi")),
        b("*3\r\n$7\r\nmessage\r\n$4\r\nnews\r\n$2\r\nhi\r\n")
    );
}

// ── the keyspace's thread ───────────────────────────────────────────────────

#[test]
fn sanctum_answers_requests_for_the_keyspace() {
    let mut s = sanctum();
    let set = database(DatabaseCommand::Assign { key: b("k"), value: (Value::String(b("v")), None) });
    assert_eq!(delivered(s.serve(1, set)), (1, b("+OK\r\n")));
    let get = database(DatabaseCommand::Get { key: b("k"), time: 5 });
    assert_eq!(delivered(s.serve(1, get)), (1, b("$1\r\nv\r\n")));
    let incr = database(DatabaseCommand::Incr { key: b("k"), time: 5 });
    assert_eq!(
        delivered(s.serve(1, incr)),
        (1, b("-ERR value is not an integer or out of range\r\n"))
    );
    let ttl = database(DatabaseCommand::Ttl { key: b("k"), time: at(5) });
    assert_eq!(delivered(s.serve(1, ttl)), (1, b(":-1\r\n")));
}

#[test]
fn sanctum_publishes_to_subscribers() {
    let mut s = sanctum();
    let sub = ClientCommandType::Broadcast(BroadcastCommand::Subscribe { events: terms(&["news", "news"]) });
    assert_eq!(
        delivered(s.serve(2, sub)),
        (2, b("*3\r\n$9\r\nsubscribe\r\n$4\r\nnews\r\n:1\r\n"))
    );
    let publish = ClientCommandType::Broadcast(BroadcastCommand::Publish { event: b("news"), message: b("hi") });
    match s.serve(3, publish) {
        Decree::Broadcast(token, event, message, clients) => {
            assert_eq!((token, event, message, clients), (3, b("news"), b("hi"), vec![2]));
        }
        Decree::Deliver(_) => panic!("expected a broadcast"),
    }
    let nobody = ClientCommandType::Broadcast(BroadcastCommand::Publish { event: b("other"), message: b("x") });
    assert!(matches!(s.serve(3, nobody), Decree::Broadcast(3, _, _, ref c) if c.is_empty()));
}

#[test]
fn sanctum_keeps_subscribers_out_of_the_keyspace() {
    let mut s = sanctum();
    let sub = ClientCommandType::Broadcast(BroadcastCommand::Subscribe { events: terms(&["a", "b"]) });
    s.serve(4, sub);
    let get = database(DatabaseCommand::Get { key: b("k"), time: 5 });
    assert_eq!(
        delivered(s.serve(4, get)),
        (4, b("-ERR only SUBSCRIBE / UNSUBSCRIBE / PING / QUIT allowed in this context\r\n"))
    );
    let unsub = ClientCommandType::Broadcast(BroadcastCommand::Unsubscribe { terms: Vec::new() });
    assert_eq!(
        delivered(s.serve(4, unsub)),
        (
            4,
            b("*3\r\n$11\r\nunsubscribe\r\n$1\r\na\r\n:1\r\n*3\r\n$11\r\nunsubscribe\r\n$1\r\nb\r\n:0\r\n")
        )
    );
    let get = database(DatabaseCommand::Get { key: b("k"), time: 5 });
    assert_eq!(delivered(s.serve(4, get)), (4, b("$-1\r\n")));
    let unsub = ClientCommandType::Broadcast(BroadcastCommand::Unsubscribe { terms: Vec::new() });
    assert_eq!(delivered(s.serve(4, unsub)), (4, b("*3\r\n$11\r\nunsubscribe\r\n$-1\r\n:0\r\n")));
}

#[test]
fn sanctum_answers_config_get() {
    let s = sanctum();
    assert_eq!(
        s.config_get(terms(&["port", "nothing", "databases"])),
        vec![Some(b("port")), Some(b("6379")), Some(b("databases")), Some(b("1"))]
    );
    let all = s.config_get(terms(&["*"]));
    assert_eq!(all.len(), 18);
    assert_eq!(all[0], Some(b("dir")));
    assert_eq!(all[16], Some(b("databases")));
    assert!(matches!(s.file_path(), Ok(p) if p == b("/data/dump.rdb")));
}

// ── laws, on concrete values ────────────────────────────────────────────────

#[test]
fn incr_counts_on_from_the_stored_number() {
    let mut soul = Soul::new();
    assert_eq!(soul.incr(b("n"), 1).ok(), Some(1));
    assert_eq!(soul.incr(b("n"), 1).ok(), Some(2));
    assert_eq!(soul.get(b("n"), 1).ok(), Some(Some(b("2"))));
    assert_eq!(soul.incrby(b("n"), -5, 1).ok(), Some(-3));
    assert_eq!(soul.get(b("n"), 1).ok(), Some(Some(b("-3"))));
}

#[test]
fn lpop_takes_what_lpush_pushed_last() {
    let mut soul = Soul::new();
    soul.rpush(b("l"), terms(&["x", "y"]), 1).ok();
    soul.lpush(b("l"), terms(&["a"]), 1).ok();
    assert_eq!(soul.lpop(b("l"), 1).ok(), Some(Some(b("a"))));
}

#[test]
fn mget_reads_what_mset_wrote() {
    let mut soul = Soul::new();
    soul.mset(terms(&["a", "1", "b", "2", "dangling"]));
    assert_eq!(
        soul.mget(terms(&["b", "a", "dangling"]), 1),
        Some(vec![Some(b("2")), Some(b("1")), None])
    );
}

#[test]
fn ttl_after_expire_tells_the_seconds_left() {
    let mut soul = Soul::new();
    soul.set(b("k"), (Value::String(b("v")), None));
    assert_eq!(soul.expire(b("k"), 150, 100), 1);
    assert_eq!(soul.ttl(b("k"), Moment { secs: 100, nanos: 0 }), 50);
    assert_eq!(soul.ttl(b("k"), Moment { secs: 100, nanos: 5 }), 49);
    assert_eq!(soul.ttl(b("k"), Moment { secs: 151, nanos: 0 }), -2);
    assert_eq!(soul.get(b("k"), 100).ok(), Some(None));
}

#[test]
fn a_bulk_string_reply_reads_back_as_a_term() {
    let value = b("multi\r\nline");
    let mut request = b("*1\r\n");
    request.extend(wire(Response::BulkString(Some(value.clone()))));
    let mut v = Virtue::new();
    v.absorb(&request);
    match v.next_event() {
        Ok(Progress::Request(t)) => assert_eq!(t, vec![value]),
        other => panic!("unexpected {:?}", other),
    }
}

#[test]
fn roster_hands_out_fresh_tokens_after_the_listener() {
    let mut roster = heaven::roster::Roster::new();
    let first = roster.enroll();
    let second = roster.enroll();
    assert_eq!(first, Some(1));
    assert_eq!(second, Some(2));
    assert_ne!(first, Some(heaven::roster::SERVER_TOKEN));
}

#[test]
fn lrem_with_zero_leaves_no_occurrence() {
    let mut soul = Soul::new();
    soul.rpush(b("l"), terms(&["a", "b", "a", "a", "c"]), 1).ok();
    assert_eq!(soul.lrem(b("l"), 0, b("a"), 1).ok(), Some(3));
    assert_eq!(
        soul.lrange(b("l"), 0, -1, 1).ok(),
        Some(Some(vec![Some(b("b")), Some(b("c"))]))
    );
}

#[test]
fn one_call_undoes_another() {
    let mut soul = Soul::new();
    soul.sadd(b("s"), terms(&["a"]), 1).ok();
    soul.sadd(b("s"), terms(&["b"]), 1).ok();
    soul.srem(b("s"), terms(&["b"]), 1).ok();
    assert_eq!(soul.smembers(b("s"), 1).ok(), Some(Some(vec![Some(b("a"))])));

    soul.hset(b("h"), vec![(b("f"), b("1"))], 1).ok();
    soul.hset(b("h"), vec![(b("g"), b("2"))], 1).ok();
    soul.hdel(b("h"), terms(&["g"]), 1).ok();
    assert_eq!(soul.hgetall(b("h"), 1).ok(), Some(Some(vec![Some(b("f")), Some(b("1"))])));

    soul.rpush(b("l"), terms(&["x", "y"]), 1).ok();
    soul.lpush(b("l"), terms(&["z"]), 1).ok();
    soul.lpop(b("l"), 1).ok();
    assert_eq!(
        soul.lrange(b("l"), 0, -1, 1).ok(),
        Some(Some(vec![Some(b("x")), Some(b("y"))]))
    );
}
