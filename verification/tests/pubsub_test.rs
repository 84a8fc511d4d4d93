// Publish/subscribe and whole-request tests: each request goes through the
// argument checks and the keyspace's thread, and what reaches the client is
// encoded on the wire as the server writes it.

use heaven::egress::encode_response;
use heaven::temple::sanctum::{is_admissible, snapshot_path, Sanctum};
use heaven::temple::soul::{Moment, Soul, Value};
use heaven::temple::{BroadcastCommand, ClientCommandType, DatabaseCommand};
use heaven::wish::grant::{grant, Decree, Petition};
use heaven::wish::Response;

fn b(s: &str) -> Vec<u8> {
    s.as_bytes().to_vec()
}

fn words(ws: &[&str]) -> Vec<Vec<u8>> {
    ws.iter().map(|w| b(w)).collect()
}

fn encoded(response: Response) -> Vec<u8> {
    let mut out = Vec::new();
    encode_response(response, &mut out);
    out
}

fn server() -> Sanctum {
    Sanctum::new(
        Soul::new(),
        b("/data"),
        b("dump.rdb"),
        b("127.0.0.1"),
        b("6379"),
        b("3"),
        b("128"),
        b("0"),
        b("no"),
    )
}

/// Sends one request from client `token` and collects the bytes written
/// back to that client.
fn send(s: &mut Sanctum, token: usize, request: &[&str], secs: u64) -> Vec<u8> {
    let mut out = Vec::new();
    for petition in grant(words(request), Moment { secs, nanos: 0 }) {
        match petition {
            Petition::Answer(response) => out.extend(encoded(response)),
            Petition::Consult(command) => {
                assert!(is_admissible(&command));
                match s.serve(token, command) {
                    Decree::Deliver(gift) => {
                        assert_eq!(gift.token, token);
                        out.extend(encoded(gift.response));
                    }
                    Decree::Broadcast(publisher, _, _, clients) => {
                        assert_eq!(publisher, token);
                        out.extend(encoded(Response::Length(clients.len())));
                    }
                }
            }
        }
    }
    out
}

fn contains_bytes(haystack: &[u8], needle: &[u8]) -> bool {
    haystack.windows(needle.len()).any(|w| w == needle)
}

fn count_subsequence(haystack: &[u8], needle: &[u8]) -> usize {
    haystack.windows(needle.len()).filter(|w| *w == needle).count()
}

fn parse_integer(resp: &[u8]) -> i64 {
    assert_eq!(resp[0], b':');
    let end = resp.iter().position(|&c| c == b'\r').unwrap();
    std::str::from_utf8(&resp[1..end]).unwrap().parse().unwrap()
}

#[test]
fn test_subscribe_multiple_channels() {
    let mut s = server();
    let resp = send(
        &mut s,
        5,
        &["SUBSCRIBE", "pubsub:multi:a", "pubsub:multi:b", "pubsub:multi:c"],
        1,
    );
    let frame_count = count_subsequence(&resp, b"subscribe");
    assert!(
        frame_count >= 3,
        "Expected 3 subscribe confirmations, got {}: {:?}",
        frame_count,
        resp
    );
    assert_eq!(
        resp,
        b("*3\r\n$9\r\nsubscribe\r\n$14\r\npubsub:multi:a\r\n:1\r\n\
           *3\r\n$9\r\nsubscribe\r\n$14\r\npubsub:multi:b\r\n:2\r\n\
           *3\r\n$9\r\nsubscribe\r\n$14\r\npubsub:multi:c\r\n:3\r\n")
    );
}

#[test]
fn test_subscriber_mode_rejects_regular_commands() {
    let mut s = server();
    send(&mut s, 5, &["SUBSCRIBE", "pubsub:mode:ch"], 1);
    let resp = send(&mut s, 5, &["SET", "pubsub:mode:k", "v"], 1);
    assert_eq!(resp[0], b'-', "Expected error in subscriber mode, got: {:?}", resp);
    // The refused SET stored nothing.
    let other = send(&mut s, 6, &["GET", "pubsub:mode:k"], 1);
    assert_eq!(other, b("$-1\r\n"));
}

#[test]
fn test_unsubscribe_all() {
    let mut s = server();
    send(&mut s, 5, &["SUBSCRIBE", "pubsub:unsub:a", "pubsub:unsub:b"], 1);
    let resp = send(&mut s, 5, &["UNSUBSCRIBE"], 1);
    assert!(
        contains_bytes(&resp, b"unsubscribe"),
        "Expected unsubscribe frames, got: {:?}",
        resp
    );
    assert!(
        contains_bytes(&resp, b":0\r\n"),
        "Expected :0 final count, got: {:?}",
        resp
    );
    // Out of subscriber mode, regular commands are served again.
    assert_eq!(send(&mut s, 5, &["SET", "k", "v"], 1), b("+OK\r\n"));
}

#[test]
fn test_publish_no_subscribers_returns_zero() {
    let mut s = server();
    let resp = send(&mut s, 5, &["PUBLISH", "pubsub:empty:ch", "nobody home"], 1);
    assert_eq!(parse_integer(&resp), 0, "Expected :0, got: {:?}", resp);
}

#[test]
fn test_ping_in_subscriber_mode() {
    let mut s = server();
    send(&mut s, 5, &["SUBSCRIBE", "pubsub:ping:ch"], 1);
    let resp = send(&mut s, 5, &["PING"], 1);
    assert!(
        contains_bytes(&resp, b"pong") || contains_bytes(&resp, b"PONG"),
        "Expected pong in subscriber mode, got: {:?}",
        resp
    );
}

#[test]
fn publish_counts_each_subscriber_once() {
    let mut s = server();
    send(&mut s, 5, &["SUBSCRIBE", "fan"], 1);
    send(&mut s, 6, &["SUBSCRIBE", "fan", "fan"], 1);
    send(&mut s, 7, &["SUBSCRIBE", "other"], 1);
    assert_eq!(send(&mut s, 8, &["PUBLISH", "fan", "hello"], 1), b(":2\r\n"));
}

#[test]
fn requests_are_served_alike_whatever_the_case_of_the_name() {
    let mut s = server();
    assert_eq!(send(&mut s, 5, &["sEt", "k", "v", "Ex", "10"], 100), b("+OK\r\n"));
    assert_eq!(send(&mut s, 5, &["TTL", "k"], 100), b(":10\r\n"));
    assert_eq!(send(&mut s, 5, &["get", "k"], 100), send(&mut s, 5, &["GET", "k"], 100));
    assert_eq!(send(&mut s, 5, &["Get", "k"], 100), b("$1\r\nv\r\n"));
    assert_eq!(send(&mut s, 5, &["nope", "k"], 100), send(&mut s, 5, &["NOPE", "k"], 100));
}

#[test]
fn incr_from_zero_counts_every_step() {
    let mut s = server();
    assert_eq!(send(&mut s, 5, &["SET", "counter", "0"], 1), b("+OK\r\n"));
    for i in 1..=1000u64 {
        let resp = send(&mut s, 5 + (i as usize % 20), &["INCR", "counter"], i);
        assert_eq!(parse_integer(&resp), i as i64);
    }
    assert_eq!(send(&mut s, 5, &["GET", "counter"], 2000), b("$4\r\n1000\r\n"));
}

#[test]
fn the_keyspace_refuses_what_it_cannot_take() {
    let empty = ClientCommandType::Broadcast(BroadcastCommand::Subscribe { events: Vec::new() });
    assert!(!is_admissible(&empty));
    let bad_time = ClientCommandType::Database(DatabaseCommand::Ttl {
        key: b("k"),
        time: Moment { secs: 1, nanos: 1_000_000_000 },
    });
    assert!(!is_admissible(&bad_time));
    let good_time = ClientCommandType::Database(DatabaseCommand::Ttl {
        key: b("k"),
        time: Moment { secs: 1, nanos: 999_999_999 },
    });
    assert!(is_admissible(&good_time));
    let set = ClientCommandType::Database(DatabaseCommand::Assign {
        key: b("k"),
        value: (Value::String(b("v")), None),
    });
    assert!(is_admissible(&set));
    let publish = ClientCommandType::Broadcast(BroadcastCommand::Publish { event: b("e"), message: b("m") });
    assert!(is_admissible(&publish));
}

#[test]
fn the_snapshot_lies_in_the_configured_directory() {
    assert_eq!(snapshot_path(&b("/data"), &b("dump.rdb")), b("/data/dump.rdb"));
    assert_eq!(snapshot_path(&b(""), &b("x")), b("/x"));
    assert!(matches!(server().file_path(), Ok(p) if p == b("/data/dump.rdb")));
}

#[test]
fn mset_keeps_the_last_value_written_to_each_key() {
    let mut s = server();
    assert_eq!(send(&mut s, 5, &["RPUSH", "k", "x"], 1), b(":1\r\n"));
    assert_eq!(send(&mut s, 5, &["SET", "t", "old", "EX", "5"], 1), b("+OK\r\n"));
    assert_eq!(send(&mut s, 5, &["MSET", "k", "1", "j", "2", "k", "3", "t", "new"], 1), b("+OK\r\n"));
    assert_eq!(send(&mut s, 5, &["GET", "k"], 1), b("$1\r\n3\r\n"));
    assert_eq!(send(&mut s, 5, &["GET", "j"], 1), b("$1\r\n2\r\n"));
    assert_eq!(send(&mut s, 5, &["TTL", "t"], 1), b(":-1\r\n"));
    assert_eq!(send(&mut s, 5, &["GET", "t"], 9), b("$3\r\nnew\r\n"));
    // An odd number of terms is refused before the keyspace sees it.
    assert_eq!(send(&mut s, 5, &["MSET", "k", "4", "left"], 1)[0], b'-');
    assert_eq!(send(&mut s, 5, &["GET", "k"], 1), b("$1\r\n3\r\n"));
}

#[test]
fn mget_answers_one_entry_per_key_named() {
    let mut s = server();
    send(&mut s, 5, &["SET", "a", "1"], 1);
    send(&mut s, 5, &["SET", "gone", "x", "EX", "1"], 1);
    send(&mut s, 5, &["RPUSH", "l", "x"], 1);
    assert_eq!(
        send(&mut s, 5, &["MGET", "a", "missing", "gone", "l", "a"], 10),
        b("*5\r\n$1\r\n1\r\n$-1\r\n$-1\r\n$-1\r\n$1\r\n1\r\n")
    );
    assert_eq!(send(&mut s, 5, &["EXISTS", "gone", "l"], 10), b(":1\r\n"));
}

#[test]
fn lrem_takes_no_more_occurrences_than_there_are() {
    let mut s = server();
    send(&mut s, 5, &["RPUSH", "l", "a", "b", "a", "c", "a"], 1);
    assert_eq!(send(&mut s, 5, &["LREM", "l", "-1", "a"], 1), b(":1\r\n"));
    assert_eq!(
        send(&mut s, 5, &["LRANGE", "l", "0", "-1"], 1),
        b("*4\r\n$1\r\na\r\n$1\r\nb\r\n$1\r\na\r\n$1\r\nc\r\n")
    );
    assert_eq!(send(&mut s, 5, &["LREM", "l", "5", "a"], 1), b(":2\r\n"));
    assert_eq!(send(&mut s, 5, &["LRANGE", "l", "0", "-1"], 1), b("*2\r\n$1\r\nb\r\n$1\r\nc\r\n"));
    assert_eq!(send(&mut s, 5, &["LREM", "l", "-10", "z"], 1), b(":0\r\n"));
}
