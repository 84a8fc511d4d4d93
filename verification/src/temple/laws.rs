use vstd::prelude::*;

use crate::temple::sanctum::served;
use crate::temple::soul::{expired, fetched, live, purged, Datum, Keyspace, Moment};
use crate::temple::Query;
use crate::wish::util::{decimal_int, lemma_signed_numeral_of_decimal};
use crate::wish::grant::{
    law_expire_counts_from_now, law_incrby_adds_the_increment, law_ttl_asks_now, pleas, same_name, Plea,
};
use crate::wish::util::{signed_numeral, unsigned_numeral};
use crate::wish::Reply;
use crate::temple::Ask;
use vstd::string::StringSliceAdditionalSpecFns;

verus! {

/// A string written with SET is what GET reads back, as long as it has not
/// expired.
pub proof fn law_get_after_set(
    m: Keyspace,
    key: Seq<u8>,
    value: Seq<u8>,
    expiry: Option<u64>,
    now: u64,
    m1: Keyspace,
    r1: Reply,
    m2: Keyspace,
    r2: Reply,
)
    requires
        served(m, Query::Assign { key, value: (Datum::Text(value), expiry) }, m1, r1),
        served(m1, Query::Get { key, time: now }, m2, r2),
        !expired(expiry, now),
    ensures
        r1 == Reply::Info(crate::wish::InfoType::Okay),
        r2 == Reply::BulkString(Some(value)),
{
}

/// Once its expiry time has passed, a key reads as absent, and reading it
/// drops it.
pub proof fn law_get_after_expiry(
    m: Keyspace,
    key: Seq<u8>,
    value: Seq<u8>,
    expiry: u64,
    now: u64,
    m1: Keyspace,
    r1: Reply,
    m2: Keyspace,
    r2: Reply,
)
    requires
        served(m, Query::Assign { key, value: (Datum::Text(value), Some(expiry)) }, m1, r1),
        served(m1, Query::Get { key, time: now }, m2, r2),
        expiry < now,
    ensures
        r2 == Reply::BulkString(None),
        !m2.contains_key(key),
{
}

/// A deleted key reads as absent.
pub proof fn law_get_after_del(
    m: Keyspace,
    key: Seq<u8>,
    now: u64,
    later: u64,
    m1: Keyspace,
    r1: Reply,
    m2: Keyspace,
    r2: Reply,
)
    requires
        served(m, Query::Del { keys: seq![key], time: now }, m1, r1),
        served(m1, Query::Get { key, time: later }, m2, r2),
    ensures
        r2 == Reply::BulkString(None),
        r1 == Reply::Amount(
            if crate::temple::soul::live(m, key, now) is Some {
                1u32
            } else {
                0u32
            },
        ),
{
    assert(seq![key].drop_last() =~= Seq::<Seq<u8>>::empty());
    reveal_with_fuel(crate::temple::soul::deletion, 2);
}

/// INCR on a counter that has room gives one more than the counter held,
/// and stores the new number in decimal, so the next INCR counts on from
/// it.
pub proof fn law_incr_counts(
    m: Keyspace,
    key: Seq<u8>,
    now: u64,
    m1: Keyspace,
    n1: i64,
    m2: Keyspace,
    r2: Reply,
)
    requires
        served(m, Query::Incr { key, time: now }, m1, Reply::Number(n1)),
        served(m1, Query::Incr { key, time: now }, m2, r2),
        n1 < i64::MAX,
    ensures
        r2 == Reply::Number((n1 + 1) as i64),
        m1.contains_key(key) && m1[key].0 == Datum::Text(decimal_int(n1 as int)),
{
    lemma_signed_numeral_of_decimal(n1 as int, i64::MAX as nat);
    lemma_signed_numeral_of_decimal((n1 + 1) as int, i64::MAX as nat);
    if let Some(d) = crate::temple::soul::live(m, key, now) {
        if let Datum::Text(s) = d {
            if let Some(v) = crate::wish::util::signed_numeral(s, i64::MAX as nat) {
                lemma_signed_numeral_of_decimal(v + 1, i64::MAX as nat);
            }
        }
    } else {
        lemma_signed_numeral_of_decimal(1, i64::MAX as nat);
    }
}

/// One INCR on a counter that holds `n` without an expiry time (or, for
/// zero, on an absent or expired key) answers `n + 1` and leaves `n + 1`.
proof fn lemma_incr_step(m: Keyspace, key: Seq<u8>, time: u64, n: nat, m2: Keyspace, r: Reply)
    requires
        n < i64::MAX,
        (m.contains_key(key) && m[key] == (Datum::Text(decimal_int(n as int)), None::<u64>)) || (n == 0
            && live(m, key, time) is None),
        served(m, Query::Incr { key, time }, m2, r),
    ensures
        r == Reply::Number((n + 1) as i64),
        m2.contains_key(key) && m2[key] == (Datum::Text(decimal_int(n + 1 as int)), None::<u64>),
{
    lemma_signed_numeral_of_decimal(n as int, i64::MAX as nat);
}

/// Each keyspace of `ms` goes to the next by an INCR of `key` at the
/// matching time, answered by the matching reply.
#[verifier::opaque]
spec fn incr_run(ms: Seq<Keyspace>, rs: Seq<Reply>, times: Seq<u64>, key: Seq<u8>) -> bool {
    forall|j: int|
        0 <= j < rs.len() ==> served(
            #[trigger] ms[j],
            Query::Incr { key, time: times[j] },
            ms[j + 1],
            rs[j],
        )
}

/// The first `i` INCRs of a run that starts from zero answer 1 to `i` and
/// leave `i`.
proof fn lemma_incr_prefix(ms: Seq<Keyspace>, rs: Seq<Reply>, times: Seq<u64>, key: Seq<u8>, i: int)
    requires
        0 <= i <= rs.len(),
        ms.len() == rs.len() + 1,
        times.len() == rs.len(),
        rs.len() <= i64::MAX,
        rs.len() > 0 ==> (live(ms[0], key, times[0]) is None || ms[0][key] == (
            Datum::Text(decimal_int(0)),
            None::<u64>,
        )),
        incr_run(ms, rs, times, key),
    ensures
        forall|j: int| 0 <= j < i ==> #[trigger] rs[j] == Reply::Number((j + 1) as i64),
        i > 0 ==> ms[i].contains_key(key) && ms[i][key] == (Datum::Text(decimal_int(i)), None::<u64>),
    decreases i,
{
    if i > 0 {
        lemma_incr_prefix(ms, rs, times, key, i - 1);
        assert(served(ms[i - 1], Query::Incr { key, time: times[i - 1] }, ms[i], rs[i - 1])) by {
            reveal(incr_run);
        }
        lemma_incr_step(ms[i - 1], key, times[i - 1], (i - 1) as nat, ms[i], rs[i - 1]);
    }
}

/// INCR after INCR on one key, starting from a counter that is absent (or
/// expired) or holds "0" without an expiry time: the `i`-th INCR answers
/// `i + 1`, and after `n` of them the key holds "n". No step is lost or
/// counted twice, whatever the clock reads at each step.
pub proof fn law_incr_from_zero(
    ms: Seq<Keyspace>,
    rs: Seq<Reply>,
    times: Seq<u64>,
    key: Seq<u8>,
)
    requires
        ms.len() == rs.len() + 1,
        times.len() == rs.len(),
        rs.len() <= i64::MAX,
        rs.len() > 0 ==> (live(ms[0], key, times[0]) is None || ms[0][key] == (
            Datum::Text(decimal_int(0)),
            None::<u64>,
        )),
        forall|i: int|
            0 <= i < rs.len() ==> served(
                #[trigger] ms[i],
                Query::Incr { key, time: times[i] },
                ms[i + 1],
                rs[i],
            ),
    ensures
        forall|i: int| 0 <= i < rs.len() ==> #[trigger] rs[i] == Reply::Number((i + 1) as i64),
        rs.len() > 0 ==> ms[rs.len() as int].contains_key(key) && ms[rs.len() as int][key] == (
            Datum::Text(decimal_int(rs.len() as int)),
            None::<u64>,
        ),
{
    assert(incr_run(ms, rs, times, key)) by {
        reveal(incr_run);
    }
    lemma_incr_prefix(ms, rs, times, key, rs.len() as int);
}

/// The element pushed last at the tail is the one RPOP takes.
pub proof fn law_rpop_after_rpush(
    m: Keyspace,
    key: Seq<u8>,
    element: Seq<u8>,
    now: u64,
    m1: Keyspace,
    r1: Reply,
    m2: Keyspace,
    r2: Reply,
)
    requires
        served(m, Query::Rpush { key, elements: seq![element], time: now }, m1, r1),
        served(m1, Query::Rpop { key, time: now }, m2, r2),
        !(r1 is Error),
    ensures
        r2 == Reply::BulkString(Some(element)),
{
    if let Some(Datum::Items(l)) = crate::temple::soul::live(m, key, now) {
        assert((l + seq![element]).last() == element);
    }
}

/// The element pushed last at the head is the one LPOP takes.
pub proof fn law_lpop_after_lpush(
    m: Keyspace,
    key: Seq<u8>,
    element: Seq<u8>,
    now: u64,
    m1: Keyspace,
    r1: Reply,
    m2: Keyspace,
    r2: Reply,
)
    requires
        served(m, Query::Lpush { key, elements: seq![element], time: now }, m1, r1),
        served(m1, Query::Lpop { key, time: now }, m2, r2),
        !(r1 is Error),
    ensures
        r2 == Reply::BulkString(Some(element)),
{
    assert(seq![element].reverse() =~= seq![element]);
    if let Some(Datum::Items(l)) = crate::temple::soul::live(m, key, now) {
        assert((seq![element] + l)[0] == element);
    }
}

/// A field written with HSET is what HGET reads back.
pub proof fn law_hget_after_hset(
    m: Keyspace,
    key: Seq<u8>,
    field: Seq<u8>,
    value: Seq<u8>,
    now: u64,
    m1: Keyspace,
    r1: Reply,
    m2: Keyspace,
    r2: Reply,
)
    requires
        served(m, Query::Hset { key, field_value_pairs: seq![(field, value)], time: now }, m1, r1),
        served(m1, Query::Hget { key, field, time: now }, m2, r2),
        !(r1 is Error),
    ensures
        r2 == Reply::BulkString(Some(value)),
{
    let pairs = seq![(field, value)];
    assert(pairs.drop_last() =~= Seq::<(Seq<u8>, Seq<u8>)>::empty());
}

/// A member added with SADD is reported by SISMEMBER.
pub proof fn law_sismember_after_sadd(
    m: Keyspace,
    key: Seq<u8>,
    value: Seq<u8>,
    now: u64,
    m1: Keyspace,
    r1: Reply,
    m2: Keyspace,
    r2: Reply,
)
    requires
        served(m, Query::Sadd { key, values: seq![value], time: now }, m1, r1),
        served(m1, Query::Sismember { key, value, time: now }, m2, r2),
        !(r1 is Error),
    ensures
        r2 == Reply::Length(1),
{
    let values = seq![value];
    assert(values.drop_last() =~= Seq::<Seq<u8>>::empty());
}

/// A value written with MSET is what MGET reads back.
pub proof fn law_mget_after_mset(
    m: Keyspace,
    key: Seq<u8>,
    value: Seq<u8>,
    now: u64,
    m1: Keyspace,
    r1: Reply,
    m2: Keyspace,
    r2: Reply,
)
    requires
        served(m, Query::Mset { terms: seq![key, value] }, m1, r1),
        served(m1, Query::Mget { terms: seq![key], time: now }, m2, r2),
    ensures
        r2 == Reply::BulkStringArray(Some(seq![Some(value)])),
{
    let terms = seq![key, value];
    assert(terms.skip(2) =~= Seq::<Seq<u8>>::empty());
    reveal_with_fuel(crate::temple::soul::assigned, 2);
    let keys = seq![key];
    assert(keys.drop_last() =~= Seq::<Seq<u8>>::empty());
    reveal_with_fuel(crate::temple::soul::fetched, 2);
    assert(seq![Some(value)] =~= Seq::<Option<Seq<u8>>>::empty().push(Some(value)));
}

/// The `i`-th key/value pair of MSET's `terms` names `key`.
pub open spec fn pair_names(terms: Seq<Seq<u8>>, i: int, key: Seq<u8>) -> bool {
    0 <= i && 2 * i + 1 < terms.len() && terms[2 * i] == key
}

/// A pair of `terms.skip(2)` is the next pair of `terms`.
proof fn lemma_pairs_shift(terms: Seq<Seq<u8>>, key: Seq<u8>)
    requires
        terms.len() >= 2,
    ensures
        forall|i: int| 0 <= i ==> (#[trigger] pair_names(terms.skip(2), i, key) <==> pair_names(terms, i + 1, key)),
        forall|i: int| 0 <= i && 2 * i + 1 < terms.skip(2).len() ==> #[trigger] terms.skip(2)[2 * i + 1]
            == terms[2 * i + 3],
{
    assert forall|i: int| 0 <= i implies (#[trigger] pair_names(terms.skip(2), i, key) <==> pair_names(terms, i + 1, key)) by {
        if 0 <= i && 2 * i + 1 < terms.skip(2).len() {
            assert(terms.skip(2)[2 * i] == terms[2 * i + 2]);
        }
    }
}

/// MSET leaves a key that none of its pairs names as it was.
proof fn lemma_assigned_untouched(m: Keyspace, terms: Seq<Seq<u8>>, key: Seq<u8>)
    requires
        forall|i: int| !#[trigger] pair_names(terms, i, key),
    ensures
        crate::temple::soul::assigned(m, terms).contains_key(key) == m.contains_key(key),
        m.contains_key(key) ==> crate::temple::soul::assigned(m, terms)[key] == m[key],
    decreases terms.len(),
{
    if terms.len() >= 2 {
        lemma_pairs_shift(terms, key);
        assert(!pair_names(terms, 0, key));
        assert forall|i: int| !#[trigger] pair_names(terms.skip(2), i, key) by {
            assert(!pair_names(terms, i + 1, key));
        }
        let m1 = m.insert(terms[0], (Datum::Text(terms[1]), None));
        lemma_assigned_untouched(m1, terms.skip(2), key);
    }
}

/// MSET leaves a key with the value of the last pair that names it.
proof fn lemma_assigned_last(m: Keyspace, terms: Seq<Seq<u8>>, key: Seq<u8>, i: int)
    requires
        pair_names(terms, i, key),
        forall|j: int| i < j ==> !#[trigger] pair_names(terms, j, key),
    ensures
        crate::temple::soul::assigned(m, terms).contains_key(key),
        crate::temple::soul::assigned(m, terms)[key] == (Datum::Text(terms[2 * i + 1]), None::<u64>),
    decreases terms.len(),
{
    lemma_pairs_shift(terms, key);
    let m1 = m.insert(terms[0], (Datum::Text(terms[1]), None));
    let rest = terms.skip(2);
    if i == 0 {
        assert forall|j: int| !#[trigger] pair_names(rest, j, key) by {
            if j >= 0 {
                assert(!pair_names(terms, j + 1, key));
            }
        }
        lemma_assigned_untouched(m1, rest, key);
    } else {
        assert(pair_names(rest, i - 1, key));
        assert forall|j: int| i - 1 < j implies !#[trigger] pair_names(rest, j, key) by {
            assert(!pair_names(terms, j + 1, key));
        }
        lemma_assigned_last(m1, rest, key, i - 1);
        assert(rest[2 * (i - 1) + 1] == terms[2 * i + 1]);
    }
}

/// MSET, key by key: a key named by one or more pairs holds, without expiry,
/// the value of the last pair that names it, whatever it held before; a key
/// that no pair names (a trailing key without a value among them) is left
/// as it was.
pub proof fn law_mset_last_write_wins(m: Keyspace, terms: Seq<Seq<u8>>, key: Seq<u8>)
    ensures
        forall|i: int|
            #![trigger pair_names(terms, i, key)]
            pair_names(terms, i, key) && (forall|j: int| i < j ==> !#[trigger] pair_names(terms, j, key))
                ==> crate::temple::soul::assigned(m, terms).contains_key(key)
                && crate::temple::soul::assigned(m, terms)[key] == (
                Datum::Text(terms[2 * i + 1]),
                None::<u64>,
            ),
        (forall|i: int| !#[trigger] pair_names(terms, i, key)) ==> {
            &&& crate::temple::soul::assigned(m, terms).contains_key(key) == m.contains_key(key)
            &&& m.contains_key(key) ==> crate::temple::soul::assigned(m, terms)[key] == m[key]
        },
{
    assert forall|i: int|
        #![trigger pair_names(terms, i, key)]
        pair_names(terms, i, key) && (forall|j: int| i < j ==> !#[trigger] pair_names(terms, j, key))
            implies crate::temple::soul::assigned(m, terms).contains_key(key)
            && crate::temple::soul::assigned(m, terms)[key] == (
            Datum::Text(terms[2 * i + 1]),
            None::<u64>,
        ) by {
        lemma_assigned_last(m, terms, key, i);
    }
    if forall|i: int| !#[trigger] pair_names(terms, i, key) {
        lemma_assigned_untouched(m, terms, key);
    }
}

/// An expired entry dropped under one key changes what no key reads.
proof fn lemma_purged_live(m: Keyspace, a: Seq<u8>, now: u64)
    ensures
        forall|k: Seq<u8>| #[trigger] live(purged(m, a, now), k, now) == live(m, k, now),
{
}

/// MGET, index by index: it answers one entry per key named, the string
/// under that key where it holds a live one and nothing where it is
/// missing, expired or not a string; it drops the expired entries among
/// the keys named and changes nothing else.
pub proof fn law_mget_per_key(m: Keyspace, keys: Seq<Seq<u8>>, now: u64)
    ensures
        fetched(m, keys, now).1.len() == keys.len(),
        forall|i: int|
            0 <= i < keys.len() ==> #[trigger] fetched(m, keys, now).1[i] == match live(
                m,
                keys[i],
                now,
            ) {
                Some(Datum::Text(s)) => Some(s),
                _ => None,
            },
        forall|k: Seq<u8>|
            #[trigger] fetched(m, keys, now).0.contains_key(k) <==> m.contains_key(k) && !(keys.contains(k)
                && expired(m[k].1, now)),
        forall|k: Seq<u8>| #[trigger] fetched(m, keys, now).0.contains_key(k) ==> fetched(m, keys, now).0[k] == m[k],
    decreases keys.len(),
{
    if keys.len() > 0 {
        let init = keys.drop_last();
        let last = keys.last();
        law_mget_per_key(m, init, now);
        let m1 = fetched(m, init, now).0;
        lemma_purged_live(m, last, now);
        assert forall|k: Seq<u8>| #[trigger] live(m1, k, now) == live(m, k, now) by {
            if m.contains_key(k) && !(init.contains(k) && expired(m[k].1, now)) {
                assert(m1.contains_key(k));
            } else if m.contains_key(k) {
                assert(!m1.contains_key(k));
            } else {
                assert(!m1.contains_key(k));
            }
        }
        assert forall|i: int| 0 <= i < keys.len() implies #[trigger] fetched(m, keys, now).1[i] == match live(
            m,
            keys[i],
            now,
        ) {
            Some(Datum::Text(s)) => Some(s),
            _ => None,
        } by {
            if i < keys.len() - 1 {
                assert(init[i] == keys[i]);
            }
        }
        assert forall|k: Seq<u8>| keys.contains(k) <==> init.contains(k) || k == last by {
            if keys.contains(k) {
                let j = choose|j: int| 0 <= j < keys.len() && keys[j] == k;
                if j < keys.len() - 1 {
                    assert(init[j] == k);
                }
            }
            if init.contains(k) {
                let j = choose|j: int| 0 <= j < init.len() && init[j] == k;
                assert(keys[j] == k);
            }
            if k == last {
                assert(keys[keys.len() - 1] == k);
            }
        }
    }
}

/// Right after EXPIRE gives a key an expiry time, TTL tells the seconds
/// until then.
pub proof fn law_ttl_after_expire(
    m: Keyspace,
    key: Seq<u8>,
    expiry: u64,
    now: u64,
    m1: Keyspace,
    m2: Keyspace,
    r2: Reply,
)
    requires
        served(m, Query::Expire { key, expiry, time: now }, m1, Reply::Amount(1)),
        served(m1, Query::Ttl { key, time: Moment { secs: now, nanos: 0 } }, m2, r2),
        now <= expiry <= i64::MAX,
    ensures
        r2 == Reply::Number((expiry - now) as i64),
{
}

/// APPEND extends the string that GET then reads.
pub proof fn law_get_after_append(
    m: Keyspace,
    key: Seq<u8>,
    tail: Seq<u8>,
    now: u64,
    m1: Keyspace,
    r1: Reply,
    m2: Keyspace,
    r2: Reply,
)
    requires
        served(m, Query::Append { key, value: tail, time: now }, m1, r1),
        served(m1, Query::Get { key, time: now }, m2, r2),
        !(r1 is Error),
    ensures
        r2 == Reply::BulkString(
            Some(
                match crate::temple::soul::live(m, key, now) {
                    Some(Datum::Text(s)) => s + tail,
                    _ => tail,
                },
            ),
        ),
{
}

/// EXISTS counts a key once per mention: naming a live key twice counts
/// two.
pub proof fn law_exists_counts_each_mention(m: Keyspace, key: Seq<u8>, now: u64)
    ensures
        crate::temple::soul::probing(m, seq![key, key], now).1 == if crate::temple::soul::live(
            m,
            key,
            now,
        ) is Some {
            2nat
        } else {
            0nat
        },
{
    let keys = seq![key, key];
    assert(keys.drop_last() =~= seq![key]);
    assert(seq![key].drop_last() =~= Seq::<Seq<u8>>::empty());
    reveal_with_fuel(crate::temple::soul::probing, 3);
}

/// LRANGE from 0 to -1 gives the whole list.
pub proof fn law_lrange_whole_list(
    m: Keyspace,
    key: Seq<u8>,
    now: u64,
    l: Seq<Seq<u8>>,
    m1: Keyspace,
    r: Reply,
)
    requires
        crate::temple::soul::live(m, key, now) == Some(Datum::Items(l)),
        l.len() <= i32::MAX,
        served(m, Query::Lrange { key, starting_index: 0i32, ending_index: -1i32, time: now }, m1, r),
    ensures
        r == Reply::BulkStringArray(Some(crate::temple::soul::present(l))),
{
    assert(l.subrange(0, l.len() as int) =~= l);
    if l.len() == 0 {
        assert(crate::temple::soul::present(l) =~= Seq::<Option<Seq<u8>>>::empty());
    }
}

/// Without `n` left to remove, no more elements are taken; with at least as
/// many as the list is long, none equal to `x` remain.
proof fn lemma_without_first_clears(l: Seq<Seq<u8>>, x: Seq<u8>, n: nat)
    requires
        n >= l.len(),
    ensures
        !crate::temple::soul::without_first(l, x, n).contains(x),
    decreases l.len(),
{
    if l.len() > 0 {
        let rest = l.drop_first();
        if l[0] == x && n > 0 {
            lemma_without_first_clears(rest, x, (n - 1) as nat);
        } else {
            lemma_without_first_clears(rest, x, n);
            let w = crate::temple::soul::without_first(rest, x, n);
            assert forall|i: int| 0 <= i < (seq![l[0]] + w).len() implies (seq![l[0]] + w)[i] != x by {
                if i > 0 {
                    assert((seq![l[0]] + w)[i] == w[i - 1]);
                }
            }
        }
    }
}

/// LREM with a count of zero removes every occurrence of the element.
pub proof fn law_lrem_zero_removes_all(l: Seq<Seq<u8>>, x: Seq<u8>)
    ensures
        !crate::temple::soul::lrem_rest(l, x, 0).contains(x),
{
    lemma_without_first_clears(l, x, l.len());
}

/// `s` with every element equal to `x` taken out, the others in order.
pub open spec fn stripped(s: Seq<Seq<u8>>, x: Seq<u8>) -> Seq<Seq<u8>>
    decreases s.len(),
{
    if s.len() == 0 {
        s
    } else if s[0] == x {
        stripped(s.drop_first(), x)
    } else {
        seq![s[0]] + stripped(s.drop_first(), x)
    }
}

/// How many elements of `s` equal `x`.
pub open spec fn occurrences(s: Seq<Seq<u8>>, x: Seq<u8>) -> nat
    decreases s.len(),
{
    if s.len() == 0 {
        0
    } else {
        (if s[0] == x { 1nat } else { 0nat }) + occurrences(s.drop_first(), x)
    }
}

/// Stripping and counting split over a concatenation, and stripping removes
/// exactly the counted elements.
proof fn lemma_stripped_concat(a: Seq<Seq<u8>>, b: Seq<Seq<u8>>, x: Seq<u8>)
    ensures
        stripped(a + b, x) == stripped(a, x) + stripped(b, x),
        occurrences(a + b, x) == occurrences(a, x) + occurrences(b, x),
    decreases a.len(),
{
    if a.len() == 0 {
        assert(a + b =~= b);
        assert(stripped(a, x) + stripped(b, x) =~= stripped(b, x));
    } else {
        assert((a + b).drop_first() =~= a.drop_first() + b);
        assert((a + b)[0] == a[0]);
        lemma_stripped_concat(a.drop_first(), b, x);
        if a[0] != x {
            assert(seq![a[0]] + (stripped(a.drop_first(), x) + stripped(b, x)) =~= (seq![a[0]]
                + stripped(a.drop_first(), x)) + stripped(b, x));
        }
    }
}

/// What stripping leaves is as long as the elements not equal to `x`, and a
/// sequence without `x` is left as it is.
proof fn lemma_stripped_len(s: Seq<Seq<u8>>, x: Seq<u8>)
    ensures
        stripped(s, x).len() == s.len() - occurrences(s, x),
        occurrences(s, x) <= s.len(),
        occurrences(s, x) == 0 ==> stripped(s, x) == s,
    decreases s.len(),
{
    if s.len() > 0 {
        lemma_stripped_len(s.drop_first(), x);
        if s[0] != x {
            assert(seq![s[0]] + s.drop_first() =~= s);
        }
    }
}

/// Taking none from the head leaves the list as it is.
proof fn lemma_without_first_none(l: Seq<Seq<u8>>, x: Seq<u8>)
    ensures
        crate::temple::soul::without_first(l, x, 0) == l,
    decreases l.len(),
{
    if l.len() > 0 {
        lemma_without_first_none(l.drop_first(), x);
        assert(seq![l[0]] + l.drop_first() =~= l);
    }
}

/// Taking none from the tail leaves the list as it is.
proof fn lemma_without_last_none(l: Seq<Seq<u8>>, x: Seq<u8>)
    ensures
        crate::temple::soul::without_last(l, x, 0) == l,
    decreases l.len(),
{
    if l.len() > 0 {
        lemma_without_last_none(l.drop_last(), x);
        assert(l.drop_last().push(l.last()) =~= l);
    }
}

/// Removing up to `n` occurrences from the head cuts the list in two: the
/// occurrences in the front part are all removed, the back part is kept.
proof fn lemma_without_first_cut(l: Seq<Seq<u8>>, x: Seq<u8>, n: nat) -> (k: int)
    ensures
        0 <= k <= l.len(),
        occurrences(l.take(k), x) == if n < occurrences(l, x) { n } else { occurrences(l, x) },
        crate::temple::soul::without_first(l, x, n) == stripped(l.take(k), x) + l.skip(k),
    decreases l.len(),
{
    if l.len() == 0 || n == 0 {
        lemma_without_first_none(l, x);
        assert(l.take(0) =~= Seq::<Seq<u8>>::empty());
        assert(l.skip(0) =~= l);
        assert(stripped(l.take(0), x) + l.skip(0) =~= l);
        0
    } else {
        let rest = l.drop_first();
        let m: nat = if l[0] == x { (n - 1) as nat } else { n };
        let k1 = lemma_without_first_cut(rest, x, m);
        let k = k1 + 1;
        assert(l.take(k).drop_first() =~= rest.take(k1));
        assert(l.take(k)[0] == l[0]);
        assert(l.skip(k) =~= rest.skip(k1));
        if l[0] != x {
            assert(seq![l[0]] + (stripped(rest.take(k1), x) + rest.skip(k1)) =~= (seq![l[0]]
                + stripped(rest.take(k1), x)) + rest.skip(k1));
        }
        k
    }
}

/// Removing up to `n` occurrences from the tail cuts the list in two: the
/// front part is kept, the occurrences in the back part are all removed.
proof fn lemma_without_last_cut(l: Seq<Seq<u8>>, x: Seq<u8>, n: nat) -> (k: int)
    ensures
        0 <= k <= l.len(),
        occurrences(l.skip(k), x) == if n < occurrences(l, x) { n } else { occurrences(l, x) },
        crate::temple::soul::without_last(l, x, n) == l.take(k) + stripped(l.skip(k), x),
    decreases l.len(),
{
    if l.len() == 0 || n == 0 {
        lemma_without_last_none(l, x);
        let e = Seq::<Seq<u8>>::empty();
        assert(l.take(l.len() as int) =~= l);
        assert(l.skip(l.len() as int) =~= e);
        assert(l + e =~= l);
        if l.len() > 0 {
            lemma_stripped_concat(l.drop_last(), seq![l.last()], x);
            assert(l.drop_last() + seq![l.last()] =~= l);
        }
        l.len() as int
    } else {
        let init = l.drop_last();
        let e = l.last();
        let m: nat = if e == x { (n - 1) as nat } else { n };
        let k = lemma_without_last_cut(init, x, m);
        assert(init + seq![e] =~= l);
        lemma_stripped_concat(init, seq![e], x);
        assert(l.take(k) =~= init.take(k));
        assert(l.skip(k) =~= init.skip(k) + seq![e]);
        lemma_stripped_concat(init.skip(k), seq![e], x);
        assert(seq![e].drop_first() =~= Seq::<Seq<u8>>::empty());
        assert(seq![e][0] == e);
        assert(stripped(Seq::<Seq<u8>>::empty(), x) == Seq::<Seq<u8>>::empty());
        assert(occurrences(Seq::<Seq<u8>>::empty(), x) == 0);
        assert(occurrences(seq![e], x) == if e == x { 1nat } else { 0nat });
        if e != x {
            assert(stripped(seq![e], x) =~= seq![e]);
            assert((init.take(k) + stripped(init.skip(k), x)).push(e) =~= init.take(k) + (stripped(
                init.skip(k),
                x,
            ) + seq![e]));
        } else {
            assert(stripped(seq![e], x) =~= Seq::<Seq<u8>>::empty());
            assert(stripped(init.skip(k), x) + Seq::<Seq<u8>>::empty() =~= stripped(init.skip(k), x));
        }
        k
    }
}

/// LREM, by the positions of the occurrences of `x` in `l`: with a count of
/// zero every occurrence goes; with a positive count the first `count` of
/// them go (all of them if there are fewer), with a negative count the last
/// `-count` of them. The number removed is the length lost, and every other
/// element stays, in its order.
pub proof fn law_lrem_by_occurrence(l: Seq<Seq<u8>>, x: Seq<u8>, count: int)
    ensures
        ({
            let rest = crate::temple::soul::lrem_rest(l, x, count);
            let all = occurrences(l, x);
            let wanted: nat = if count < 0 { (-count) as nat } else { count as nat };
            let r: nat = if count == 0 || all < wanted { all } else { wanted };
            &&& l.len() - rest.len() == r
            &&& count == 0 ==> rest == stripped(l, x)
            &&& count > 0 ==> exists|k: int|
                0 <= k <= l.len() && occurrences(#[trigger] l.take(k), x) == r && rest == stripped(
                    l.take(k),
                    x,
                ) + l.skip(k)
            &&& count < 0 ==> exists|k: int|
                0 <= k <= l.len() && occurrences(#[trigger] l.skip(k), x) == r && rest == l.take(k)
                    + stripped(l.skip(k), x)
        }),
{
    let rest = crate::temple::soul::lrem_rest(l, x, count);
    lemma_stripped_len(l, x);
    if count < 0 {
        let k = lemma_without_last_cut(l, x, (-count) as nat);
        assert(l.take(k) + l.skip(k) =~= l);
        lemma_stripped_concat(l.take(k), l.skip(k), x);
        lemma_stripped_len(l.skip(k), x);
        assert(rest == l.take(k) + stripped(l.skip(k), x));
    } else {
        let n: nat = if count > 0 { count as nat } else { l.len() };
        let k = lemma_without_first_cut(l, x, n);
        assert(l.take(k) + l.skip(k) =~= l);
        lemma_stripped_concat(l.take(k), l.skip(k), x);
        lemma_stripped_len(l.take(k), x);
        lemma_stripped_len(l.skip(k), x);
        assert(rest == stripped(l.take(k), x) + l.skip(k));
    }
}

/// Removing a member that SADD has just added leaves the set as it was.
pub proof fn law_srem_undoes_sadd(s: Set<Seq<u8>>, v: Seq<u8>)
    requires
        !s.contains(v),
    ensures
        crate::temple::soul::members_removed(
            crate::temple::soul::members_added(s, seq![v]).0,
            seq![v],
        ).0 == s,
{
    assert(seq![v].drop_last() =~= Seq::<Seq<u8>>::empty());
    reveal_with_fuel(crate::temple::soul::members_added, 2);
    reveal_with_fuel(crate::temple::soul::members_removed, 2);
    assert(s.insert(v).remove(v) =~= s);
}

/// Deleting a field that HSET has just created leaves the hash as it was.
pub proof fn law_hdel_undoes_hset(h: Map<Seq<u8>, Seq<u8>>, field: Seq<u8>, value: Seq<u8>)
    requires
        !h.contains_key(field),
    ensures
        crate::temple::soul::fields_removed(
            crate::temple::soul::fields_set(h, seq![(field, value)]).0,
            seq![field],
        ).0 == h,
{
    assert(seq![(field, value)].drop_last() =~= Seq::<(Seq<u8>, Seq<u8>)>::empty());
    assert(seq![field].drop_last() =~= Seq::<Seq<u8>>::empty());
    reveal_with_fuel(crate::temple::soul::fields_set, 2);
    reveal_with_fuel(crate::temple::soul::fields_removed, 2);
    assert(h.insert(field, value).remove(field) =~= h);
}

/// LPOP right after LPUSH of one element onto a live, non-empty list leaves
/// the keyspace as it was.
pub proof fn law_lpop_undoes_lpush(
    m: Keyspace,
    key: Seq<u8>,
    element: Seq<u8>,
    now: u64,
    m1: Keyspace,
    r1: Reply,
    m2: Keyspace,
    r2: Reply,
)
    requires
        crate::temple::soul::live(m, key, now) matches Some(Datum::Items(l)) && l.len() > 0,
        served(m, Query::Lpush { key, elements: seq![element], time: now }, m1, r1),
        served(m1, Query::Lpop { key, time: now }, m2, r2),
    ensures
        m2 == m,
{
    assert(seq![element].reverse() =~= seq![element]);
    if let Some(Datum::Items(l)) = crate::temple::soul::live(m, key, now) {
        assert((seq![element] + l).drop_first() =~= l);
        assert(m2 =~= m);
    }
}

/// A request INCRBY k d, on a key holding the decimal numeral of `n`,
/// answers `n + v` where `v` is the value of `d`, and leaves the numeral of
/// `n + v` under the key.
pub proof fn law_incrby_through_dispatch(
    t: Seq<Seq<u8>>,
    now: Moment,
    v: int,
    n: int,
    m: Keyspace,
    q: Query,
    m2: Keyspace,
    r: Reply,
)
    requires
        t.len() == 3,
        same_name(t[0], "INCRBY".spec_bytes()),
        signed_numeral(t[2], i64::MAX as nat) == Some(v),
        live(m, t[1], now.secs) == Some(Datum::Text(decimal_int(n))),
        -i64::MAX <= n <= i64::MAX,
        i64::MIN <= n + v <= i64::MAX,
        pleas(t, now)[0] == Plea::Consult(Ask::Database(q)),
        served(m, q, m2, r),
    ensures
        r == Reply::Number((n + v) as i64),
        m2.contains_key(t[1]) && m2[t[1]].0 == Datum::Text(decimal_int(n + v)),
{
    law_incrby_adds_the_increment(t, now, v);
    lemma_signed_numeral_of_decimal(n, i64::MAX as nat);
}

/// A request EXPIRE k s on a live key, then TTL k at the same second,
/// answers 1 and then `s`: the expiry time counts from the moment of the
/// request.
pub proof fn law_expire_then_ttl_through_dispatch(
    t: Seq<Seq<u8>>,
    ttl: Seq<Seq<u8>>,
    now: Moment,
    e: nat,
    m: Keyspace,
    q1: Query,
    m1: Keyspace,
    r1: Reply,
    q2: Query,
    m2: Keyspace,
    r2: Reply,
)
    requires
        t.len() == 3,
        same_name(t[0], "EXPIRE".spec_bytes()),
        unsigned_numeral(t[2], u64::MAX as nat) == Some(e),
        now.secs + e <= i64::MAX,
        now.nanos == 0,
        live(m, t[1], now.secs) is Some,
        pleas(t, now)[0] == Plea::Consult(Ask::Database(q1)),
        served(m, q1, m1, r1),
        ttl.len() == 2,
        same_name(ttl[0], "TTL".spec_bytes()),
        ttl[1] == t[1],
        pleas(ttl, now)[0] == Plea::Consult(Ask::Database(q2)),
        served(m1, q2, m2, r2),
    ensures
        r1 == Reply::Amount(1),
        r2 == Reply::Number(e as i64),
{
    law_expire_counts_from_now(t, now, e);
    law_ttl_asks_now(ttl, now);
}

/// HEXISTS answers 1 exactly when the live hash under the key has the
/// field, and 0 when it lacks it or the key holds nothing.
pub proof fn law_hexists_tells_presence(
    m: Keyspace,
    key: Seq<u8>,
    field: Seq<u8>,
    now: u64,
    m2: Keyspace,
    r: Reply,
)
    requires
        served(m, Query::Hexists { key, field, time: now }, m2, r),
    ensures
        live(m, key, now) is None ==> r == Reply::Amount(0),
        forall|h: Map<Seq<u8>, Seq<u8>>|
            live(m, key, now) == Some(Datum::Fields(h)) ==> (r == Reply::Amount(1) <==> h.contains_key(field))
                && (r == Reply::Amount(0) <==> !h.contains_key(field)),
{
}

/// A field just written with HSET is reported present by HEXISTS.
pub proof fn law_hexists_after_hset(
    m: Keyspace,
    key: Seq<u8>,
    field: Seq<u8>,
    value: Seq<u8>,
    now: u64,
    m1: Keyspace,
    r1: Reply,
    m2: Keyspace,
    r2: Reply,
)
    requires
        served(m, Query::Hset { key, field_value_pairs: seq![(field, value)], time: now }, m1, r1),
        served(m1, Query::Hexists { key, field, time: now }, m2, r2),
        !(r1 is Error),
    ensures
        r2 == Reply::Amount(1),
{
    let pairs = seq![(field, value)];
    assert(pairs.drop_last() =~= Seq::<(Seq<u8>, Seq<u8>)>::empty());
}

/// LRANGE with indices inside the list, counted from the head when not
/// negative and from the tail (-1 the last) when negative, gives the
/// elements from the first position through the second, both included;
/// an end past the list stops at its last element, and a start after the
/// end gives none.
pub proof fn law_lrange_inclusive(
    m: Keyspace,
    key: Seq<u8>,
    l: Seq<Seq<u8>>,
    start: i32,
    end: i32,
    now: u64,
    m2: Keyspace,
    r: Reply,
)
    requires
        live(m, key, now) == Some(Datum::Items(l)),
        l.len() <= i32::MAX,
        served(m, Query::Lrange { key, starting_index: start, ending_index: end, time: now }, m2, r),
    ensures
        ({
            let len = l.len() as int;
            let a = if start < 0 { start + len } else { start as int };
            let b = if end < 0 { end + len } else { end as int };
            &&& 0 <= a <= b < len ==> r == Reply::BulkStringArray(
                Some(crate::temple::soul::present(l.subrange(a, b + 1))),
            )
            &&& 0 <= a < len < b ==> r == Reply::BulkStringArray(
                Some(crate::temple::soul::present(l.subrange(a, len))),
            )
            &&& 0 <= b < a < len ==> r == Reply::BulkStringArray(Some(Seq::empty()))
        }),
{
}

/// INCR, INCRBY d and DECR add 1, d and -1 to the number a key holds as a
/// decimal numeral, answer the sum and store its numeral, keeping the
/// key's expiry time; a key that holds nothing counts as 0 and gets no
/// expiry time.
pub proof fn law_counters_add_their_step(
    m: Keyspace,
    key: Seq<u8>,
    now: u64,
    q: Query,
    d: int,
    m2: Keyspace,
    r: Reply,
)
    requires
        (q == (Query::Incr { key, time: now }) && d == 1) || (q == (Query::Decr { key, time: now }) && d
            == -1) || (q matches Query::Incrby { key: k, number, time } && k == key && time == now && number
            == d),
        served(m, q, m2, r),
    ensures
        live(m, key, now) is None ==> r == Reply::Number(d as i64) && m2 == m.insert(
            key,
            (Datum::Text(decimal_int(d)), None),
        ),
        forall|n: int|
            live(m, key, now) == Some(Datum::Text(decimal_int(n))) && -i64::MAX <= n <= i64::MAX && i64::MIN
                <= n + d <= i64::MAX ==> r == Reply::Number((n + d) as i64) && m2 == m.insert(
                key,
                (Datum::Text(decimal_int(n + d)), m[key].1),
            ),
{
    assert forall|n: int|
        live(m, key, now) == Some(Datum::Text(decimal_int(n))) && -i64::MAX <= n <= i64::MAX && i64::MIN <= n + d
            <= i64::MAX implies r == Reply::Number((n + d) as i64) && m2 == m.insert(
        key,
        (Datum::Text(decimal_int(n + d)), m[key].1),
    ) by {
        lemma_signed_numeral_of_decimal(n, i64::MAX as nat);
    }
}

/// LINDEX i names the element at position i from the head when i is not
/// negative and at position -i from the tail (-1 the last) when it is;
/// an index outside the list names nothing.
pub proof fn law_lindex_positions(
    m: Keyspace,
    key: Seq<u8>,
    l: Seq<Seq<u8>>,
    index: i32,
    now: u64,
    m2: Keyspace,
    r: Reply,
)
    requires
        live(m, key, now) == Some(Datum::Items(l)),
        l.len() <= i32::MAX,
        served(m, Query::Lindex { key, index, time: now }, m2, r),
    ensures
        0 <= index < l.len() ==> r == Reply::BulkString(Some(l[index as int])),
        -l.len() <= index < 0 ==> r == Reply::BulkString(Some(l[l.len() + index])),
        index >= l.len() || index < -l.len() ==> r == Reply::BulkString(None),
        m2 == m,
{
}

} // verus!
