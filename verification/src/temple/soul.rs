use std::collections::VecDeque;

use vstd::prelude::*;

use crate::temple::table::{ByteMap, ByteSet};
use crate::wish::util::{bytes_eq, bytes_to_i64, decimal_int, decimal_text, signed_numeral};
use crate::wish::{Command, Sacrilege};

verus! {

broadcast use vstd::seq_lib::group_seq_properties;

/// A stored value.
pub enum Value {
    String(Vec<u8>),
    List(VecDeque<Vec<u8>>),
    Hash(ByteMap<Vec<u8>>),
    Members(ByteSet),
}

/// What a stored value holds, as mathematics.
pub enum Datum {
    /// A byte string.
    Text(Seq<u8>),
    /// A list of byte strings, head first.
    Items(Seq<Seq<u8>>),
    /// A map from field names to byte strings.
    Fields(Map<Seq<u8>, Seq<u8>>),
    /// A set of byte strings.
    Members(Set<Seq<u8>>),
}

/// The elements of a list, head first.
pub open spec fn list_view(l: VecDeque<Vec<u8>>) -> Seq<Seq<u8>> {
    l@.map_values(|v: Vec<u8>| v@)
}

impl View for Value {
    type V = Datum;

    open spec fn view(&self) -> Datum {
        match self {
            Value::String(s) => Datum::Text(s@),
            Value::List(l) => Datum::Items(list_view(*l)),
            Value::Hash(h) => Datum::Fields(h@),
            Value::Members(s) => Datum::Members(s@),
        }
    }
}

impl Value {
    /// Hashes and sets list no field or member twice.
    pub open spec fn wf(self) -> bool {
        match self {
            Value::Hash(h) => h.wf(),
            Value::Members(s) => s.wf(),
            _ => true,
        }
    }

    /// Checks that a hash or set lists no field or member twice.
    pub fn well_formed(&self) -> (r: bool)
        ensures
            r == self.wf(),
    {
        match self {
            Value::Hash(h) => h.distinct_keys(),
            Value::Members(s) => s.distinct_members(),
            _ => true,
        }
    }
}

/// Failures of taking a snapshot of the keyspace.
pub enum ServerError {
    SerializationError(String),
    FileWriteError(String),
    ValueNotSet,
}

/// The keyspace as mathematics: each key maps to its value and its
/// expiry time in seconds, if it has one.
pub type Keyspace = Map<Seq<u8>, (Datum, Option<u64>)>;

/// An expiry time lies in the past when it is strictly before `now`.
pub open spec fn expired(expiry: Option<u64>, now: u64) -> bool {
    match expiry {
        Some(e) => e < now,
        None => false,
    }
}

/// The value under `key` at time `now`, if it exists and has not expired.
pub open spec fn live(m: Keyspace, key: Seq<u8>, now: u64) -> Option<Datum> {
    if m.contains_key(key) && !expired(m[key].1, now) {
        Some(m[key].0)
    } else {
        None
    }
}

/// The keyspace after an expired entry under `key` has been dropped.
pub open spec fn purged(m: Keyspace, key: Seq<u8>, now: u64) -> Keyspace {
    if m.contains_key(key) && expired(m[key].1, now) {
        m.remove(key)
    } else {
        m
    }
}

/// Deleting `keys` one after another: the resulting keyspace and how many
/// of them held a live value.
pub open spec fn deletion(m: Keyspace, keys: Seq<Seq<u8>>, now: u64) -> (Keyspace, nat)
    decreases keys.len(),
{
    if keys.len() == 0 {
        (m, 0)
    } else {
        let (m1, c) = deletion(m, keys.drop_last(), now);
        let k = keys.last();
        (m1.remove(k), c + if live(m1, k, now) is Some { 1nat } else { 0nat })
    }
}

/// Probing `keys` one after another: the keyspace with the expired ones
/// dropped and how many probes found a live value (a key named twice
/// counts twice).
pub open spec fn probing(m: Keyspace, keys: Seq<Seq<u8>>, now: u64) -> (Keyspace, nat)
    decreases keys.len(),
{
    if keys.len() == 0 {
        (m, 0)
    } else {
        let (m1, c) = probing(m, keys.drop_last(), now);
        let k = keys.last();
        (purged(m1, k, now), c + if live(m1, k, now) is Some { 1nat } else { 0nat })
    }
}

/// Adding `delta` to the integer stored as a string under `key`: the
/// resulting keyspace and the reply. An absent key counts as zero; the
/// expiry time of an existing key is kept.
pub open spec fn counted(m: Keyspace, key: Seq<u8>, now: u64, delta: int, cmd: Command) -> (
    Keyspace,
    Result<i64, Sacrilege>,
) {
    match live(m, key, now) {
        Some(Datum::Text(s)) => match signed_numeral(s, i64::MAX as nat) {
            Some(n) => if i64::MIN <= n + delta <= i64::MAX {
                (
                    m.insert(key, (Datum::Text(decimal_int(n + delta)), m[key].1)),
                    Ok((n + delta) as i64),
                )
            } else {
                (m, Err(Sacrilege::IncorrectUsage(cmd)))
            },
            None => (m, Err(Sacrilege::IncorrectUsage(cmd))),
        },
        Some(_) => (m, Err(Sacrilege::IncorrectUsage(cmd))),
        None => (m.insert(key, (Datum::Text(decimal_int(delta)), None)), Ok(delta as i64)),
    }
}

/// The value of `field` in `h`, if it has one.
pub open spec fn lookup(h: Map<Seq<u8>, Seq<u8>>, field: Seq<u8>) -> Option<Seq<u8>> {
    if h.contains_key(field) {
        Some(h[field])
    } else {
        None
    }
}

/// The views of field/value pairs.
pub open spec fn pairs_view(s: Seq<(Vec<u8>, Vec<u8>)>) -> Seq<(Seq<u8>, Seq<u8>)> {
    s.map_values(|p: (Vec<u8>, Vec<u8>)| (p.0@, p.1@))
}

/// Setting `pairs` one after another in `h`: the resulting map and how many
/// of the fields were new.
pub open spec fn fields_set(h: Map<Seq<u8>, Seq<u8>>, pairs: Seq<(Seq<u8>, Seq<u8>)>) -> (
    Map<Seq<u8>, Seq<u8>>,
    nat,
)
    decreases pairs.len(),
{
    if pairs.len() == 0 {
        (h, 0)
    } else {
        let (h1, c) = fields_set(h, pairs.drop_last());
        let (f, v) = pairs.last();
        (h1.insert(f, v), c + if h1.contains_key(f) { 0nat } else { 1nat })
    }
}

/// Removing `fields` one after another from `h`: the resulting map and how
/// many were present.
pub open spec fn fields_removed(h: Map<Seq<u8>, Seq<u8>>, fields: Seq<Seq<u8>>) -> (
    Map<Seq<u8>, Seq<u8>>,
    nat,
)
    decreases fields.len(),
{
    if fields.len() == 0 {
        (h, 0)
    } else {
        let (h1, c) = fields_removed(h, fields.drop_last());
        let f = fields.last();
        (h1.remove(f), c + if h1.contains_key(f) { 1nat } else { 0nat })
    }
}

/// `flat` lists every field of `h` once, each followed by its value.
pub open spec fn lists_fields(flat: Seq<Option<Seq<u8>>>, h: Map<Seq<u8>, Seq<u8>>) -> bool {
    &&& flat.len() == 2 * h.len()
    &&& forall|i: int|
        0 <= i < h.len() ==> {
            &&& (#[trigger] flat[2 * i]) is Some
            &&& flat[2 * i + 1] is Some
            &&& h.contains_key(flat[2 * i]->0)
            &&& h[flat[2 * i]->0] == flat[2 * i + 1]->0
        }
    &&& forall|i: int, j: int|
        0 <= i < j < h.len() ==> #[trigger] flat[2 * i] != #[trigger] flat[2 * j]
}

/// `flat` lists every member of `s` once.
pub open spec fn lists_members(flat: Seq<Option<Seq<u8>>>, s: Set<Seq<u8>>) -> bool {
    &&& flat.len() == s.len()
    &&& forall|i: int| 0 <= i < flat.len() ==> (#[trigger] flat[i]) is Some && s.contains(flat[i]->0)
    &&& forall|i: int, j: int| 0 <= i < j < flat.len() ==> #[trigger] flat[i] != #[trigger] flat[j]
}

/// Adding `values` one after another to `s`: the resulting set and how many
/// were new.
pub open spec fn members_added(s: Set<Seq<u8>>, values: Seq<Seq<u8>>) -> (Set<Seq<u8>>, nat)
    decreases values.len(),
{
    if values.len() == 0 {
        (s, 0)
    } else {
        let (s1, c) = members_added(s, values.drop_last());
        let v = values.last();
        (s1.insert(v), c + if s1.contains(v) { 0nat } else { 1nat })
    }
}

/// Removing `values` one after another from `s`: the resulting set and how
/// many were members.
pub open spec fn members_removed(s: Set<Seq<u8>>, values: Seq<Seq<u8>>) -> (Set<Seq<u8>>, nat)
    decreases values.len(),
{
    if values.len() == 0 {
        (s, 0)
    } else {
        let (s1, c) = members_removed(s, values.drop_last());
        let v = values.last();
        (s1.remove(v), c + if s1.contains(v) { 1nat } else { 0nat })
    }
}

/// The keyspace after a pop left `rest` of the list under `key`: an
/// emptied list takes its key with it.
pub open spec fn shrunk(m: Keyspace, key: Seq<u8>, rest: Seq<Seq<u8>>, expiry: Option<u64>) -> Keyspace {
    if rest.len() == 0 {
        m.remove(key)
    } else {
        m.insert(key, (Datum::Items(rest), expiry))
    }
}

/// The list under `key` can be addressed with 32-bit signed indices.
pub open spec fn addressable(m: Keyspace, key: Seq<u8>, now: u64) -> bool {
    live(m, key, now) matches Some(Datum::Items(l)) ==> l.len() <= i32::MAX
}

/// The inclusive range of positions that LRANGE selects from a list of
/// `len` elements: negative indices count from the end, the start is
/// clamped at zero and an end past the length is moved to the last element.
pub open spec fn span(len: int, start: int, end: int) -> Option<(int, int)> {
    let s1 = if start < 0 { start + len } else { start };
    let e1 = if end < 0 { end + len } else { end };
    let s2 = if s1 < 0 { 0 } else { s1 };
    let e2 = if e1 > len { len - 1 } else { e1 };
    if e2 - s2 >= 0 && s2 < len && e2 < len {
        Some((s2, e2))
    } else {
        None
    }
}

/// The position that a possibly negative index names in a list of `len`
/// elements, if it names one.
pub open spec fn position(len: int, index: int) -> Option<int> {
    let i = if index < 0 { index + len } else { index };
    if i < 0 || i >= len {
        None
    } else {
        Some(i)
    }
}

/// Each element, as a present bulk string.
pub open spec fn present(s: Seq<Seq<u8>>) -> Seq<Option<Seq<u8>>> {
    s.map_values(|e: Seq<u8>| Some(e))
}

/// `l` without its first `n` elements equal to `x` (scanning from the
/// head).
pub open spec fn without_first(l: Seq<Seq<u8>>, x: Seq<u8>, n: nat) -> Seq<Seq<u8>>
    decreases l.len(),
{
    if l.len() == 0 {
        l
    } else if l[0] == x && n > 0 {
        without_first(l.drop_first(), x, (n - 1) as nat)
    } else {
        seq![l[0]] + without_first(l.drop_first(), x, n)
    }
}

/// `l` without its last `n` elements equal to `x` (scanning from the tail).
pub open spec fn without_last(l: Seq<Seq<u8>>, x: Seq<u8>, n: nat) -> Seq<Seq<u8>>
    decreases l.len(),
{
    if l.len() == 0 {
        l
    } else if l.last() == x && n > 0 {
        without_last(l.drop_last(), x, (n - 1) as nat)
    } else {
        without_last(l.drop_last(), x, n).push(l.last())
    }
}

/// What LREM leaves of `l`: a negative count removes that many occurrences
/// of `x` from the tail, a positive count from the head, zero removes all.
pub open spec fn lrem_rest(l: Seq<Seq<u8>>, x: Seq<u8>, count: int) -> Seq<Seq<u8>> {
    if count < 0 {
        without_last(l, x, (-count) as nat)
    } else if count > 0 {
        without_first(l, x, count as nat)
    } else {
        without_first(l, x, l.len())
    }
}

/// MSET: storing the key/value pairs of `terms` in order, without expiry; a
/// trailing key without a value is ignored.
pub open spec fn assigned(m: Keyspace, terms: Seq<Seq<u8>>) -> Keyspace
    decreases terms.len(),
{
    if terms.len() < 2 {
        m
    } else {
        assigned(m.insert(terms[0], (Datum::Text(terms[1]), None)), terms.skip(2))
    }
}

/// MGET: fetching the strings under `keys` one after another: the keyspace
/// with the expired ones dropped and, per key, its string if it holds one.
pub open spec fn fetched(m: Keyspace, keys: Seq<Seq<u8>>, now: u64) -> (
    Keyspace,
    Seq<Option<Seq<u8>>>,
)
    decreases keys.len(),
{
    if keys.len() == 0 {
        (m, Seq::empty())
    } else {
        let (m1, vals) = fetched(m, keys.drop_last(), now);
        let k = keys.last();
        (
            purged(m1, k, now),
            vals.push(
                match live(m1, k, now) {
                    Some(Datum::Text(s)) => Some(s),
                    _ => None,
                },
            ),
        )
    }
}

/// A point in time, as seconds and nanoseconds since the Unix epoch.
#[derive(Clone, Copy, Debug, PartialEq, Eq, Structural)]
pub struct Moment {
    pub secs: u64,
    pub nanos: u32,
}

impl Moment {
    /// The nanoseconds form part of a second.
    pub open spec fn wf(self) -> bool {
        self.nanos < 1_000_000_000
    }
}

/// TTL: the seconds (rounded down) left before `expiry`, seen at `now`;
/// `None` once the expiry time lies before `now`.
pub open spec fn remaining(expiry: u64, now: Moment) -> Option<int> {
    if expiry < now.secs || (expiry == now.secs && now.nanos > 0) {
        None
    } else if now.nanos > 0 {
        Some(expiry - now.secs - 1)
    } else {
        Some(expiry - now.secs)
    }
}

/// The keyspace: every key with its value and optional expiry time.
pub struct Soul {
    store: ByteMap<(Value, Option<u64>)>,
}

impl View for Soul {
    type V = Keyspace;

    closed spec fn view(&self) -> Keyspace {
        self.store@
    }
}

impl Soul {
    /// Every stored hash and set is well formed.
    pub closed spec fn wf(self) -> bool {
        &&& self.store.wf()
        &&& forall|x: (Value, Option<u64>)| #[trigger] self.store.items().contains(x) ==> x.0.wf()
    }

    /// An empty keyspace.
    pub fn new() -> (s: Self)
        ensures
            s.wf(),
            s@ == Keyspace::empty(),
    {
        Soul { store: ByteMap::new() }
    }

    /// The entry at `i`, as stored.
    proof fn lemma_item(self, i: int)
        requires
            self.wf(),
            0 <= i < self.store.keys().len(),
        ensures
            self.store.items()[i].0.wf(),
            self@.contains_key(self.store.keys()[i]),
            self@[self.store.keys()[i]] == self.store.items()[i]@,
    {
        self.store.lemma_view();
        assert(self.store.items().contains(self.store.items()[i]));
    }

    /// Takes out the entry at `i`.
    fn take(&mut self, i: usize) -> (r: (Vec<u8>, (Value, Option<u64>)))
        requires
            old(self).wf(),
            i < old(self).store.keys().len(),
        ensures
            final(self).wf(),
            r.1.0.wf(),
            old(self)@.contains_key(r.0@),
            old(self)@[r.0@] == r.1@,
            r.0@ == old(self).store.keys()[i as int],
            final(self)@ == old(self)@.remove(r.0@),
            final(self).store.keys() == old(self).store.keys().remove(i as int),
    {
        proof {
            self.lemma_item(i as int);
            self.store.lemma_view();
        }
        let r = self.store.take_at(i);
        proof {
            let ni = self.store.items();
            let oi = old(self).store.items();
            assert(ni == oi.remove(i as int));
            assert forall|x: (Value, Option<u64>)| #[trigger] ni.contains(x) implies x.0.wf() by {
                let j = ni.index_of(x);
                assert(0 <= j < ni.len() && ni[j] == x);
                if j < i {
                    assert(oi[j] == x);
                } else {
                    assert(oi[j + 1] == x);
                }
                assert(oi.contains(x));
            }
        }
        r
    }

    /// Puts back an entry, at position `i`, for a key that is not present.
    fn put(&mut self, i: usize, key: Vec<u8>, value: Value, expiry: Option<u64>)
        requires
            old(self).wf(),
            value.wf(),
            i <= old(self).store.keys().len(),
            !old(self)@.contains_key(key@),
        ensures
            final(self).wf(),
            final(self)@ == old(self)@.insert(key@, (value@, expiry)),
            final(self).store.keys() == old(self).store.keys().insert(i as int, key@),
    {
        let ghost entry = (value, expiry);
        proof {
            self.store.lemma_view();
        }
        self.store.put_at(i, key, (value, expiry));
        proof {
            let ni = self.store.items();
            let oi = old(self).store.items();
            assert(ni == oi.insert(i as int, entry));
            assert forall|x: (Value, Option<u64>)| #[trigger] ni.contains(x) implies x.0.wf() by {
                let j = ni.index_of(x);
                assert(0 <= j < ni.len() && ni[j] == x);
                if j < i {
                    assert(oi[j] == x);
                    assert(oi.contains(x));
                } else if j > i {
                    assert(oi[j - 1] == x);
                    assert(oi.contains(x));
                } else {
                    assert(x == entry);
                }
            }
        }
    }

    /// Stores a value under `key`, replacing whatever was there.
    fn store(&mut self, key: Vec<u8>, value: Value, expiry: Option<u64>)
        requires
            old(self).wf(),
            value.wf(),
        ensures
            final(self).wf(),
            final(self)@ == old(self)@.insert(key@, (value@, expiry)),
    {
        let ghost entry = (value, expiry);
        let _ = self.store.insert(key, (value, expiry));
        proof {
            assert forall|x: (Value, Option<u64>)| #[trigger] self.store.items().contains(x) implies x.0.wf() by {
                if x != entry {
                    assert(old(self).store.items().contains(x));
                }
            }
        }
    }

    /// Finds the live entry under `key`, dropping it first if it has
    /// expired.
    fn valid_index(&mut self, key: &[u8], now: u64) -> (r: Option<usize>)
        requires
            old(self).wf(),
        ensures
            final(self).wf(),
            final(self)@ == purged(old(self)@, key@, now),
            r is Some <==> live(old(self)@, key@, now) is Some,
            r matches Some(i) ==> {
                &&& i < final(self).store.keys().len()
                &&& final(self).store.keys()[i as int] == key@
                &&& final(self)@ == old(self)@
                &&& final(self)@[key@] == final(self).store.items()[i as int]@
                &&& final(self).store.items()[i as int].0.wf()
            },
    {
        match self.store.find(key) {
            Some(i) => {
                proof {
                    self.lemma_item(i as int);
                }
                let is_expired = match self.store.value_at(i).1 {
                    Some(expiry) => expiry < now,
                    None => false,
                };
                if is_expired {
                    let _ = self.take(i);
                    None
                } else {
                    Some(i)
                }
            },
            None => None,
        }
    }

    /// The number of entries, expired ones included.
    pub fn len(&self) -> (n: usize)
        requires
            self.wf(),
        ensures
            n == self@.len(),
    {
        self.store.len()
    }

    /// The keys in the order their entries are kept.
    pub closed spec fn listing(self) -> Seq<Seq<u8>> {
        self.store.keys()
    }

    /// The listing names every key once.
    pub proof fn lemma_listing(self)
        requires
            self.wf(),
        ensures
            self.listing().no_duplicates(),
            self.listing().to_set() == self@.dom(),
            self.listing().len() == self@.len(),
    {
        self.store.lemma_view();
    }

    /// The entry at position `i` of the listing: its key, value and expiry
    /// time.
    pub fn entry_at(&self, i: usize) -> (e: (&Vec<u8>, &Value, Option<u64>))
        requires
            self.wf(),
            i < self@.len(),
        ensures
            e.0@ == self.listing()[i as int],
            self@.contains_key(e.0@),
            self@[e.0@] == (e.1@, e.2),
            e.1.wf(),
    {
        proof {
            self.store.lemma_view();
            self.lemma_item(i as int);
        }
        let k = self.store.key_at(i);
        let entry = self.store.value_at(i);
        (k, &entry.0, entry.1)
    }

    /// A stored list is no longer than a machine word can count.
    pub proof fn lemma_list_len(self, key: Seq<u8>)
        requires
            self.wf(),
            self@.contains_key(key),
        ensures
            self@[key].0 matches Datum::Items(l) ==> l.len() <= usize::MAX,
    {
        self.store.lemma_view();
        let i = self.store.keys().index_of(key);
        self.lemma_item(i);
        match self.store.items()[i].0 {
            Value::List(d) => {
                assert(d.len() == d@.len());
            },
            _ => {},
        }
    }

    /// The expiry time stored under `key`, if there is an entry, whether or
    /// not it has passed.
    pub fn expiry_of(&self, key: &Vec<u8>) -> (r: Option<Option<u64>>)
        requires
            self.wf(),
        ensures
            r == if self@.contains_key(key@) {
                Some(self@[key@].1)
            } else {
                None::<Option<u64>>
            },
    {
        match self.store.find(key.as_slice()) {
            Some(i) => {
                proof {
                    self.lemma_item(i as int);
                }
                Some(self.store.value_at(i).1)
            },
            None => None,
        }
    }

    /// GET: the string stored under `key`.
    pub fn get(&mut self, key: Vec<u8>, now: u64) -> (r: Result<Option<Vec<u8>>, Sacrilege>)
        requires
            old(self).wf(),
        ensures
            final(self).wf(),
            final(self)@ == purged(old(self)@, key@, now),
            match live(old(self)@, key@, now) {
                Some(Datum::Text(s)) => r matches Ok(Some(v)) && v@ == s,
                Some(_) => r == Err::<Option<Vec<u8>>, Sacrilege>(
                    Sacrilege::IncorrectUsage(Command::GET),
                ),
                None => r matches Ok(None),
            },
    {
        match self.valid_index(key.as_slice(), now) {
            Some(i) => match &self.store.value_at(i).0 {
                Value::String(value) => Ok(Some(value.clone())),
                _ => Err(Sacrilege::IncorrectUsage(Command::GET)),
            },
            None => Ok(None),
        }
    }

    /// SET: stores `val` (a value and its expiry time) under `key`.
    pub fn set(&mut self, key: Vec<u8>, val: (Value, Option<u64>))
        requires
            old(self).wf(),
            val.0.wf(),
        ensures
            final(self).wf(),
            final(self)@ == old(self)@.insert(key@, val@),
    {
        let (value, expiry) = val;
        self.store(key, value, expiry);
    }

    /// APPEND: extends the string under `key` (creating it when absent) and
    /// tells its new length.
    pub fn append(&mut self, key: Vec<u8>, incoming_value: Vec<u8>, now: u64) -> (r: Result<
        usize,
        Sacrilege,
    >)
        requires
            old(self).wf(),
        ensures
            final(self).wf(),
            match live(old(self)@, key@, now) {
                Some(Datum::Text(s)) => {
                    &&& final(self)@ == old(self)@.insert(
                        key@,
                        (Datum::Text(s + incoming_value@), old(self)@[key@].1),
                    )
                    &&& r == Ok::<usize, Sacrilege>((s.len() + incoming_value@.len()) as usize)
                },
                Some(_) => {
                    &&& final(self)@ == old(self)@
                    &&& r == Err::<usize, Sacrilege>(Sacrilege::IncorrectUsage(Command::APPEND))
                },
                None => {
                    &&& final(self)@ == old(self)@.insert(key@, (Datum::Text(incoming_value@), None))
                    &&& r == Ok::<usize, Sacrilege>(incoming_value@.len() as usize)
                },
            },
    {
        let mut incoming_value = incoming_value;
        match self.valid_index(key.as_slice(), now) {
            Some(i) => {
                if let Value::String(_) = &self.store.value_at(i).0 {
                    let (k, (value, expiry)) = self.take(i);
                    if let Value::String(mut value) = value {
                        value.append(&mut incoming_value);
                        let n = value.len();
                        self.put(i, k, Value::String(value), expiry);
                        Ok(n)
                    } else {
                        proof {
                            assert(false);
                        }
                        Err(Sacrilege::IncorrectUsage(Command::APPEND))
                    }
                } else {
                    Err(Sacrilege::IncorrectUsage(Command::APPEND))
                }
            },
            None => {
                let n = incoming_value.len();
                self.store(key, Value::String(incoming_value), None);
                Ok(n)
            },
        }
    }

    /// STRLEN: the length of the string under `key` (zero when absent).
    pub fn strlen(&mut self, key: Vec<u8>, now: u64) -> (r: Result<usize, Sacrilege>)
        requires
            old(self).wf(),
        ensures
            final(self).wf(),
            final(self)@ == purged(old(self)@, key@, now),
            r == match live(old(self)@, key@, now) {
                Some(Datum::Text(s)) => Ok::<usize, Sacrilege>(s.len() as usize),
                Some(_) => Err(Sacrilege::IncorrectUsage(Command::STRLEN)),
                None => Ok(0),
            },
    {
        match self.valid_index(key.as_slice(), now) {
            Some(i) => match &self.store.value_at(i).0 {
                Value::String(value) => Ok(value.len()),
                _ => Err(Sacrilege::IncorrectUsage(Command::STRLEN)),
            },
            None => Ok(0),
        }
    }

    /// Adds `delta` to the integer under `key`; `cmd` names the command in
    /// an error.
    fn adjust(&mut self, key: Vec<u8>, delta: i64, now: u64, cmd: Command) -> (r: Result<
        i64,
        Sacrilege,
    >)
        requires
            old(self).wf(),
        ensures
            final(self).wf(),
            (final(self)@, r) == counted(old(self)@, key@, now, delta as int, cmd),
    {
        match self.valid_index(key.as_slice(), now) {
            Some(i) => {
                let number = match &self.store.value_at(i).0 {
                    Value::String(value) => match bytes_to_i64(value.as_slice()) {
                        Ok(number) => number,
                        Err(_) => {
                            return Err(Sacrilege::IncorrectUsage(cmd));
                        },
                    },
                    _ => {
                        return Err(Sacrilege::IncorrectUsage(cmd));
                    },
                };
                let number = match number.checked_add(delta) {
                    Some(number) => number,
                    None => {
                        return Err(Sacrilege::IncorrectUsage(cmd));
                    },
                };
                let (k, (_value, expiry)) = self.take(i);
                self.put(i, k, Value::String(decimal_text(number as i128)), expiry);
                Ok(number)
            },
            None => {
                self.store(key, Value::String(decimal_text(delta as i128)), None);
                Ok(delta)
            },
        }
    }

    /// INCR: adds one to the integer under `key`.
    pub fn incr(&mut self, key: Vec<u8>, now: u64) -> (r: Result<i64, Sacrilege>)
        requires
            old(self).wf(),
        ensures
            final(self).wf(),
            (final(self)@, r) == counted(old(self)@, key@, now, 1, Command::INCR),
    {
        self.adjust(key, 1, now, Command::INCR)
    }

    /// INCRBY: adds `number_to_increment_by` to the integer under `key`.
    pub fn incrby(&mut self, key: Vec<u8>, number_to_increment_by: i64, now: u64) -> (r: Result<
        i64,
        Sacrilege,
    >)
        requires
            old(self).wf(),
        ensures
            final(self).wf(),
            (final(self)@, r) == counted(
                old(self)@,
                key@,
                now,
                number_to_increment_by as int,
                Command::INCRBY,
            ),
    {
        self.adjust(key, number_to_increment_by, now, Command::INCRBY)
    }

    /// DECR: subtracts one from the integer under `key`.
    pub fn decr(&mut self, key: Vec<u8>, now: u64) -> (r: Result<i64, Sacrilege>)
        requires
            old(self).wf(),
        ensures
            final(self).wf(),
            (final(self)@, r) == counted(old(self)@, key@, now, -1, Command::DECR),
    {
        self.adjust(key, -1, now, Command::DECR)
    }

    /// Sets the pairs, in order, in the hash `h`; counts the new fields.
    fn set_fields(h: &mut ByteMap<Vec<u8>>, pairs: &Vec<(Vec<u8>, Vec<u8>)>) -> (r: u32)
        requires
            old(h).wf(),
            pairs.len() <= u32::MAX,
        ensures
            final(h).wf(),
            final(h)@ == fields_set(old(h)@, pairs_view(pairs@)).0,
            r == fields_set(old(h)@, pairs_view(pairs@)).1,
    {
        let ghost ps = pairs_view(pairs@);
        let mut new_values_added: u32 = 0;
        let mut i: usize = 0;
        while i < pairs.len()
            invariant
                i <= pairs.len(),
                pairs.len() <= u32::MAX,
                ps == pairs_view(pairs@),
                h.wf(),
                h@ == fields_set(old(h)@, ps.take(i as int)).0,
                new_values_added == fields_set(old(h)@, ps.take(i as int)).1,
                new_values_added <= i,
            decreases pairs.len() - i,
        {
            proof {
                assert(ps.take(i + 1).drop_last() =~= ps.take(i as int));
            }
            let field = pairs[i].0.clone();
            let value = pairs[i].1.clone();
            if h.insert(field, value).is_none() {
                new_values_added = new_values_added + 1;
            }
            i = i + 1;
        }
        proof {
            assert(ps.take(i as int) =~= ps);
        }
        new_values_added
    }

    /// HSET: sets fields of the hash under `key` (creating it when absent).
    /// Counts the fields that were new; for a new hash every pair counts.
    pub fn hset(&mut self, key: Vec<u8>, field_value_pairs: Vec<(Vec<u8>, Vec<u8>)>, now: u64) -> (r:
        Result<u32, Sacrilege>)
        requires
            old(self).wf(),
            field_value_pairs.len() <= u32::MAX,
        ensures
            final(self).wf(),
            match live(old(self)@, key@, now) {
                Some(Datum::Fields(h)) => {
                    let (h1, c) = fields_set(h, pairs_view(field_value_pairs@));
                    &&& final(self)@ == old(self)@.insert(key@, (Datum::Fields(h1), old(self)@[key@].1))
                    &&& r == Ok::<u32, Sacrilege>(c as u32)
                },
                Some(_) => {
                    &&& final(self)@ == old(self)@
                    &&& r == Err::<u32, Sacrilege>(Sacrilege::IncorrectUsage(Command::HSET))
                },
                None => {
                    let h1 = fields_set(Map::empty(), pairs_view(field_value_pairs@)).0;
                    &&& final(self)@ == old(self)@.insert(key@, (Datum::Fields(h1), None))
                    &&& r == Ok::<u32, Sacrilege>(field_value_pairs@.len() as u32)
                },
            },
    {
        match self.valid_index(key.as_slice(), now) {
            Some(i) => {
                if let Value::Hash(_) = &self.store.value_at(i).0 {
                    let (k, (value, expiry)) = self.take(i);
                    if let Value::Hash(mut map) = value {
                        let added = Soul::set_fields(&mut map, &field_value_pairs);
                        self.put(i, k, Value::Hash(map), expiry);
                        Ok(added)
                    } else {
                        proof {
                            assert(false);
                        }
                        Err(Sacrilege::IncorrectUsage(Command::HSET))
                    }
                } else {
                    Err(Sacrilege::IncorrectUsage(Command::HSET))
                }
            },
            None => {
                let mut map = ByteMap::new();
                let _ = Soul::set_fields(&mut map, &field_value_pairs);
                let n = field_value_pairs.len() as u32;
                self.store(key, Value::Hash(map), None);
                Ok(n)
            },
        }
    }

    /// HGET: the value of `field` in the hash under `key`.
    pub fn hget(&mut self, key: Vec<u8>, field: Vec<u8>, now: u64) -> (r: Result<
        Option<Vec<u8>>,
        Sacrilege,
    >)
        requires
            old(self).wf(),
        ensures
            final(self).wf(),
            final(self)@ == purged(old(self)@, key@, now),
            match live(old(self)@, key@, now) {
                Some(Datum::Fields(h)) => r matches Ok(o) && crate::wish::opt_bytes(o) == lookup(
                    h,
                    field@,
                ),
                Some(_) => r == Err::<Option<Vec<u8>>, Sacrilege>(
                    Sacrilege::IncorrectUsage(Command::HGET),
                ),
                None => r matches Ok(None),
            },
    {
        match self.valid_index(key.as_slice(), now) {
            Some(i) => match &self.store.value_at(i).0 {
                Value::Hash(map) => match map.get(field.as_slice()) {
                    Some(v) => Ok(Some(v.clone())),
                    None => Ok(None),
                },
                _ => Err(Sacrilege::IncorrectUsage(Command::HGET)),
            },
            None => Ok(None),
        }
    }

    /// HMGET: the values of `fields` in the hash under `key`, in order.
    pub fn hmget(&mut self, key: Vec<u8>, fields: Vec<Vec<u8>>, now: u64) -> (r: Result<
        Option<Vec<Option<Vec<u8>>>>,
        Sacrilege,
    >)
        requires
            old(self).wf(),
        ensures
            final(self).wf(),
            final(self)@ == purged(old(self)@, key@, now),
            match live(old(self)@, key@, now) {
                Some(Datum::Fields(h)) => r matches Ok(Some(vals)) && crate::wish::opt_bytes_seq(
                    vals@,
                ) == crate::wish::bytes_seq(fields@).map_values(|f: Seq<u8>| lookup(h, f)),
                Some(_) => r == Err::<Option<Vec<Option<Vec<u8>>>>, Sacrilege>(
                    Sacrilege::IncorrectUsage(Command::HMGET),
                ),
                None => r matches Ok(None),
            },
    {
        match self.valid_index(key.as_slice(), now) {
            Some(i) => match &self.store.value_at(i).0 {
                Value::Hash(map) => {
                    let ghost h = map@;
                    let mut values: Vec<Option<Vec<u8>>> = Vec::new();
                    let mut j: usize = 0;
                    while j < fields.len()
                        invariant
                            j <= fields.len(),
                            map.wf(),
                            map@ == h,
                            values.len() == j,
                            forall|t: int|
                                0 <= t < j ==> crate::wish::opt_bytes(#[trigger] values@[t]) == lookup(
                                    h,
                                    fields@[t]@,
                                ),
                        decreases fields.len() - j,
                    {
                        match map.get(fields[j].as_slice()) {
                            Some(v) => values.push(Some(v.clone())),
                            None => values.push(None),
                        }
                        j = j + 1;
                    }
                    proof {
                        assert(crate::wish::opt_bytes_seq(values@) =~= crate::wish::bytes_seq(
                            fields@,
                        ).map_values(|f: Seq<u8>| lookup(h, f)));
                    }
                    Ok(Some(values))
                },
                _ => Err(Sacrilege::IncorrectUsage(Command::HMGET)),
            },
            None => Ok(None),
        }
    }

    /// HDEL: removes `fields` from the hash under `key`; counts those that
    /// were present. A hash left empty stays in place.
    pub fn hdel(&mut self, key: Vec<u8>, fields: Vec<Vec<u8>>, now: u64) -> (r: Result<
        u32,
        Sacrilege,
    >)
        requires
            old(self).wf(),
            fields.len() <= u32::MAX,
        ensures
            final(self).wf(),
            match live(old(self)@, key@, now) {
                Some(Datum::Fields(h)) => {
                    let (h1, c) = fields_removed(h, crate::wish::bytes_seq(fields@));
                    &&& final(self)@ == old(self)@.insert(key@, (Datum::Fields(h1), old(self)@[key@].1))
                    &&& r == Ok::<u32, Sacrilege>(c as u32)
                },
                Some(_) => {
                    &&& final(self)@ == old(self)@
                    &&& r == Err::<u32, Sacrilege>(Sacrilege::IncorrectUsage(Command::HDEL))
                },
                None => {
                    &&& final(self)@ == purged(old(self)@, key@, now)
                    &&& r == Ok::<u32, Sacrilege>(0)
                },
            },
    {
        match self.valid_index(key.as_slice(), now) {
            Some(i) => {
                if let Value::Hash(_) = &self.store.value_at(i).0 {
                    let (k, (value, expiry)) = self.take(i);
                    if let Value::Hash(mut map) = value {
                        let ghost fs = crate::wish::bytes_seq(fields@);
                        let ghost h0 = map@;
                        let mut amount_of_deleted_values: u32 = 0;
                        let mut j: usize = 0;
                        while j < fields.len()
                            invariant
                                j <= fields.len(),
                                fields.len() <= u32::MAX,
                                fs == crate::wish::bytes_seq(fields@),
                                map.wf(),
                                map@ == fields_removed(h0, fs.take(j as int)).0,
                                amount_of_deleted_values == fields_removed(h0, fs.take(j as int)).1,
                                amount_of_deleted_values <= j,
                            decreases fields.len() - j,
                        {
                            proof {
                                assert(fs.take(j + 1).drop_last() =~= fs.take(j as int));
                            }
                            if map.remove(fields[j].as_slice()).is_some() {
                                amount_of_deleted_values = amount_of_deleted_values + 1;
                            }
                            j = j + 1;
                        }
                        proof {
                            assert(fs.take(j as int) =~= fs);
                        }
                        self.put(i, k, Value::Hash(map), expiry);
                        Ok(amount_of_deleted_values)
                    } else {
                        proof {
                            assert(false);
                        }
                        Err(Sacrilege::IncorrectUsage(Command::HDEL))
                    }
                } else {
                    Err(Sacrilege::IncorrectUsage(Command::HDEL))
                }
            },
            None => Ok(0),
        }
    }

    /// HEXISTS: one when the hash under `key` has `field`, zero otherwise.
    pub fn hexists(&mut self, key: Vec<u8>, field: Vec<u8>, now: u64) -> (r: Result<u32, Sacrilege>)
        requires
            old(self).wf(),
        ensures
            final(self).wf(),
            final(self)@ == purged(old(self)@, key@, now),
            r == match live(old(self)@, key@, now) {
                Some(Datum::Fields(h)) => Ok::<u32, Sacrilege>(
                    if h.contains_key(field@) {
                        1u32
                    } else {
                        0u32
                    },
                ),
                Some(_) => Err(Sacrilege::IncorrectUsage(Command::HEXISTS)),
                None => Ok(0),
            },
    {
        match self.valid_index(key.as_slice(), now) {
            Some(i) => match &self.store.value_at(i).0 {
                Value::Hash(map) => {
                    if map.get(field.as_slice()).is_some() {
                        Ok(1)
                    } else {
                        Ok(0)
                    }
                },
                _ => Err(Sacrilege::IncorrectUsage(Command::HEXISTS)),
            },
            None => Ok(0),
        }
    }

    /// HLEN: the number of fields of the hash under `key`.
    pub fn hlen(&mut self, key: Vec<u8>, now: u64) -> (r: Result<usize, Sacrilege>)
        requires
            old(self).wf(),
        ensures
            final(self).wf(),
            final(self)@ == purged(old(self)@, key@, now),
            r == match live(old(self)@, key@, now) {
                Some(Datum::Fields(h)) => Ok::<usize, Sacrilege>(h.len() as usize),
                Some(_) => Err(Sacrilege::IncorrectUsage(Command::HLEN)),
                None => Ok(0),
            },
    {
        match self.valid_index(key.as_slice(), now) {
            Some(i) => match &self.store.value_at(i).0 {
                Value::Hash(map) => Ok(map.len()),
                _ => Err(Sacrilege::IncorrectUsage(Command::HLEN)),
            },
            None => Ok(0),
        }
    }

    /// HGETALL: every field of the hash under `key`, each followed by its
    /// value.
    pub fn hgetall(&mut self, key: Vec<u8>, now: u64) -> (r: Result<
        Option<Vec<Option<Vec<u8>>>>,
        Sacrilege,
    >)
        requires
            old(self).wf(),
        ensures
            final(self).wf(),
            final(self)@ == purged(old(self)@, key@, now),
            match live(old(self)@, key@, now) {
                Some(Datum::Fields(h)) => r matches Ok(Some(flat)) && lists_fields(
                    crate::wish::opt_bytes_seq(flat@),
                    h,
                ),
                Some(_) => r == Err::<Option<Vec<Option<Vec<u8>>>>, Sacrilege>(
                    Sacrilege::IncorrectUsage(Command::HGETALL),
                ),
                None => r matches Ok(None),
            },
    {
        match self.valid_index(key.as_slice(), now) {
            Some(i) => match &self.store.value_at(i).0 {
                Value::Hash(map) => {
                    proof {
                        map.lemma_view();
                    }
                    let n = map.len();
                    let mut result: Vec<Option<Vec<u8>>> = Vec::new();
                    let mut j: usize = 0;
                    while j < n
                        invariant
                            j <= n,
                            n == map.keys().len(),
                            map.wf(),
                            result.len() == 2 * j,
                            forall|t: int|
                                0 <= t < j ==> {
                                    &&& crate::wish::opt_bytes(#[trigger] result@[2 * t]) == Some(
                                        map.keys()[t],
                                    )
                                    &&& crate::wish::opt_bytes(result@[2 * t + 1]) == Some(
                                        map.values()[t],
                                    )
                                },
                        decreases n - j,
                    {
                        let f = map.key_at(j).clone();
                        let v = map.value_at(j).clone();
                        result.push(Some(f));
                        result.push(Some(v));
                        proof {
                            assert(result@[2 * j as int] == Some(f));
                        }
                        j = j + 1;
                    }
                    proof {
                        map.lemma_view();
                        let flat = crate::wish::opt_bytes_seq(result@);
                        let ks = map.keys();
                        assert forall|t: int| 0 <= t < map@.len() implies {
                            &&& (#[trigger] flat[2 * t]) is Some
                            &&& flat[2 * t + 1] is Some
                            &&& map@.contains_key(flat[2 * t]->0)
                            &&& map@[flat[2 * t]->0] == flat[2 * t + 1]->0
                        } by {
                            assert(flat[2 * t] == Some(ks[t]));
                            assert(ks.contains(ks[t]));
                        }
                        assert forall|a: int, b: int| 0 <= a < b < map@.len() implies #[trigger] flat[2
                            * a] != #[trigger] flat[2 * b] by {
                            assert(flat[2 * a] == Some(ks[a]));
                            assert(flat[2 * b] == Some(ks[b]));
                            assert(ks[a] != ks[b]);
                        }
                    }
                    Ok(Some(result))
                },
                _ => Err(Sacrilege::IncorrectUsage(Command::HGETALL)),
            },
            None => Ok(None),
        }
    }

    /// Adds `values`, in order, to the set `set`; counts the new ones.
    fn add_members(set: &mut ByteSet, values: &Vec<Vec<u8>>) -> (r: usize)
        requires
            old(set).wf(),
        ensures
            final(set).wf(),
            final(set)@ == members_added(old(set)@, crate::wish::bytes_seq(values@)).0,
            r == members_added(old(set)@, crate::wish::bytes_seq(values@)).1,
    {
        let ghost vs = crate::wish::bytes_seq(values@);
        let mut count: usize = 0;
        let mut i: usize = 0;
        while i < values.len()
            invariant
                i <= values.len(),
                vs == crate::wish::bytes_seq(values@),
                set.wf(),
                set@ == members_added(old(set)@, vs.take(i as int)).0,
                count == members_added(old(set)@, vs.take(i as int)).1,
                count <= i,
            decreases values.len() - i,
        {
            proof {
                assert(vs.take(i + 1).drop_last() =~= vs.take(i as int));
            }
            if set.insert(values[i].clone()) {
                count = count + 1;
            }
            i = i + 1;
        }
        proof {
            assert(vs.take(i as int) =~= vs);
        }
        count
    }

    /// SADD: adds `values` to the set under `key` (creating it when absent);
    /// counts the values that were new.
    pub fn sadd(&mut self, key: Vec<u8>, values: Vec<Vec<u8>>, now: u64) -> (r: Result<
        usize,
        Sacrilege,
    >)
        requires
            old(self).wf(),
        ensures
            final(self).wf(),
            match live(old(self)@, key@, now) {
                Some(Datum::Members(s)) => {
                    let (s1, c) = members_added(s, crate::wish::bytes_seq(values@));
                    &&& final(self)@ == old(self)@.insert(key@, (Datum::Members(s1), old(self)@[key@].1))
                    &&& r == Ok::<usize, Sacrilege>(c as usize)
                },
                Some(_) => {
                    &&& final(self)@ == old(self)@
                    &&& r == Err::<usize, Sacrilege>(Sacrilege::IncorrectUsage(Command::SADD))
                },
                None => {
                    let (s1, c) = members_added(Set::empty(), crate::wish::bytes_seq(values@));
                    &&& final(self)@ == old(self)@.insert(key@, (Datum::Members(s1), None))
                    &&& r == Ok::<usize, Sacrilege>(c as usize)
                },
            },
    {
        match self.valid_index(key.as_slice(), now) {
            Some(i) => {
                if let Value::Members(_) = &self.store.value_at(i).0 {
                    let (k, (value, expiry)) = self.take(i);
                    if let Value::Members(mut set) = value {
                        let count = Soul::add_members(&mut set, &values);
                        self.put(i, k, Value::Members(set), expiry);
                        Ok(count)
                    } else {
                        proof {
                            assert(false);
                        }
                        Err(Sacrilege::IncorrectUsage(Command::SADD))
                    }
                } else {
                    Err(Sacrilege::IncorrectUsage(Command::SADD))
                }
            },
            None => {
                let mut set = ByteSet::new();
                let count = Soul::add_members(&mut set, &values);
                self.store(key, Value::Members(set), None);
                Ok(count)
            },
        }
    }

    /// SREM: removes `values` from the set under `key`; counts those that
    /// were members. A set left empty is dropped.
    pub fn srem(&mut self, key: Vec<u8>, values: Vec<Vec<u8>>, now: u64) -> (r: Result<
        usize,
        Sacrilege,
    >)
        requires
            old(self).wf(),
        ensures
            final(self).wf(),
            match live(old(self)@, key@, now) {
                Some(Datum::Members(s)) => {
                    let (s1, c) = members_removed(s, crate::wish::bytes_seq(values@));
                    &&& final(self)@ == (if s1.len() == 0 {
                        old(self)@.remove(key@)
                    } else {
                        old(self)@.insert(key@, (Datum::Members(s1), old(self)@[key@].1))
                    })
                    &&& r == Ok::<usize, Sacrilege>(c as usize)
                },
                Some(_) => {
                    &&& final(self)@ == old(self)@
                    &&& r == Err::<usize, Sacrilege>(Sacrilege::IncorrectUsage(Command::SREM))
                },
                None => {
                    &&& final(self)@ == purged(old(self)@, key@, now)
                    &&& r == Ok::<usize, Sacrilege>(0)
                },
            },
    {
        match self.valid_index(key.as_slice(), now) {
            Some(i) => {
                if let Value::Members(_) = &self.store.value_at(i).0 {
                    let (k, (value, expiry)) = self.take(i);
                    if let Value::Members(mut set) = value {
                        let ghost vs = crate::wish::bytes_seq(values@);
                        let ghost s0 = set@;
                        let mut count: usize = 0;
                        let mut j: usize = 0;
                        while j < values.len()
                            invariant
                                j <= values.len(),
                                vs == crate::wish::bytes_seq(values@),
                                set.wf(),
                                set@ == members_removed(s0, vs.take(j as int)).0,
                                count == members_removed(s0, vs.take(j as int)).1,
                                count <= j,
                            decreases values.len() - j,
                        {
                            proof {
                                assert(vs.take(j + 1).drop_last() =~= vs.take(j as int));
                            }
                            if set.remove(values[j].as_slice()) {
                                count = count + 1;
                            }
                            j = j + 1;
                        }
                        proof {
                            assert(vs.take(j as int) =~= vs);
                            set.lemma_view();
                        }
                        if set.len() == 0 {
                            proof {
                                assert(self@ =~= old(self)@.remove(key@));
                            }
                        } else {
                            self.put(i, k, Value::Members(set), expiry);
                        }
                        Ok(count)
                    } else {
                        proof {
                            assert(false);
                        }
                        Err(Sacrilege::IncorrectUsage(Command::SREM))
                    }
                } else {
                    Err(Sacrilege::IncorrectUsage(Command::SREM))
                }
            },
            None => Ok(0),
        }
    }

    /// SISMEMBER: one when `value` belongs to the set under `key`, zero
    /// otherwise.
    pub fn sismember(&mut self, key: Vec<u8>, value: Vec<u8>, now: u64) -> (r: Result<
        usize,
        Sacrilege,
    >)
        requires
            old(self).wf(),
        ensures
            final(self).wf(),
            final(self)@ == purged(old(self)@, key@, now),
            r == match live(old(self)@, key@, now) {
                Some(Datum::Members(s)) => Ok::<usize, Sacrilege>(
                    if s.contains(value@) {
                        1usize
                    } else {
                        0usize
                    },
                ),
                Some(_) => Err(Sacrilege::IncorrectUsage(Command::SISMEMBER)),
                None => Ok(0),
            },
    {
        match self.valid_index(key.as_slice(), now) {
            Some(i) => match &self.store.value_at(i).0 {
                Value::Members(set) => {
                    if set.contains(value.as_slice()) {
                        Ok(1)
                    } else {
                        Ok(0)
                    }
                },
                _ => Err(Sacrilege::IncorrectUsage(Command::SISMEMBER)),
            },
            None => Ok(0),
        }
    }

    /// SMEMBERS: every member of the set under `key`.
    pub fn smembers(&mut self, key: Vec<u8>, now: u64) -> (r: Result<
        Option<Vec<Option<Vec<u8>>>>,
        Sacrilege,
    >)
        requires
            old(self).wf(),
        ensures
            final(self).wf(),
            final(self)@ == purged(old(self)@, key@, now),
            match live(old(self)@, key@, now) {
                Some(Datum::Members(s)) => r matches Ok(Some(flat)) && lists_members(
                    crate::wish::opt_bytes_seq(flat@),
                    s,
                ),
                Some(_) => r == Err::<Option<Vec<Option<Vec<u8>>>>, Sacrilege>(
                    Sacrilege::IncorrectUsage(Command::SMEMBERS),
                ),
                None => r matches Ok(None),
            },
    {
        match self.valid_index(key.as_slice(), now) {
            Some(i) => match &self.store.value_at(i).0 {
                Value::Members(set) => {
                    proof {
                        set.lemma_view();
                    }
                    let n = set.len();
                    let mut result: Vec<Option<Vec<u8>>> = Vec::new();
                    let mut j: usize = 0;
                    while j < n
                        invariant
                            j <= n,
                            n == set.members().len(),
                            set.wf(),
                            result.len() == j,
                            forall|t: int|
                                0 <= t < j ==> crate::wish::opt_bytes(#[trigger] result@[t]) == Some(
                                    set.members()[t],
                                ),
                        decreases n - j,
                    {
                        result.push(Some(set.member_at(j).clone()));
                        j = j + 1;
                    }
                    proof {
                        set.lemma_view();
                        let flat = crate::wish::opt_bytes_seq(result@);
                        let ms = set.members();
                        assert forall|t: int| 0 <= t < flat.len() implies (#[trigger] flat[t]) is Some
                            && set@.contains(flat[t]->0) by {
                            assert(flat[t] == Some(ms[t]));
                            assert(ms.contains(ms[t]));
                        }
                        assert forall|a: int, b: int| 0 <= a < b < flat.len() implies #[trigger] flat[a]
                            != #[trigger] flat[b] by {
                            assert(flat[a] == Some(ms[a]));
                            assert(flat[b] == Some(ms[b]));
                            assert(ms[a] != ms[b]);
                        }
                    }
                    Ok(Some(result))
                },
                _ => Err(Sacrilege::IncorrectUsage(Command::SMEMBERS)),
            },
            None => Ok(None),
        }
    }

    /// Pushes `elements`, one after another, at the head of `list`.
    fn push_all_front(list: &mut VecDeque<Vec<u8>>, elements: &Vec<Vec<u8>>)
        ensures
            list_view(*final(list)) == crate::wish::bytes_seq(elements@).reverse() + list_view(
                *old(list),
            ),
    {
        let ghost es = crate::wish::bytes_seq(elements@);
        let mut j: usize = 0;
        proof {
            assert(es.take(0).reverse() + list_view(*old(list)) =~= list_view(*old(list)));
        }
        while j < elements.len()
            invariant
                j <= elements.len(),
                es == crate::wish::bytes_seq(elements@),
                list_view(*list) == es.take(j as int).reverse() + list_view(*old(list)),
            decreases elements.len() - j,
        {
            let ghost before = list_view(*list);
            let e = elements[j].clone();
            list.push_front(e);
            proof {
                assert(list_view(*list) =~= seq![es[j as int]] + before);
                assert(es.take(j + 1).reverse() =~= seq![es[j as int]] + es.take(j as int).reverse());
            }
            j = j + 1;
        }
        proof {
            assert(es.take(j as int) =~= es);
        }
    }

    /// Pushes `elements`, one after another, at the tail of `list`.
    fn push_all_back(list: &mut VecDeque<Vec<u8>>, elements: &Vec<Vec<u8>>)
        ensures
            list_view(*final(list)) == list_view(*old(list)) + crate::wish::bytes_seq(elements@),
    {
        let ghost es = crate::wish::bytes_seq(elements@);
        let mut j: usize = 0;
        proof {
            assert(list_view(*old(list)) + es.take(0) =~= list_view(*old(list)));
        }
        while j < elements.len()
            invariant
                j <= elements.len(),
                es == crate::wish::bytes_seq(elements@),
                list_view(*list) == list_view(*old(list)) + es.take(j as int),
            decreases elements.len() - j,
        {
            let ghost before = list_view(*list);
            let e = elements[j].clone();
            list.push_back(e);
            proof {
                assert(list_view(*list) =~= before.push(es[j as int]));
                assert(es.take(j + 1) =~= es.take(j as int).push(es[j as int]));
            }
            j = j + 1;
        }
        proof {
            assert(es.take(j as int) =~= es);
        }
    }

    /// LPUSH: pushes `elements`, one after another, at the head of the list
    /// under `key` (creating it when absent); tells the new length.
    pub fn lpush(&mut self, key: Vec<u8>, elements: Vec<Vec<u8>>, now: u64) -> (r: Result<
        usize,
        Sacrilege,
    >)
        requires
            old(self).wf(),
        ensures
            final(self).wf(),
            match live(old(self)@, key@, now) {
                Some(Datum::Items(l)) => {
                    let l1 = crate::wish::bytes_seq(elements@).reverse() + l;
                    &&& final(self)@ == old(self)@.insert(key@, (Datum::Items(l1), old(self)@[key@].1))
                    &&& r == Ok::<usize, Sacrilege>(l1.len() as usize)
                },
                Some(_) => {
                    &&& final(self)@ == old(self)@
                    &&& r == Err::<usize, Sacrilege>(Sacrilege::IncorrectUsage(Command::LPUSH))
                },
                None => {
                    let l1 = crate::wish::bytes_seq(elements@).reverse();
                    &&& final(self)@ == old(self)@.insert(key@, (Datum::Items(l1), None))
                    &&& r == Ok::<usize, Sacrilege>(elements@.len() as usize)
                },
            },
    {
        match self.valid_index(key.as_slice(), now) {
            Some(i) => {
                if let Value::List(_) = &self.store.value_at(i).0 {
                    let (k, (value, expiry)) = self.take(i);
                    if let Value::List(mut list) = value {
                        Soul::push_all_front(&mut list, &elements);
                        let n = list.len();
                        self.put(i, k, Value::List(list), expiry);
                        Ok(n)
                    } else {
                        proof {
                            assert(false);
                        }
                        Err(Sacrilege::IncorrectUsage(Command::LPUSH))
                    }
                } else {
                    Err(Sacrilege::IncorrectUsage(Command::LPUSH))
                }
            },
            None => {
                let mut list: VecDeque<Vec<u8>> = VecDeque::new();
                proof {
                    assert(list_view(list) =~= Seq::<Seq<u8>>::empty());
                }
                Soul::push_all_front(&mut list, &elements);
                proof {
                    assert(list_view(list) =~= crate::wish::bytes_seq(elements@).reverse());
                }
                let n = elements.len();
                self.store(key, Value::List(list), None);
                Ok(n)
            },
        }
    }

    /// RPUSH: pushes `elements`, one after another, at the tail of the list
    /// under `key` (creating it when absent); tells the new length.
    pub fn rpush(&mut self, key: Vec<u8>, elements: Vec<Vec<u8>>, now: u64) -> (r: Result<
        usize,
        Sacrilege,
    >)
        requires
            old(self).wf(),
        ensures
            final(self).wf(),
            match live(old(self)@, key@, now) {
                Some(Datum::Items(l)) => {
                    let l1 = l + crate::wish::bytes_seq(elements@);
                    &&& final(self)@ == old(self)@.insert(key@, (Datum::Items(l1), old(self)@[key@].1))
                    &&& r == Ok::<usize, Sacrilege>(l1.len() as usize)
                },
                Some(_) => {
                    &&& final(self)@ == old(self)@
                    &&& r == Err::<usize, Sacrilege>(Sacrilege::IncorrectUsage(Command::RPUSH))
                },
                None => {
                    let l1 = crate::wish::bytes_seq(elements@);
                    &&& final(self)@ == old(self)@.insert(key@, (Datum::Items(l1), None))
                    &&& r == Ok::<usize, Sacrilege>(elements@.len() as usize)
                },
            },
    {
        match self.valid_index(key.as_slice(), now) {
            Some(i) => {
                if let Value::List(_) = &self.store.value_at(i).0 {
                    let (k, (value, expiry)) = self.take(i);
                    if let Value::List(mut list) = value {
                        Soul::push_all_back(&mut list, &elements);
                        let n = list.len();
                        self.put(i, k, Value::List(list), expiry);
                        Ok(n)
                    } else {
                        proof {
                            assert(false);
                        }
                        Err(Sacrilege::IncorrectUsage(Command::RPUSH))
                    }
                } else {
                    Err(Sacrilege::IncorrectUsage(Command::RPUSH))
                }
            },
            None => {
                let mut list: VecDeque<Vec<u8>> = VecDeque::new();
                proof {
                    assert(list_view(list) =~= Seq::<Seq<u8>>::empty());
                }
                Soul::push_all_back(&mut list, &elements);
                proof {
                    assert(list_view(list) =~= crate::wish::bytes_seq(elements@));
                }
                let n = elements.len();
                self.store(key, Value::List(list), None);
                Ok(n)
            },
        }
    }

    /// LLEN: the length of the list under `key` (zero when absent).
    pub fn llen(&mut self, key: Vec<u8>, now: u64) -> (r: Result<usize, Sacrilege>)
        requires
            old(self).wf(),
        ensures
            final(self).wf(),
            final(self)@ == purged(old(self)@, key@, now),
            r == match live(old(self)@, key@, now) {
                Some(Datum::Items(l)) => Ok::<usize, Sacrilege>(l.len() as usize),
                Some(_) => Err(Sacrilege::IncorrectUsage(Command::LLEN)),
                None => Ok(0),
            },
    {
        match self.valid_index(key.as_slice(), now) {
            Some(i) => match &self.store.value_at(i).0 {
                Value::List(list) => Ok(list.len()),
                _ => Err(Sacrilege::IncorrectUsage(Command::LLEN)),
            },
            None => Ok(0),
        }
    }

    /// Takes out the list under `key` for popping. Fails when the entry holds
    /// another kind of value; finds nothing when there is no entry or it has
    /// expired (and is then dropped).
    fn take_list(&mut self, key: &[u8], now: u64, cmd: Command) -> (r: Result<
        Option<(usize, Vec<u8>, VecDeque<Vec<u8>>, Option<u64>)>,
        Sacrilege,
    >)
        requires
            old(self).wf(),
        ensures
            final(self).wf(),
            !old(self)@.contains_key(key@) ==> final(self)@ == old(self)@ && r matches Ok(None),
            old(self)@.contains_key(key@) ==> match old(self)@[key@].0 {
                Datum::Items(l) => if expired(old(self)@[key@].1, now) {
                    final(self)@ == old(self)@.remove(key@) && r matches Ok(None)
                } else {
                    &&& r matches Ok(Some((i, k, list, e)))
                    &&& k@ == key@
                    &&& list_view(list) == l
                    &&& e == old(self)@[key@].1
                    &&& final(self)@ == old(self)@.remove(key@)
                    &&& i <= final(self).store.keys().len()
                },
                _ => final(self)@ == old(self)@ && r == Err::<
                    Option<(usize, Vec<u8>, VecDeque<Vec<u8>>, Option<u64>)>,
                    Sacrilege,
                >(Sacrilege::IncorrectUsage(cmd)),
            },
    {
        match self.store.find(key) {
            Some(i) => {
                proof {
                    self.lemma_item(i as int);
                }
                if let Value::List(_) = &self.store.value_at(i).0 {
                    let (k, (value, expiry)) = self.take(i);
                    let is_expired = match expiry {
                        Some(e) => e < now,
                        None => false,
                    };
                    if let Value::List(list) = value {
                        if is_expired {
                            Ok(None)
                        } else {
                            Ok(Some((i, k, list, expiry)))
                        }
                    } else {
                        proof {
                            assert(false);
                        }
                        Ok(None)
                    }
                } else {
                    Err(Sacrilege::IncorrectUsage(cmd))
                }
            },
            None => Ok(None),
        }
    }

    /// LPOP: removes and returns the head of the list under `key`; a list
    /// left empty is dropped.
    pub fn lpop(&mut self, key: Vec<u8>, now: u64) -> (r: Result<Option<Vec<u8>>, Sacrilege>)
        requires
            old(self).wf(),
        ensures
            final(self).wf(),
            !old(self)@.contains_key(key@) ==> final(self)@ == old(self)@ && r matches Ok(None),
            old(self)@.contains_key(key@) ==> match old(self)@[key@].0 {
                Datum::Items(l) => if expired(old(self)@[key@].1, now) || l.len() == 0 {
                    final(self)@ == old(self)@.remove(key@) && r matches Ok(None)
                } else {
                    &&& r matches Ok(Some(v)) && v@ == l[0]
                    &&& final(self)@ == shrunk(old(self)@, key@, l.drop_first(), old(self)@[key@].1)
                },
                _ => final(self)@ == old(self)@ && r == Err::<Option<Vec<u8>>, Sacrilege>(
                    Sacrilege::IncorrectUsage(Command::LPOP),
                ),
            },
    {
        match self.take_list(key.as_slice(), now, Command::LPOP) {
            Err(e) => Err(e),
            Ok(None) => Ok(None),
            Ok(Some((i, k, mut list, expiry))) => {
                let ghost l = list_view(list);
                let element = list.pop_front();
                proof {
                    if l.len() > 0 {
                        assert(list_view(list) =~= l.drop_first());
                    }
                }
                if list.len() > 0 {
                    self.put(i, k, Value::List(list), expiry);
                }
                proof {
                    if l.len() > 0 && l.len() == 1 {
                        assert(self@ =~= old(self)@.remove(key@));
                    }
                }
                Ok(element)
            },
        }
    }

    /// LPOP with a count: removes and returns up to `count` elements from the
    /// head of the list under `key`, head first; a list left empty is
    /// dropped.
    pub fn lpop_m(&mut self, key: Vec<u8>, count: usize, now: u64) -> (r: Result<
        Option<Vec<Option<Vec<u8>>>>,
        Sacrilege,
    >)
        requires
            old(self).wf(),
        ensures
            final(self).wf(),
            !old(self)@.contains_key(key@) ==> final(self)@ == old(self)@ && r matches Ok(None),
            old(self)@.contains_key(key@) ==> match old(self)@[key@].0 {
                Datum::Items(l) => if expired(old(self)@[key@].1, now) {
                    final(self)@ == old(self)@.remove(key@) && r matches Ok(None)
                } else {
                    let n = if count < l.len() { count as int } else { l.len() as int };
                    &&& r matches Ok(Some(vals)) && crate::wish::opt_bytes_seq(vals@) == present(
                        l.take(n),
                    )
                    &&& final(self)@ == shrunk(old(self)@, key@, l.skip(n), old(self)@[key@].1)
                },
                _ => final(self)@ == old(self)@ && r == Err::<
                    Option<Vec<Option<Vec<u8>>>>,
                    Sacrilege,
                >(Sacrilege::IncorrectUsage(Command::LPOP)),
            },
    {
        match self.take_list(key.as_slice(), now, Command::LPOP) {
            Err(e) => Err(e),
            Ok(None) => Ok(None),
            Ok(Some((i, k, mut list, expiry))) => {
                let ghost l = list_view(list);
                let mut popped: Vec<Option<Vec<u8>>> = Vec::new();
                let mut j: usize = 0;
                while j < count
                    invariant
                        j <= count,
                        j <= l.len(),
                        list_view(list) == l.skip(j as int),
                        crate::wish::opt_bytes_seq(popped@) == present(l.take(j as int)),
                    ensures
                        j <= l.len(),
                        j == count || j == l.len(),
                        list_view(list) == l.skip(j as int),
                        crate::wish::opt_bytes_seq(popped@) == present(l.take(j as int)),
                    decreases count - j,
                {
                    let ghost before = list_view(list);
                    let ghost raw = list@;
                    match list.pop_front() {
                        Some(element) => {
                            proof {
                                assert(before.len() == raw.len());
                                assert(raw.len() > 0);
                                assert(j < l.len());
                                assert(list@ == raw.subrange(1, raw.len() as int));
                                assert(list_view(list) =~= before.subrange(1, before.len() as int));
                                assert(list_view(list) =~= l.skip(j + 1));
                                assert(element@ == l[j as int]);
                            }
                            let ghost prev = popped@;
                            let ghost ev = element@;
                            popped.push(Some(element));
                            proof {
                                assert(crate::wish::opt_bytes_seq(popped@) =~= crate::wish::opt_bytes_seq(
                                    prev,
                                ).push(Some(ev)));
                                assert(present(l.take(j + 1)) =~= present(l.take(j as int)).push(
                                    Some(l[j as int]),
                                ));
                            }
                            j = j + 1;
                        },
                        None => {
                            break ;
                        },
                    }
                }
                if list.len() > 0 {
                    self.put(i, k, Value::List(list), expiry);
                } else {
                    proof {
                        assert(l.skip(j as int).len() == 0);
                    }
                }
                Ok(Some(popped))
            },
        }
    }

    /// RPOP: removes and returns the tail of the list under `key`; a list
    /// left empty is dropped.
    pub fn rpop(&mut self, key: Vec<u8>, now: u64) -> (r: Result<Option<Vec<u8>>, Sacrilege>)
        requires
            old(self).wf(),
        ensures
            final(self).wf(),
            !old(self)@.contains_key(key@) ==> final(self)@ == old(self)@ && r matches Ok(None),
            old(self)@.contains_key(key@) ==> match old(self)@[key@].0 {
                Datum::Items(l) => if expired(old(self)@[key@].1, now) || l.len() == 0 {
                    final(self)@ == old(self)@.remove(key@) && r matches Ok(None)
                } else {
                    &&& r matches Ok(Some(v)) && v@ == l.last()
                    &&& final(self)@ == shrunk(old(self)@, key@, l.drop_last(), old(self)@[key@].1)
                },
                _ => final(self)@ == old(self)@ && r == Err::<Option<Vec<u8>>, Sacrilege>(
                    Sacrilege::IncorrectUsage(Command::RPOP),
                ),
            },
    {
        match self.take_list(key.as_slice(), now, Command::RPOP) {
            Err(e) => Err(e),
            Ok(None) => Ok(None),
            Ok(Some((i, k, mut list, expiry))) => {
                let ghost l = list_view(list);
                let element = list.pop_back();
                proof {
                    if l.len() > 0 {
                        assert(list_view(list) =~= l.drop_last());
                    }
                }
                if list.len() > 0 {
                    self.put(i, k, Value::List(list), expiry);
                }
                proof {
                    if l.len() == 1 {
                        assert(self@ =~= old(self)@.remove(key@));
                    }
                }
                Ok(element)
            },
        }
    }

    /// RPOP with a count: removes and returns up to `count` elements from the
    /// tail of the list under `key`, tail first; a list left empty is
    /// dropped.
    pub fn rpop_m(&mut self, key: Vec<u8>, count: usize, now: u64) -> (r: Result<
        Option<Vec<Option<Vec<u8>>>>,
        Sacrilege,
    >)
        requires
            old(self).wf(),
        ensures
            final(self).wf(),
            !old(self)@.contains_key(key@) ==> final(self)@ == old(self)@ && r matches Ok(None),
            old(self)@.contains_key(key@) ==> match old(self)@[key@].0 {
                Datum::Items(l) => if expired(old(self)@[key@].1, now) {
                    final(self)@ == old(self)@.remove(key@) && r matches Ok(None)
                } else {
                    let n = if count < l.len() { count as int } else { l.len() as int };
                    &&& r matches Ok(Some(vals)) && crate::wish::opt_bytes_seq(vals@) == present(
                        l.skip(l.len() - n).reverse(),
                    )
                    &&& final(self)@ == shrunk(
                        old(self)@,
                        key@,
                        l.take(l.len() - n),
                        old(self)@[key@].1,
                    )
                },
                _ => final(self)@ == old(self)@ && r == Err::<
                    Option<Vec<Option<Vec<u8>>>>,
                    Sacrilege,
                >(Sacrilege::IncorrectUsage(Command::RPOP)),
            },
    {
        match self.take_list(key.as_slice(), now, Command::RPOP) {
            Err(e) => Err(e),
            Ok(None) => Ok(None),
            Ok(Some((i, k, mut list, expiry))) => {
                let ghost l = list_view(list);
                let mut popped: Vec<Option<Vec<u8>>> = Vec::new();
                let mut j: usize = 0;
                proof {
                    assert(present(l.skip(l.len() - 0).reverse()) =~= Seq::<Option<Seq<u8>>>::empty());
                    assert(l.take(l.len() - 0) =~= l);
                }
                while j < count
                    invariant
                        j <= count,
                        j <= l.len(),
                        list_view(list) == l.take(l.len() - j),
                        crate::wish::opt_bytes_seq(popped@) == present(l.skip(l.len() - j).reverse()),
                    ensures
                        j <= l.len(),
                        j == count || j == l.len(),
                        list_view(list) == l.take(l.len() - j),
                        crate::wish::opt_bytes_seq(popped@) == present(l.skip(l.len() - j).reverse()),
                    decreases count - j,
                {
                    let ghost before = list_view(list);
                    let ghost raw = list@;
                    match list.pop_back() {
                        Some(element) => {
                            proof {
                                assert(before.len() == raw.len());
                                assert(raw.len() > 0);
                                assert(j < l.len());
                                assert(list@ == raw.subrange(0, raw.len() - 1));
                                assert(list_view(list) =~= before.subrange(0, before.len() - 1));
                                assert(element == raw[raw.len() - 1]);
                                assert(list_view(list) =~= l.take(l.len() - (j + 1)));
                                assert(element@ == before[before.len() - 1]);
                                assert(element@ == l[l.len() - (j + 1)]);
                            }
                            let ghost prev = popped@;
                            let ghost ev = element@;
                            popped.push(Some(element));
                            proof {
                                assert(crate::wish::opt_bytes_seq(popped@) =~= crate::wish::opt_bytes_seq(
                                    prev,
                                ).push(Some(ev)));
                                assert(l.skip(l.len() - (j + 1)).reverse() =~= l.skip(
                                    l.len() - j,
                                ).reverse().push(l[l.len() - (j + 1)]));
                                assert(crate::wish::opt_bytes_seq(popped@) =~= present(
                                    l.skip(l.len() - (j + 1)).reverse(),
                                ));
                            }
                            j = j + 1;
                        },
                        None => {
                            break ;
                        },
                    }
                }
                if list.len() > 0 {
                    self.put(i, k, Value::List(list), expiry);
                } else {
                    proof {
                        assert(l.take(l.len() - j).len() == 0);
                    }
                }
                Ok(Some(popped))
            },
        }
    }

    /// LRANGE: the elements of the list under `key` between two inclusive
    /// indices (see `span`).
    pub fn lrange(&mut self, key: Vec<u8>, starting_index: i32, ending_index: i32, now: u64) -> (r:
        Result<Option<Vec<Option<Vec<u8>>>>, Sacrilege>)
        requires
            old(self).wf(),
            addressable(old(self)@, key@, now),
        ensures
            final(self).wf(),
            final(self)@ == purged(old(self)@, key@, now),
            match live(old(self)@, key@, now) {
                Some(Datum::Items(l)) => r matches Ok(Some(vals)) && crate::wish::opt_bytes_seq(vals@)
                    == match span(l.len() as int, starting_index as int, ending_index as int) {
                    Some((a, b)) => present(l.subrange(a, b + 1)),
                    None => Seq::empty(),
                },
                Some(_) => r == Err::<Option<Vec<Option<Vec<u8>>>>, Sacrilege>(
                    Sacrilege::IncorrectUsage(Command::LRANGE),
                ),
                None => r matches Ok(Some(vals)) && vals@.len() == 0,
            },
    {
        match self.valid_index(key.as_slice(), now) {
            Some(i) => match &self.store.value_at(i).0 {
                Value::List(list) => {
                    let ghost l = list_view(*list);
                    let list_len = list.len() as i64;
                    let mut start = starting_index as i64;
                    let mut end = ending_index as i64;
                    if start < 0 {
                        start = start + list_len;
                    }
                    if end < 0 {
                        end = end + list_len;
                    }
                    if start < 0 {
                        start = 0;
                    }
                    if end > list_len {
                        end = list_len - 1;
                    }
                    if end - start >= 0 && start < list_len && end < list_len {
                        let mut result: Vec<Option<Vec<u8>>> = Vec::new();
                        let mut idx = start as usize;
                        let stop = (end + 1) as usize;
                        while idx < stop
                            invariant
                                0 <= start <= idx <= stop,
                                stop <= list.len(),
                                l.len() == list@.len(),
                                l == list_view(*list),
                                crate::wish::opt_bytes_seq(result@) == present(
                                    l.subrange(start as int, idx as int),
                                ),
                            decreases stop - idx,
                        {
                            let ghost prev = result@;
                            let e = list[idx].clone();
                            result.push(Some(e));
                            proof {
                                assert(crate::wish::opt_bytes_seq(result@) =~= crate::wish::opt_bytes_seq(
                                    prev,
                                ).push(Some(l[idx as int])));
                                assert(l.subrange(start as int, idx + 1) =~= l.subrange(
                                    start as int,
                                    idx as int,
                                ).push(l[idx as int]));
                                assert(present(l.subrange(start as int, idx + 1)) =~= present(
                                    l.subrange(start as int, idx as int),
                                ).push(Some(l[idx as int])));
                            }
                            idx = idx + 1;
                        }
                        Ok(Some(result))
                    } else {
                        let result: Vec<Option<Vec<u8>>> = Vec::new();
                        proof {
                            assert(crate::wish::opt_bytes_seq(result@) =~= Seq::<
                                Option<Seq<u8>>,
                            >::empty());
                        }
                        Ok(Some(result))
                    }
                },
                _ => Err(Sacrilege::IncorrectUsage(Command::LRANGE)),
            },
            None => Ok(Some(Vec::new())),
        }
    }

    /// LINDEX: the element of the list under `key` at a possibly negative
    /// index.
    pub fn lindex(&mut self, key: Vec<u8>, index: i32, now: u64) -> (r: Result<
        Option<Vec<u8>>,
        Sacrilege,
    >)
        requires
            old(self).wf(),
            addressable(old(self)@, key@, now),
        ensures
            final(self).wf(),
            final(self)@ == purged(old(self)@, key@, now),
            match live(old(self)@, key@, now) {
                Some(Datum::Items(l)) => match position(l.len() as int, index as int) {
                    Some(p) => r matches Ok(Some(v)) && v@ == l[p],
                    None => r matches Ok(None),
                },
                Some(_) => r == Err::<Option<Vec<u8>>, Sacrilege>(
                    Sacrilege::IncorrectUsage(Command::LINDEX),
                ),
                None => r matches Ok(None),
            },
    {
        match self.valid_index(key.as_slice(), now) {
            Some(i) => match &self.store.value_at(i).0 {
                Value::List(list) => {
                    let list_len = list.len() as i64;
                    let mut idx = index as i64;
                    if idx < 0 {
                        idx = idx + list_len;
                    }
                    if idx < 0 || idx >= list_len {
                        return Ok(None);
                    }
                    Ok(Some(list[idx as usize].clone()))
                },
                _ => Err(Sacrilege::IncorrectUsage(Command::LINDEX)),
            },
            None => Ok(None),
        }
    }

    /// LSET: replaces the element of the list under `key` at a possibly
    /// negative index.
    pub fn lset(&mut self, key: Vec<u8>, index: i32, element: Vec<u8>, now: u64) -> (r: Result<
        (),
        Sacrilege,
    >)
        requires
            old(self).wf(),
            addressable(old(self)@, key@, now),
        ensures
            final(self).wf(),
            match live(old(self)@, key@, now) {
                Some(Datum::Items(l)) => match position(l.len() as int, index as int) {
                    Some(p) => {
                        &&& final(self)@ == old(self)@.insert(
                            key@,
                            (Datum::Items(l.update(p, element@)), old(self)@[key@].1),
                        )
                        &&& r is Ok
                    },
                    None => {
                        &&& final(self)@ == old(self)@
                        &&& r == Err::<(), Sacrilege>(Sacrilege::IncorrectUsage(Command::LSET))
                    },
                },
                _ => {
                    &&& final(self)@ == purged(old(self)@, key@, now)
                    &&& r == Err::<(), Sacrilege>(Sacrilege::IncorrectUsage(Command::LSET))
                },
            },
    {
        match self.valid_index(key.as_slice(), now) {
            Some(i) => {
                let target = match &self.store.value_at(i).0 {
                    Value::List(list) => {
                        let list_len = list.len() as i64;
                        let mut idx = index as i64;
                        if idx < 0 {
                            idx = idx + list_len;
                        }
                        if idx < 0 || idx >= list_len {
                            return Err(Sacrilege::IncorrectUsage(Command::LSET));
                        }
                        idx as usize
                    },
                    _ => {
                        return Err(Sacrilege::IncorrectUsage(Command::LSET));
                    },
                };
                let (k, (value, expiry)) = self.take(i);
                if let Value::List(mut list) = value {
                    let ghost l = list_view(list);
                    let _ = list.remove(target);
                    list.insert(target, element);
                    proof {
                        assert(list_view(list) =~= l.update(target as int, element@));
                    }
                    self.put(i, k, Value::List(list), expiry);
                    Ok(())
                } else {
                    proof {
                        assert(false);
                    }
                    Err(Sacrilege::IncorrectUsage(Command::LSET))
                }
            },
            None => Err(Sacrilege::IncorrectUsage(Command::LSET)),
        }
    }

    /// The list `list` without its first `n` elements equal to `element`.
    fn drop_first_matches(list: &VecDeque<Vec<u8>>, element: &Vec<u8>, n: usize) -> (r: VecDeque<
        Vec<u8>,
    >)
        ensures
            list_view(r) == without_first(list_view(*list), element@, n as nat),
            r@.len() <= list@.len(),
    {
        let ghost l = list_view(*list);
        let ghost x = element@;
        let mut result: VecDeque<Vec<u8>> = VecDeque::new();
        let mut removed: usize = 0;
        let mut p: usize = 0;
        proof {
            assert(l.skip(0) =~= l);
            assert(list_view(result) =~= Seq::<Seq<u8>>::empty());
        }
        while p < list.len()
            invariant
                p <= list.len(),
                l == list_view(*list),
                x == element@,
                removed <= n,
                result@.len() + removed == p,
                without_first(l, x, n as nat) == list_view(result) + without_first(
                    l.skip(p as int),
                    x,
                    (n - removed) as nat,
                ),
            decreases list.len() - p,
        {
            let ghost rest = l.skip(p as int);
            proof {
                assert(l.len() == list@.len());
                assert(rest.len() > 0);
                assert(rest[0] == l[p as int]);
                assert(rest.drop_first() =~= l.skip(p + 1));
            }
            let ghost before = list_view(result);
            let ghost m = (n - removed) as nat;
            proof {
                assert(l[p as int] == list@[p as int]@);
            }
            let item = &list[p];
            let hit = bytes_eq(item.as_slice(), element.as_slice());
            proof {
                assert(item@ == l[p as int]);
                assert(hit == (rest[0] == x));
            }
            if hit && removed < n {
                proof {
                    assert(without_first(rest, x, m) == without_first(rest.drop_first(), x, (m - 1) as nat));
                }
                removed = removed + 1;
            } else {
                proof {
                    assert(without_first(rest, x, m) == seq![rest[0]] + without_first(
                        rest.drop_first(),
                        x,
                        m,
                    ));
                }
                result.push_back(list[p].clone());
                proof {
                    assert(list_view(result) =~= before.push(l[p as int]));
                    assert(before.push(l[p as int]) + without_first(l.skip(p + 1), x, (n - removed) as nat)
                        =~= before + (seq![l[p as int]] + without_first(
                        l.skip(p + 1),
                        x,
                        (n - removed) as nat,
                    )));
                }
            }
            p = p + 1;
        }
        proof {
            assert(l.skip(p as int) =~= Seq::<Seq<u8>>::empty());
            assert(list_view(result) + Seq::<Seq<u8>>::empty() =~= list_view(result));
        }
        result
    }

    /// The list `list` without its last `n` elements equal to `element`.
    fn drop_last_matches(list: &VecDeque<Vec<u8>>, element: &Vec<u8>, n: usize) -> (r: VecDeque<
        Vec<u8>,
    >)
        ensures
            list_view(r) == without_last(list_view(*list), element@, n as nat),
            r@.len() <= list@.len(),
    {
        let ghost l = list_view(*list);
        let ghost x = element@;
        let mut result: VecDeque<Vec<u8>> = VecDeque::new();
        let mut removed: usize = 0;
        let mut p: usize = list.len();
        proof {
            assert(l.take(l.len() as int) =~= l);
            assert(without_last(l, x, n as nat) + list_view(result) =~= without_last(l, x, n as nat));
        }
        while p > 0
            invariant
                p <= list.len(),
                l == list_view(*list),
                x == element@,
                removed <= n,
                result@.len() + removed + p == list.len(),
                without_last(l, x, n as nat) == without_last(l.take(p as int), x, (n - removed) as nat)
                    + list_view(result),
            decreases p,
        {
            let ghost front = l.take(p as int);
            proof {
                assert(l.len() == list@.len());
                assert(front.len() > 0);
                assert(front.last() == l[p - 1]);
                assert(front.drop_last() =~= l.take(p - 1));
            }
            let ghost before = list_view(result);
            let ghost m = (n - removed) as nat;
            proof {
                assert(l[p - 1] == list@[p - 1]@);
            }
            let item = &list[p - 1];
            let hit = bytes_eq(item.as_slice(), element.as_slice());
            proof {
                assert(item@ == l[p - 1]);
                assert(hit == (front.last() == x));
            }
            if hit && removed < n {
                proof {
                    assert(without_last(front, x, m) == without_last(front.drop_last(), x, (m - 1) as nat));
                }
                removed = removed + 1;
            } else {
                proof {
                    assert(without_last(front, x, m) == without_last(front.drop_last(), x, m).push(
                        front.last(),
                    ));
                }
                result.push_front(list[p - 1].clone());
                proof {
                    assert(list_view(result) =~= seq![l[p - 1]] + before);
                    assert(without_last(l.take(p - 1), x, (n - removed) as nat).push(l[p - 1]) + before
                        =~= without_last(l.take(p - 1), x, (n - removed) as nat) + (seq![l[p - 1]]
                        + before));
                }
            }
            p = p - 1;
        }
        proof {
            assert(l.take(0) =~= Seq::<Seq<u8>>::empty());
            assert(Seq::<Seq<u8>>::empty() + list_view(result) =~= list_view(result));
        }
        result
    }

    /// LREM: removes occurrences of `element` from the list under `key` (see
    /// `lrem_rest`) and counts them. A list left empty stays in place.
    pub fn lrem(&mut self, key: Vec<u8>, count: i32, element: Vec<u8>, now: u64) -> (r: Result<
        usize,
        Sacrilege,
    >)
        requires
            old(self).wf(),
            addressable(old(self)@, key@, now),
        ensures
            final(self).wf(),
            match live(old(self)@, key@, now) {
                Some(Datum::Items(l)) => {
                    let rest = lrem_rest(l, element@, count as int);
                    &&& final(self)@ == old(self)@.insert(key@, (Datum::Items(rest), old(self)@[key@].1))
                    &&& r == Ok::<usize, Sacrilege>((l.len() - rest.len()) as usize)
                },
                Some(_) => {
                    &&& final(self)@ == old(self)@
                    &&& r == Err::<usize, Sacrilege>(Sacrilege::IncorrectUsage(Command::LREM))
                },
                None => {
                    &&& final(self)@ == purged(old(self)@, key@, now)
                    &&& r == Ok::<usize, Sacrilege>(0)
                },
            },
    {
        match self.valid_index(key.as_slice(), now) {
            Some(i) => {
                if let Value::List(_) = &self.store.value_at(i).0 {
                    let (k, (value, expiry)) = self.take(i);
                    if let Value::List(list) = value {
                        let initial_len = list.len();
                        let rest = if count < 0 {
                            let n = (-(count as i64)) as usize;
                            Soul::drop_last_matches(&list, &element, n)
                        } else if count > 0 {
                            Soul::drop_first_matches(&list, &element, count as usize)
                        } else {
                            Soul::drop_first_matches(&list, &element, initial_len)
                        };
                        let removed = initial_len - rest.len();
                        self.put(i, k, Value::List(rest), expiry);
                        Ok(removed)
                    } else {
                        proof {
                            assert(false);
                        }
                        Err(Sacrilege::IncorrectUsage(Command::LREM))
                    }
                } else {
                    Err(Sacrilege::IncorrectUsage(Command::LREM))
                }
            },
            None => Ok(0),
        }
    }

    /// Removes the entry under `key`, handing back its value unless it had
    /// expired.
    pub fn remove_valid_value(&mut self, key: &Vec<u8>, now: u64) -> (r: Option<Value>)
        requires
            old(self).wf(),
        ensures
            final(self).wf(),
            final(self)@ == old(self)@.remove(key@),
            r is Some <==> live(old(self)@, key@, now) is Some,
            r matches Some(v) ==> v@ == old(self)@[key@].0 && v.wf(),
    {
        match self.store.find(key.as_slice()) {
            Some(i) => {
                let (_k, (value, expiry)) = self.take(i);
                match expiry {
                    Some(expiry) => {
                        if expiry < now {
                            None
                        } else {
                            Some(value)
                        }
                    },
                    None => Some(value),
                }
            },
            None => {
                proof {
                    assert(self@ =~= old(self)@.remove(key@));
                }
                None
            },
        }
    }

    /// DEL: removes `keys` and tells how many of them held a live value.
    pub fn del(&mut self, keys: Vec<Vec<u8>>, now: u64) -> (r: u32)
        requires
            old(self).wf(),
            keys.len() <= u32::MAX,
        ensures
            final(self).wf(),
            final(self)@ == deletion(old(self)@, crate::wish::bytes_seq(keys@), now).0,
            r == deletion(old(self)@, crate::wish::bytes_seq(keys@), now).1,
    {
        let ghost ks = crate::wish::bytes_seq(keys@);
        let mut number_of_entries_deleted: u32 = 0;
        let mut i: usize = 0;
        while i < keys.len()
            invariant
                i <= keys.len(),
                keys.len() <= u32::MAX,
                ks == crate::wish::bytes_seq(keys@),
                self.wf(),
                self@ == deletion(old(self)@, ks.take(i as int), now).0,
                number_of_entries_deleted == deletion(old(self)@, ks.take(i as int), now).1,
                number_of_entries_deleted <= i,
            decreases keys.len() - i,
        {
            proof {
                assert(ks.take(i + 1).drop_last() =~= ks.take(i as int));
            }
            if self.remove_valid_value(&keys[i], now).is_some() {
                number_of_entries_deleted = number_of_entries_deleted + 1;
            }
            i = i + 1;
        }
        proof {
            assert(ks.take(i as int) =~= ks);
        }
        number_of_entries_deleted
    }

    /// EXISTS: how many of `keys` hold a live value; a key named twice
    /// counts twice.
    pub fn exist(&mut self, keys: Vec<Vec<u8>>, now: u64) -> (r: u32)
        requires
            old(self).wf(),
            keys.len() <= u32::MAX,
        ensures
            final(self).wf(),
            final(self)@ == probing(old(self)@, crate::wish::bytes_seq(keys@), now).0,
            r == probing(old(self)@, crate::wish::bytes_seq(keys@), now).1,
    {
        let ghost ks = crate::wish::bytes_seq(keys@);
        let mut number_of_entries_that_exist: u32 = 0;
        let mut i: usize = 0;
        while i < keys.len()
            invariant
                i <= keys.len(),
                keys.len() <= u32::MAX,
                ks == crate::wish::bytes_seq(keys@),
                self.wf(),
                self@ == probing(old(self)@, ks.take(i as int), now).0,
                number_of_entries_that_exist == probing(old(self)@, ks.take(i as int), now).1,
                number_of_entries_that_exist <= i,
            decreases keys.len() - i,
        {
            proof {
                assert(ks.take(i + 1).drop_last() =~= ks.take(i as int));
            }
            if self.valid_index(keys[i].as_slice(), now).is_some() {
                number_of_entries_that_exist = number_of_entries_that_exist + 1;
            }
            i = i + 1;
        }
        proof {
            assert(ks.take(i as int) =~= ks);
        }
        number_of_entries_that_exist
    }

    /// EXPIRE: gives the live entry under `key` the expiry time `expiry`
    /// and tells whether there was one.
    pub fn expire(&mut self, key: Vec<u8>, expiry: u64, now: u64) -> (r: u32)
        requires
            old(self).wf(),
        ensures
            final(self).wf(),
            match live(old(self)@, key@, now) {
                Some(d) => {
                    &&& final(self)@ == old(self)@.insert(key@, (d, Some(expiry)))
                    &&& r == 1
                },
                None => {
                    &&& final(self)@ == purged(old(self)@, key@, now)
                    &&& r == 0
                },
            },
    {
        match self.valid_index(key.as_slice(), now) {
            Some(i) => {
                let (k, (value, _)) = self.take(i);
                self.put(i, k, value, Some(expiry));
                1
            },
            None => 0,
        }
    }

    /// TTL: the whole seconds left before the entry under `key` expires,
    /// seen at `now`: -1 for an entry without expiry and -2 for no entry
    /// (an entry found expired is dropped).
    pub fn ttl(&mut self, key: Vec<u8>, now: Moment) -> (r: i64)
        requires
            old(self).wf(),
            now.wf(),
            old(self)@.contains_key(key@) ==> (old(self)@[key@].1 matches Some(e) ==> e
                <= i64::MAX),
        ensures
            final(self).wf(),
            !old(self)@.contains_key(key@) ==> final(self)@ == old(self)@ && r == -2,
            old(self)@.contains_key(key@) ==> match old(self)@[key@].1 {
                None => final(self)@ == old(self)@ && r == -1,
                Some(e) => match remaining(e, now) {
                    Some(left) => final(self)@ == old(self)@ && r == left,
                    None => final(self)@ == old(self)@.remove(key@) && r == -2,
                },
            },
    {
        match self.store.find(key.as_slice()) {
            Some(i) => {
                proof {
                    self.lemma_item(i as int);
                }
                match self.store.value_at(i).1 {
                    Some(expiry) => {
                        if expiry < now.secs || (expiry == now.secs && now.nanos > 0) {
                            let _ = self.take(i);
                            -2
                        } else if now.nanos > 0 {
                            (expiry - now.secs - 1) as i64
                        } else {
                            (expiry - now.secs) as i64
                        }
                    },
                    None => -1,
                }
            },
            None => -2,
        }
    }

    /// MSET: stores each key/value pair of `terms` in order, without
    /// expiry; a trailing key without a value is ignored.
    pub fn mset(&mut self, terms: Vec<Vec<u8>>)
        requires
            old(self).wf(),
        ensures
            final(self).wf(),
            final(self)@ == assigned(old(self)@, crate::wish::bytes_seq(terms@)),
    {
        let ghost ks = crate::wish::bytes_seq(terms@);
        let mut i: usize = 0;
        proof {
            assert(ks.skip(0) =~= ks);
        }
        while terms.len() - i >= 2
            invariant
                i <= terms.len(),
                ks == crate::wish::bytes_seq(terms@),
                self.wf(),
                assigned(old(self)@, ks) == assigned(self@, ks.skip(i as int)),
            decreases terms.len() - i,
        {
            let ghost rest = ks.skip(i as int);
            proof {
                assert(rest[0] == terms@[i as int]@);
                assert(rest[1] == terms@[i + 1]@);
                assert(rest.skip(2) =~= ks.skip(i + 2));
            }
            self.store(terms[i].clone(), Value::String(terms[i + 1].clone()), None);
            i = i + 2;
        }
        proof {
            assert(ks.skip(i as int).len() < 2);
        }
    }

    /// MGET: the string under each of `keys`, or nothing where a key holds
    /// no live string.
    pub fn mget(&mut self, keys: Vec<Vec<u8>>, now: u64) -> (r: Option<Vec<Option<Vec<u8>>>>)
        requires
            old(self).wf(),
        ensures
            final(self).wf(),
            final(self)@ == fetched(old(self)@, crate::wish::bytes_seq(keys@), now).0,
            r matches Some(vals) && crate::wish::opt_bytes_seq(vals@) == fetched(
                old(self)@,
                crate::wish::bytes_seq(keys@),
                now,
            ).1,
    {
        let ghost ks = crate::wish::bytes_seq(keys@);
        let mut result: Vec<Option<Vec<u8>>> = Vec::new();
        let mut i: usize = 0;
        proof {
            assert(ks.take(0) =~= Seq::<Seq<u8>>::empty());
            assert(crate::wish::opt_bytes_seq(result@) =~= Seq::<Option<Seq<u8>>>::empty());
        }
        while i < keys.len()
            invariant
                i <= keys.len(),
                ks == crate::wish::bytes_seq(keys@),
                self.wf(),
                self@ == fetched(old(self)@, ks.take(i as int), now).0,
                crate::wish::opt_bytes_seq(result@) == fetched(old(self)@, ks.take(i as int), now).1,
            decreases keys.len() - i,
        {
            proof {
                assert(ks.take(i + 1).drop_last() =~= ks.take(i as int));
                assert(ks.take(i + 1).last() == keys@[i as int]@);
            }
            let ghost before = result@;
            let found = match self.valid_index(keys[i].as_slice(), now) {
                Some(j) => match &self.store.value_at(j).0 {
                    Value::String(value) => Some(value.clone()),
                    _ => None,
                },
                None => None,
            };
            result.push(found);
            proof {
                assert(crate::wish::opt_bytes_seq(result@) =~= crate::wish::opt_bytes_seq(
                    before,
                ).push(crate::wish::opt_bytes(found)));
            }
            i = i + 1;
        }
        proof {
            assert(ks.take(i as int) =~= ks);
        }
        Some(result)
    }
}

} // verus!
