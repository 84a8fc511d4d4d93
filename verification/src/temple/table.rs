use vstd::prelude::*;

use crate::wish::util::bytes_eq;

verus! {

broadcast use vstd::seq_lib::group_seq_properties;

/// A finite map from byte strings to values, kept as a list of entries with
/// pairwise distinct keys. The entries keep the order in which their keys
/// were first stored; replacing a value leaves its entry in place.
pub struct ByteMap<V> {
    entries: Vec<(Vec<u8>, V)>,
}

impl<V: View> View for ByteMap<V> {
    type V = Map<Seq<u8>, V::V>;

    closed spec fn view(&self) -> Map<Seq<u8>, V::V> {
        Map::new(
            |k: Seq<u8>| self.keys().contains(k),
            |k: Seq<u8>| self.values()[self.keys().index_of(k)],
        )
    }
}

impl<V: View> ByteMap<V> {
    /// The keys, in entry order.
    pub closed spec fn keys(self) -> Seq<Seq<u8>> {
        self.entries@.map_values(|e: (Vec<u8>, V)| e.0@)
    }

    /// The values (as views), in entry order.
    pub closed spec fn values(self) -> Seq<V::V> {
        self.entries@.map_values(|e: (Vec<u8>, V)| e.1@)
    }

    /// The values themselves, in entry order.
    pub closed spec fn items(self) -> Seq<V> {
        self.entries@.map_values(|e: (Vec<u8>, V)| e.1)
    }

    /// No key occurs twice.
    pub closed spec fn wf(self) -> bool {
        self.keys().no_duplicates()
    }

    /// How the entry list determines the map.
    pub proof fn lemma_view(self)
        requires
            self.wf(),
        ensures
            self.keys().no_duplicates(),
            self.keys().len() == self.values().len(),
            self.items().len() == self.values().len(),
            forall|i: int| 0 <= i < self.items().len() ==> #[trigger] self.values()[i] == self.items()[i]@,
            forall|k: Seq<u8>| #[trigger] self@.contains_key(k) <==> self.keys().contains(k),
            forall|i: int|
                0 <= i < self.keys().len() ==> #[trigger] self@[self.keys()[i]] == self.values()[i],
            self@.dom() == self.keys().to_set(),
            self@.dom().finite(),
            self@.len() == self.keys().len(),
    {
        let ks = self.keys();
        assert forall|i: int| 0 <= i < ks.len() implies #[trigger] self@[ks[i]] == self.values()[i] by {
            assert(ks.contains(ks[i]));
            let j = ks.index_of(ks[i]);
            assert(0 <= j < ks.len() && ks[j] == ks[i]);
            assert(j == i);
        }
        assert(self@.dom() =~= ks.to_set());
        ks.unique_seq_to_set();
    }

    /// Checks that no key occurs twice.
    pub fn distinct_keys(&self) -> (r: bool)
        ensures
            r == self.wf(),
    {
        let n = self.entries.len();
        let mut i: usize = 0;
        while i < n
            invariant
                i <= n,
                n == self.entries@.len(),
                self.keys().len() == n,
                forall|a: int, b: int| 0 <= a < b < i ==> self.keys()[a] != self.keys()[b],
            decreases n - i,
        {
            let mut j: usize = 0;
            while j < i
                invariant
                    j <= i < n,
                    n == self.entries@.len(),
                    self.keys().len() == n,
                    forall|b: int| 0 <= b < j ==> self.keys()[b] != self.keys()[i as int],
                decreases i - j,
            {
                assert(self.keys()[i as int] == self.entries@[i as int].0@);
                assert(self.keys()[j as int] == self.entries@[j as int].0@);
                if bytes_eq(self.entries[i].0.as_slice(), self.entries[j].0.as_slice()) {
                    return false;
                }
                j = j + 1;
            }
            i = i + 1;
        }
        proof {
            assert forall|a: int, b: int|
                0 <= a < self.keys().len() && 0 <= b < self.keys().len() && a != b implies self.keys()[a]
                != self.keys()[b] by {
                if a > b {
                    assert(self.keys()[b] != self.keys()[a]);
                }
            }
        }
        true
    }

    /// An empty map.
    pub fn new() -> (m: Self)
        ensures
            m.wf(),
            m@ == Map::<Seq<u8>, V::V>::empty(),
            m.keys() == Seq::<Seq<u8>>::empty(),
            m.items() == Seq::<V>::empty(),
    {
        let m = ByteMap { entries: Vec::new() };
        assert(m.keys() =~= Seq::<Seq<u8>>::empty());
        assert(m.items() =~= Seq::<V>::empty());
        assert(m@ =~= Map::<Seq<u8>, V::V>::empty());
        m
    }

    /// The number of entries.
    pub fn len(&self) -> (n: usize)
        ensures
            n == self.keys().len(),
            self.wf() ==> n == self@.len(),
    {
        proof {
            if self.wf() {
                self.lemma_view();
            }
        }
        self.entries.len()
    }

    /// The key of the entry at `i`.
    pub fn key_at(&self, i: usize) -> (k: &Vec<u8>)
        requires
            i < self.keys().len(),
        ensures
            k@ == self.keys()[i as int],
    {
        &self.entries[i].0
    }

    /// The value of the entry at `i`.
    pub fn value_at(&self, i: usize) -> (v: &V)
        requires
            i < self.keys().len(),
        ensures
            v@ == self.values()[i as int],
            *v == self.items()[i as int],
    {
        &self.entries[i].1
    }

    /// The position of the entry for `key`.
    pub fn find(&self, key: &[u8]) -> (r: Option<usize>)
        requires
            self.wf(),
        ensures
            r is Some <==> self@.contains_key(key@),
            r matches Some(i) ==> i < self.keys().len() && self.keys()[i as int] == key@ && self@[key@]
                == self.values()[i as int],
    {
        proof {
            self.lemma_view();
        }
        let mut i: usize = 0;
        while i < self.entries.len()
            invariant
                i <= self.entries.len(),
                self.wf(),
                self.keys().len() == self.entries.len(),
                forall|j: int| 0 <= j < i ==> self.keys()[j] != key@,
            decreases self.entries.len() - i,
        {
            if bytes_eq(self.entries[i].0.as_slice(), key) {
                proof {
                    self.lemma_view();
                    assert(self.keys()[i as int] == key@);
                    assert(self.keys().contains(key@));
                }
                return Some(i);
            }
            i = i + 1;
        }
        proof {
            self.lemma_view();
        }
        None
    }

    /// The value stored under `key`.
    pub fn get(&self, key: &[u8]) -> (r: Option<&V>)
        requires
            self.wf(),
        ensures
            r is Some <==> self@.contains_key(key@),
            r matches Some(v) ==> v@ == self@[key@],
    {
        match self.find(key) {
            Some(i) => Some(&self.entries[i].1),
            None => None,
        }
    }

    /// Takes out the entry at `i`.
    pub fn take_at(&mut self, i: usize) -> (r: (Vec<u8>, V))
        requires
            old(self).wf(),
            i < old(self).keys().len(),
        ensures
            final(self).wf(),
            r.0@ == old(self).keys()[i as int],
            r.1@ == old(self).values()[i as int],
            r.1 == old(self).items()[i as int],
            final(self).items() == old(self).items().remove(i as int),
            final(self).keys() == old(self).keys().remove(i as int),
            final(self).values() == old(self).values().remove(i as int),
            final(self)@ == old(self)@.remove(r.0@),
    {
        proof {
            self.lemma_view();
        }
        let r = self.entries.remove(i);
        proof {
            let ok = old(self).keys();
            assert(self.keys() =~= ok.remove(i as int));
            assert(self.values() =~= old(self).values().remove(i as int));
            assert(self.items() =~= old(self).items().remove(i as int));
            let nk = self.keys();
            assert forall|a: int, b: int|
                0 <= a < nk.len() && 0 <= b < nk.len() && a != b implies nk[a] != nk[b] by {
                let oa = if a < i { a } else { a + 1 };
                let ob = if b < i { b } else { b + 1 };
                assert(nk[a] == ok[oa] && nk[b] == ok[ob]);
            }
            self.lemma_view();
            old(self).lemma_view();
            assert forall|k: Seq<u8>| #[trigger] self@.contains_key(k) <==> old(self)@.remove(
                r.0@,
            ).contains_key(k) by {
                if self@.contains_key(k) {
                    let j = nk.index_of(k);
                    let oj = if j < i { j } else { j + 1 };
                    assert(ok[oj] == k);
                    assert(ok.contains(k));
                    assert(oj != i);
                    assert(ok[oj] != ok[i as int]);
                    assert(k != r.0@);
                }
                if old(self)@.remove(r.0@).contains_key(k) {
                    let j = ok.index_of(k);
                    assert(j != i);
                    let nj = if j < i { j } else { j - 1 };
                    assert(nk[nj] == k);
                    assert(nk.contains(k));
                }
            }
            assert forall|k: Seq<u8>| #[trigger] self@.contains_key(k) implies self@[k] == old(
                self,
            )@.remove(r.0@)[k] by {
                let j = nk.index_of(k);
                let oj = if j < i { j } else { j + 1 };
                assert(ok[oj] == k);
                assert(self@[nk[j]] == self.values()[j]);
                assert(old(self)@[ok[oj]] == old(self).values()[oj]);
            }
            assert(self@ =~= old(self)@.remove(r.0@));
        }
        r
    }

    /// Puts an entry for a key that is not present at position `i`.
    pub fn put_at(&mut self, i: usize, key: Vec<u8>, v: V)
        requires
            old(self).wf(),
            i <= old(self).keys().len(),
            !old(self)@.contains_key(key@),
        ensures
            final(self).wf(),
            final(self).keys() == old(self).keys().insert(i as int, key@),
            final(self).values() == old(self).values().insert(i as int, v@),
            final(self).items() == old(self).items().insert(i as int, v),
            final(self)@ == old(self)@.insert(key@, v@),
    {
        proof {
            self.lemma_view();
        }
        let ghost kv = key@;
        let ghost vv = v@;
        let ghost vx = v;
        self.entries.insert(i, (key, v));
        proof {
            let ok = old(self).keys();
            assert(self.keys() =~= ok.insert(i as int, kv));
            assert(self.values() =~= old(self).values().insert(i as int, vv));
            assert(self.items() =~= old(self).items().insert(i as int, vx));
            let nk = self.keys();
            assert(!ok.contains(kv));
            assert forall|a: int, b: int|
                0 <= a < nk.len() && 0 <= b < nk.len() && a != b implies nk[a] != nk[b] by {
                if a != i && b != i {
                    let oa = if a < i { a } else { a - 1 };
                    let ob = if b < i { b } else { b - 1 };
                    assert(nk[a] == ok[oa] && nk[b] == ok[ob]);
                } else if a == i {
                    let ob = if b < i { b } else { b - 1 };
                    assert(nk[b] == ok[ob]);
                } else {
                    let oa = if a < i { a } else { a - 1 };
                    assert(nk[a] == ok[oa]);
                }
            }
            self.lemma_view();
            old(self).lemma_view();
            assert forall|k: Seq<u8>| #[trigger] self@.contains_key(k) <==> old(self)@.insert(
                kv,
                vv,
            ).contains_key(k) by {
                if self@.contains_key(k) && k != kv {
                    let j = nk.index_of(k);
                    assert(j != i);
                    let oj = if j < i { j } else { j - 1 };
                    assert(ok[oj] == k);
                }
                if k == kv {
                    assert(nk[i as int] == kv);
                } else if old(self)@.contains_key(k) {
                    let j = ok.index_of(k);
                    let nj = if j < i { j } else { j + 1 };
                    assert(nk[nj] == k);
                }
            }
            assert forall|k: Seq<u8>| #[trigger] self@.contains_key(k) implies self@[k] == old(
                self,
            )@.insert(kv, vv)[k] by {
                let j = nk.index_of(k);
                assert(self@[nk[j]] == self.values()[j]);
                if j != i {
                    let oj = if j < i { j } else { j - 1 };
                    assert(ok[oj] == k);
                    assert(old(self)@[ok[oj]] == old(self).values()[oj]);
                } else {
                    assert(nk[i as int] == kv);
                }
            }
            assert(self@ =~= old(self)@.insert(kv, vv));
        }
    }

    /// Stores `v` under `key`, in place of any value already there, and
    /// hands back the value it replaced.
    pub fn insert(&mut self, key: Vec<u8>, v: V) -> (r: Option<V>)
        requires
            old(self).wf(),
        ensures
            final(self).wf(),
            final(self)@ == old(self)@.insert(key@, v@),
            r is Some <==> old(self)@.contains_key(key@),
            r matches Some(o) ==> o@ == old(self)@[key@],
            forall|x: V| #[trigger] final(self).items().contains(x) ==> old(self).items().contains(x) || x
                == v,
    {
        let ghost vx = v;
        match self.find(key.as_slice()) {
            Some(i) => {
                let (_k, o) = self.take_at(i);
                let ghost mid = self.items();
                self.put_at(i, key, v);
                proof {
                    assert(self@ =~= old(self)@.insert(key@, v@));
                    assert forall|x: V| #[trigger] self.items().contains(x) implies old(self).items().contains(x)
                        || x == vx by {
                        let j = self.items().index_of(x);
                        if j < i {
                            assert(old(self).items()[j] == x);
                        } else if j > i {
                            assert(old(self).items()[j] == x);
                        }
                    }
                }
                Some(o)
            },
            None => {
                let n = self.entries.len();
                self.put_at(n, key, v);
                proof {
                    assert forall|x: V| #[trigger] self.items().contains(x) implies old(self).items().contains(x)
                        || x == vx by {
                        let j = self.items().index_of(x);
                        if j < n {
                            assert(old(self).items()[j] == x);
                        }
                    }
                }
                None
            },
        }
    }

    /// Takes out the value stored under `key`.
    pub fn remove(&mut self, key: &[u8]) -> (r: Option<V>)
        requires
            old(self).wf(),
        ensures
            final(self).wf(),
            final(self)@ == old(self)@.remove(key@),
            r is Some <==> old(self)@.contains_key(key@),
            r matches Some(o) ==> o@ == old(self)@[key@],
            forall|x: V| #[trigger] final(self).items().contains(x) ==> old(self).items().contains(x),
    {
        match self.find(key) {
            Some(i) => {
                let (_k, o) = self.take_at(i);
                proof {
                    assert forall|x: V| #[trigger] self.items().contains(x) implies old(self).items().contains(x) by {
                        let j = self.items().index_of(x);
                        if j < i {
                            assert(old(self).items()[j] == x);
                        } else {
                            assert(old(self).items()[j + 1] == x);
                        }
                    }
                }
                Some(o)
            },
            None => {
                proof {
                    assert(self@ =~= old(self)@.remove(key@));
                }
                None
            },
        }
    }
}

/// A finite set of byte strings, listed in the order in which its members
/// were first added.
pub struct ByteSet {
    map: ByteMap<()>,
}

impl View for ByteSet {
    type V = Set<Seq<u8>>;

    closed spec fn view(&self) -> Set<Seq<u8>> {
        self.map@.dom()
    }
}

impl ByteSet {
    /// The members, in insertion order.
    pub closed spec fn members(self) -> Seq<Seq<u8>> {
        self.map.keys()
    }

    /// No member is listed twice.
    pub closed spec fn wf(self) -> bool {
        self.map.wf()
    }

    /// How the member list determines the set.
    pub proof fn lemma_view(self)
        requires
            self.wf(),
        ensures
            self.members().no_duplicates(),
            self@ == self.members().to_set(),
            self@.finite(),
            self@.len() == self.members().len(),
            forall|k: Seq<u8>| #[trigger] self@.contains(k) <==> self.members().contains(k),
    {
        self.map.lemma_view();
    }

    /// Checks that no member is listed twice.
    pub fn distinct_members(&self) -> (r: bool)
        ensures
            r == self.wf(),
    {
        self.map.distinct_keys()
    }

    /// An empty set.
    pub fn new() -> (s: Self)
        ensures
            s.wf(),
            s@ == Set::<Seq<u8>>::empty(),
            s.members() == Seq::<Seq<u8>>::empty(),
    {
        let s = ByteSet { map: ByteMap::new() };
        assert(s@ =~= Set::<Seq<u8>>::empty());
        s
    }

    /// The number of members.
    pub fn len(&self) -> (n: usize)
        ensures
            n == self.members().len(),
            self.wf() ==> n == self@.len(),
    {
        proof {
            if self.wf() {
                self.lemma_view();
            }
        }
        self.map.len()
    }

    /// The member at position `i` of the listing.
    pub fn member_at(&self, i: usize) -> (m: &Vec<u8>)
        requires
            i < self.members().len(),
        ensures
            m@ == self.members()[i as int],
    {
        self.map.key_at(i)
    }

    /// Whether `value` is a member.
    pub fn contains(&self, value: &[u8]) -> (r: bool)
        requires
            self.wf(),
        ensures
            r == self@.contains(value@),
    {
        self.map.find(value).is_some()
    }

    /// Adds `value`; tells whether it was new.
    pub fn insert(&mut self, value: Vec<u8>) -> (r: bool)
        requires
            old(self).wf(),
        ensures
            final(self).wf(),
            final(self)@ == old(self)@.insert(value@),
            r == !old(self)@.contains(value@),
    {
        let ghost v = value@;
        let prev = self.map.insert(value, ());
        proof {
            assert(self@ =~= old(self)@.insert(v));
        }
        prev.is_none()
    }

    /// Removes `value`; tells whether it was a member.
    pub fn remove(&mut self, value: &[u8]) -> (r: bool)
        requires
            old(self).wf(),
        ensures
            final(self).wf(),
            final(self)@ == old(self)@.remove(value@),
            r == old(self)@.contains(value@),
    {
        let prev = self.map.remove(value);
        proof {
            assert(self@ =~= old(self)@.remove(value@));
        }
        prev.is_some()
    }

    /// Removes every member.
    pub fn clear(&mut self)
        ensures
            final(self).wf(),
            final(self)@ == Set::<Seq<u8>>::empty(),
            final(self).members() == Seq::<Seq<u8>>::empty(),
    {
        self.map = ByteMap::new();
        proof {
            assert(self@ =~= Set::<Seq<u8>>::empty());
        }
    }
}

} // verus!
