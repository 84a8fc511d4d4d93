use vstd::prelude::*;

use std::collections::HashMap;
use std::collections::HashSet;

use crate::temple::table::{ByteMap, ByteSet};
use crate::wish::{bytes_seq, channels_view};

verus! {

broadcast use vstd::std_specs::hash::group_hash_axioms;

/// Subscribing to `events` one after another with the channel set `s`: the
/// resulting set, and for each channel that was new, the channel with the
/// number of subscriptions after it.
pub open spec fn subscribing(s: Set<Seq<u8>>, events: Seq<Seq<u8>>) -> (
    Set<Seq<u8>>,
    Seq<(Seq<u8>, nat)>,
)
    decreases events.len(),
{
    if events.len() == 0 {
        (s, Seq::empty())
    } else {
        let (s1, out) = subscribing(s, events.drop_last());
        let e = events.last();
        if s1.contains(e) {
            (s1, out)
        } else {
            (s1.insert(e), out.push((e, s1.insert(e).len())))
        }
    }
}

/// Unsubscribing from `events` one after another with the channel set `s`:
/// the resulting set, and each channel named with the number of
/// subscriptions left after it.
pub open spec fn unsubscribing(s: Set<Seq<u8>>, events: Seq<Seq<u8>>) -> (
    Set<Seq<u8>>,
    Seq<(Seq<u8>, nat)>,
)
    decreases events.len(),
{
    if events.len() == 0 {
        (s, Seq::empty())
    } else {
        let (s1, out) = unsubscribing(s, events.drop_last());
        let e = events.last();
        (s1.remove(e), out.push((e, s1.remove(e).len())))
    }
}

/// Unsubscribing, channel by channel: the `i`-th channel named is answered
/// with the number of channels the client still subscribes to once it and
/// every channel named before it are gone (so 0 once none are left), and
/// the client keeps exactly the channels not named.
pub proof fn law_unsubscribe_counts_what_is_left(s: Set<Seq<u8>>, events: Seq<Seq<u8>>)
    requires
        s.finite(),
    ensures
        unsubscribing(s, events).0 == s.difference(events.to_set()),
        unsubscribing(s, events).1.len() == events.len(),
        forall|i: int|
            0 <= i < events.len() ==> #[trigger] unsubscribing(s, events).1[i] == (
                events[i],
                s.difference(events.take(i + 1).to_set()).len(),
            ),
    decreases events.len(),
{
    if events.len() == 0 {
        assert(s.difference(events.to_set()) =~= s);
    } else {
        let init = events.drop_last();
        let e = events.last();
        law_unsubscribe_counts_what_is_left(s, init);
        let s1 = s.difference(init.to_set());
        assert(s1.remove(e) =~= s.difference(events.to_set())) by {
            assert forall|x: Seq<u8>| events.contains(x) <==> init.contains(x) || x == e by {
                if events.contains(x) {
                    let j = choose|j: int| 0 <= j < events.len() && events[j] == x;
                    if j < events.len() - 1 {
                        assert(init[j] == x);
                    }
                }
                if init.contains(x) {
                    let j = choose|j: int| 0 <= j < init.len() && init[j] == x;
                    assert(events[j] == x);
                }
                if x == e {
                    assert(events[events.len() - 1] == x);
                }
            }
        }
        assert(events.take(events.len() as int) =~= events);
        assert forall|i: int| 0 <= i < events.len() implies #[trigger] unsubscribing(s, events).1[i] == (
            events[i],
            s.difference(events.take(i + 1).to_set()).len(),
        ) by {
            if i < events.len() - 1 {
                assert(init.take(i + 1) =~= events.take(i + 1));
                assert(init[i] == events[i]);
            }
        }
    }
}

/// Unsubscribing from every channel of a listing without repeats: the
/// `i`-th channel is answered with the number of channels of the listing
/// still subscribed once it and every channel before it are gone, so the
/// last one is answered with 0.
pub proof fn law_unsubscribe_all_counts_what_is_left(listing: Seq<Seq<u8>>)
    requires
        listing.no_duplicates(),
    ensures
        countdown(listing).len() == listing.len(),
        forall|i: int|
            0 <= i < listing.len() ==> #[trigger] countdown(listing)[i] == (
                listing[i],
                listing.to_set().difference(listing.take(i + 1).to_set()).len(),
            ),
{
    assert forall|i: int| 0 <= i < listing.len() implies #[trigger] countdown(listing)[i] == (
        listing[i],
        listing.to_set().difference(listing.take(i + 1).to_set()).len(),
    ) by {
        let rest = listing.skip(i + 1);
        assert(listing.to_set().difference(listing.take(i + 1).to_set()) =~= rest.to_set()) by {
            assert forall|x: Seq<u8>|
                listing.to_set().difference(listing.take(i + 1).to_set()).contains(x) <==> rest.to_set().contains(
                    x,
                ) by {
                if rest.contains(x) {
                    let j = choose|j: int| 0 <= j < rest.len() && rest[j] == x;
                    assert(listing[i + 1 + j] == x);
                    if listing.take(i + 1).contains(x) {
                        let pre = listing.take(i + 1);
                        let k = choose|k: int| 0 <= k < pre.len() && pre[k] == x;
                        assert(listing[k] == x);
                    }
                }
                if listing.contains(x) && !listing.take(i + 1).contains(x) {
                    let j = choose|j: int| 0 <= j < listing.len() && listing[j] == x;
                    if j <= i {
                        assert(listing.take(i + 1)[j] == x);
                    } else {
                        assert(rest[j - i - 1] == x);
                    }
                }
            }
        }
        assert(rest.no_duplicates()) by {
            assert forall|a: int, b: int| 0 <= a < rest.len() && 0 <= b < rest.len() && a != b implies rest[a]
                != rest[b] by {
                assert(rest[a] == listing[a + i + 1]);
                assert(rest[b] == listing[b + i + 1]);
            }
        }
        rest.unique_seq_to_set();
    }
}

/// Every channel of `listing`, counting down the subscriptions left.
pub open spec fn countdown(listing: Seq<Seq<u8>>) -> Seq<(Seq<u8>, nat)> {
    Seq::new(listing.len(), |i: int| (listing[i], (listing.len() - 1 - i) as nat))
}

/// For each client, the channels it subscribes to.
pub struct EventMap {
    map: HashMap<usize, ByteSet>,
}

impl View for EventMap {
    type V = Map<usize, Set<Seq<u8>>>;

    closed spec fn view(&self) -> Map<usize, Set<Seq<u8>>> {
        self.map@.map_values(|s: ByteSet| s@)
    }
}

impl EventMap {
    /// Each client's channels in the order it subscribed to them.
    pub closed spec fn listing(self, token: usize) -> Seq<Seq<u8>> {
        self.map@[token].members()
    }

    /// Every channel set is well formed and no client is listed without a
    /// channel.
    pub closed spec fn wf(self) -> bool {
        forall|t: usize| #[trigger] self.map@.contains_key(t) ==> self.map@[t].wf() && self.map@[t]@.len() > 0
    }

    /// How a client's listing determines its channel set.
    pub proof fn lemma_listing(self, token: usize)
        requires
            self.wf(),
            self@.contains_key(token),
        ensures
            self.listing(token).no_duplicates(),
            self.listing(token).to_set() == self@[token],
            self@[token].finite(),
            self@[token].len() == self.listing(token).len(),
    {
        self.map@[token].lemma_view();
    }

    /// No subscriptions at all.
    pub fn new() -> (m: Self)
        ensures
            m.wf(),
            m@ == Map::<usize, Set<Seq<u8>>>::empty(),
    {
        let m = EventMap { map: HashMap::new() };
        proof {
            assert(m@ =~= Map::<usize, Set<Seq<u8>>>::empty());
        }
        m
    }

    /// Subscribes the client `token` to `events`; tells, for each channel
    /// that was new to it, the number of its subscriptions after it.
    pub fn subscribe(&mut self, token: usize, events: Vec<Vec<u8>>) -> (r: Vec<(Vec<u8>, usize)>)
        requires
            old(self).wf(),
            events@.len() > 0,
        ensures
            final(self).wf(),
            ({
                let s0 = if old(self)@.contains_key(token) {
                    old(self)@[token]
                } else {
                    Set::empty()
                };
                let (s1, out) = subscribing(s0, bytes_seq(events@));
                &&& final(self)@ == old(self)@.insert(token, s1)
                &&& channels_view(r@) == out
            }),
    {
        let ghost es = bytes_seq(events@);
        let mut set = match self.map.remove(&token) {
            Some(set) => set,
            None => ByteSet::new(),
        };
        let ghost s0 = set@;
        let mut result: Vec<(Vec<u8>, usize)> = Vec::new();
        let mut i: usize = 0;
        proof {
            set.lemma_view();
            assert(es.take(0) =~= Seq::<Seq<u8>>::empty());
            assert(channels_view(result@) =~= Seq::<(Seq<u8>, nat)>::empty());
        }
        while i < events.len()
            invariant
                i <= events.len(),
                es == bytes_seq(events@),
                set.wf(),
                (set@, channels_view(result@)) == subscribing(s0, es.take(i as int)),
                s0.finite(),
            decreases events.len() - i,
        {
            proof {
                assert(es.take(i + 1).drop_last() =~= es.take(i as int));
                assert(es.take(i + 1).last() == events@[i as int]@);
                set.lemma_view();
            }
            let ghost before = result@;
            let event = events[i].clone();
            if set.insert(event.clone()) {
                let count = set.len();
                proof {
                    set.lemma_view();
                }
                result.push((event, count));
                proof {
                    assert(channels_view(result@) =~= channels_view(before).push((events@[i as int]@, count as nat)));
                }
            }
            i = i + 1;
        }
        proof {
            assert(es.take(i as int) =~= es);
            set.lemma_view();
            lemma_subscribing_grows(s0, es);
        }
        self.map.insert(token, set);
        proof {
            assert(self@ =~= old(self)@.insert(token, subscribing(s0, es).0));
        }
        result
    }

    /// Unsubscribes the client `token` from `events`, or from every channel
    /// when `events` is empty, naming each channel with the number of
    /// subscriptions left after it; a client left without channels is
    /// dropped, here and from `subscribed_clients`. A client without
    /// subscriptions gets `None`.
    pub fn unsubscribe(
        &mut self,
        events: Vec<Vec<u8>>,
        token: usize,
        subscribed_clients: &mut HashSet<usize>,
    ) -> (r: Option<Vec<(Vec<u8>, usize)>>)
        requires
            old(self).wf(),
        ensures
            final(self).wf(),
            !old(self)@.contains_key(token) ==> {
                &&& r is None
                &&& final(self)@ == old(self)@
                &&& final(subscribed_clients)@ == old(subscribed_clients)@
            },
            old(self)@.contains_key(token) && events@.len() == 0 ==> {
                &&& r matches Some(v) && channels_view(v@) == countdown(old(self).listing(token))
                &&& final(self)@ == old(self)@.remove(token)
                &&& final(subscribed_clients)@ == old(subscribed_clients)@.remove(token)
            },
            old(self)@.contains_key(token) && events@.len() > 0 ==> {
                let (s1, out) = unsubscribing(old(self)@[token], bytes_seq(events@));
                &&& r matches Some(v) && channels_view(v@) == out
                &&& s1.len() == 0 ==> final(self)@ == old(self)@.remove(token)
                    && final(subscribed_clients)@ == old(subscribed_clients)@.remove(token)
                &&& s1.len() > 0 ==> final(self)@ == old(self)@.insert(token, s1)
                    && final(subscribed_clients)@ == old(subscribed_clients)@
            },
    {
        let mut set = match self.map.remove(&token) {
            Some(set) => set,
            None => {
                proof {
                    assert(self@ =~= old(self)@);
                }
                return None;
            },
        };
        proof {
            set.lemma_view();
        }
        let ghost s0 = set@;
        let ghost listing = set.members();
        let mut result: Vec<(Vec<u8>, usize)> = Vec::new();
        if events.len() == 0 {
            let n = set.len();
            let mut i: usize = 0;
            while i < n
                invariant
                    n == listing.len(),
                    listing == set.members(),
                    i <= n,
                    result@.len() == i,
                    channels_view(result@) == countdown(listing).take(i as int),
                decreases n - i,
            {
                let ghost before = result@;
                let channel = set.member_at(i).clone();
                result.push((channel, n - 1 - i));
                proof {
                    assert(channel@ == listing[i as int]);
                    assert(channels_view(result@)[i as int] == countdown(listing)[i as int]);
                    assert(channels_view(result@) =~= countdown(listing).take(i + 1));
                }
                i = i + 1;
            }
            proof {
                assert(countdown(listing).take(i as int) =~= countdown(listing));
                assert(self@ =~= old(self)@.remove(token));
            }
            subscribed_clients.remove(&token);
            return Some(result);
        }
        let ghost es = bytes_seq(events@);
        let mut i: usize = 0;
        proof {
            assert(es.take(0) =~= Seq::<Seq<u8>>::empty());
            assert(channels_view(result@) =~= Seq::<(Seq<u8>, nat)>::empty());
        }
        while i < events.len()
            invariant
                i <= events.len(),
                es == bytes_seq(events@),
                set.wf(),
                (set@, channels_view(result@)) == unsubscribing(s0, es.take(i as int)),
            decreases events.len() - i,
        {
            proof {
                assert(es.take(i + 1).drop_last() =~= es.take(i as int));
                assert(es.take(i + 1).last() == events@[i as int]@);
            }
            let ghost before = result@;
            let event = events[i].clone();
            set.remove(event.as_slice());
            let count = set.len();
            proof {
                set.lemma_view();
            }
            result.push((event, count));
            proof {
                assert(channels_view(result@) =~= channels_view(before).push((events@[i as int]@, count as nat)));
            }
            i = i + 1;
        }
        proof {
            assert(es.take(i as int) =~= es);
            set.lemma_view();
        }
        if set.len() == 0 {
            subscribed_clients.remove(&token);
            proof {
                assert(self@ =~= old(self)@.remove(token));
            }
        } else {
            self.map.insert(token, set);
            proof {
                assert(self@ =~= old(self)@.insert(token, unsubscribing(s0, es).0));
            }
        }
        Some(result)
    }
}

/// Subscribing to at least one channel leaves a non-empty, finite set.
proof fn lemma_subscribing_grows(s: Set<Seq<u8>>, events: Seq<Seq<u8>>)
    requires
        s.finite(),
    ensures
        subscribing(s, events).0.finite(),
        events.len() > 0 ==> subscribing(s, events).0.len() > 0,
    decreases events.len(),
{
    if events.len() > 0 {
        lemma_subscribing_grows(s, events.drop_last());
        let s1 = subscribing(s, events.drop_last()).0;
        let e = events.last();
        if s1.contains(e) {
            assert(s1.len() > 0) by {
                if s1.len() == 0 {
                    s1.lemma_len0_is_empty();
                }
            }
        } else {
            assert(s1.insert(e).len() == s1.len() + 1);
        }
    }
}

/// For each channel, the clients subscribed to it, in the order they
/// subscribed.
pub struct ClientMap {
    map: ByteMap<Vec<usize>>,
}

impl View for ClientMap {
    type V = Map<Seq<u8>, Seq<usize>>;

    closed spec fn view(&self) -> Map<Seq<u8>, Seq<usize>> {
        self.map@
    }
}

/// Adding `token` to the subscribers of each of `events`.
pub open spec fn joined(m: Map<Seq<u8>, Seq<usize>>, token: usize, events: Seq<Seq<u8>>) -> Map<
    Seq<u8>,
    Seq<usize>,
>
    decreases events.len(),
{
    if events.len() == 0 {
        m
    } else {
        let m1 = joined(m, token, events.drop_last());
        let e = events.last();
        if m1.contains_key(e) {
            if m1[e].contains(token) {
                m1
            } else {
                m1.insert(e, m1[e].push(token))
            }
        } else {
            m1.insert(e, seq![token])
        }
    }
}

/// Taking `token` off the subscribers of each of `events`; a channel left
/// without subscribers is dropped.
pub open spec fn parted(m: Map<Seq<u8>, Seq<usize>>, token: usize, events: Seq<Seq<u8>>) -> Map<
    Seq<u8>,
    Seq<usize>,
>
    decreases events.len(),
{
    if events.len() == 0 {
        m
    } else {
        let m1 = parted(m, token, events.drop_last());
        let e = events.last();
        if m1.contains_key(e) {
            let rest = m1[e].remove_value(token);
            if rest.len() == 0 {
                m1.remove(e)
            } else {
                m1.insert(e, rest)
            }
        } else {
            m1
        }
    }
}

/// The channels named in a list of channels with counts.
pub open spec fn named(s: Seq<(Seq<u8>, nat)>) -> Seq<Seq<u8>> {
    s.map_values(|p: (Seq<u8>, nat)| p.0)
}

impl ClientMap {
    /// No client lists a channel twice.
    pub closed spec fn wf(self) -> bool {
        &&& self.map.wf()
        &&& forall|e: Seq<u8>| #[trigger] self.map@.contains_key(e) ==> self.map@[e].no_duplicates()
    }

    /// No subscriptions at all.
    pub fn new() -> (m: Self)
        ensures
            m.wf(),
            m@ == Map::<Seq<u8>, Seq<usize>>::empty(),
    {
        ClientMap { map: ByteMap::new() }
    }

    /// No channel lists a client twice.
    pub proof fn lemma_lists(self)
        requires
            self.wf(),
        ensures
            forall|k: Seq<u8>| #[trigger] self@.contains_key(k) ==> self@[k].no_duplicates(),
    {
    }

    /// Adds `token` to the subscribers of each of `events`.
    pub fn subscribe(&mut self, token: usize, events: Vec<Vec<u8>>)
        requires
            old(self).wf(),
        ensures
            final(self).wf(),
            final(self)@ == joined(old(self)@, token, bytes_seq(events@)),
    {
        let ghost es = bytes_seq(events@);
        let mut i: usize = 0;
        proof {
            assert(es.take(0) =~= Seq::<Seq<u8>>::empty());
        }
        while i < events.len()
            invariant
                i <= events.len(),
                es == bytes_seq(events@),
                self.wf(),
                self@ == joined(old(self)@, token, es.take(i as int)),
            decreases events.len() - i,
        {
            proof {
                assert(es.take(i + 1).drop_last() =~= es.take(i as int));
                assert(es.take(i + 1).last() == events@[i as int]@);
            }
            let event = events[i].clone();
            let ghost prev = self.map@;
            let ghost e0 = event@;
            let ghost fresh: Seq<usize>;
            match self.map.remove(event.as_slice()) {
                Some(mut clients) => {
                    let ghost c0 = clients@;
                    assert(c0 == prev[e0]);
                    if !contains_token(&clients, token) {
                        clients.push(token);
                        proof {
                            assert forall|a: int, b: int| 0 <= a < b < clients@.len() implies clients@[a]
                                != clients@[b] by {
                                if b == c0.len() {
                                    assert(c0[a] != token);
                                }
                            }
                        }
                    }
                    proof {
                        fresh = clients@;
                    }
                    self.map.insert(event, clients);
                },
                None => {
                    let mut clients: Vec<usize> = Vec::new();
                    clients.push(token);
                    proof {
                        fresh = clients@;
                    }
                    self.map.insert(event, clients);
                },
            }
            proof {
                assert(self.map@ =~= prev.remove(e0).insert(e0, fresh));
                assert(fresh.no_duplicates());
                assert forall|e: Seq<u8>| #[trigger] self.map@.contains_key(e) implies self.map@[e].no_duplicates() by {
                    if e != e0 {
                        assert(prev.contains_key(e));
                        assert(self.map@[e] == prev[e]);
                    }
                }
            }
            i = i + 1;
        }
        proof {
            assert(es.take(i as int) =~= es);
        }
    }

    /// Takes `token` off the subscribers of each channel in `events`.
    pub fn unsubscribe(&mut self, token: usize, events: &Option<Vec<(Vec<u8>, usize)>>)
        requires
            old(self).wf(),
        ensures
            final(self).wf(),
            final(self)@ == match events {
                Some(v) => parted(old(self)@, token, named(channels_view(v@))),
                None => old(self)@,
            },
    {
        let events = match events {
            Some(events) => events,
            None => {
                return ;
            },
        };
        let ghost es = named(channels_view(events@));
        let mut i: usize = 0;
        proof {
            assert(es.take(0) =~= Seq::<Seq<u8>>::empty());
        }
        while i < events.len()
            invariant
                i <= events.len(),
                es == named(channels_view(events@)),
                es.len() == events@.len(),
                self.wf(),
                self@ == parted(old(self)@, token, es.take(i as int)),
            decreases events.len() - i,
        {
            proof {
                assert(es.take(i + 1).drop_last() =~= es.take(i as int));
                assert(es.take(i + 1).last() == events@[i as int].0@);
            }
            let event = &events[i].0;
            match self.map.remove(event.as_slice()) {
                Some(clients) => {
                    let rest = without_token(clients, token);
                    if rest.len() > 0 {
                        self.map.insert(event.clone(), rest);
                    }
                },
                None => {},
            }
            i = i + 1;
        }
        proof {
            assert(es.take(i as int) =~= es);
        }
    }

    /// The subscribers of `event`.
    pub fn publish(&self, event: Vec<u8>) -> (r: Vec<usize>)
        requires
            self.wf(),
        ensures
            r@ == if self@.contains_key(event@) {
                self@[event@]
            } else {
                Seq::empty()
            },
    {
        match self.map.get(event.as_slice()) {
            Some(clients) => clients.clone(),
            None => Vec::new(),
        }
    }
}

/// Whether `token` is listed.
fn contains_token(clients: &Vec<usize>, token: usize) -> (r: bool)
    ensures
        r == clients@.contains(token),
{
    let mut i: usize = 0;
    while i < clients.len()
        invariant
            i <= clients.len(),
            forall|j: int| 0 <= j < i ==> clients@[j] != token,
        decreases clients.len() - i,
    {
        if clients[i] == token {
            return true;
        }
        i = i + 1;
    }
    false
}

/// The list without `token`.
fn without_token(list: Vec<usize>, token: usize) -> (r: Vec<usize>)
    requires
        list@.no_duplicates(),
    ensures
        r@ == list@.remove_value(token),
        r@.no_duplicates(),
{
    let ghost c = list@;
    let mut clients = list;
    let mut i: usize = 0;
    while i < clients.len()
        invariant
            i <= clients.len(),
            clients@ == c,
            c == list@,
            c.no_duplicates(),
            forall|j: int| 0 <= j < i ==> c[j] != token,
        decreases clients.len() - i,
    {
        if clients[i] == token {
            proof {
                c.index_of_first_ensures(token);
                let k = c.index_of_first(token)->0;
                if k < i {
                } else if k > i {
                }
                assert(k == i);
            }
            clients.remove(i);
            proof {
                assert forall|a: int, b: int| 0 <= a < b < clients@.len() implies clients@[a] != clients@[b] by {
                    let oa = if a < i { a } else { a + 1 };
                    let ob = if b < i { b } else { b + 1 };
                    assert(c[oa] != c[ob]);
                }
                assert(c.index_of_first(token) == Some(i as int));
                assert(clients@ == c.remove(i as int));
                assert(clients@ == c.remove_value(token));
            }
            return clients;
        }
        i = i + 1;
    }
    proof {
        c.index_of_first_ensures(token);
        assert forall|j: int| 0 <= j < c.len() implies c[j] != token by {}
        assert(!c.contains(token));
        assert(c.index_of_first(token) is None);
        assert(clients@ == c.remove_value(token));
    }
    clients
}

/// The subscribers of `event`, none when it has no entry.
pub open spec fn subscribers(m: Map<Seq<u8>, Seq<usize>>, event: Seq<u8>) -> Seq<usize> {
    if m.contains_key(event) {
        m[event]
    } else {
        Seq::empty()
    }
}

/// Subscribing adds exactly the channels named.
pub proof fn lemma_subscribing_members(s: Set<Seq<u8>>, events: Seq<Seq<u8>>, x: Seq<u8>)
    ensures
        subscribing(s, events).0.contains(x) <==> s.contains(x) || events.contains(x),
    decreases events.len(),
{
    if events.len() > 0 {
        lemma_subscribing_members(s, events.drop_last(), x);
        let e = events.last();
        if events.drop_last().contains(x) {
            let i = choose|i: int| 0 <= i < events.drop_last().len() && events.drop_last()[i] == x;
            assert(events[i] == x);
        }
        if events.contains(x) && x != e {
            let i = choose|i: int| 0 <= i < events.len() && events[i] == x;
            assert(i != events.len() - 1);
            assert(events.drop_last()[i] == x);
        }
        if x == e {
            assert(events[events.len() - 1] == x);
        }
    }
}

/// Unsubscribing takes away exactly the channels named.
pub proof fn lemma_unsubscribing_members(s: Set<Seq<u8>>, events: Seq<Seq<u8>>, x: Seq<u8>)
    ensures
        unsubscribing(s, events).0.contains(x) <==> s.contains(x) && !events.contains(x),
        s.finite() ==> unsubscribing(s, events).0.finite(),
    decreases events.len(),
{
    if events.len() > 0 {
        lemma_unsubscribing_members(s, events.drop_last(), x);
        let e = events.last();
        if events.drop_last().contains(x) {
            let i = choose|i: int| 0 <= i < events.drop_last().len() && events.drop_last()[i] == x;
            assert(events[i] == x);
        }
        if events.contains(x) && x != e {
            let i = choose|i: int| 0 <= i < events.len() && events[i] == x;
            assert(i != events.len() - 1);
            assert(events.drop_last()[i] == x);
        }
        if x == e {
            assert(events[events.len() - 1] == x);
        }
    }
}

/// Joining adds `token` to the subscribers of exactly the channels named,
/// and lists no client twice.
pub proof fn lemma_joined(m: Map<Seq<u8>, Seq<usize>>, token: usize, events: Seq<Seq<u8>>, e: Seq<u8>, x: usize)
    requires
        forall|k: Seq<u8>| #[trigger] m.contains_key(k) ==> m[k].no_duplicates(),
    ensures
        subscribers(joined(m, token, events), e).contains(x) <==> subscribers(m, e).contains(x) || (x
            == token && events.contains(e)),
        forall|k: Seq<u8>| #[trigger] joined(m, token, events).contains_key(k) ==> joined(m, token, events)[k].no_duplicates(),
    decreases events.len(),
{
    if events.len() > 0 {
        let m1 = joined(m, token, events.drop_last());
        let last = events.last();
        lemma_joined(m, token, events.drop_last(), e, x);
        if events.drop_last().contains(e) {
            let i = choose|i: int| 0 <= i < events.drop_last().len() && events.drop_last()[i] == e;
            assert(events[i] == e);
        }
        if events.contains(e) && e != last {
            let i = choose|i: int| 0 <= i < events.len() && events[i] == e;
            assert(i != events.len() - 1);
            assert(events.drop_last()[i] == e);
        }
        if e == last {
            assert(events[events.len() - 1] == e);
        }
        if m1.contains_key(last) && !m1[last].contains(token) {
            let pushed = m1[last].push(token);
            assert forall|a: int, b: int| 0 <= a < b < pushed.len() implies pushed[a] != pushed[b] by {
                if b == pushed.len() - 1 {
                    assert(m1[last][a] != token);
                }
            }
            if e == last {
                if subscribers(m1, e).contains(x) {
                    let i = choose|i: int| 0 <= i < m1[last].len() && m1[last][i] == x;
                    assert(pushed[i] == x);
                }
                if pushed.contains(x) && x != token {
                    let i = choose|i: int| 0 <= i < pushed.len() && pushed[i] == x;
                    assert(m1[last][i] == x);
                }
                if x == token {
                    assert(pushed[pushed.len() - 1] == x);
                }
            }
        }
        if !m1.contains_key(last) && e == last {
            assert(seq![token][0] == token);
            if seq![token].contains(x) {
                let i = choose|i: int| 0 <= i < 1 && seq![token][i] == x;
            }
        }
    }
}

/// Taking a listed client off a list without duplicates removes exactly
/// that client.
pub proof fn lemma_remove_value(s: Seq<usize>, token: usize, x: usize)
    requires
        s.no_duplicates(),
    ensures
        s.remove_value(token).contains(x) <==> s.contains(x) && x != token,
        s.remove_value(token).no_duplicates(),
{
    s.index_of_first_ensures(token);
    match s.index_of_first(token) {
        Some(k) => {
            let r = s.remove(k);
            if r.contains(x) {
                let i = choose|i: int| 0 <= i < r.len() && r[i] == x;
                if i < k {
                    assert(s[i] == x);
                } else {
                    assert(s[i + 1] == x);
                }
            }
            if s.contains(x) && x != token {
                let i = choose|i: int| 0 <= i < s.len() && s[i] == x;
                assert(i != k);
                if i < k {
                    assert(r[i] == x);
                } else {
                    assert(r[i - 1] == x);
                }
            }
            assert forall|a: int, b: int| 0 <= a < b < r.len() implies r[a] != r[b] by {
                let oa = if a < k { a } else { a + 1 };
                let ob = if b < k { b } else { b + 1 };
                assert(s[oa] != s[ob]);
            }
        },
        None => {},
    }
}

/// Parting takes `token` off the subscribers of exactly the channels
/// named, and lists no client twice.
pub proof fn lemma_parted(m: Map<Seq<u8>, Seq<usize>>, token: usize, events: Seq<Seq<u8>>, e: Seq<u8>, x: usize)
    requires
        forall|k: Seq<u8>| #[trigger] m.contains_key(k) ==> m[k].no_duplicates(),
    ensures
        subscribers(parted(m, token, events), e).contains(x) <==> subscribers(m, e).contains(x) && !(x
            == token && events.contains(e)),
        forall|k: Seq<u8>| #[trigger] parted(m, token, events).contains_key(k) ==> parted(m, token, events)[k].no_duplicates(),
    decreases events.len(),
{
    if events.len() > 0 {
        let m1 = parted(m, token, events.drop_last());
        let last = events.last();
        lemma_parted(m, token, events.drop_last(), e, x);
        if events.drop_last().contains(e) {
            let i = choose|i: int| 0 <= i < events.drop_last().len() && events.drop_last()[i] == e;
            assert(events[i] == e);
        }
        if events.contains(e) && e != last {
            let i = choose|i: int| 0 <= i < events.len() && events[i] == e;
            assert(i != events.len() - 1);
            assert(events.drop_last()[i] == e);
        }
        if e == last {
            assert(events[events.len() - 1] == e);
        }
        if m1.contains_key(last) {
            lemma_remove_value(m1[last], token, x);
        }
    }
}

} // verus!
