use vstd::prelude::*;

use crate::wish::util::{
    bytes_to_usize, decimal_nat, find_crlf, first_crlf, lemma_decimal_nat,
    lemma_unsigned_numeral_of_decimal, unsigned_numeral,
};
use crate::wish::{bytes_seq, Sin};

verus! {

/// The bytes a connection buffers at first.
pub const INITIAL_BACKLOG: usize = 4096;

/// Room that a read wants behind the buffered bytes before the buffer is
/// compacted or grown.
pub const READ_RESERVE: usize = 1024;

/// The largest buffer a connection may grow; a request that needs more is
/// refused.
pub const MAX_BACKLOG: usize = 67108864;

/// Where the reader stands inside a request: `*<count>\r\n` followed by
/// `count` bulk strings `$<length>\r\n<bytes>\r\n`.
#[derive(Clone, Copy, Debug, PartialEq, Eq, Structural)]
pub enum Phase {
    Idle,
    AwaitingTermCount,
    GraspingMarker,
    AwaitingBulkStringLength,
    AwaitingBulkString(usize),
}

/// What reading the buffered bytes came to.
#[derive(Debug)]
pub enum Progress {
    /// A whole request, its terms in order.
    Request(Vec<Vec<u8>>),
    /// The buffered bytes end inside a request: more must be read.
    NeedMore,
    /// Every buffered byte has been consumed.
    Drained,
}

/// The reader as mathematics: the bytes not consumed yet, the phase, the
/// terms of the request read so far and how many it announced.
pub struct Reading {
    pub pending: Seq<u8>,
    pub phase: Phase,
    pub terms: Seq<Seq<u8>>,
    pub expected: nat,
}

/// `Progress` as mathematics.
pub enum Heard {
    Request(Seq<Seq<u8>>),
    NeedMore,
    Drained,
}

/// The mathematical form of a `Progress`.
pub open spec fn heard(p: Progress) -> Heard {
    match p {
        Progress::Request(t) => Heard::Request(bytes_seq(t@)),
        Progress::NeedMore => Heard::NeedMore,
        Progress::Drained => Heard::Drained,
    }
}

/// The same reading with `n` more bytes consumed and another phase.
pub open spec fn consumed(s: Reading, n: int, phase: Phase) -> Reading {
    Reading { pending: s.pending.skip(n), phase, terms: s.terms, expected: s.expected }
}

/// One step of the reader. `None` as the outcome means that it consumed
/// bytes and goes on; an error leaves the reading as it was.
#[verifier::opaque]
pub open spec fn transition(s: Reading) -> (Reading, Option<Result<Heard, Sin>>) {
    let w = s.pending;
    if w.len() == 0 {
        (s, Some(Ok(Heard::Drained)))
    } else {
        match s.phase {
            Phase::Idle => if w[0] == 42u8 {
                (consumed(s, 1, Phase::AwaitingTermCount), None)
            } else {
                (s, Some(Err(Sin::Blasphemy)))
            },
            Phase::AwaitingTermCount => match first_crlf(w) {
                Some(i) => match unsigned_numeral(w.take(i as int), usize::MAX as nat) {
                    Some(n) => (
                        Reading {
                            pending: w.skip((i + 2) as int),
                            phase: Phase::GraspingMarker,
                            terms: s.terms,
                            expected: n,
                        },
                        None,
                    ),
                    None => (s, Some(Err(Sin::ParseError))),
                },
                None => (s, Some(Ok(Heard::NeedMore))),
            },
            Phase::GraspingMarker => if w[0] == 36u8 {
                (consumed(s, 1, Phase::AwaitingBulkStringLength), None)
            } else {
                (s, Some(Ok(Heard::NeedMore)))
            },
            Phase::AwaitingBulkStringLength => match first_crlf(w) {
                Some(i) => match unsigned_numeral(w.take(i as int), usize::MAX as nat) {
                    Some(n) => (consumed(s, (i + 2) as int, Phase::AwaitingBulkString(n as usize)), None),
                    None => (s, Some(Err(Sin::ParseError))),
                },
                None => (s, Some(Ok(Heard::NeedMore))),
            },
            Phase::AwaitingBulkString(len) => if w.len() >= len + 2 {
                if w[len as int] != 13u8 || w[len + 1] != 10u8 {
                    (s, Some(Err(Sin::Blasphemy)))
                } else {
                    let terms = s.terms.push(w.take(len as int));
                    if terms.len() == s.expected {
                        (
                            Reading {
                                pending: w.skip(len + 2),
                                phase: Phase::Idle,
                                terms: Seq::empty(),
                                expected: s.expected,
                            },
                            Some(Ok(Heard::Request(terms))),
                        )
                    } else {
                        (
                            Reading {
                                pending: w.skip(len + 2),
                                phase: Phase::GraspingMarker,
                                terms,
                                expected: s.expected,
                            },
                            None,
                        )
                    }
                }
            } else {
                (s, Some(Ok(Heard::NeedMore)))
            },
        }
    }
}

/// Steps the reader until something comes of it: a request, a need for
/// more bytes, an empty buffer or an error.
pub open spec fn settle(s: Reading) -> (Reading, Result<Heard, Sin>)
    decreases s.pending.len(),
{
    let (t, o) = transition(s);
    match o {
        Some(r) => (t, r),
        None => if t.pending.len() < s.pending.len() {
            settle(t)
        } else {
            (t, Err(Sin::ParseError))
        },
    }
}

/// A step that goes on always consumes bytes.
pub proof fn lemma_transition_consumes(s: Reading)
    ensures
        transition(s).1 is None ==> transition(s).0.pending.len() < s.pending.len(),
{
    reveal(transition);
    let w = s.pending;
    if w.len() > 0 {
        match s.phase {
            Phase::AwaitingTermCount => {
                if let Some(i) = first_crlf(w) {
                    lemma_first_crlf(w);
                }
            },
            Phase::AwaitingBulkStringLength => {
                if let Some(i) = first_crlf(w) {
                    lemma_first_crlf(w);
                }
            },
            _ => {},
        }
    }
}

/// The position that `first_crlf` names holds a CR LF pair.
pub proof fn lemma_first_crlf(s: Seq<u8>)
    ensures
        first_crlf(s) matches Some(i) ==> i + 1 < s.len() && s[i as int] == 13u8 && s[(i + 1) as int]
            == 10u8 && forall|j: int| 0 <= j < i ==> !crate::wish::util::is_crlf_at(s, j),
{
    if exists|i: int| crate::wish::util::is_crlf_at(s, i) {
        let i = choose|i: int| crate::wish::util::is_crlf_at(s, i);
        lemma_least_crlf(s, i);
    }
}

/// Below any CR LF pair there is a first one.
proof fn lemma_least_crlf(s: Seq<u8>, k: int)
    requires
        crate::wish::util::is_crlf_at(s, k),
    ensures
        exists|i: int|
            crate::wish::util::is_crlf_at(s, i) && forall|j: int|
                0 <= j < i ==> !crate::wish::util::is_crlf_at(s, j),
    decreases k,
{
    if exists|j: int| 0 <= j < k && crate::wish::util::is_crlf_at(s, j) {
        let j = choose|j: int| 0 <= j < k && crate::wish::util::is_crlf_at(s, j);
        lemma_least_crlf(s, j);
    } else {
        assert(crate::wish::util::is_crlf_at(s, k) && forall|j: int|
            0 <= j < k ==> !crate::wish::util::is_crlf_at(s, j));
    }
}

/// A step that goes on leaves the rest of the way unchanged.
pub proof fn lemma_settle_step(s: Reading)
    requires
        transition(s).1 is None,
    ensures
        settle(s) == settle(transition(s).0),
{
    lemma_transition_consumes(s);
}

/// The wire form of one term: `$<length>\r\n<bytes>\r\n`.
pub open spec fn encoded_term(t: Seq<u8>) -> Seq<u8> {
    seq![36u8] + decimal_nat(t.len()) + seq![13u8, 10u8] + t + seq![13u8, 10u8]
}

/// The wire form of several terms, one after another.
pub open spec fn encoded_terms(ts: Seq<Seq<u8>>) -> Seq<u8>
    decreases ts.len(),
{
    if ts.len() == 0 {
        Seq::empty()
    } else {
        encoded_term(ts[0]) + encoded_terms(ts.drop_first())
    }
}

/// The wire form of a request: `*<count>\r\n` and then its terms.
pub open spec fn encoded_request(ts: Seq<Seq<u8>>) -> Seq<u8> {
    seq![42u8] + decimal_nat(ts.len()) + seq![13u8, 10u8] + encoded_terms(ts)
}

/// In a decimal numeral followed by CR LF, the first CR LF comes right
/// after the digits, and the digits read back as the number.
pub proof fn lemma_numeral_line(n: nat, x: Seq<u8>)
    requires
        n <= usize::MAX,
    ensures
        first_crlf(decimal_nat(n) + seq![13u8, 10u8] + x) == Some(decimal_nat(n).len()),
        unsigned_numeral(
            (decimal_nat(n) + seq![13u8, 10u8] + x).take(decimal_nat(n).len() as int),
            usize::MAX as nat,
        ) == Some(n),
{
    let d = decimal_nat(n);
    let w = d + seq![13u8, 10u8] + x;
    lemma_decimal_nat(n);
    lemma_unsigned_numeral_of_decimal(n, usize::MAX as nat);
    assert(w.take(d.len() as int) =~= d);
    assert(crate::wish::util::is_crlf_at(w, d.len() as int));
    assert forall|j: int| 0 <= j < d.len() implies !crate::wish::util::is_crlf_at(w, j) by {
        assert(w[j] == d[j]);
        assert(crate::wish::util::is_digit(d[j]));
    }
    let i = choose|i: int|
        crate::wish::util::is_crlf_at(w, i) && forall|j: int|
            0 <= j < i ==> !crate::wish::util::is_crlf_at(w, j);
    assert(crate::wish::util::is_crlf_at(w, d.len() as int) && forall|j: int|
        0 <= j < d.len() ==> !crate::wish::util::is_crlf_at(w, j));
    if i < d.len() {
        assert(!crate::wish::util::is_crlf_at(w, i));
    } else if i > d.len() {
        assert(!crate::wish::util::is_crlf_at(w, d.len() as int));
    }
}

/// The step over a `*` at the start of a request.
proof fn lemma_star_step(s: Reading, x: Seq<u8>)
    requires
        s.phase == Phase::Idle,
        s.pending == seq![42u8] + x,
    ensures
        transition(s) == (
            Reading { pending: x, phase: Phase::AwaitingTermCount, terms: s.terms, expected: s.expected },
            None::<Result<Heard, Sin>>,
        ),
{
    reveal(transition);
    assert(s.pending.skip(1) =~= x);
}

/// The step over a line holding a number, in either phase that expects one.
proof fn lemma_line_step(s: Reading, i: nat, n: nat)
    requires
        s.phase == Phase::AwaitingTermCount || s.phase == Phase::AwaitingBulkStringLength,
        s.pending.len() > 0,
        first_crlf(s.pending) == Some(i),
        unsigned_numeral(s.pending.take(i as int), usize::MAX as nat) == Some(n),
    ensures
        transition(s) == (if s.phase == Phase::AwaitingTermCount {
            Reading {
                pending: s.pending.skip((i + 2) as int),
                phase: Phase::GraspingMarker,
                terms: s.terms,
                expected: n,
            }
        } else {
            Reading {
                pending: s.pending.skip((i + 2) as int),
                phase: Phase::AwaitingBulkString(n as usize),
                terms: s.terms,
                expected: s.expected,
            }
        }, None::<Result<Heard, Sin>>),
{
    reveal(transition);
}

/// The step over the term count of a request.
#[verifier::rlimit(40)]
proof fn lemma_count_step(s: Reading, n: nat, x: Seq<u8>)
    requires
        s.phase == Phase::AwaitingTermCount,
        n <= usize::MAX,
        s.pending == decimal_nat(n) + seq![13u8, 10u8] + x,
    ensures
        transition(s) == (
            Reading { pending: x, phase: Phase::GraspingMarker, terms: s.terms, expected: n },
            None::<Result<Heard, Sin>>,
        ),
{
    let d = decimal_nat(n);
    lemma_numeral_line(n, x);
    assert(s.pending.skip((d.len() + 2) as int) =~= x);
    lemma_line_step(s, d.len(), n);
}

/// The step over the `$` before a term.
proof fn lemma_marker_step(s: Reading, x: Seq<u8>)
    requires
        s.phase == Phase::GraspingMarker,
        s.pending == seq![36u8] + x,
    ensures
        transition(s) == (
            Reading {
                pending: x,
                phase: Phase::AwaitingBulkStringLength,
                terms: s.terms,
                expected: s.expected,
            },
            None::<Result<Heard, Sin>>,
        ),
{
    reveal(transition);
    assert(s.pending.skip(1) =~= x);
}

/// The step over the length of a term.
#[verifier::rlimit(40)]
proof fn lemma_length_step(s: Reading, n: nat, x: Seq<u8>)
    requires
        s.phase == Phase::AwaitingBulkStringLength,
        n <= usize::MAX,
        s.pending == decimal_nat(n) + seq![13u8, 10u8] + x,
    ensures
        transition(s) == (
            Reading {
                pending: x,
                phase: Phase::AwaitingBulkString(n as usize),
                terms: s.terms,
                expected: s.expected,
            },
            None::<Result<Heard, Sin>>,
        ),
{
    let d = decimal_nat(n);
    lemma_numeral_line(n, x);
    assert(s.pending.skip((d.len() + 2) as int) =~= x);
    lemma_line_step(s, d.len(), n);
}

/// The step over the bytes of a term.
proof fn lemma_string_step(s: Reading, t: Seq<u8>, x: Seq<u8>)
    requires
        t.len() <= usize::MAX,
        s.phase == Phase::AwaitingBulkString(t.len() as usize),
        s.pending == t + seq![13u8, 10u8] + x,
    ensures
        transition(s) == if s.terms.len() + 1 == s.expected {
            (
                Reading { pending: x, phase: Phase::Idle, terms: Seq::empty(), expected: s.expected },
                Some(Ok::<Heard, Sin>(Heard::Request(s.terms.push(t)))),
            )
        } else {
            (
                Reading {
                    pending: x,
                    phase: Phase::GraspingMarker,
                    terms: s.terms.push(t),
                    expected: s.expected,
                },
                None::<Result<Heard, Sin>>,
            )
        },
{
    reveal(transition);
    assert(s.pending.take(t.len() as int) =~= t);
    assert(s.pending.skip((t.len() + 2) as int) =~= x);
}

/// Reading the remaining terms of a request, from the marker of term `k`
/// on, gives back the whole request and leaves the bytes behind it.
proof fn lemma_terms_roundtrip(terms: Seq<Seq<u8>>, k: int, rest: Seq<u8>)
    requires
        0 <= k < terms.len() <= usize::MAX,
        forall|i: int| 0 <= i < terms.len() ==> #[trigger] terms[i].len() <= usize::MAX,
    ensures
        settle(
            Reading {
                pending: encoded_terms(terms.skip(k)) + rest,
                phase: Phase::GraspingMarker,
                terms: terms.take(k),
                expected: terms.len(),
            },
        ) == (
            Reading { pending: rest, phase: Phase::Idle, terms: Seq::empty(), expected: terms.len() },
            Ok::<Heard, Sin>(Heard::Request(terms)),
        ),
    decreases terms.len() - k,
{
    let n = terms.len();
    let t = terms[k];
    let d = decimal_nat(t.len());
    let crlf = seq![13u8, 10u8];
    let tail = encoded_terms(terms.skip(k + 1)) + rest;
    assert(terms.skip(k)[0] == t);
    assert(terms.skip(k).drop_first() =~= terms.skip(k + 1));
    let p0 = encoded_terms(terms.skip(k)) + rest;
    let p1 = d + crlf + (t + crlf + tail);
    let p2 = t + crlf + tail;
    assert(p0 =~= seq![36u8] + p1);
    let s0 = Reading { pending: p0, phase: Phase::GraspingMarker, terms: terms.take(k), expected: n };
    lemma_marker_step(s0, p1);
    let s1 = transition(s0).0;
    lemma_settle_step(s0);
    lemma_length_step(s1, t.len(), p2);
    let s2 = transition(s1).0;
    lemma_settle_step(s1);
    lemma_string_step(s2, t, tail);
    assert(terms.take(k).push(t) =~= terms.take(k + 1));
    if k + 1 == n {
        assert(terms.take(k + 1) =~= terms);
        assert(terms.skip(k + 1) =~= Seq::<Seq<u8>>::empty());
        assert(tail =~= rest);
    } else {
        lemma_settle_step(s2);
        lemma_terms_roundtrip(terms, k + 1, rest);
    }
}

/// A request on the wire, read from the start of a request, comes back as
/// its terms, with the bytes behind it left for the next one.
pub proof fn law_request_roundtrip(terms: Seq<Seq<u8>>, rest: Seq<u8>, expected: nat)
    requires
        0 < terms.len() <= usize::MAX,
        forall|i: int| 0 <= i < terms.len() ==> #[trigger] terms[i].len() <= usize::MAX,
    ensures
        settle(
            Reading {
                pending: encoded_request(terms) + rest,
                phase: Phase::Idle,
                terms: Seq::empty(),
                expected,
            },
        ) == (
            Reading { pending: rest, phase: Phase::Idle, terms: Seq::empty(), expected: terms.len() },
            Ok::<Heard, Sin>(Heard::Request(terms)),
        ),
{
    let n = terms.len();
    let d = decimal_nat(n);
    let crlf = seq![13u8, 10u8];
    let body = encoded_terms(terms) + rest;
    let p0 = encoded_request(terms) + rest;
    assert(p0 =~= seq![42u8] + (d + crlf + body));
    let s0 = Reading { pending: p0, phase: Phase::Idle, terms: Seq::empty(), expected };
    lemma_star_step(s0, d + crlf + body);
    let s1 = transition(s0).0;
    lemma_settle_step(s0);
    lemma_count_step(s1, n, body);
    let s2 = transition(s1).0;
    lemma_settle_step(s1);
    assert(terms.skip(0) =~= terms);
    assert(terms.take(0) =~= Seq::<Seq<u8>>::empty());
    lemma_terms_roundtrip(terms, 0, rest);
}

/// The buffered bytes of one connection and the reader's state.
pub struct Virtue {
    backlog: Vec<u8>,
    read_idx: usize,
    write_idx: usize,
    terms: Vec<Vec<u8>>,
    expected_terms: usize,
    phase: Phase,
}

impl Virtue {
    /// The reader's state as mathematics.
    pub closed spec fn reading(self) -> Reading {
        Reading {
            pending: self.backlog@.subrange(self.read_idx as int, self.write_idx as int),
            phase: self.phase,
            terms: bytes_seq(self.terms@),
            expected: self.expected_terms as nat,
        }
    }

    /// The size of the buffer.
    pub closed spec fn capacity(self) -> nat {
        self.backlog@.len()
    }

    /// How far the buffer is filled.
    pub closed spec fn filled(self) -> nat {
        self.write_idx as nat
    }

    /// The buffer indices are in order and the buffer size in its bounds.
    pub closed spec fn wf(self) -> bool {
        &&& self.read_idx <= self.write_idx <= self.backlog@.len()
        &&& INITIAL_BACKLOG <= self.backlog@.len() <= MAX_BACKLOG
    }

    /// A reader with an empty buffer, waiting for a request.
    pub fn new() -> (v: Self)
        ensures
            v.wf(),
            v.reading() == (Reading {
                pending: Seq::empty(),
                phase: Phase::Idle,
                terms: Seq::empty(),
                expected: 0,
            }),
            v.capacity() == INITIAL_BACKLOG,
            v.filled() == 0,
    {
        let mut backlog: Vec<u8> = Vec::new();
        backlog.resize(INITIAL_BACKLOG, 0u8);
        let v = Virtue {
            backlog,
            read_idx: 0,
            write_idx: 0,
            terms: Vec::new(),
            expected_terms: 0,
            phase: Phase::Idle,
        };
        proof {
            assert(v.reading().pending =~= Seq::<u8>::empty());
            assert(v.reading().terms =~= Seq::<Seq<u8>>::empty());
        }
        v
    }

    /// Moves the unconsumed bytes to the front of the buffer.
    pub fn compact(&mut self)
        requires
            old(self).wf(),
        ensures
            final(self).wf(),
            final(self).reading() == old(self).reading(),
            final(self).capacity() == old(self).capacity(),
            final(self).filled() == if old(self).reading().pending.len() < old(self).filled() {
                old(self).reading().pending.len()
            } else {
                old(self).filled()
            },
    {
        if self.read_idx > 0 {
            let len = self.write_idx - self.read_idx;
            let ghost pending = self.reading().pending;
            let mut j: usize = 0;
            while j < len
                invariant
                    0 < self.read_idx <= self.write_idx <= self.backlog@.len(),
                    len == self.write_idx - self.read_idx,
                    j <= len,
                    pending == old(self).reading().pending,
                    self.backlog@.len() == old(self).backlog@.len(),
                    self.read_idx == old(self).read_idx,
                    self.write_idx == old(self).write_idx,
                    pending.len() == len,
                    self.terms == old(self).terms,
                    self.phase == old(self).phase,
                    self.expected_terms == old(self).expected_terms,
                    forall|k: int| 0 <= k < j ==> self.backlog@[k] == pending[k],
                    forall|k: int|
                        self.read_idx + j <= k < self.write_idx ==> self.backlog@[k] == pending[k
                            - self.read_idx],
                decreases len - j,
            {
                let from = self.read_idx + j;
                let b = self.backlog[from];
                self.backlog.set(j, b);
                j = j + 1;
            }
            self.read_idx = 0;
            self.write_idx = len;
            proof {
                assert(self.reading().pending =~= pending);
            }
        }
    }

    /// The free space behind the buffered bytes.
    pub fn room(&self) -> (n: usize)
        requires
            self.wf(),
        ensures
            n == self.capacity() - self.filled(),
    {
        self.backlog.len() - self.write_idx
    }

    /// Makes room for a read: when less than `READ_RESERVE` bytes are free
    /// the buffer is compacted, and if that is not enough either it doubles,
    /// unless it would pass `MAX_BACKLOG`.
    pub fn make_room(&mut self) -> (r: Result<(), Sin>)
        requires
            old(self).wf(),
        ensures
            final(self).wf(),
            final(self).reading() == old(self).reading(),
            ({
                let cap = old(self).capacity();
                let len = old(self).reading().pending.len();
                if old(self).filled() + READ_RESERVE <= cap {
                    &&& r is Ok
                    &&& final(self).capacity() == cap
                    &&& final(self).filled() == old(self).filled()
                } else if len + READ_RESERVE <= cap {
                    &&& r is Ok
                    &&& final(self).capacity() == cap
                    &&& final(self).filled() == len
                } else if 2 * cap > MAX_BACKLOG {
                    &&& r == Err::<(), Sin>(Sin::Blasphemy)
                    &&& final(self).capacity() == cap
                    &&& final(self).filled() == len
                } else {
                    &&& r is Ok
                    &&& final(self).capacity() == 2 * cap
                    &&& final(self).filled() == len
                }
            }),
    {
        if self.write_idx > self.backlog.len() - READ_RESERVE {
            self.compact();
            if self.write_idx > self.backlog.len() - READ_RESERVE {
                let new_size = self.backlog.len() * 2;
                if new_size > MAX_BACKLOG {
                    return Err(Sin::Blasphemy);
                }
                let ghost before = self.backlog@;
                self.backlog.resize(new_size, 0u8);
                proof {
                    assert(self.backlog@.subrange(self.read_idx as int, self.write_idx as int)
                        =~= before.subrange(self.read_idx as int, self.write_idx as int));
                }
            }
        }
        Ok(())
    }

    /// Appends freshly read bytes behind the buffered ones.
    pub fn absorb(&mut self, data: &[u8])
        requires
            old(self).wf(),
            data@.len() <= old(self).capacity() - old(self).filled(),
        ensures
            final(self).wf(),
            final(self).reading() == (Reading {
                pending: old(self).reading().pending + data@,
                phase: old(self).reading().phase,
                terms: old(self).reading().terms,
                expected: old(self).reading().expected,
            }),
            final(self).capacity() == old(self).capacity(),
            final(self).filled() == old(self).filled() + data@.len(),
    {
        let ghost pending = self.reading().pending;
        let mut j: usize = 0;
        while j < data.len()
            invariant
                self.read_idx <= self.write_idx,
                self.write_idx + data@.len() <= self.backlog@.len() <= MAX_BACKLOG,
                self.backlog@.len() == old(self).backlog@.len(),
                self.read_idx == old(self).read_idx,
                self.write_idx == old(self).write_idx,
                pending == old(self).reading().pending,
                self.terms == old(self).terms,
                self.phase == old(self).phase,
                self.expected_terms == old(self).expected_terms,
                j <= data@.len(),
                self.backlog@.subrange(self.read_idx as int, self.write_idx as int) == pending,
                forall|k: int| 0 <= k < j ==> self.backlog@[self.write_idx + k] == data@[k],
            decreases data@.len() - j,
        {
            let ghost prev = self.backlog@;
            let at = self.write_idx + j;
            self.backlog.set(at, data[j]);
            proof {
                assert(self.backlog@.subrange(self.read_idx as int, self.write_idx as int)
                    =~= prev.subrange(self.read_idx as int, self.write_idx as int));
            }
            j = j + 1;
        }
        self.write_idx = self.write_idx + data.len();
        proof {
            assert(self.reading().pending =~= pending + data@);
        }
    }

    /// One step of the reader on the buffered bytes (see `transition`).
    fn advance(&mut self) -> (r: Option<Result<Progress, Sin>>)
        requires
            old(self).wf(),
        ensures
            final(self).wf(),
            final(self).capacity() == old(self).capacity(),
            final(self).filled() == old(self).filled(),
            final(self).reading() == transition(old(self).reading()).0,
            match r {
                Some(Ok(p)) => transition(old(self).reading()).1 == Some(Ok::<Heard, Sin>(heard(p))),
                Some(Err(e)) => transition(old(self).reading()).1 == Some(Err::<Heard, Sin>(e)),
                None => transition(old(self).reading()).1 is None,
            },
    {
        proof {
            reveal(transition);
        }
        let ghost s = self.reading();
        if self.read_idx == self.write_idx {
            return Some(Ok(Progress::Drained));
        }
        let window = vstd::slice::slice_subrange(self.backlog.as_slice(), self.read_idx, self.write_idx);
        assert(window@ == s.pending);
        match self.phase {
            Phase::Idle => {
                if window[0] == 42u8 {
                    self.phase = Phase::AwaitingTermCount;
                    self.read_idx = self.read_idx + 1;
                    proof {
                        assert(self.reading().pending =~= s.pending.skip(1));
                    }
                    None
                } else {
                    Some(Err(Sin::Blasphemy))
                }
            },
            Phase::AwaitingTermCount => match find_crlf(window) {
                Some(index) => {
                    proof {
                        lemma_first_crlf(s.pending);
                    }
                    let digits = vstd::slice::slice_subrange(window, 0, index);
                    assert(digits@ == s.pending.take(index as int));
                    match bytes_to_usize(digits) {
                        Ok(n) => {
                            self.expected_terms = n;
                            self.phase = Phase::GraspingMarker;
                            self.read_idx = self.read_idx + index + 2;
                            proof {
                                assert(self.reading().pending =~= s.pending.skip(index + 2));
                            }
                            None
                        },
                        Err(e) => Some(Err(e)),
                    }
                },
                None => Some(Ok(Progress::NeedMore)),
            },
            Phase::GraspingMarker => {
                if window[0] == 36u8 {
                    self.phase = Phase::AwaitingBulkStringLength;
                    self.read_idx = self.read_idx + 1;
                    proof {
                        assert(self.reading().pending =~= s.pending.skip(1));
                    }
                    None
                } else {
                    Some(Ok(Progress::NeedMore))
                }
            },
            Phase::AwaitingBulkStringLength => match find_crlf(window) {
                Some(index) => {
                    proof {
                        lemma_first_crlf(s.pending);
                    }
                    let digits = vstd::slice::slice_subrange(window, 0, index);
                    assert(digits@ == s.pending.take(index as int));
                    match bytes_to_usize(digits) {
                        Ok(n) => {
                            self.phase = Phase::AwaitingBulkString(n);
                            self.read_idx = self.read_idx + index + 2;
                            proof {
                                assert(self.reading().pending =~= s.pending.skip(index + 2));
                            }
                            None
                        },
                        Err(e) => Some(Err(e)),
                    }
                },
                None => Some(Ok(Progress::NeedMore)),
            },
            Phase::AwaitingBulkString(len) => {
                if window.len() >= 2 && window.len() - 2 >= len {
                    if window[len] != 13u8 || window[len + 1] != 10u8 {
                        return Some(Err(Sin::Blasphemy));
                    }
                    let term = vstd::slice::slice_to_vec(vstd::slice::slice_subrange(window, 0, len));
                    assert(term@ == s.pending.take(len as int));
                    self.terms.push(term);
                    self.read_idx = self.read_idx + len + 2;
                    self.phase = Phase::GraspingMarker;
                    proof {
                        assert(self.reading().pending =~= s.pending.skip(len + 2));
                        assert(bytes_seq(self.terms@) =~= s.terms.push(s.pending.take(len as int)));
                    }
                    if self.terms.len() == self.expected_terms {
                        let mut terms: Vec<Vec<u8>> = Vec::new();
                        std::mem::swap(&mut terms, &mut self.terms);
                        self.phase = Phase::Idle;
                        proof {
                            assert(bytes_seq(self.terms@) =~= Seq::<Seq<u8>>::empty());
                        }
                        Some(Ok(Progress::Request(terms)))
                    } else {
                        None
                    }
                } else {
                    Some(Ok(Progress::NeedMore))
                }
            },
        }
    }

    /// Reads on through the buffered bytes until something comes of it: a
    /// whole request, a need for more bytes, an empty buffer, or a
    /// malformed request (see `settle`).
    pub fn next_event(&mut self) -> (r: Result<Progress, Sin>)
        requires
            old(self).wf(),
        ensures
            final(self).wf(),
            final(self).capacity() == old(self).capacity(),
            final(self).filled() == old(self).filled(),
            final(self).reading() == settle(old(self).reading()).0,
            match r {
                Ok(p) => settle(old(self).reading()).1 == Ok::<Heard, Sin>(heard(p)),
                Err(e) => settle(old(self).reading()).1 == Err::<Heard, Sin>(e),
            },
    {
        loop
            invariant
                self.wf(),
                self.capacity() == old(self).capacity(),
                self.filled() == old(self).filled(),
                settle(self.reading()) == settle(old(self).reading()),
            decreases self.reading().pending.len(),
        {
            let ghost before = self.reading();
            proof {
                lemma_transition_consumes(before);
            }
            match self.advance() {
                Some(outcome) => {
                    return outcome;
                },
                None => {
                    proof {
                        lemma_settle_step(before);
                    }
                },
            }
        }
    }
}

} // verus!
