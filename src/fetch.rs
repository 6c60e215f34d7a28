//! Repair of a local miss: peers are asked one at a time, in order, until one
//! returns an object whose commitment is the one the requester holds.
//!
//! The network work is the caller's: this machine says which peer to ask
//! next, takes each reply, and says when to accept a payload or give up.
use vstd::prelude::*;
use crate::provider::Provider;

verus! {

/// What a peer answered.
pub enum PeerReply {
    /// Time-out, transport error or malformed response.
    Failed,
    /// An object, with the commitment computed from its content.
    Fetched { commitment: Vec<u8>, payload: Vec<u8> },
}

/// What the caller does next.
#[derive(PartialEq, Eq, Structural, Clone, Copy, Debug)]
pub enum FetchAction {
    /// Ask the peer at this position of the provider.
    Query(usize),
    /// The peer at this position answered correctly: keep its payload.
    Accept(usize),
    /// No peer answered correctly: the item is not found.
    Exhausted,
}

/// The state of one repair, seen as plain values.
pub ghost struct FetchView {
    pub expected: Seq<u8>,
    pub n: nat,
    /// How many peers have been asked and have answered.
    pub next: nat,
    pub finished: bool,
}

/// One repair in progress.
pub struct Fetch {
    expected: Vec<u8>,
    n_peers: usize,
    next: usize,
    finished: bool,
}

impl View for Fetch {
    type V = FetchView;

    closed spec fn view(&self) -> FetchView {
        FetchView {
            expected: self.expected@,
            n: self.n_peers as nat,
            next: self.next as nat,
            finished: self.finished,
        }
    }
}

/// A reply is accepted only if it carries the commitment that was asked for.
pub open spec fn verified(expected: Seq<u8>, reply: PeerReply) -> bool {
    match reply {
        PeerReply::Fetched { commitment, .. } => commitment@ == expected,
        PeerReply::Failed => false,
    }
}

/// The first state and action of a repair across `n` peers.
pub open spec fn start_spec(expected: Seq<u8>, n: nat) -> (FetchView, FetchAction) {
    if n == 0 {
        (FetchView { expected, n, next: 0, finished: true }, FetchAction::Exhausted)
    } else {
        (FetchView { expected, n, next: 0, finished: false }, FetchAction::Query(0))
    }
}

/// The state and action after the peer at `s.next` answered; `ok` tells
/// whether its answer was verified.
pub open spec fn step(s: FetchView, ok: bool) -> (FetchView, FetchAction) {
    let t = FetchView { next: s.next + 1, ..s };
    if ok {
        (FetchView { finished: true, ..t }, FetchAction::Accept(s.next as usize))
    } else if s.next + 1 >= s.n {
        (FetchView { finished: true, ..t }, FetchAction::Exhausted)
    } else {
        (t, FetchAction::Query((s.next + 1) as usize))
    }
}

/// The actions taken from `s` on, where `oks[k]` tells whether peer `k`
/// answers correctly.
pub open spec fn run(s: FetchView, oks: Seq<bool>) -> Seq<FetchAction>
    decreases s.n - s.next,
{
    if s.finished || s.next >= s.n || s.next >= oks.len() {
        Seq::empty()
    } else {
        let r = step(s, oks[s.next as int]);
        seq![r.1].add(run(r.0, oks))
    }
}

/// Every action of a repair across `n` peers, from the start.
pub open spec fn trace(expected: Seq<u8>, n: nat, oks: Seq<bool>) -> Seq<FetchAction> {
    let r = start_spec(expected, n);
    seq![r.1].add(run(r.0, oks))
}

impl Fetch {
    /// An unfinished repair still has a peer to hear from.
    pub open spec fn wf(&self) -> bool {
        !self@.finished ==> self@.next < self@.n
    }

    /// Starts repairing a miss of the object whose commitment is `expected`.
    pub fn start(provider: &Provider, expected: Vec<u8>) -> (r: (Fetch, FetchAction))
        ensures
            r.0.wf(),
            (r.0@, r.1) == start_spec(expected@, provider@.len()),
    {
        let n = provider.len();
        if n == 0 {
            (Fetch { expected, n_peers: n, next: 0, finished: true }, FetchAction::Exhausted)
        } else {
            (Fetch { expected, n_peers: n, next: 0, finished: false }, FetchAction::Query(0))
        }
    }

    /// Whether the repair has ended.
    pub fn is_finished(&self) -> (r: bool)
        ensures
            r == self@.finished,
    {
        self.finished
    }

    /// Takes the reply of the peer that was last asked.
    pub fn on_reply(&mut self, reply: &PeerReply) -> (r: FetchAction)
        requires
            old(self).wf(),
            !old(self)@.finished,
        ensures
            final(self).wf(),
            (final(self)@, r) == step(old(self)@, verified(old(self)@.expected, *reply)),
    {
        let ok = verify_reply(&self.expected, reply);
        let k = self.next;
        self.next = k + 1;
        if ok {
            self.finished = true;
            FetchAction::Accept(k)
        } else if k + 1 >= self.n_peers {
            self.finished = true;
            FetchAction::Exhausted
        } else {
            FetchAction::Query(k + 1)
        }
    }
}

/// Whether `reply` carries the commitment `expected`.
pub fn verify_reply(expected: &Vec<u8>, reply: &PeerReply) -> (r: bool)
    ensures
        r == verified(expected@, *reply),
{
    match reply {
        PeerReply::Failed => false,
        PeerReply::Fetched { commitment, .. } => bytes_equal(commitment, expected),
    }
}

/// Whether two byte strings are equal.
pub fn bytes_equal(a: &Vec<u8>, b: &Vec<u8>) -> (r: bool)
    ensures
        r == (a@ == b@),
{
    if a.len() != b.len() {
        return false;
    }
    let mut i: usize = 0;
    while i < b.len()
        invariant
            a@.len() == b@.len(),
            i <= b@.len(),
            forall|j: int| 0 <= j < i ==> a@[j] == b@[j],
        decreases b@.len() - i,
    {
        if a[i] != b[i] {
            assert(a@[i as int] != b@[i as int]);
            return false;
        }
        i = i + 1;
    }
    assert(a@ =~= b@);
    true
}

proof fn lemma_run_to_match(s: FetchView, oks: Seq<bool>, i: nat)
    requires
        !s.finished,
        s.next <= i < s.n <= oks.len(),
        s.n <= usize::MAX,
        oks[i as int],
        forall|j: int| s.next <= j < i ==> !oks[j],
    ensures
        run(s, oks).len() == i - s.next + 1,
        forall|j: int| 0 <= j < i - s.next ==> run(s, oks)[j] == FetchAction::Query((s.next + 1 + j) as usize),
        run(s, oks)[i - s.next as int] == FetchAction::Accept(i as usize),
    decreases s.n - s.next,
{
    let r = step(s, oks[s.next as int]);
    assert(run(s, oks) == seq![r.1].add(run(r.0, oks)));
    if s.next < i {
        lemma_run_to_match(r.0, oks, i);
    } else {
        assert(run(r.0, oks) =~= Seq::<FetchAction>::empty());
    }
}

proof fn lemma_run_to_end(s: FetchView, oks: Seq<bool>)
    requires
        !s.finished,
        s.next < s.n <= oks.len(),
        s.n <= usize::MAX,
        forall|j: int| s.next <= j < s.n ==> !oks[j],
    ensures
        run(s, oks).len() == s.n - s.next,
        forall|j: int| 0 <= j < s.n - s.next - 1 ==> run(s, oks)[j] == FetchAction::Query((s.next + 1 + j) as usize),
        run(s, oks)[s.n - s.next - 1] == FetchAction::Exhausted,
    decreases s.n - s.next,
{
    let r = step(s, oks[s.next as int]);
    assert(run(s, oks) == seq![r.1].add(run(r.0, oks)));
    if s.next + 1 < s.n {
        lemma_run_to_end(r.0, oks);
    } else {
        assert(run(r.0, oks) =~= Seq::<FetchAction>::empty());
    }
}

/// When peer `i` is the first to answer correctly, peers `0..=i` are each
/// asked exactly once, in order, the answer of peer `i` is accepted, and no
/// later peer is ever asked.
pub proof fn lemma_first_verified_peer_ends_fetch(expected: Seq<u8>, n: nat, oks: Seq<bool>, i: nat)
    requires
        i < n <= oks.len(),
        n <= usize::MAX,
        oks[i as int],
        forall|j: int| 0 <= j < i ==> !oks[j],
    ensures
        trace(expected, n, oks).len() == i + 2,
        forall|j: int| 0 <= j <= i ==> trace(expected, n, oks)[j] == FetchAction::Query(j as usize),
        trace(expected, n, oks)[i + 1 as int] == FetchAction::Accept(i as usize),
{
    let s = start_spec(expected, n).0;
    lemma_run_to_match(s, oks, i);
}

/// When no peer answers correctly, every peer is asked exactly once, in
/// order, before the repair reports that the item is not found.
pub proof fn lemma_not_found_after_all_peers(expected: Seq<u8>, n: nat, oks: Seq<bool>)
    requires
        n <= oks.len(),
        n <= usize::MAX,
        forall|j: int| 0 <= j < n ==> !oks[j],
    ensures
        trace(expected, n, oks).len() == n + 1,
        forall|j: int| 0 <= j < n ==> trace(expected, n, oks)[j] == FetchAction::Query(j as usize),
        trace(expected, n, oks)[n as int] == FetchAction::Exhausted,
{
    let s = start_spec(expected, n).0;
    if n > 0 {
        lemma_run_to_end(s, oks);
    } else {
        assert(run(s, oks) =~= Seq::<FetchAction>::empty());
    }
}

} // verus!
