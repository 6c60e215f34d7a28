//! The missing-data provider: an ordered list of peer query services.
use vstd::prelude::*;

verus! {

/// Peers that missing data is fetched from, tried in the order held here.
pub struct Provider {
    peers: Vec<String>,
}

impl View for Provider {
    type V = Seq<Seq<char>>;

    closed spec fn view(&self) -> Seq<Seq<char>> {
        self.peers@.map_values(|p: String| p@)
    }
}

impl Provider {
    /// A provider with no peers: nothing missing is ever repaired.
    pub fn new() -> (r: Provider)
        ensures
            r@ == Seq::<Seq<char>>::empty(),
    {
        let r = Provider { peers: Vec::new() };
        assert(r@ =~= Seq::<Seq<char>>::empty());
        r
    }

    /// Adds a peer after those already held.
    pub fn with_provider(self, peer: String) -> (r: Provider)
        ensures
            r@ == self@.push(peer@),
    {
        let mut peers = self.peers;
        peers.push(peer);
        let r = Provider { peers };
        assert(r@ =~= self@.push(peer@));
        r
    }

    /// How many peers are held.
    pub fn len(&self) -> (r: usize)
        ensures
            r == self@.len(),
    {
        self.peers.len()
    }

    /// The address of the peer at `i`.
    pub fn peer(&self, i: usize) -> (r: &String)
        requires
            i < self@.len(),
        ensures
            r@ == self@[i as int],
    {
        &self.peers[i]
    }
}

/// A provider that fetches missing data from `peers`, in the order given.
pub fn provider(peers: Vec<String>) -> (r: Provider)
    ensures
        r@ == peers@.map_values(|p: String| p@),
{
    let mut provider = Provider::new();
    let mut rest = peers;
    let ghost all = peers@;
    while rest.len() > 0
        invariant
            rest@.len() <= all.len(),
            rest@ == all.subrange(all.len() - rest@.len(), all.len() as int),
            provider@ == all.subrange(0, all.len() - rest@.len()).map_values(|p: String| p@),
        decreases rest@.len(),
    {
        let ghost k = all.len() - rest@.len();
        let peer = rest.remove(0);
        assert(peer == all[k]);
        assert(rest@ =~= all.subrange(k + 1, all.len() as int));
        provider = provider.with_provider(peer);
        assert(all.subrange(0, k + 1).map_values(|p: String| p@) =~= all.subrange(0, k).map_values(
            |p: String| p@,
        ).push(all[k]@));
    }
    assert(all.subrange(0, all.len() as int) =~= all);
    provider
}

} // verus!
