//! The node's signatures over state commitments, by block height.
use vstd::prelude::*;
use crate::heights::HeightMap;

verus! {

/// Signatures that the node has produced and still holds.
pub struct StateSignatures {
    sigs: HeightMap,
}

impl StateSignatures {
    /// The held signatures by height.
    pub closed spec fn signatures(&self) -> Map<u64, Seq<u8>> {
        self.sigs@
    }

    pub closed spec fn wf(&self) -> bool {
        self.sigs.wf()
    }

    /// No signature held yet.
    pub fn new() -> (r: StateSignatures)
        ensures
            r.wf(),
            r.signatures() == Map::<u64, Seq<u8>>::empty(),
    {
        StateSignatures { sigs: HeightMap::new() }
    }

    /// Records the signature over the state commitment at `height`.
    pub fn add_signature(&mut self, height: u64, signature: Vec<u8>)
        requires
            old(self).wf(),
        ensures
            final(self).wf(),
            final(self).signatures() == old(self).signatures().insert(height, signature@),
    {
        self.sigs.put(height, signature);
    }

    /// The signature over the state commitment at `height`, if the node has
    /// produced one and still holds it.
    pub fn get_state_signature(&self, height: u64) -> (r: Option<&Vec<u8>>)
        requires
            self.wf(),
        ensures
            match r {
                Some(s) => self.signatures().contains_key(height) && s@ == self.signatures()[height],
                None => !self.signatures().contains_key(height),
            },
    {
        self.sigs.get(height)
    }
}

} // verus!
