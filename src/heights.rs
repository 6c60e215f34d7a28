//! A map from block height to bytes, held as a vector of records.
use vstd::prelude::*;

verus! {

/// Each height is held once, and `m` is what the records hold.
pub closed spec fn entries_wf(entries: Seq<(u64, Vec<u8>)>, m: Map<u64, Seq<u8>>) -> bool {
    &&& forall|i: int| #![trigger entries[i]] 0 <= i < entries.len()
        ==> m.contains_key(entries[i].0) && m[entries[i].0] == entries[i].1@
    &&& forall|h: u64| #[trigger] m.contains_key(h) ==> exists|i: int| 0 <= i < entries.len() && entries[i].0 == h
    &&& forall|i: int, j: int| 0 <= i < entries.len() && 0 <= j < entries.len()
        && #[trigger] entries[i].0 == #[trigger] entries[j].0 ==> i == j
}

/// Byte strings keyed by block height, each height held at most once.
pub struct HeightMap {
    entries: Vec<(u64, Vec<u8>)>,
    map: Ghost<Map<u64, Seq<u8>>>,
}

impl View for HeightMap {
    type V = Map<u64, Seq<u8>>;

    closed spec fn view(&self) -> Map<u64, Seq<u8>> {
        self.map@
    }
}

impl HeightMap {
    pub closed spec fn wf(&self) -> bool {
        entries_wf(self.entries@, self.map@)
    }

    /// An empty map.
    pub fn new() -> (r: HeightMap)
        ensures
            r.wf(),
            r@ == Map::<u64, Seq<u8>>::empty(),
    {
        HeightMap { entries: Vec::new(), map: Ghost(Map::empty()) }
    }

    fn find(&self, height: u64) -> (r: Option<usize>)
        requires
            self.wf(),
        ensures
            match r {
                Some(i) => i < self.entries@.len() && self.entries@[i as int].0 == height,
                None => !self@.contains_key(height),
            },
    {
        let mut i: usize = 0;
        while i < self.entries.len()
            invariant
                self.wf(),
                i <= self.entries@.len(),
                forall|j: int| 0 <= j < i ==> self.entries@[j].0 != height,
            decreases self.entries@.len() - i,
        {
            if self.entries[i].0 == height {
                return Some(i);
            }
            i = i + 1;
        }
        None
    }

    /// The value at `height`, if one is stored.
    pub fn get(&self, height: u64) -> (r: Option<&Vec<u8>>)
        requires
            self.wf(),
        ensures
            match r {
                Some(b) => self@.contains_key(height) && b@ == self@[height],
                None => !self@.contains_key(height),
            },
    {
        match self.find(height) {
            Some(i) => {
                assert(self.entries@[i as int].0 == height);
                Some(&self.entries[i].1)
            },
            None => None,
        }
    }

    /// Stores `block` at `height`, replacing what was there.
    pub fn put(&mut self, height: u64, block: Vec<u8>)
        requires
            old(self).wf(),
        ensures
            final(self).wf(),
            final(self)@ == old(self)@.insert(height, block@),
    {
        let ghost content = block@;
        let ghost old_blocks = self.entries@;
        let ghost old_map = self.map@;
        match self.find(height) {
            Some(i) => {
                self.entries.set(i, (height, block));
                self.map = Ghost(self.map@.insert(height, content));
                assert forall|h: u64| #[trigger] self.map@.contains_key(h) implies exists|j: int|
                    0 <= j < self.entries@.len() && self.entries@[j].0 == h by {
                    if h == height {
                        assert(self.entries@[i as int].0 == h);
                    } else {
                        let j = choose|j: int| 0 <= j < old_blocks.len() && old_blocks[j].0 == h;
                        assert(self.entries@[j].0 == h);
                    }
                }
                assert forall|a: int| #![trigger self.entries@[a]] 0 <= a < self.entries@.len() implies
                    self.map@.contains_key(self.entries@[a].0)
                        && self.map@[self.entries@[a].0] == self.entries@[a].1@ by {
                    if a != i {
                        assert(old_blocks[a] == self.entries@[a]);
                        assert(old_blocks[a].0 != old_blocks[i as int].0);
                    }
                }
            },
            None => {
                self.entries.push((height, block));
                self.map = Ghost(self.map@.insert(height, content));
                assert forall|h: u64| #[trigger] self.map@.contains_key(h) implies exists|j: int|
                    0 <= j < self.entries@.len() && self.entries@[j].0 == h by {
                    if h == height {
                        assert(self.entries@[old_blocks.len() as int].0 == h);
                    } else {
                        let j = choose|j: int| 0 <= j < old_blocks.len() && old_blocks[j].0 == h;
                        assert(self.entries@[j].0 == h);
                    }
                }
                assert forall|a: int| #![trigger self.entries@[a]] 0 <= a < self.entries@.len() implies
                    self.map@.contains_key(self.entries@[a].0)
                        && self.map@[self.entries@[a].0] == self.entries@[a].1@ by {
                    if a < old_blocks.len() {
                        assert(old_blocks[a] == self.entries@[a]);
                        assert(old_map.contains_key(old_blocks[a].0));
                    }
                }
                assert forall|a: int, b: int| 0 <= a < self.entries@.len() && 0 <= b < self.entries@.len()
                    && #[trigger] self.entries@[a].0 == #[trigger] self.entries@[b].0 implies a == b by {
                    if a < old_blocks.len() {
                        assert(old_blocks[a] == self.entries@[a]);
                        assert(old_map.contains_key(old_blocks[a].0));
                    }
                    if b < old_blocks.len() {
                        assert(old_blocks[b] == self.entries@[b]);
                        assert(old_map.contains_key(old_blocks[b].0));
                    }
                }
            },
        }
    }

}

} // verus!
