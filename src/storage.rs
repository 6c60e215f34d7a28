//! In-memory storage behind the capability contract: blocks by height,
//! committed atomically in batches, and Merkle authentication paths by
//! (block height, traversal path).
use vstd::prelude::*;
use crate::heights::HeightMap;
use crate::provider::Provider;

verus! {

/// Failures of an update.
#[derive(PartialEq, Eq, Structural, Clone, Copy, Debug)]
pub enum DataSourceError {
    /// A height is already stored with other content; history is not rewritten.
    IngestionConflict,
    /// The batch could not be applied; the committed version is unchanged.
    CommitError,
}

/// Blocks as a map from height to content.
pub type BlockMap = Map<u64, Seq<u8>>;

/// Merkle paths as a map from (block height, traversal path) to path.
pub type PathMap = Map<(u64, Seq<usize>), Seq<u8>>;

/// A batch seen as plain values.
pub open spec fn batch_view(batch: Seq<(u64, Vec<u8>)>) -> Seq<(u64, Seq<u8>)> {
    batch.map_values(|e: (u64, Vec<u8>)| (e.0, e.1@))
}

/// The blocks after every entry of `batch` is stored, in order.
pub open spec fn apply_batch(m: BlockMap, batch: Seq<(u64, Seq<u8>)>) -> BlockMap
    decreases batch.len(),
{
    if batch.len() == 0 {
        m
    } else {
        apply_batch(m, batch.drop_last()).insert(batch.last().0, batch.last().1)
    }
}

/// No entry of `batch` gives a height other content than `m` or another
/// entry gives it.
pub open spec fn compatible(m: BlockMap, batch: Seq<(u64, Seq<u8>)>) -> bool {
    &&& forall|i: int| 0 <= i < batch.len() && #[trigger] m.contains_key(batch[i].0) ==> m[batch[i].0] == batch[i].1
    &&& forall|i: int, j: int|
        0 <= i < batch.len() && 0 <= j < batch.len() && #[trigger] batch[i].0 == #[trigger] batch[j].0
            ==> batch[i].1 == batch[j].1
}

/// One stored authentication path.
pub struct PathRecord {
    pub block_number: u64,
    pub traversal_path: Vec<usize>,
    pub path: Vec<u8>,
}

/// Where a record stands in the tree.
pub open spec fn coord(r: PathRecord) -> (u64, Seq<usize>) {
    (r.block_number, r.traversal_path@)
}

/// Each coordinate is held once, and `m` is what the records hold.
pub closed spec fn paths_wf(paths: Seq<PathRecord>, m: PathMap) -> bool {
    &&& forall|i: int| #![trigger paths[i]] 0 <= i < paths.len()
        ==> m.contains_key(coord(paths[i])) && m[coord(paths[i])] == paths[i].path@
    &&& forall|k: (u64, Seq<usize>)| #[trigger] m.contains_key(k)
        ==> exists|i: int| 0 <= i < paths.len() && coord(paths[i]) == k
    &&& forall|i: int, j: int| 0 <= i < paths.len() && 0 <= j < paths.len()
        && #[trigger] coord(paths[i]) == #[trigger] coord(paths[j]) ==> i == j
}

/// A data source that keeps everything in memory.
pub struct DataSource {
    blocks: HeightMap,
    paths: Vec<PathRecord>,
    version: u64,
    provider: Provider,
    path_map: Ghost<PathMap>,
}

impl DataSource {
    /// The stored blocks.
    pub closed spec fn blocks(&self) -> BlockMap {
        self.blocks@
    }

    /// The stored Merkle paths.
    pub closed spec fn paths(&self) -> PathMap {
        self.path_map@
    }

    /// How many batches have been committed.
    pub closed spec fn version(&self) -> nat {
        self.version as nat
    }

    /// The peers that repair local misses.
    pub closed spec fn peers(&self) -> Seq<Seq<char>> {
        self.provider@
    }

    /// Each height and each coordinate is held once, and the maps are what
    /// the records hold.
    pub closed spec fn wf(&self) -> bool {
        &&& self.blocks.wf()
        &&& paths_wf(self.paths@, self.path_map@)
    }

    /// An empty store that repairs misses from `provider`.
    pub fn new(provider: Provider) -> (r: DataSource)
        ensures
            r.wf(),
            r.blocks() == BlockMap::empty(),
            r.paths() == PathMap::empty(),
            r.version() == 0,
            r.peers() == provider@,
    {
        DataSource {
            blocks: HeightMap::new(),
            paths: Vec::new(),
            version: 0,
            provider,
            path_map: Ghost(PathMap::empty()),
        }
    }

    /// The peers that repair local misses.
    pub fn provider(&self) -> (r: &Provider)
        ensures
            r@ == self.peers(),
    {
        &self.provider
    }

    /// How many batches have been committed.
    pub fn committed_version(&self) -> (r: u64)
        ensures
            r == self.version(),
    {
        self.version
    }

    /// The block at `height`, if it is stored.
    pub fn get_block(&self, height: u64) -> (r: Option<&Vec<u8>>)
        requires
            self.wf(),
        ensures
            match r {
                Some(b) => self.blocks().contains_key(height) && b@ == self.blocks()[height],
                None => !self.blocks().contains_key(height),
            },
    {
        self.blocks.get(height)
    }

    /// Stores `block` at `height`, replacing what was there.
    fn put_block(&mut self, height: u64, block: Vec<u8>)
        requires
            old(self).wf(),
        ensures
            final(self).wf(),
            final(self).blocks() == old(self).blocks().insert(height, block@),
            final(self).paths() == old(self).paths(),
            final(self).version() == old(self).version(),
            final(self).peers() == old(self).peers(),
    {
        self.blocks.put(height, block);
    }

    /// Stores a newly decided block. Storing the same content at a height
    /// again changes nothing; other content at a stored height is refused.
    pub fn ingest(&mut self, height: u64, block: Vec<u8>) -> (r: Result<(), DataSourceError>)
        requires
            old(self).wf(),
        ensures
            final(self).wf(),
            final(self).paths() == old(self).paths(),
            final(self).version() == old(self).version(),
            final(self).peers() == old(self).peers(),
            r is Ok <==> !old(self).blocks().contains_key(height) || old(self).blocks()[height] == block@,
            r is Ok ==> final(self).blocks() == old(self).blocks().insert(height, block@),
            r is Err ==> r == Err::<(), DataSourceError>(DataSourceError::IngestionConflict)
                && final(self).blocks() == old(self).blocks(),
    {
        match self.blocks.get(height) {
            Some(stored) => {
                if crate::fetch::bytes_equal(stored, &block) {
                    assert(self.blocks().insert(height, block@) =~= self.blocks());
                    Ok(())
                } else {
                    Err(DataSourceError::IngestionConflict)
                }
            },
            None => {
                self.put_block(height, block);
                Ok(())
            },
        }
    }

    /// Whether `batch` can be applied to the stored blocks.
    fn batch_compatible(&self, batch: &Vec<(u64, Vec<u8>)>) -> (r: bool)
        requires
            self.wf(),
        ensures
            r == compatible(self.blocks(), batch_view(batch@)),
    {
        let ghost bv = batch_view(batch@);
        let ghost m = self.blocks();
        let mut i: usize = 0;
        while i < batch.len()
            invariant
                self.wf(),
                m == self.blocks(),
                bv == batch_view(batch@),
                i <= batch@.len(),
                forall|a: int| 0 <= a < i && #[trigger] m.contains_key(bv[a].0) ==> m[bv[a].0] == bv[a].1,
                forall|a: int, b: int| 0 <= a < i && 0 <= b < i && #[trigger] bv[a].0 == #[trigger] bv[b].0
                    ==> bv[a].1 == bv[b].1,
            decreases batch@.len() - i,
        {
            let h = batch[i].0;
            match self.get_block(h) {
                Some(stored) => {
                    if !crate::fetch::bytes_equal(stored, &batch[i].1) {
                        assert(m.contains_key(bv[i as int].0));
                        return false;
                    }
                },
                None => {},
            }
            let mut j: usize = 0;
            while j < i
                invariant
                    bv == batch_view(batch@),
                    j <= i < batch@.len(),
                    h == bv[i as int].0,
                    forall|b: int| 0 <= b < j && bv[b].0 == h ==> bv[b].1 == bv[i as int].1,
                decreases i - j,
            {
                if batch[j].0 == h && !crate::fetch::bytes_equal(&batch[j].1, &batch[i].1) {
                    assert(bv[j as int].0 == bv[i as int].0);
                    return false;
                }
                j = j + 1;
            }
            i = i + 1;
        }
        true
    }

    /// Applies a batch of blocks as one version: either every entry becomes
    /// visible, or the store is left exactly as it was.
    pub fn commit(&mut self, batch: Vec<(u64, Vec<u8>)>) -> (r: Result<(), DataSourceError>)
        requires
            old(self).wf(),
        ensures
            final(self).wf(),
            final(self).paths() == old(self).paths(),
            final(self).peers() == old(self).peers(),
            r == Err::<(), DataSourceError>(DataSourceError::IngestionConflict)
                <==> !compatible(old(self).blocks(), batch_view(batch@)),
            r == Err::<(), DataSourceError>(DataSourceError::CommitError)
                <==> compatible(old(self).blocks(), batch_view(batch@)) && old(self).version() == u64::MAX,
            r is Ok <==> compatible(old(self).blocks(), batch_view(batch@)) && old(self).version() < u64::MAX,
            r is Ok ==> final(self).blocks() == apply_batch(old(self).blocks(), batch_view(batch@))
                && final(self).version() == old(self).version() + 1,
            r is Err ==> final(self).blocks() == old(self).blocks() && final(self).version() == old(self).version(),
    {
        if !self.batch_compatible(&batch) {
            return Err(DataSourceError::IngestionConflict);
        }
        if self.version == u64::MAX {
            return Err(DataSourceError::CommitError);
        }
        let ghost m0 = self.blocks();
        let ghost all = batch@;
        let ghost bv = batch_view(all);
        let mut rest = batch;
        while rest.len() > 0
            invariant
                self.wf(),
                self.paths() == old(self).paths(),
                self.peers() == old(self).peers(),
                self.version() == old(self).version(),
                bv == batch_view(all),
                rest@.len() <= all.len(),
                rest@ == all.subrange(all.len() - rest@.len(), all.len() as int),
                self.blocks() == apply_batch(m0, bv.subrange(0, all.len() - rest@.len())),
            decreases rest@.len(),
        {
            let ghost k = all.len() - rest@.len();
            let entry = rest.remove(0);
            assert(entry == all[k]);
            assert(rest@ =~= all.subrange(k + 1, all.len() as int));
            assert(bv.subrange(0, k + 1).drop_last() =~= bv.subrange(0, k));
            self.put_block(entry.0, entry.1);
        }
        assert(bv.subrange(0, all.len() as int) =~= bv);
        self.version = self.version + 1;
        Ok(())
    }

    fn find_path(&self, block_number: u64, traversal_path: &Vec<usize>) -> (r: Option<usize>)
        requires
            self.wf(),
        ensures
            match r {
                Some(i) => i < self.paths@.len() && coord(self.paths@[i as int]) == (block_number, traversal_path@),
                None => !self.paths().contains_key((block_number, traversal_path@)),
            },
    {
        let mut i: usize = 0;
        while i < self.paths.len()
            invariant
                self.wf(),
                i <= self.paths@.len(),
                forall|j: int| 0 <= j < i ==> coord(self.paths@[j]) != (block_number, traversal_path@),
            decreases self.paths@.len() - i,
        {
            if self.paths[i].block_number == block_number && usizes_equal(&self.paths[i].traversal_path, traversal_path) {
                return Some(i);
            }
            i = i + 1;
        }
        None
    }

    /// The authentication path stored at (`block_number`, `traversal_path`).
    pub fn get_path(&self, block_number: u64, traversal_path: &Vec<usize>) -> (r: Option<&Vec<u8>>)
        requires
            self.wf(),
        ensures
            match r {
                Some(p) => self.paths().contains_key((block_number, traversal_path@))
                    && p@ == self.paths()[(block_number, traversal_path@)],
                None => !self.paths().contains_key((block_number, traversal_path@)),
            },
    {
        match self.find_path(block_number, traversal_path) {
            Some(i) => {
                assert(coord(self.paths@[i as int]) == (block_number, traversal_path@));
                Some(&self.paths[i].path)
            },
            None => None,
        }
    }

    fn put_path(&mut self, path: Vec<u8>, traversal_path: Vec<usize>, block_number: u64)
        requires
            old(self).wf(),
        ensures
            final(self).wf(),
            final(self).paths() == old(self).paths().insert((block_number, traversal_path@), path@),
            final(self).blocks() == old(self).blocks(),
            final(self).version() == old(self).version(),
            final(self).peers() == old(self).peers(),
    {
        let ghost key = (block_number, traversal_path@);
        let ghost content = path@;
        let ghost old_paths = self.paths@;
        let ghost old_map = self.path_map@;
        let found = self.find_path(block_number, &traversal_path);
        let record = PathRecord { block_number, traversal_path, path };
        assert(coord(record) == key);
        match found {
            Some(i) => {
                self.paths.set(i, record);
                self.path_map = Ghost(self.path_map@.insert(key, content));
                assert forall|k: (u64, Seq<usize>)| #[trigger] self.path_map@.contains_key(k) implies exists|j: int|
                    0 <= j < self.paths@.len() && coord(self.paths@[j]) == k by {
                    if k == key {
                        assert(coord(self.paths@[i as int]) == k);
                    } else {
                        let j = choose|j: int| 0 <= j < old_paths.len() && coord(old_paths[j]) == k;
                        assert(coord(self.paths@[j]) == k);
                    }
                }
                assert forall|a: int| #![trigger self.paths@[a]] 0 <= a < self.paths@.len() implies
                    self.path_map@.contains_key(coord(self.paths@[a]))
                        && self.path_map@[coord(self.paths@[a])] == self.paths@[a].path@ by {
                    if a != i {
                        assert(old_paths[a] == self.paths@[a]);
                        assert(coord(old_paths[a]) != coord(old_paths[i as int]));
                    }
                }
            },
            None => {
                self.paths.push(record);
                self.path_map = Ghost(self.path_map@.insert(key, content));
                assert forall|k: (u64, Seq<usize>)| #[trigger] self.path_map@.contains_key(k) implies exists|j: int|
                    0 <= j < self.paths@.len() && coord(self.paths@[j]) == k by {
                    if k == key {
                        assert(coord(self.paths@[old_paths.len() as int]) == k);
                    } else {
                        let j = choose|j: int| 0 <= j < old_paths.len() && coord(old_paths[j]) == k;
                        assert(coord(self.paths@[j]) == k);
                    }
                }
                assert forall|a: int| #![trigger self.paths@[a]] 0 <= a < self.paths@.len() implies
                    self.path_map@.contains_key(coord(self.paths@[a]))
                        && self.path_map@[coord(self.paths@[a])] == self.paths@[a].path@ by {
                    if a < old_paths.len() {
                        assert(old_paths[a] == self.paths@[a]);
                        assert(old_map.contains_key(coord(old_paths[a])));
                    }
                }
                assert forall|a: int, b: int| 0 <= a < self.paths@.len() && 0 <= b < self.paths@.len()
                    && #[trigger] coord(self.paths@[a]) == #[trigger] coord(self.paths@[b]) implies a == b by {
                    if a < old_paths.len() {
                        assert(old_paths[a] == self.paths@[a]);
                        assert(old_map.contains_key(coord(old_paths[a])));
                    }
                    if b < old_paths.len() {
                        assert(old_paths[b] == self.paths@[b]);
                        assert(old_map.contains_key(coord(old_paths[b])));
                    }
                }
            },
        }
    }
}

/// What every storage engine offers: block reads, atomic updates and
/// Merkle path storage, over the stored blocks and paths seen as maps.
pub trait SequencerDataSource: Sized {
    /// The store's own invariant.
    spec fn ready(&self) -> bool;

    /// The stored blocks.
    spec fn stored_blocks(&self) -> BlockMap;

    /// The stored Merkle paths.
    spec fn stored_paths(&self) -> PathMap;

    /// Stores the authentication path of the entry at `traversal_path` in the
    /// tree of block `block_number`; a path already stored there is replaced.
    fn store_state(&mut self, path: Vec<u8>, traversal_path: Vec<usize>, block_number: u64) -> (r: Result<
        (),
        DataSourceError,
    >)
        requires
            old(self).ready(),
        ensures
            r is Ok,
            final(self).ready(),
            final(self).stored_paths() == old(self).stored_paths().insert((block_number, traversal_path@), path@),
            final(self).stored_blocks() == old(self).stored_blocks(),
    ;
}

impl SequencerDataSource for DataSource {
    open spec fn ready(&self) -> bool {
        self.wf()
    }

    open spec fn stored_blocks(&self) -> BlockMap {
        self.blocks()
    }

    open spec fn stored_paths(&self) -> PathMap {
        self.paths()
    }

    fn store_state(&mut self, path: Vec<u8>, traversal_path: Vec<usize>, block_number: u64) -> (r: Result<
        (),
        DataSourceError,
    >) {
        self.put_path(path, traversal_path, block_number);
        Ok(())
    }
}

/// Whether two traversal paths are equal.
pub fn usizes_equal(a: &Vec<usize>, b: &Vec<usize>) -> (r: bool)
    ensures
        r == (a@ == b@),
{
    if a.len() != b.len() {
        return false;
    }
    let mut i: usize = 0;
    while i < b.len()
        invariant
            a@.len() == b@.len(),
            i <= b@.len(),
            forall|j: int| 0 <= j < i ==> a@[j] == b@[j],
        decreases b@.len() - i,
    {
        if a[i] != b[i] {
            assert(a@[i as int] != b@[i as int]);
            return false;
        }
        i = i + 1;
    }
    assert(a@ =~= b@);
    true
}

/// Every block of a compatible batch reads back, after the batch is applied,
/// with exactly the content it was given; heights outside the batch keep
/// what they held.
pub proof fn lemma_committed_blocks_read_back(m: BlockMap, batch: Seq<(u64, Seq<u8>)>)
    requires
        compatible(m, batch),
    ensures
        forall|i: int| 0 <= i < batch.len() ==> #[trigger] apply_batch(m, batch).contains_key(batch[i].0)
            && apply_batch(m, batch)[batch[i].0] == batch[i].1,
        forall|h: u64| (forall|i: int| 0 <= i < batch.len() ==> batch[i].0 != h)
            ==> #[trigger] apply_batch(m, batch).contains_key(h) == m.contains_key(h)
                && (m.contains_key(h) ==> apply_batch(m, batch)[h] == m[h]),
    decreases batch.len(),
{
    if batch.len() > 0 {
        let front = batch.drop_last();
        assert forall|i: int, j: int| 0 <= i < front.len() && 0 <= j < front.len()
            && #[trigger] front[i].0 == #[trigger] front[j].0 implies front[i].1 == front[j].1 by {
            assert(front[i] == batch[i] && front[j] == batch[j]);
        }
        assert forall|i: int| 0 <= i < front.len() && #[trigger] m.contains_key(front[i].0)
            implies m[front[i].0] == front[i].1 by {
            assert(front[i] == batch[i]);
        }
        lemma_committed_blocks_read_back(m, front);
        let last = batch.len() - 1;
        assert(apply_batch(m, batch) == apply_batch(m, front).insert(batch[last].0, batch[last].1));
        assert forall|i: int| 0 <= i < batch.len() implies #[trigger] apply_batch(m, batch).contains_key(batch[i].0)
            && apply_batch(m, batch)[batch[i].0] == batch[i].1 by {
            if i < last {
                assert(front[i] == batch[i]);
                assert(batch[i].0 == batch[last].0 ==> batch[i].1 == batch[last].1);
                assert(apply_batch(m, front).contains_key(front[i].0));
            }
        }
        assert forall|h: u64| (forall|i: int| 0 <= i < batch.len() ==> batch[i].0 != h)
            implies #[trigger] apply_batch(m, batch).contains_key(h) == m.contains_key(h)
                && (m.contains_key(h) ==> apply_batch(m, batch)[h] == m[h]) by {
            assert(batch[last].0 != h);
            assert forall|i: int| 0 <= i < front.len() implies front[i].0 != h by {
                assert(front[i] == batch[i]);
            }
        }
    }
}

/// Storing the same path at the same coordinate twice leaves the same
/// record as storing it once.
pub proof fn lemma_store_path_twice(m: PathMap, block_number: u64, traversal_path: Seq<usize>, path: Seq<u8>)
    ensures
        m.insert((block_number, traversal_path), path).insert((block_number, traversal_path), path)
            == m.insert((block_number, traversal_path), path),
{
    assert(m.insert((block_number, traversal_path), path).insert((block_number, traversal_path), path)
        =~= m.insert((block_number, traversal_path), path));
}

} // verus!
