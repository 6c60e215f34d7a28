//! The consensus state view: the latest decided snapshot, and the undecided
//! snapshots of views that consensus has not settled yet.
use vstd::prelude::*;

verus! {

/// The snapshots of `m` whose views come after `view`.
pub open spec fn later_than<T>(m: Map<u64, T>, view: u64) -> Map<u64, T> {
    Map::new(|v: u64| m.contains_key(v) && v > view, |v: u64| m[v])
}

/// Snapshots of consensus state, decided and undecided.
pub struct StateView<T> {
    decided: T,
    decided_view: u64,
    undecided: Vec<(u64, T)>,
    undecided_map: Ghost<Map<u64, T>>,
}

/// Views strictly increase along `s`, all after `decided_view`, and `m` is
/// what `s` holds.
pub closed spec fn undecided_wf<T>(s: Seq<(u64, T)>, m: Map<u64, T>, decided_view: u64) -> bool {
    &&& forall|i: int, j: int| 0 <= i < j < s.len() ==> #[trigger] s[i].0 < #[trigger] s[j].0
    &&& forall|i: int| #![trigger s[i]] 0 <= i < s.len() ==> s[i].0 > decided_view
    &&& forall|i: int| #![trigger s[i]] 0 <= i < s.len() ==> m.contains_key(s[i].0) && m[s[i].0] == s[i].1
    &&& forall|v: u64| #[trigger] m.contains_key(v) ==> exists|i: int| 0 <= i < s.len() && s[i].0 == v
}

impl<T> StateView<T> {
    /// The latest decided snapshot.
    pub closed spec fn decided(&self) -> T {
        self.decided
    }

    /// The view at which the latest decided snapshot was decided.
    pub closed spec fn decided_view(&self) -> u64 {
        self.decided_view
    }

    /// The undecided snapshots by view.
    pub closed spec fn undecided(&self) -> Map<u64, T> {
        self.undecided_map@
    }

    pub closed spec fn wf(&self) -> bool {
        undecided_wf(self.undecided@, self.undecided_map@, self.decided_view)
    }

    /// A view holding the snapshot decided at `view` and nothing undecided.
    pub fn new(decided: T, view: u64) -> (r: StateView<T>)
        ensures
            r.wf(),
            r.decided() == decided,
            r.decided_view() == view,
            r.undecided() == Map::<u64, T>::empty(),
    {
        StateView { decided, decided_view: view, undecided: Vec::new(), undecided_map: Ghost(Map::empty()) }
    }

    /// The latest decided snapshot.
    pub fn get_decided_state(&self) -> (r: &T)
        ensures
            *r == self.decided(),
    {
        &self.decided
    }

    /// The view at which the latest decided snapshot was decided.
    pub fn get_decided_view(&self) -> (r: u64)
        ensures
            r == self.decided_view(),
    {
        self.decided_view
    }

    fn find(&self, view: u64) -> (r: Option<usize>)
        requires
            self.wf(),
        ensures
            match r {
                Some(i) => i < self.undecided@.len() && self.undecided@[i as int].0 == view,
                None => !self.undecided().contains_key(view),
            },
    {
        let mut i: usize = 0;
        while i < self.undecided.len()
            invariant
                self.wf(),
                i <= self.undecided@.len(),
                forall|j: int| 0 <= j < i ==> self.undecided@[j].0 != view,
            decreases self.undecided@.len() - i,
        {
            if self.undecided[i].0 == view {
                return Some(i);
            }
            i = i + 1;
        }
        None
    }

    /// The undecided snapshot of `view`, if consensus still holds one.
    pub fn get_undecided_state(&self, view: u64) -> (r: Option<&T>)
        requires
            self.wf(),
        ensures
            match r {
                Some(s) => self.undecided().contains_key(view) && *s == self.undecided()[view],
                None => !self.undecided().contains_key(view),
            },
    {
        match self.find(view) {
            Some(i) => {
                assert(self.undecided@[i as int].0 == view);
                Some(&self.undecided[i].1)
            },
            None => None,
        }
    }

    /// Records the snapshot of a new view. Views only move forward: a view
    /// not after the decided one and after every undecided one is refused.
    pub fn propose(&mut self, view: u64, state: T) -> (r: bool)
        requires
            old(self).wf(),
        ensures
            final(self).wf(),
            final(self).decided() == old(self).decided(),
            final(self).decided_view() == old(self).decided_view(),
            r <==> (view > old(self).decided_view() && forall|v: u64|
                #[trigger] old(self).undecided().contains_key(v) ==> v < view),
            r ==> final(self).undecided() == old(self).undecided().insert(view, state),
            !r ==> final(self).undecided() == old(self).undecided(),
    {
        let ghost s0 = self.undecided@;
        let ghost m0 = self.undecided_map@;
        let n = self.undecided.len();
        if view <= self.decided_view {
            return false;
        }
        if n > 0 && self.undecided[n - 1].0 >= view {
            let ghost last = s0[n - 1].0;
            assert(m0.contains_key(last) && !(last < view));
            assert(m0 == old(self).undecided());
            assert(!(view > old(self).decided_view() && forall|v: u64|
                #[trigger] old(self).undecided().contains_key(v) ==> v < view));
            return false;
        }
        assert forall|v: u64| #[trigger] m0.contains_key(v) implies v < view by {
            let i = choose|i: int| 0 <= i < s0.len() && s0[i].0 == v;
            if i < n - 1 {
                assert(s0[i].0 < s0[n - 1].0);
            }
        }
        self.undecided.push((view, state));
        self.undecided_map = Ghost(m0.insert(view, state));
        let ghost s = self.undecided@;
        let ghost m = self.undecided_map@;
        assert forall|v: u64| #[trigger] m.contains_key(v) implies exists|i: int| 0 <= i < s.len() && s[i].0 == v by {
            if v == view {
                assert(s[n as int].0 == v);
            } else {
                let i = choose|i: int| 0 <= i < s0.len() && s0[i].0 == v;
                assert(s[i].0 == v);
            }
        }
        assert forall|i: int| #![trigger s[i]] 0 <= i < s.len() implies m.contains_key(s[i].0) && m[s[i].0] == s[i].1 by {
            if i < n {
                assert(s[i] == s0[i]);
                assert(m0.contains_key(s0[i].0));
            }
        }
        assert forall|i: int, j: int| 0 <= i < j < s.len() implies #[trigger] s[i].0 < #[trigger] s[j].0 by {
            if j == n {
                assert(m0.contains_key(s0[i].0));
            } else {
                assert(s[i] == s0[i] && s[j] == s0[j]);
            }
        }
        true
    }

    /// Consensus decided `view`: its snapshot becomes the decided one, and it
    /// and every earlier undecided snapshot are dropped. A view that is not
    /// held changes nothing.
    pub fn decide(&mut self, view: u64) -> (r: bool)
        requires
            old(self).wf(),
        ensures
            final(self).wf(),
            r <==> old(self).undecided().contains_key(view),
            r ==> final(self).decided() == old(self).undecided()[view] && final(self).decided_view() == view
                && final(self).undecided() == later_than(old(self).undecided(), view),
            !r ==> final(self).decided() == old(self).decided() && final(self).decided_view() == old(self).decided_view()
                && final(self).undecided() == old(self).undecided(),
    {
        let ghost s0 = self.undecided@;
        let ghost m0 = self.undecided_map@;
        match self.find(view) {
            None => false,
            Some(i) => {
                assert(m0.contains_key(s0[i as int].0));
                let n = self.undecided.len();
                assert(i < n);
                let later = self.undecided.split_off(i + 1);
                let last = self.undecided.pop().unwrap();
                assert(last == s0[i as int]);
                self.decided = last.1;
                self.decided_view = view;
                self.undecided = later;
                self.undecided_map = Ghost(later_than(m0, view));
                let ghost s = self.undecided@;
                let ghost m = self.undecided_map@;
                assert(s =~= s0.subrange(i + 1, s0.len() as int));
                assert forall|k: int| #![trigger s[k]] 0 <= k < s.len() implies s[k].0 > view
                    && m.contains_key(s[k].0) && m[s[k].0] == s[k].1 by {
                    assert(s[k] == s0[i + 1 + k]);
                    assert(s0[i as int].0 < s0[i + 1 + k].0);
                    assert(m0.contains_key(s0[i + 1 + k].0));
                }
                assert forall|v: u64| #[trigger] m.contains_key(v) implies exists|k: int| 0 <= k < s.len() && s[k].0 == v by {
                    let j = choose|j: int| 0 <= j < s0.len() && s0[j].0 == v;
                    if j <= i {
                        if j < i {
                            assert(s0[j].0 < s0[i as int].0);
                        }
                    }
                    assert(s[j - i - 1] == s0[j]);
                }
                assert forall|a: int, b: int| 0 <= a < b < s.len() implies #[trigger] s[a].0 < #[trigger] s[b].0 by {
                    assert(s[a] == s0[i + 1 + a] && s[b] == s0[i + 1 + b]);
                }
                true
            },
        }
    }

    /// Drops undecided snapshots of views before `oldest`, which consensus
    /// will no longer settle.
    pub fn discard_stale(&mut self, oldest: u64)
        requires
            old(self).wf(),
        ensures
            final(self).wf(),
            final(self).decided() == old(self).decided(),
            final(self).decided_view() == old(self).decided_view(),
            oldest == 0 ==> final(self).undecided() == old(self).undecided(),
            oldest > 0 ==> final(self).undecided() == later_than(old(self).undecided(), (oldest - 1) as u64),
    {
        let ghost s0 = self.undecided@;
        let ghost m0 = self.undecided_map@;
        let mut i: usize = 0;
        while i < self.undecided.len() && self.undecided[i].0 < oldest
            invariant
                self.wf(),
                self.undecided@ == s0,
                self.undecided_map@ == m0,
                i <= s0.len(),
                forall|j: int| 0 <= j < i ==> s0[j].0 < oldest,
            decreases s0.len() - i,
        {
            i = i + 1;
        }
        if oldest == 0 {
            return;
        }
        let later = self.undecided.split_off(i);
        self.undecided = later;
        let ghost bound = (oldest - 1) as u64;
        self.undecided_map = Ghost(later_than(m0, bound));
        let ghost s = self.undecided@;
        let ghost m = self.undecided_map@;
        assert(s =~= s0.subrange(i as int, s0.len() as int));
        assert forall|k: int| #![trigger s[k]] 0 <= k < s.len() implies s[k].0 > self.decided_view
            && m.contains_key(s[k].0) && m[s[k].0] == s[k].1 by {
            assert(s[k] == s0[i + k]);
            assert(m0.contains_key(s0[i + k].0));
            if k > 0 {
                assert(s0[i as int].0 < s0[i + k].0);
            }
        }
        assert forall|v: u64| #[trigger] m.contains_key(v) implies exists|k: int| 0 <= k < s.len() && s[k].0 == v by {
            let j = choose|j: int| 0 <= j < s0.len() && s0[j].0 == v;
            assert(s[j - i] == s0[j]);
        }
        assert forall|a: int, b: int| 0 <= a < b < s.len() implies #[trigger] s[a].0 < #[trigger] s[b].0 by {
            assert(s[a] == s0[i + a] && s[b] == s0[i + b]);
        }
    }
}

/// Once `view` is decided, the undecided snapshot of `view` and of every
/// earlier view is gone, and every later one is still there, unchanged.
pub proof fn lemma_superseded_views_are_gone<T>(m: Map<u64, T>, view: u64, v: u64)
    ensures
        v <= view ==> !later_than(m, view).contains_key(v),
        v > view && m.contains_key(v) ==> later_than(m, view).contains_key(v) && later_than(m, view)[v] == m[v],
        v > view && !m.contains_key(v) ==> !later_than(m, view).contains_key(v),
{
}

} // verus!
