//! Per-step slots of the execution context: the last app launch time, the
//! last settled tree and the cached screenshot/tree pair of the last step,
//! each read at most once.
use vstd::prelude::*;

verus! {

/// The wall-clock time of the last app launch, in milliseconds; 0 means
/// no measurement.
pub struct LaunchSlot {
    ms: u64,
}

impl LaunchSlot {
    /// The measurement the slot holds (0 for none).
    pub closed spec fn stored(&self) -> u64 {
        self.ms
    }

    /// An empty slot.
    pub fn new() -> (r: Self)
        ensures
            r.stored() == 0,
    {
        LaunchSlot { ms: 0 }
    }

    /// Records a launch time, replacing any unread one.
    pub fn set(&mut self, ms: u64)
        ensures
            final(self).stored() == ms,
    {
        self.ms = ms;
    }

    /// The recorded launch time, once: the slot is emptied. A recorded 0
    /// counts as no measurement.
    pub fn take(&mut self) -> (r: Option<u64>)
        ensures
            final(self).stored() == 0,
            old(self).stored() == 0 ==> r is None,
            old(self).stored() > 0 ==> r == Some(old(self).stored()),
    {
        let val = self.ms;
        self.ms = 0;
        if val > 0 {
            Some(val)
        } else {
            None
        }
    }
}

/// The UI tree read by the last post-step settle, with the step index and
/// the moment it was read; the block-end audit takes it instead of fetching
/// the tree again.
pub struct SettledTreeSlot<T, I> {
    slot: Option<(T, u64, I)>,
}

impl<T, I> SettledTreeSlot<T, I> {
    /// The cached tree, its step index and its capture moment, if any.
    pub closed spec fn cached(&self) -> Option<(T, u64, I)> {
        self.slot
    }

    /// An empty slot.
    pub fn new() -> (r: Self)
        ensures
            r.cached() is None,
    {
        SettledTreeSlot { slot: None }
    }

    /// Caches the tree settled after step `step_index`, read at `at`,
    /// replacing any earlier step's tree.
    pub fn cache(&mut self, tree: T, step_index: u64, at: I)
        ensures
            final(self).cached() == Some((tree, step_index, at)),
    {
        self.slot = Some((tree, step_index, at));
    }

    /// The most recently cached tree with its capture moment, whatever step
    /// it came from; the slot is emptied.
    pub fn take_latest(&mut self) -> (r: Option<(T, I)>)
        ensures
            final(self).cached() is None,
            match old(self).cached() {
                Some((t, _idx, at)) => r == Some((t, at)),
                None => r is None,
            },
    {
        match self.slot.take() {
            Some((tree, _idx, at)) => Some((tree, at)),
            None => None,
        }
    }

    /// Drops any cached tree, so a block never audits a previous block's.
    pub fn clear(&mut self)
        ensures
            final(self).cached() is None,
    {
        self.slot = None;
    }
}

/// The screenshot and tree captured at the end of one step, kept for the
/// block-end audit.
pub struct TracePairSlot<T> {
    slot: Option<(T, Vec<u8>, u64)>,
}

impl<T> TracePairSlot<T> {
    /// The cached pair and the step index it was captured at, if any.
    pub closed spec fn cached(&self) -> Option<(T, Seq<u8>, u64)> {
        match self.slot {
            Some((t, shot, idx)) => Some((t, shot@, idx)),
            None => None,
        }
    }

    /// An empty slot.
    pub fn new() -> (r: Self)
        ensures
            r.cached() is None,
    {
        TracePairSlot { slot: None }
    }

    /// Caches the pair captured at `step_index`, replacing any other.
    pub fn cache(&mut self, tree: T, shot_png: Vec<u8>, step_index: u64)
        ensures
            final(self).cached() == Some((tree, shot_png@, step_index)),
    {
        self.slot = Some((tree, shot_png, step_index));
    }

    /// The cached pair when it was captured at `expect_step_index`; the slot
    /// is emptied either way, so a pair is used at most once and a stale one
    /// never.
    pub fn take_at(&mut self, expect_step_index: u64) -> (r: Option<(T, Vec<u8>)>)
        ensures
            final(self).cached() is None,
            match old(self).cached() {
                Some((t, shot, idx)) => if idx == expect_step_index {
                    r matches Some(p) && p.0 == t && p.1@ == shot
                } else {
                    r is None
                },
                None => r is None,
            },
    {
        let taken = self.slot.take();
        match taken {
            Some((tree, shot, idx)) => {
                if idx == expect_step_index {
                    Some((tree, shot))
                } else {
                    None
                }
            },
            None => None,
        }
    }
}

} // verus!
