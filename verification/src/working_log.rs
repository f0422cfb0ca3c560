//! The ordered checkpoint history of one base commit.

use vstd::prelude::*;
use crate::checkpoint::{Checkpoint, CheckpointView};

verus! {

/// The checkpoints recorded on top of one base commit, oldest first. The
/// order in which they are stored is the order of replay; it is never sorted
/// again. A log only grows, and a new base commit starts a new log.
#[derive(Debug)]
pub struct WorkingLog {
    base_commit: String,
    checkpoints: Vec<Checkpoint>,
}

/// A log as a value.
pub struct WorkingLogView {
    pub base_commit: Seq<char>,
    pub checkpoints: Seq<CheckpointView>,
}

/// The time stamps never go down along the list.
pub open spec fn in_time_order(cps: Seq<CheckpointView>) -> bool {
    forall|i: int, j: int|
        0 <= i <= j < cps.len() ==> (#[trigger] cps[i]).timestamp <= (#[trigger] cps[j]).timestamp
}

impl View for WorkingLog {
    type V = WorkingLogView;

    closed spec fn view(&self) -> WorkingLogView {
        WorkingLogView {
            base_commit: self.base_commit@,
            checkpoints: Seq::new(self.checkpoints@.len(), |i: int| self.checkpoints@[i]@),
        }
    }
}

impl WorkingLog {
    /// The invariant of a log: its checkpoints stand in the order of their time stamps.
    pub open spec fn wf(&self) -> bool {
        in_time_order(self@.checkpoints)
    }

    /// The empty log of a base commit.
    pub fn new(base_commit: String) -> (log: WorkingLog)
        ensures
            log.wf(),
            log@.base_commit == base_commit@,
            log@.checkpoints == Seq::<CheckpointView>::empty(),
    {
        let log = WorkingLog { base_commit, checkpoints: Vec::new() };
        assert(log@.checkpoints =~= Seq::<CheckpointView>::empty());
        log
    }

    /// The commit that the checkpoints of the log stand on.
    pub fn base_commit(&self) -> (s: &String)
        ensures
            s@ == self@.base_commit,
    {
        &self.base_commit
    }

    /// How many checkpoints the log holds.
    pub fn len(&self) -> (n: usize)
        ensures
            n == self@.checkpoints.len(),
    {
        self.checkpoints.len()
    }

    /// Whether the log holds no checkpoint.
    pub fn is_empty(&self) -> (b: bool)
        ensures
            b == (self@.checkpoints.len() == 0),
    {
        self.checkpoints.len() == 0
    }

    /// The checkpoint at place `i`, counted from the oldest.
    pub fn get(&self, i: usize) -> (cp: &Checkpoint)
        requires
            i < self@.checkpoints.len(),
        ensures
            cp@ == self@.checkpoints[i as int],
    {
        &self.checkpoints[i]
    }

    /// The time stamp of the newest checkpoint, if there is one.
    pub fn last_timestamp(&self) -> (t: Option<u64>)
        ensures
            t == if self@.checkpoints.len() == 0 {
                None
            } else {
                Some(self@.checkpoints.last().timestamp)
            },
    {
        if self.checkpoints.len() == 0 {
            None
        } else {
            Some(self.checkpoints[self.checkpoints.len() - 1].timestamp)
        }
    }

    /// Adds a checkpoint at the end, unless it is older than the newest one
    /// there: then the log stays as it is. Says whether the checkpoint was added.
    pub fn append(&mut self, cp: Checkpoint) -> (added: bool)
        requires
            old(self).wf(),
        ensures
            final(self).wf(),
            final(self)@.base_commit == old(self)@.base_commit,
            added == (old(self)@.checkpoints.len() == 0 || old(self)@.checkpoints.last().timestamp
                <= cp.timestamp),
            added ==> final(self)@.checkpoints == old(self)@.checkpoints.push(cp@),
            !added ==> final(self)@ == old(self)@,
    {
        let n = self.checkpoints.len();
        if n > 0 && self.checkpoints[n - 1].timestamp > cp.timestamp {
            return false;
        }
        let ghost before = self@.checkpoints;
        let ghost v = cp@;
        self.checkpoints.push(cp);
        proof {
            assert(self@.checkpoints =~= before.push(v));
            assert forall|i: int, j: int| 0 <= i <= j < self@.checkpoints.len() implies (
            #[trigger] self@.checkpoints[i]).timestamp <= (
            #[trigger] self@.checkpoints[j]).timestamp by {
                if j < n {
                    assert(before[i].timestamp <= before[j].timestamp);
                } else if i < n {
                    assert(before[i].timestamp <= before[n - 1].timestamp);
                }
            }
        }
        true
    }
}

} // verus!
