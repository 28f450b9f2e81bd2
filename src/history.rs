//! Checkpoints of the fixture set, addressed by index.
use vstd::prelude::*;
use crate::fixture_set::FixtureSet;

verus! {

pub type HistoryID = usize;

/// Snapshots of the fixture set, oldest first. Each is the state just before
/// a group of actions ran.
pub struct History {
    pub history: Vec<FixtureSet>,
}

impl History {
    pub fn new() -> (r: History)
        ensures
            r.history@.len() == 0,
    {
        History { history: Vec::new() }
    }

    /// Stores `fixture_set` as the newest snapshot and returns its id.
    pub fn record(&mut self, fixture_set: FixtureSet) -> (r: HistoryID)
        requires
            old(self).history@.len() < usize::MAX,
        ensures
            final(self).history@ == old(self).history@.push(fixture_set),
            r == old(self).history@.len(),
    {
        self.history.push(fixture_set);
        self.history.len() - 1
    }

    /// Goes back to snapshot `history_index`: it is handed back and removed,
    /// along with every later one; earlier snapshots stay, under the same
    /// ids. `None`, with nothing changed, when there is no such snapshot.
    pub fn revert(&mut self, history_index: usize) -> (r: Option<FixtureSet>)
        ensures
            history_index < old(self).history@.len() ==> r == Some(
                old(self).history@[history_index as int],
            ) && final(self).history@ == old(self).history@.subrange(0, history_index as int),
            history_index >= old(self).history@.len() ==> r.is_none() && final(self).history@
                == old(self).history@,
    {
        if history_index < self.history.len() {
            self.history.truncate(history_index + 1);
            let r = self.history.pop();
            proof {
                assert(self.history@ =~= old(self).history@.subrange(0, history_index as int));
            }
            r
        } else {
            None
        }
    }

    pub fn len(&self) -> (r: usize)
        ensures
            r == self.history@.len(),
    {
        self.history.len()
    }

    pub fn is_empty(&self) -> (r: bool)
        ensures
            r == (self.history@.len() == 0),
    {
        self.history.len() == 0
    }

    pub fn clear(&mut self)
        ensures
            final(self).history@.len() == 0,
    {
        self.history.clear();
    }
}

} // verus!
