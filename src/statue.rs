//! The statues placed in the secret base, which bias the rare spawns the oracle
//! may produce. Entries are appended and removed from the end only.

use vstd::prelude::*;

verus! {

/// The most statues a secret base holds.
pub const MAX_STATUES: usize = 18;

/// One placed statue: the species it shows and whether it is the rare variant.
#[derive(Clone, Copy, Debug, PartialEq, Eq, Structural)]
pub struct StatueEntry {
    pub species: u16,
    pub rare: bool,
}

/// Why a statue could not be placed.
#[derive(Clone, Copy, Debug, PartialEq, Eq, Structural)]
pub enum StatueError {
    /// The configuration already holds `MAX_STATUES` entries.
    Full,
}

/// The statues in the order they were placed.
#[derive(Clone, Debug)]
pub struct StatueConfig {
    statues: Vec<StatueEntry>,
}

impl StatueConfig {
    pub closed spec fn view(&self) -> Seq<StatueEntry> {
        self.statues@
    }

    /// An empty configuration.
    pub fn new() -> (r: StatueConfig)
        ensures
            r.view() == Seq::<StatueEntry>::empty(),
    {
        StatueConfig { statues: Vec::new() }
    }

    /// Places `entry` after the others; fails, leaving the configuration as it
    /// was, when it already holds `MAX_STATUES` entries.
    pub fn add(&mut self, entry: StatueEntry) -> (r: Result<(), StatueError>)
        ensures
            old(self).view().len() < MAX_STATUES ==> r is Ok && final(self).view() == old(
                self,
            ).view().push(entry),
            old(self).view().len() >= MAX_STATUES ==> r == Err::<(), StatueError>(
                StatueError::Full,
            ) && final(self).view() == old(self).view(),
    {
        if self.statues.len() >= MAX_STATUES {
            Err(StatueError::Full)
        } else {
            self.statues.push(entry);
            Ok(())
        }
    }

    /// Removes the statue placed last; does nothing when there is none.
    pub fn remove_last(&mut self)
        ensures
            old(self).view().len() == 0 ==> final(self).view() == old(self).view(),
            old(self).view().len() > 0 ==> final(self).view() == old(self).view().drop_last(),
    {
        if self.statues.len() > 0 {
            let _ = self.statues.pop();
        }
    }

    /// The number of placed statues.
    pub fn len(&self) -> (r: usize)
        ensures
            r == self.view().len(),
    {
        self.statues.len()
    }

    /// The statue placed `i`-th.
    pub fn get(&self, i: usize) -> (r: StatueEntry)
        requires
            i < self.view().len(),
        ensures
            r == self.view()[i as int],
    {
        self.statues[i]
    }
}

impl Default for StatueConfig {
    fn default() -> (r: StatueConfig)
        ensures
            r.view() == Seq::<StatueEntry>::empty(),
    {
        StatueConfig::new()
    }
}

} // verus!
