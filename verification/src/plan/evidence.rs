//! What the plan observed, and how.
//!
//! A plan's fields come from several places at once: the instance record,
//! the disk, a release bundle, and sometimes a registry read. A reader who
//! cannot tell which is reading a claim without its source. The ledger is
//! that source: one item per observation, and a reference from every field
//! that rests on it.

use vstd::prelude::*;

use crate::digest::Sha256;
use crate::text::{owned, same_text};

verus! {

/// Where one observation came from.
#[derive(Debug, Clone, Copy, PartialEq, Eq, Structural)]
pub enum Producer {
    /// The target's working tree.
    Disk,
    /// The instance record.
    Record,
    /// The project's own declaration.
    Declaration,
    /// A release bundle.
    Bundle,
    /// The registry index.
    Registry,
    /// The host this command runs on.
    Host,
}

/// One thing the plan observed.
#[derive(Debug, Clone, PartialEq, Eq)]
pub struct Evidence {
    /// A stable reference other sections cite.
    pub id: String,
    /// What was observed.
    pub about: String,
    /// Who produced it.
    pub producer: Producer,
    /// When, as an RFC 3339 timestamp the caller supplied.
    pub observed_at: String,
    /// The digest of what was read, where the observation has bytes.
    pub sha256: Option<Sha256>,
    /// How it was read, in one phrase.
    pub method: String,
}

/// The ledger a plan carries, in the order the observations were made.
#[derive(Debug, Clone, PartialEq, Eq)]
pub struct Ledger {
    /// Every observation.
    pub items: Vec<Evidence>,
}

/// Whether some observation carries the reference.
pub open spec fn cites(items: Seq<Evidence>, id: Seq<char>) -> bool {
    exists|i: int| 0 <= i < items.len() && #[trigger] items[i].id@ == id
}

impl Ledger {
    /// An empty ledger.
    pub fn new() -> (l: Ledger)
        ensures
            l.items@.len() == 0,
    {
        Ledger { items: Vec::new() }
    }

    /// Record one observation and return the reference to cite.
    ///
    /// The observation goes after every earlier one, and from then on the
    /// ledger holds the reference it returns.
    pub fn record(
        &mut self,
        id: &str,
        about: &str,
        producer: Producer,
        observed_at: &str,
        sha256: Option<Sha256>,
        method: &str,
    ) -> (reference: String)
        ensures
            reference@ == id@,
            final(self).items@.len() == old(self).items@.len() + 1,
            final(self).items@.take(old(self).items@.len() as int) == old(self).items@,
            final(self).items@.last().id@ == id@,
            final(self).items@.last().about@ == about@,
            final(self).items@.last().producer == producer,
            final(self).items@.last().observed_at@ == observed_at@,
            final(self).items@.last().sha256 == sha256,
            final(self).items@.last().method@ == method@,
            cites(final(self).items@, id@),
            forall|k: Seq<char>| cites(old(self).items@, k) ==> cites(final(self).items@, k),
    {
        let ghost before = self.items@;
        self.items.push(
            Evidence {
                id: owned(id),
                about: owned(about),
                producer,
                observed_at: owned(observed_at),
                sha256,
                method: owned(method),
            },
        );
        proof {
            let after = self.items@;
            assert(after.take(before.len() as int) =~= before);
            assert(after[before.len() as int].id@ == id@);
            assert forall|k: Seq<char>| cites(before, k) implies cites(after, k) by {
                let i = choose|i: int| 0 <= i < before.len() && #[trigger] before[i].id@ == k;
                assert(after[i] == before[i]);
            }
        }
        owned(id)
    }

    /// Whether the ledger carries one reference.
    pub fn holds(&self, id: &str) -> (r: bool)
        ensures
            r == cites(self.items@, id@),
    {
        let mut i: usize = 0;
        while i < self.items.len()
            invariant
                i <= self.items.len(),
                forall|j: int| 0 <= j < i ==> #[trigger] self.items@[j].id@ != id@,
            decreases self.items.len() - i,
        {
            if same_text(self.items[i].id.as_str(), id) {
                return true;
            }
            i += 1;
        }
        false
    }

    /// Every reference, in order.
    pub fn ids(&self) -> (r: Vec<&str>)
        ensures
            r@.len() == self.items@.len(),
            forall|i: int| 0 <= i < r@.len() ==> #[trigger] r@[i]@ == self.items@[i].id@,
    {
        let mut out: Vec<&str> = Vec::new();
        let mut i: usize = 0;
        while i < self.items.len()
            invariant
                i <= self.items.len(),
                out@.len() == i,
                forall|j: int| 0 <= j < i ==> #[trigger] out@[j]@ == self.items@[j].id@,
            decreases self.items.len() - i,
        {
            out.push(self.items[i].id.as_str());
            i += 1;
        }
        out
    }
}

} // verus!
