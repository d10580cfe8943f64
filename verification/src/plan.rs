//! One typed document that every landing write comes from.
//!
//! The document keeps five kinds apart: evidence is what was observed,
//! analysis is what the engine derived, policy is the requirement each
//! precondition carries, decisions are workflow state the operator owns,
//! and postconditions are what proves completion.

use vstd::prelude::*;

use crate::digest::Sha256;
use crate::landing::finding::{Finding, FindingKind, StyleCandidate};
use crate::landing::observe::{Corpus, Host, Installation, Repository};
use crate::plan::classify::Classification;
use crate::plan::decision::Decision;
use crate::plan::evidence::Evidence;
use crate::plan::operation::Operation;
use crate::plan::readiness::{Precondition, Readiness};
use crate::profile::ProfileId;

pub mod apply;
pub mod classify;
pub mod compatibility;
pub mod derive;
pub mod decision;
pub mod evidence;
pub mod fingerprint;
pub mod guidance;
pub mod operation;
pub mod planner;
pub mod readiness;
pub mod session;
pub mod store;

verus! {

/// The machine schema a plan declares.
pub const PLAN_SCHEMA: &'static str = "sdd.plan/1";

/// What the plan is, independent of its contents.
#[derive(Debug, Clone, PartialEq, Eq)]
pub struct Identity {
    /// The machine schema of this object.
    pub schema: String,
    /// A stable identifier for this plan.
    pub plan_id: String,
    /// When the plan was made, as the caller's clock read it.
    pub created_at: String,
    /// The engine that made it.
    pub engine_version: String,
}

/// What the plan converges toward.
#[derive(Debug, Clone, PartialEq, Eq)]
pub struct DesiredState {
    /// What the operator asked for.
    pub selector: String,
    /// The release that answers it.
    pub release: String,
    /// The digest of that release's bundle.
    pub release_sha256: Sha256,
    /// The profile the instance takes, once one is chosen.
    pub profile: Option<ProfileId>,
    /// What the release declares it will land.
    pub declared: Declared,
}

/// What a release declares it will land, counted.
#[derive(Debug, Clone, Copy, PartialEq, Eq, Structural)]
pub struct Declared {
    /// The payload schema the release is written in.
    pub payload_schema: u32,
    /// How many files the canon keeps owning.
    pub managed: usize,
    /// How many files the project owns once seeded.
    pub adopted: usize,
    /// How many sentinels the release asks specs to carry.
    pub sentinels: usize,
}

/// Where the release came from, and what was checked about it.
#[derive(Debug, Clone, PartialEq, Eq)]
pub struct ReleaseSource {
    /// The release.
    pub version: String,
    /// Where its bytes came from.
    pub provenance: String,
    /// The registry's own checksum, where a registry was read.
    pub registry_checksum: Option<Sha256>,
    /// Whether the registry has withdrawn it.
    pub yanked: bool,
    /// What the plan cited.
    pub evidence_refs: Vec<String>,
}

/// What proves the apply complete.
#[derive(Debug, Clone, PartialEq, Eq)]
pub struct Postcondition {
    /// A stable identifier.
    pub id: String,
    /// One sentence a person reads.
    pub statement: String,
}


/// What the plan found at the target.
#[derive(Debug)]
pub struct ObservedState {
    /// The repository itself.
    pub repository: Repository,
    /// What is installed there, where anything is.
    pub installation: Option<Installation>,
    /// The host this command ran on.
    pub host: Host,
    /// What the corpus looks like.
    pub corpus: Corpus,
    /// What each of the above rests on.
    pub evidence_refs: Vec<String>,
}

/// One plan: what the target is, what it shows, what the operator decides,
/// what the apply would write, and whether it may.
#[derive(Debug)]
pub struct Plan {
    /// Which plan this is.
    pub identity: Identity,
    /// What the target is.
    pub classification: Classification,
    /// What the corpus shows.
    pub findings: Vec<Finding>,
    /// Documents written before the instance, named and never judged.
    pub style_candidates: Vec<StyleCandidate>,
    /// What the plan is aiming at.
    pub desired_state: DesiredState,
    /// What the plan found.
    pub observed_state: ObservedState,
    /// Where the release came from.
    pub release: ReleaseSource,
    /// Every write the apply will make, in apply order.
    pub operations: Vec<Operation>,
    /// Everything that must hold first.
    pub preconditions: Vec<Precondition>,
    /// Everything the operator decides.
    pub decisions: Vec<Decision>,
    /// Everything the apply proves at the end.
    pub postconditions: Vec<Postcondition>,
    /// What was observed, and how.
    pub evidence: Vec<Evidence>,
    /// Whether the plan may be applied.
    pub readiness: Readiness,
    /// The digest over the semantic inputs an approval binds to.
    pub input_fingerprint: Sha256,
}

/// How many findings are of one kind.
pub open spec fn count_of(fs: Seq<Finding>, kind: FindingKind) -> nat
    decreases fs.len(),
{
    if fs.len() == 0 {
        0
    } else {
        count_of(fs.drop_last(), kind) + if fs.last().kind == kind {
            1nat
        } else {
            0nat
        }
    }
}

impl Plan {
    /// Whether an apply may proceed.
    pub fn is_ready(&self) -> (r: bool)
        ensures
            r == (self.readiness is Ready),
    {
        matches!(self.readiness, Readiness::Ready)
    }

    /// Every finding of one kind, in order.
    pub fn findings_of(&self, kind: FindingKind) -> (r: Vec<&Finding>)
        ensures
            r@.len() == count_of(self.findings@, kind),
            forall|i: int| 0 <= i < r@.len() ==> (#[trigger] r@[i]).kind == kind,
    {
        let mut out: Vec<&Finding> = Vec::new();
        let mut i: usize = 0;
        while i < self.findings.len()
            invariant
                i <= self.findings.len(),
                out@.len() == count_of(self.findings@.take(i as int), kind),
                forall|j: int| 0 <= j < out@.len() ==> (#[trigger] out@[j]).kind == kind,
            decreases self.findings.len() - i,
        {
            assert(self.findings@.take(i + 1).drop_last() =~= self.findings@.take(i as int));
            if self.findings[i].kind == kind {
                out.push(&self.findings[i]);
            }
            i += 1;
        }
        assert(self.findings@.take(self.findings.len() as int) =~= self.findings@);
        out
    }

    /// How many structural findings the corpus shows.
    pub fn structural_count(&self) -> (n: usize)
        ensures
            n == count_of(self.findings@, FindingKind::StructuralDebt),
    {
        self.findings_of(FindingKind::StructuralDebt).len()
    }
}

} // verus!
