//! Whether a plan may be applied, and what stands in the way.
//!
//! Readiness is derived, never asserted. Each precondition carries a
//! requirement, each is evaluated against what was observed, and the plan's
//! readiness is the worst of them. A gap is honest and is not permission: a
//! precondition nobody could evaluate blocks where ownership says it must,
//! and never quietly passes.

use vstd::prelude::*;

verus! {

/// How much one precondition weighs.
#[derive(Debug, Clone, Copy, PartialEq, Eq, Structural)]
pub enum Requirement {
    /// Worth reporting and never worth stopping for.
    Advisory,
    /// The operator decides, and the plan waits until they have.
    DecisionRequired,
    /// The apply is unsafe until this holds.
    Required,
}

/// What the observation found.
#[derive(Debug, Clone, PartialEq, Eq)]
pub enum Evaluation {
    /// It holds.
    Satisfied,
    /// Nobody could tell, and why.
    NotObserved {
        /// What stopped the observation.
        reason: String,
    },
    /// It does not hold, and why.
    Unsatisfied {
        /// What was found instead.
        reason: String,
    },
}

impl Evaluation {
    /// Whether this evaluation lets an apply proceed.
    pub fn is_satisfied(&self) -> (r: bool)
        ensures
            r == (*self is Satisfied),
    {
        matches!(self, Evaluation::Satisfied)
    }
}

/// Whether a plan may be applied, from best to worst.
#[derive(Debug, Clone, Copy, PartialEq, Eq, PartialOrd, Ord, Hash, Structural)]
pub enum Readiness {
    /// Every precondition holds. Apply may proceed.
    Ready,
    /// The operator has a decision to make first.
    NeedsDecision,
    /// Something must change in the target or the request first.
    Blocked,
}

/// Where a readiness stands, from best to worst, as the declaration order
/// ranks it.
pub open spec fn rank(r: Readiness) -> int {
    match r {
        Readiness::Ready => 0,
        Readiness::NeedsDecision => 1,
        Readiness::Blocked => 2,
    }
}

/// One thing that must hold before an apply.
#[derive(Debug, Clone, PartialEq, Eq)]
pub struct Precondition {
    /// A stable identifier, so a caller can route on it.
    pub id: String,
    /// One sentence a person reads.
    pub statement: String,
    /// How much it weighs.
    pub requirement: Requirement,
    /// What was found.
    pub evaluation: Evaluation,
    /// The decision that resolves it, where one does.
    pub resolved_by: Option<String>,
    /// What the plan cited to evaluate it.
    pub evidence_refs: Vec<String>,
}

/// What one precondition alone permits: anything unsatisfied weighs what
/// its requirement says, whether it was found false or could not be read.
pub open spec fn verdict_of(p: Precondition) -> Readiness {
    if p.evaluation is Satisfied {
        Readiness::Ready
    } else {
        match p.requirement {
            Requirement::Advisory => Readiness::Ready,
            Requirement::DecisionRequired => Readiness::NeedsDecision,
            Requirement::Required => Readiness::Blocked,
        }
    }
}

impl Precondition {
    /// What this one precondition alone permits.
    pub fn verdict(&self) -> (r: Readiness)
        ensures
            r == verdict_of(*self),
    {
        if self.evaluation.is_satisfied() {
            return Readiness::Ready;
        }
        match self.requirement {
            Requirement::Advisory => Readiness::Ready,
            Requirement::DecisionRequired => Readiness::NeedsDecision,
            Requirement::Required => Readiness::Blocked,
        }
    }
}

/// The worse of two readinesses.
pub open spec fn worse(a: Readiness, b: Readiness) -> Readiness {
    if rank(a) >= rank(b) {
        a
    } else {
        b
    }
}

/// The worst verdict among the preconditions, `Ready` where there are none.
pub open spec fn readiness_of(s: Seq<Precondition>) -> Readiness
    decreases s.len(),
{
    if s.len() == 0 {
        Readiness::Ready
    } else {
        worse(readiness_of(s.drop_last()), verdict_of(s.last()))
    }
}

/// The worst verdict is no better than any verdict, and is one of them
/// where there is one.
pub proof fn lemma_readiness_is_worst(s: Seq<Precondition>)
    ensures
        forall|i: int| 0 <= i < s.len() ==> rank(#[trigger] verdict_of(s[i])) <= rank(
            readiness_of(s),
        ),
        s.len() == 0 ==> readiness_of(s) == Readiness::Ready,
        s.len() > 0 ==> exists|i: int| 0 <= i < s.len() && #[trigger] verdict_of(s[i]) == readiness_of(s),
        readiness_of(s) == Readiness::Ready || exists|i: int| 0 <= i < s.len() && #[trigger] verdict_of(s[i]) == readiness_of(s),
    decreases s.len(),
{
    if s.len() > 0 {
        let rest = s.drop_last();
        lemma_readiness_is_worst(rest);
        assert forall|i: int| 0 <= i < s.len() implies rank(#[trigger] verdict_of(s[i])) <= rank(
            readiness_of(s),
        ) by {
            if i < s.len() - 1 {
                assert(rest[i] == s[i]);
            }
        }
        if rank(readiness_of(rest)) >= rank(verdict_of(s.last())) {
            if rest.len() == 0 {
                assert(verdict_of(s[s.len() - 1]) == readiness_of(s));
            } else {
                let i = choose|i: int| 0 <= i < rest.len() && #[trigger] verdict_of(rest[i]) == readiness_of(rest);
                assert(s[i] == rest[i]);
            }
        } else {
            assert(verdict_of(s[s.len() - 1]) == readiness_of(s));
        }
    }
}

/// The worst verdict among the preconditions.
///
/// Worst rather than first, so the order the planner happens to append in
/// cannot decide whether a plan may run.
pub fn readiness(preconditions: &[Precondition]) -> (r: Readiness)
    ensures
        r == readiness_of(preconditions@),
{
    let mut worst = Readiness::Ready;
    let mut i: usize = 0;
    while i < preconditions.len()
        invariant
            i <= preconditions.len(),
            worst == readiness_of(preconditions@.take(i as int)),
        decreases preconditions.len() - i,
    {
        let v = preconditions[i].verdict();
        proof {
            let t = preconditions@.take(i + 1);
            assert(t.drop_last() =~= preconditions@.take(i as int));
        }
        worst = match (worst, v) {
            (Readiness::Blocked, _) => Readiness::Blocked,
            (_, Readiness::Blocked) => Readiness::Blocked,
            (Readiness::NeedsDecision, _) => Readiness::NeedsDecision,
            (_, Readiness::NeedsDecision) => Readiness::NeedsDecision,
            _ => Readiness::Ready,
        };
        i += 1;
    }
    assert(preconditions@.take(i as int) =~= preconditions@);
    worst
}

/// Readiness does not depend on the order the preconditions come in: any
/// rearrangement of the same preconditions has the same readiness.
pub proof fn law_readiness_ignores_order(a: Seq<Precondition>, b: Seq<Precondition>)
    requires
        a.to_multiset() == b.to_multiset(),
    ensures
        readiness_of(a) == readiness_of(b),
{
    broadcast use vstd::multiset::group_multiset_axioms;
    broadcast use vstd::seq_lib::group_to_multiset_ensures;

    lemma_readiness_is_worst(a);
    lemma_readiness_is_worst(b);
    if readiness_of(a) != Readiness::Ready {
        let i = choose|i: int| 0 <= i < a.len() && #[trigger] verdict_of(a[i]) == readiness_of(a);
        assert(a.to_multiset().count(a[i]) > 0);
        assert(b.contains(a[i]));
        let j = choose|j: int| 0 <= j < b.len() && b[j] == a[i];
        assert(rank(verdict_of(b[j])) <= rank(readiness_of(b)));
    }
    if readiness_of(b) != Readiness::Ready {
        let j = choose|j: int| 0 <= j < b.len() && #[trigger] verdict_of(b[j]) == readiness_of(b);
        assert(b.to_multiset().count(b[j]) > 0);
        assert(a.contains(b[j]));
        let i = choose|i: int| 0 <= i < a.len() && a[i] == b[j];
        assert(rank(verdict_of(a[i])) <= rank(readiness_of(a)));
    }
}

/// One precondition that blocks blocks the plan, wherever it stands; and a
/// plan with no preconditions is ready.
pub proof fn law_one_block_blocks(s: Seq<Precondition>, i: int)
    requires
        0 <= i < s.len(),
        verdict_of(s[i]) == Readiness::Blocked,
    ensures
        readiness_of(s) == Readiness::Blocked,
        readiness_of(Seq::<Precondition>::empty()) == Readiness::Ready,
{
    lemma_readiness_is_worst(s);
}

} // verus!
