//! What an apply leaves behind: how it ended and what each part did.
//!
//! The store itself lives on disk and is driven by the command layer; what
//! it records is the data here, and the one rule the store applies to it:
//! a terminal disposition ends the plan's life.

use vstd::prelude::*;

use crate::digest::Sha256;
use crate::landing::observe::{Host, Repository};
use crate::plan::{ObservedState, Plan};
use crate::text::{chars_of, owned, push_char};

verus! {

/// The machine schema a result declares.
pub const RESULT_SCHEMA: &'static str = "sdd.result/1";

/// How long an unapplied plan waits before it expires.
pub const PLAN_TTL_DAYS: i64 = 7;

/// How long a terminal result is kept.
pub const RESULT_TTL_DAYS: i64 = 30;

/// How one apply ended.
#[derive(Debug, Clone, Copy, PartialEq, Eq, Structural)]
pub enum Disposition {
    /// Every operation landed and every postcondition held.
    Succeeded,
    /// The world moved, so the plan no longer describes it. Terminal.
    Invalidated,
    /// Nothing semantic moved, so the same plan can be applied again.
    Retryable,
    /// A run did not finish, and the next one must recover it first.
    RecoveryRequired,
}

impl Disposition {
    /// Whether this disposition ends the plan's life.
    pub fn is_terminal(self) -> (r: bool)
        ensures
            r == (self is Succeeded || self is Invalidated),
    {
        matches!(self, Disposition::Succeeded | Disposition::Invalidated)
    }
}

/// What one operation did.
#[derive(Debug, Clone, PartialEq, Eq)]
pub struct OperationOutcome {
    /// Which operation, by its kind.
    pub kind: String,
    /// Where, relative to the target.
    pub path: String,
    /// Whether it landed.
    pub applied: bool,
    /// What went wrong, where anything did.
    pub refusal: Option<String>,
}

/// What one postcondition found.
#[derive(Debug, Clone, PartialEq, Eq)]
pub struct PostconditionOutcome {
    /// Which postcondition.
    pub id: String,
    /// Whether it held.
    pub held: bool,
    /// What was found instead, where it did not.
    pub detail: Option<String>,
}

/// What one apply did.
#[derive(Debug, Clone, PartialEq, Eq)]
pub struct Result {
    /// The machine schema of this object.
    pub schema: String,
    /// The plan this result is for.
    pub plan_id: String,
    /// The fingerprint that plan carried.
    pub fingerprint: Sha256,
    /// A stable identifier for this attempt.
    pub result_id: String,
    /// How it ended.
    pub disposition: Disposition,
    /// When it ended.
    pub finished_at: String,
    /// What each operation did.
    pub operations: Vec<OperationOutcome>,
    /// What each postcondition found.
    pub postconditions: Vec<PostconditionOutcome>,
    /// Whether a journal is outstanding.
    pub recovery_required: bool,
    /// Every path this attempt touched, relative to the target.
    pub affected: Vec<String>,
    /// Why it ended as it did, in one sentence.
    pub reason: String,
}

/// Whether a character may stand in a directory name as it is.
pub open spec fn slug_keeps(c: char) -> bool {
    ('a' <= c && c <= 'z') || ('A' <= c && c <= 'Z') || ('0' <= c && c <= '9') || c == '-'
}

/// One attempt's directory name: every character a directory name may not
/// carry becomes `-`, and nothing at all becomes `attempt`.
pub open spec fn attempt_slug_of(value: Seq<char>) -> Seq<char> {
    if value.len() == 0 {
        "attempt"@
    } else {
        value.map_values(|c: char| if slug_keeps(c) { c } else { '-' })
    }
}

/// One attempt's directory name, as a name and never as a path.
///
/// The attempt id is built from the caller's clock, so it is not a digest
/// and cannot be checked as one. It is reduced to the characters a
/// directory name may carry, which is what keeps a separator out of the
/// join.
pub fn attempt_slug(value: &str) -> (r: String)
    ensures
        r@ == attempt_slug_of(value@),
{
    let v = chars_of(value);
    if v.len() == 0 {
        return crate::text::owned("attempt");
    }
    let mut out = String::new();
    let mut i: usize = 0;
    while i < v.len()
        invariant
            i <= v.len(),
            v@ == value@,
            out@ == v@.take(i as int).map_values(|c: char| if slug_keeps(c) { c } else { '-' }),
        decreases v.len() - i,
    {
        let c = v[i];
        let kept = ('a' <= c && c <= 'z') || ('A' <= c && c <= 'Z') || ('0' <= c && c <= '9') || c
            == '-';
        if kept {
            push_char(&mut out, c);
        } else {
            push_char(&mut out, '-');
        }
        assert(v@.take(i + 1).map_values(|c: char| if slug_keeps(c) { c } else { '-' }) =~= v@.take(
            i as int,
        ).map_values(|c: char| if slug_keeps(c) { c } else { '-' }).push(
            if slug_keeps(c) {
                c
            } else {
                '-'
            },
        ));
        i += 1;
    }
    assert(v@.take(i as int) =~= v@);
    out
}

/// The plan as a result keeps it: no absolute target path and no cache
/// root, since a result outlives the run and a run's paths name a
/// person's filesystem; everything else as it was planned.
pub fn redact(plan: Plan) -> (r: Plan)
    ensures
        r.observed_state.repository.root@ == "<target>"@,
        r.observed_state.host.cache_root is None,
        r == (Plan {
            observed_state: ObservedState {
                repository: Repository { root: r.observed_state.repository.root, ..plan.observed_state.repository },
                host: Host { cache_root: None, ..plan.observed_state.host },
                ..plan.observed_state
            },
            ..plan
        }),
{
    let mut held = plan;
    held.observed_state.repository.root = owned("<target>");
    held.observed_state.host.cache_root = None;
    held
}

} // verus!
