//! The identifiers the planner offers.

use vstd::prelude::*;

verus! {

/// Which profile a first landing takes.
pub const PROFILE: &'static str = "profile";

/// Where the planning tool writes its entry documents.
pub const PLAN_ZONE: &'static str = "plan-zone";

/// Where material that is not a statement yet is staged.
pub const DOCS_SCRATCH: &'static str = "docs-scratch";

/// Which writing source the project selects.
pub const WRITING_STYLE: &'static str = "writing-style";

/// Whether a migration sweeps the whole corpus.
pub const MIGRATION_SCOPE: &'static str = "migration-scope";

/// Whether the inherited violations are recorded as debt.
pub const DEBT_BASELINE: &'static str = "debt-baseline";

/// Whether an absent sentinel is appended to the project's specs.
pub const RECONCILE_POLICY: &'static str = "reconcile-policy";

/// Whether a yanked release is an acceptable destination.
pub const ACCEPT_YANKED: &'static str = "accept-yanked-release";

} // verus!
