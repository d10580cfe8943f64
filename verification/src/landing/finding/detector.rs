//! The structural detectors, by the slug each finding cites.

use vstd::prelude::*;

verus! {

/// A populated documentation root that is not the selected profile's.
pub const FOREIGN_DOCS_ROOT: &'static str = "foreign-documentation-root";

/// A document shaped like a specification that defines no rule ID.
pub const SPEC_WITHOUT_RULE_ID: &'static str = "spec-without-a-rule-id";

/// A document named by its position rather than by its subject.
pub const ORDINAL_FILENAME: &'static str = "ordinal-filename";

/// A decision record outside the decisions directory.
pub const RECORD_OUTSIDE_DECISIONS: &'static str = "record-outside-the-decisions-directory";

/// A settled corpus with no specifications directory.
pub const NO_SPECS_DIRECTORY: &'static str = "no-specifications-directory";

} // verus!
