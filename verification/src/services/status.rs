//! An instance's state as one typed record a machine can branch on.
//!
//! A missing instance is an answer rather than an error: the command layer
//! reads the record, and where none exists asks for the absent report.
//! A record that exists but cannot be trusted never reaches here.

use vstd::prelude::*;

use crate::profile::ProfileId;
use crate::services::instance_check::VerifyReport;
use crate::version::{version_lt, CanonVersion};

verus! {

/// How an instance's canon version relates to this tool's.
#[derive(Debug, Clone, Copy, PartialEq, Eq, Structural)]
pub enum Alignment {
    /// The versions are equal.
    Aligned,
    /// This tool is newer; an upgrade moves the instance.
    BinaryNewer,
    /// The instance is newer; a newer tool is required.
    InstanceNewer,
}

/// How an instance's version relates to this tool's.
pub open spec fn alignment_of(instance: CanonVersion, binary: CanonVersion) -> Alignment {
    if version_lt(instance, binary) {
        Alignment::BinaryNewer
    } else if version_lt(binary, instance) {
        Alignment::InstanceNewer
    } else {
        Alignment::Aligned
    }
}

/// How an instance's version relates to this tool's.
pub fn alignment(instance: &CanonVersion, binary: &CanonVersion) -> (a: Alignment)
    ensures
        a == alignment_of(*instance, *binary),
{
    if instance.precedes(binary) {
        Alignment::BinaryNewer
    } else if binary.precedes(instance) {
        Alignment::InstanceNewer
    } else {
        Alignment::Aligned
    }
}

/// One instance's state.
#[derive(Debug)]
pub struct StatusReport {
    /// Whether the target carries an instance.
    pub instance: bool,
    /// The installed profile.
    pub profile: Option<ProfileId>,
    /// The instance's documentation root.
    pub docs_root: Option<String>,
    /// The canon version that produced the instance.
    pub canon_version: Option<CanonVersion>,
    /// The version this tool carries.
    pub binary_version: CanonVersion,
    /// How the two versions relate.
    pub alignment: Option<Alignment>,
    /// Managed files missing, linked, or byte-drifted.
    pub managed_drift: usize,
    /// Adopted files awaiting reconciliation.
    pub adopted_drift: usize,
    /// Verification failures in total.
    pub failures: usize,
    /// Whether verification passes.
    pub ok: Option<bool>,
}

/// What the record names, and what verifying the instance reported.
#[derive(Debug)]
pub struct Present {
    /// The installed profile.
    pub profile: ProfileId,
    /// The instance's documentation root.
    pub docs_root: String,
    /// The canon version the record names.
    pub canon_version: CanonVersion,
    /// The verification of the instance.
    pub report: VerifyReport,
}

/// The report for a target with no instance.
pub fn absent(binary: CanonVersion) -> (r: StatusReport)
    ensures
        !r.instance,
        r.profile is None,
        r.docs_root is None,
        r.canon_version is None,
        r.binary_version == binary,
        r.alignment is None,
        r.managed_drift == 0,
        r.adopted_drift == 0,
        r.failures == 0,
        r.ok is None,
{
    StatusReport {
        instance: false,
        profile: None,
        docs_root: None,
        canon_version: None,
        binary_version: binary,
        alignment: None,
        managed_drift: 0,
        adopted_drift: 0,
        failures: 0,
        ok: None,
    }
}

/// Report a target's instance state: absent where no record exists, and
/// otherwise what the record names beside what verifying it found.
pub fn status(found: Option<Present>, binary: CanonVersion) -> (r: StatusReport)
    ensures
        match found {
            None => !r.instance && r.profile is None && r.docs_root is None && r.canon_version is None
                && r.alignment is None && r.managed_drift == 0 && r.adopted_drift == 0 && r.failures == 0
                && r.ok is None,
            Some(p) => r.instance && r.profile == Some(p.profile) && (r.docs_root matches Some(d)
                && d@ == p.docs_root@) && r.canon_version == Some(p.canon_version) && r.alignment
                == Some(alignment_of(p.canon_version, binary)) && r.managed_drift == p.report.managed_drift
                && r.adopted_drift == p.report.adopted_drift && r.failures == p.report.failures && r.ok
                == Some(p.report.failures == 0),
        },
        r.binary_version == binary,
{
    match found {
        None => absent(binary),
        Some(p) => {
            let a = alignment(&p.canon_version, &binary);
            StatusReport {
                instance: true,
                profile: Some(p.profile),
                docs_root: Some(p.docs_root),
                canon_version: Some(p.canon_version),
                binary_version: binary,
                alignment: Some(a),
                managed_drift: p.report.managed_drift,
                adopted_drift: p.report.adopted_drift,
                failures: p.report.failures,
                ok: Some(p.report.failures == 0),
            }
        },
    }
}

/// An instance is aligned with this tool exactly when they are the same
/// release; the tool is newer exactly when the instance comes before it
/// by the whole triple, a patch included, and older the other way round.
pub proof fn law_alignment_reads_the_whole_triple(instance: CanonVersion, binary: CanonVersion)
    ensures
        alignment_of(instance, binary) == Alignment::Aligned <==> instance == binary,
        alignment_of(instance, binary) == Alignment::BinaryNewer <==> crate::plan::compatibility::triple_before(
            instance,
            binary,
        ),
        alignment_of(instance, binary) == Alignment::InstanceNewer <==> crate::plan::compatibility::triple_before(
            binary,
            instance,
        ),
{
}

} // verus!
