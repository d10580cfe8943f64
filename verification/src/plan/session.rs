//! What one planning session settles before the planner runs.
//!
//! Reading the target, the bundle and the clock is the command layer's
//! work. What is decided from what they gave is decided here: which of a
//! bundle's files a target may receive, whether the recorded release is
//! the destination and so serves as the baseline, whether the landing is
//! answered well enough to derive, what the destination needs of this
//! engine, and the interval it is checked against.

use vstd::prelude::*;

use crate::digest::Sha256;
use crate::landing::observe::Installation;
use crate::plan::compatibility::{
    compatibility_read, Compatibility, CompatibilityFault, Interval, DECLARATION_PATH, SCHEMA,
};
use crate::plan::decision::{id, Selections};
use crate::profile::ProfileId;
use crate::release::{Artifact, Role};
use crate::sorted_map::TextMap;
use crate::text::{append, decimal, owned, push_decimal, same_text};
use crate::version::CanonVersion;

verus! {

/// The files of a bundle a target may receive, each path with its digest;
/// a later artifact under a path replaces an earlier one.
pub open spec fn candidate_of(artifacts: Seq<Artifact>) -> Map<Seq<char>, Seq<char>>
    decreases artifacts.len(),
{
    if artifacts.len() == 0 {
        Map::empty()
    } else {
        let before = candidate_of(artifacts.drop_last());
        let a = artifacts.last();
        if a.role == Role::Payload {
            before.insert(a.path@, a.sha256@)
        } else {
            before
        }
    }
}

/// The files of a bundle a target may receive, by path.
pub fn payload_candidate(artifacts: &[Artifact]) -> (r: TextMap<Sha256>)
    ensures
        r@ == candidate_of(artifacts@),
{
    let mut out: TextMap<Sha256> = TextMap::new();
    let mut i: usize = 0;
    assert(artifacts@.take(0) =~= Seq::<Artifact>::empty());
    while i < artifacts.len()
        invariant
            i <= artifacts.len(),
            out@ == candidate_of(artifacts@.take(i as int)),
        decreases artifacts.len() - i,
    {
        assert(artifacts@.take(i + 1).drop_last() =~= artifacts@.take(i as int));
        assert(artifacts@.take(i + 1).last() == artifacts@[i as int]);
        let a = &artifacts[i];
        if matches!(a.role, Role::Payload) {
            out.insert(a.path.as_str(), a.sha256.copied());
        }
        i += 1;
    }
    assert(artifacts@.take(artifacts.len() as int) =~= artifacts@);
    out
}

/// Whether the target records the release the plan converges toward, so
/// that the destination's files are the baseline.
pub open spec fn records_destination(installation: Option<Installation>, release: Seq<char>) -> bool {
    installation matches Some(i) && i.canon_version.text() == release
}

/// Whether the target records the release the plan converges toward.
pub fn recorded_is_destination(installation: &Option<Installation>, release: &str) -> (r: bool)
    ensures
        r == records_destination(*installation, release@),
{
    match installation {
        Some(i) => {
            let spelled = i.canon_version.to_text();
            same_text(spelled.as_str(), release)
        },
        None => false,
    }
}

/// The baseline a plan compares against: the candidate itself where the
/// target records the destination, and nothing observed otherwise, since
/// this engine does not fetch another release to read its files.
pub fn baseline_for(installation: &Option<Installation>, release: &str, candidate: &TextMap<Sha256>) -> (r: Option<
    TextMap<Sha256>,
>)
    ensures
        match r {
            Some(b) => records_destination(*installation, release@) && b@ == candidate@,
            None => !records_destination(*installation, release@),
        },
{
    if !recorded_is_destination(installation, release) {
        return None;
    }
    let entries = candidate.entries();
    let mut copy: TextMap<Sha256> = TextMap::new();
    let mut i: usize = 0;
    proof {
        crate::sorted_map::lemma_entries_map_prefix(entries@, 0);
    }
    while i < entries.len()
        invariant
            i <= entries.len(),
            crate::sorted_map::sorted_keys(entries@),
            crate::sorted_map::entries_map(entries@) == candidate@,
            copy@ == crate::sorted_map::entries_map(entries@.take(i as int)),
        decreases entries.len() - i,
    {
        copy.insert(entries[i].0.as_str(), entries[i].1.copied());
        proof {
            crate::sorted_map::lemma_entries_map_prefix(entries@, i as int + 1);
        }
        i += 1;
    }
    assert(entries@.take(entries.len() as int) =~= entries@);
    Some(copy)
}

/// Whether the questions a landing records are answered: the front handed
/// over its declarations, the target already records an installation, or
/// the operator answered the plan zone, the scratch directory and the
/// writing style.
pub open spec fn landing_answered(declared: bool, installed: bool, m: Map<Seq<char>, Seq<char>>) -> bool {
    declared || installed || (m.dom().contains(id::PLAN_ZONE@) && m.dom().contains(id::DOCS_SCRATCH@)
        && m.dom().contains(id::WRITING_STYLE@))
}

/// Whether the questions a landing records are answered.
pub fn answered(declared: bool, installed: bool, selections: &Selections) -> (r: bool)
    ensures
        r == landing_answered(declared, installed, selections@),
{
    declared || installed || (selections.contains_key(id::PLAN_ZONE) && selections.contains_key(
        id::DOCS_SCRATCH,
    ) && selections.contains_key(id::WRITING_STYLE))
}

/// Whether the plan derives what a landing would write: a profile is
/// settled, the landing's questions are answered, and the target's
/// metadata can be trusted.
pub fn derives_landing(profile: Option<ProfileId>, answered: bool, invalid: &Option<String>) -> (r: bool)
    ensures
        r == (profile is Some && answered && invalid is None),
{
    profile.is_some() && answered && invalid.is_none()
}

/// The refusal for a compatibility declaration, as a person reads it.
pub open spec fn fault_text(f: CompatibilityFault) -> Seq<char> {
    match f {
        CompatibilityFault::Malformed(why) => DECLARATION_PATH@ + " does not parse: "@ + why,
        CompatibilityFault::UnknownSchema(found) => DECLARATION_PATH@ + " declares schema "@ + found
            + ", and this engine reads "@ + SCHEMA@,
    }
}

/// The refusal for a bundle that owes a compatibility declaration and
/// carries none.
pub open spec fn missing_declaration(release: Seq<char>, payload_schema: u32) -> Seq<char> {
    "release "@ + release + " declares payload schema "@ + decimal(payload_schema as nat) + " and carries no "@
        + DECLARATION_PATH@
}

/// What the destination needs of this engine, from the declaration the
/// bundle carries, where it carries one. A bundle of payload schema zero
/// owes none; any later schema does, since an absence meaning "no
/// requirement" cannot be told from one meaning somebody forgot.
pub fn compatibility_for(declaration: Option<&[u8]>, payload_schema: u32, release: &str) -> (r: Result<
    Option<Compatibility>,
    String,
>)
    ensures
        match declaration {
            Some(bytes) => match r {
                Ok(Some(c)) => compatibility_read(bytes@) == Ok::<
                    (Seq<char>, Seq<char>, Seq<Seq<char>>),
                    CompatibilityFault,
                >(
                    (
                        c.schema@,
                        c.minimum_engine.text(),
                        c.must_pass_through@.map_values(|v: CanonVersion| v.text()),
                    ),
                ),
                Ok(None) => false,
                Err(m) => compatibility_read(bytes@) matches Err(f) && m@ == fault_text(f),
            },
            None => if payload_schema == 0 {
                r matches Ok(None)
            } else {
                r matches Err(m) && m@ == missing_declaration(release@, payload_schema)
            },
        },
{
    match declaration {
        Some(bytes) => match Compatibility::parse(bytes) {
            Ok(c) => Ok(Some(c)),
            Err(e) => Err(e.message()),
        },
        None => {
            if payload_schema == 0 {
                Ok(None)
            } else {
                let mut m = owned("release ");
                append(&mut m, release);
                append(&mut m, " declares payload schema ");
                push_decimal(&mut m, payload_schema as u64);
                append(&mut m, " and carries no ");
                append(&mut m, DECLARATION_PATH);
                Err(m)
            }
        },
    }
}

/// The interval a compatibility declaration is checked against: from the
/// recorded release, where there is one, to the destination, for this
/// engine; none where the bundle declares nothing. A destination that is
/// not a released triple is refused either way.
pub fn interval_for(declared: bool, engine: CanonVersion, installation: &Option<Installation>, release: &str) -> (r:
    Result<Option<Interval>, String>)
    ensures
        match r {
            Ok(Some(iv)) => declared && iv.engine == engine && iv.destination.text() == release@ && match *installation {
                Some(i) => iv.recorded == Some(i.canon_version),
                None => iv.recorded is None,
            },
            Ok(None) => !declared && exists|v: CanonVersion| #[trigger] v.text() == release@,
            Err(m) => (forall|v: CanonVersion| #[trigger] v.text() != release@) && m@ == release@
                + " is not a released triple"@,
        },
{
    let destination = match CanonVersion::parse(release) {
        Some(v) => v,
        None => {
            let mut m = owned(release);
            append(&mut m, " is not a released triple");
            return Err(m);
        },
    };
    if !declared {
        return Ok(None);
    }
    let recorded = match installation {
        Some(i) => Some(i.canon_version),
        None => None,
    };
    Ok(Some(Interval { engine, recorded, destination }))
}

} // verus!
