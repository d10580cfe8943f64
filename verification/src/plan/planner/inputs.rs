//! What the planner is given, and the two facts it settles first: the
//! profile the plan lands and what the target is.

use vstd::prelude::*;

use crate::digest::Sha256;
use crate::landing::observe::{drifted_spec, Installation, Observation};
use crate::plan::classify::{classification_of, classify, Classification, Signals};
use crate::plan::decision::{id, Selections};
use crate::plan::operation::Operation;
use crate::plan::Declared;
use crate::profile::ProfileId;
use crate::sorted_map::TextMap;
use crate::text::same_text;

verus! {

/// One file a release projects: where it sits in the release, and where it
/// lands in a target.
#[derive(Debug, Clone)]
pub struct Projection {
    /// The path in the release.
    pub source: String,
    /// The path in the target.
    pub destination: String,
}

/// What a release's declaration says for the profile a plan lands: the
/// documentation root that profile keeps its records under, and each
/// projection, an adopted one's destination resolved against that root.
#[derive(Debug, Clone)]
pub struct Landing {
    /// The documentation root.
    pub docs_root: String,
    /// The files the canon keeps owning, in declaration order.
    pub managed: Vec<Projection>,
    /// The files the project owns once seeded, in declaration order.
    pub adopted: Vec<Projection>,
}

/// What the planner is given besides the observation.
#[derive(Debug)]
pub struct Inputs {
    /// What was observed at the target.
    pub observation: Observation,
    /// What the destination release declares it lands, counted.
    pub declared: Declared,
    /// What the declaration says for the profile the plan lands, where a
    /// profile is settled and the declaration names its root.
    pub landing: Option<Landing>,
    /// Each destination's bytes in the destination release, by source path.
    pub candidate: TextMap<Sha256>,
    /// Each destination's bytes in the recorded release, where it could be
    /// read. Absent means the baseline was not observed.
    pub baseline: Option<TextMap<Sha256>>,
    /// What the caller asked for, before resolution.
    pub selector: String,
    /// The release the selector resolved to.
    pub release: String,
    /// The digest over that release's content.
    pub release_sha256: Sha256,
    /// Where the release's facts came from.
    pub provenance: String,
    /// The registry checksum, where a registry served it.
    pub registry_checksum: Option<Sha256>,
    /// Whether the registry marks the release yanked.
    pub yanked: bool,
    /// What one landing would write, where the caller computed it.
    ///
    /// The installer owns that computation, so the planner takes its
    /// answer rather than deriving a second one that could disagree.
    pub proposed: Option<Vec<Operation>>,
    /// What the operator selected.
    pub selections: Selections,
    /// The clock, as an input.
    pub now: String,
    /// The engine making the plan.
    pub engine_version: String,
}

/// The answer the operator selected for a decision, where there is one.
pub open spec fn selected_in(m: Map<Seq<char>, Seq<char>>, key: Seq<char>) -> Option<Seq<char>> {
    if m.dom().contains(key) {
        Some(m[key])
    } else {
        None
    }
}

/// The profile a plan lands: the recorded one, or the one the operator
/// selected by its word.
pub open spec fn profile_chosen(installation: Option<Installation>, m: Map<Seq<char>, Seq<char>>) -> Option<
    ProfileId,
> {
    match installation {
        Some(i) => Some(i.profile),
        None => match selected_in(m, id::PROFILE@) {
            Some(w) => if w == "codebase"@ {
                Some(ProfileId::Codebase)
            } else if w == "knowledge-base"@ {
                Some(ProfileId::KnowledgeBase)
            } else {
                None
            },
            None => None,
        },
    }
}

/// The profile this plan lands, where one is settled.
pub fn chosen_profile(installation: &Option<Installation>, selections: &Selections) -> (r: Option<
    ProfileId,
>)
    ensures
        r == profile_chosen(*installation, selections@),
{
    if let Some(installed) = installation {
        return Some(installed.profile);
    }
    match selections.get(id::PROFILE) {
        Some(word) => {
            if same_text(word, "codebase") {
                Some(ProfileId::Codebase)
            } else if same_text(word, "knowledge-base") {
                Some(ProfileId::KnowledgeBase)
            } else {
                None
            }
        },
        None => None,
    }
}

/// The signals an observation gives toward a release.
pub open spec fn signals_of(o: Observation, release: Seq<char>) -> Signals {
    Signals {
        invalid: o.invalid is Some,
        installed: o.installation is Some,
        at_destination: o.installation matches Some(i) && i.canon_version.text() == release,
        drifted: o.installation matches Some(i) && drifted_spec(i),
        settled: o.corpus.documents@.len() > 0,
    }
}

/// What the target is, read from what was observed.
pub fn classification_for(observation: &Observation, release: &str) -> (c: Classification)
    ensures
        c == classification_of(signals_of(*observation, release@)),
{
    let (at_destination, drifted) = match &observation.installation {
        Some(installed) => {
            let spelled = installed.canon_version.to_text();
            (same_text(spelled.as_str(), release), installed.drifted())
        },
        None => (false, false),
    };
    classify(
        Signals {
            invalid: observation.invalid.is_some(),
            installed: observation.installation.is_some(),
            at_destination,
            drifted,
            settled: observation.corpus.settled(),
        },
    )
}

} // verus!
