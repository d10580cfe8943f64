//! What a target is, read from the target and never from the request.
//!
//! A front verb says what the operator meant to do. It does not get to say
//! what the target is: `init` cannot turn a settled corpus into a
//! greenfield landing by asking nicely, and `upgrade` cannot turn an
//! absent instance into an upgrade. The classification comes from what was
//! observed, and a front constrains which classifications it will serve.
//!
//! Findings stay orthogonal. A migration with no structural finding and a
//! migration with five are the same classification and different plans.

use vstd::prelude::*;

use crate::text::{append, owned};

verus! {

/// What the planner found the target to be.
#[derive(Debug, Clone, Copy, PartialEq, Eq, Structural)]
pub enum Classification {
    /// No instance and nothing durable written: land one.
    Setup,
    /// No instance and a settled corpus: land one and move the corpus.
    Migration,
    /// An instance older than the destination.
    Upgrade,
    /// An instance at the destination whose files have moved.
    Drift,
    /// An instance at the destination with nothing to do.
    Current,
    /// Metadata that exists and cannot be trusted.
    Invalid,
}

/// The kebab-case word for a classification.
pub open spec fn classification_word(c: Classification) -> Seq<char> {
    match c {
        Classification::Setup => "setup"@,
        Classification::Migration => "migration"@,
        Classification::Upgrade => "upgrade"@,
        Classification::Drift => "drift"@,
        Classification::Current => "current"@,
        Classification::Invalid => "invalid"@,
    }
}

impl Classification {
    /// The kebab-case word, as the JSON spells it.
    pub fn as_str(self) -> (r: &'static str)
        ensures
            r@ == classification_word(self),
    {
        match self {
            Classification::Setup => "setup",
            Classification::Migration => "migration",
            Classification::Upgrade => "upgrade",
            Classification::Drift => "drift",
            Classification::Current => "current",
            Classification::Invalid => "invalid",
        }
    }
}

/// What a front verb is willing to serve.
#[derive(Debug, Clone, Copy, PartialEq, Eq, Structural)]
pub enum Intent {
    /// Whatever the target is.
    Reconcile,
    /// A first landing.
    Init,
    /// A move to a newer release.
    Upgrade,
    /// A classification alone, writing nothing.
    Assess,
}

/// A front verb asked for a target it does not serve.
#[derive(Debug, Clone, PartialEq, Eq)]
pub struct IntentRefused {
    /// The verb the operator ran.
    pub verb: &'static str,
    /// What the target turned out to be.
    pub found: Classification,
    /// What to run instead.
    pub next: &'static str,
}

impl IntentRefused {
    /// The refusal as a person reads it.
    pub fn message(&self) -> (m: String)
        ensures
            m@ == self.verb@ + " does not serve a "@ + classification_word(self.found)
                + " target; run "@ + self.next@,
    {
        let mut m = owned(self.verb);
        append(&mut m, " does not serve a ");
        append(&mut m, self.found.as_str());
        append(&mut m, " target; run ");
        append(&mut m, self.next);
        m
    }
}

/// Whether a front serves a classification. Reconcile and assess serve
/// every target; a landing verb reinstalls over an instance it already
/// owns but does not land beside a settled corpus or over an unreadable
/// record; an upgrade needs an instance.
pub open spec fn serves(intent: Intent, found: Classification) -> bool {
    match intent {
        Intent::Reconcile | Intent::Assess => true,
        Intent::Init => !(found is Migration || found is Invalid),
        Intent::Upgrade => found is Upgrade || found is Drift || found is Current,
    }
}

impl Intent {
    /// Whether this front serves what the target turned out to be.
    ///
    /// A refusal names the verb, the classification, and the next command.
    /// A front that widened its own scope here would be the classification
    /// lying about the target.
    pub fn accepts(self, found: Classification) -> (r: Result<(), IntentRefused>)
        ensures
            r is Ok <==> serves(self, found),
            r matches Err(e) ==> e.found == found && e.next@ == "sdd reconcile plan"@ && (
            self is Init ==> e.verb@ == "sdd init"@) && (self is Upgrade ==> e.verb@
                == "sdd upgrade"@),
    {
        match (self, found) {
            (Intent::Reconcile, _) | (Intent::Assess, _) => Ok(()),
            (
                Intent::Init,
                Classification::Setup,
            )
            | (Intent::Init, Classification::Upgrade)
            | (Intent::Init, Classification::Drift)
            | (Intent::Init, Classification::Current) => Ok(()),
            (Intent::Upgrade, Classification::Upgrade)
            | (Intent::Upgrade, Classification::Drift)
            | (Intent::Upgrade, Classification::Current) => Ok(()),
            (Intent::Init, _) => Err(
                IntentRefused { verb: "sdd init", found, next: "sdd reconcile plan" },
            ),
            (Intent::Upgrade, _) => Err(
                IntentRefused { verb: "sdd upgrade", found, next: "sdd reconcile plan" },
            ),
        }
    }
}

/// What the observation has to say before a classification can be read.
///
/// Five independent answers rather than one enumeration, because the
/// classification is what combines them and a caller that had to pick a
/// combined value would be classifying before the classifier does.
#[derive(Debug, Clone, Copy, PartialEq, Eq, Structural)]
pub struct Signals {
    /// Metadata exists and cannot be trusted.
    pub invalid: bool,
    /// An instance is recorded.
    pub installed: bool,
    /// The recorded release is the destination.
    pub at_destination: bool,
    /// A recorded file has moved.
    pub drifted: bool,
    /// The target documents itself already.
    pub settled: bool,
}

/// The classification the signals call for. Untrustworthy metadata comes
/// first, so a broken instance is never read as an absent one.
pub open spec fn classification_of(s: Signals) -> Classification {
    if s.invalid {
        Classification::Invalid
    } else if !s.installed {
        if s.settled {
            Classification::Migration
        } else {
            Classification::Setup
        }
    } else if !s.at_destination {
        Classification::Upgrade
    } else if s.drifted {
        Classification::Drift
    } else {
        Classification::Current
    }
}

/// Read the classification from what was observed.
pub fn classify(signals: Signals) -> (c: Classification)
    ensures
        c == classification_of(signals),
        signals.invalid ==> c is Invalid,
        c is Setup ==> !signals.invalid && !signals.installed && !signals.settled,
{
    if signals.invalid {
        return Classification::Invalid;
    }
    if !signals.installed {
        if signals.settled {
            return Classification::Migration;
        }
        return Classification::Setup;
    }
    if !signals.at_destination {
        return Classification::Upgrade;
    }
    if signals.drifted {
        return Classification::Drift;
    }
    Classification::Current
}

} // verus!
