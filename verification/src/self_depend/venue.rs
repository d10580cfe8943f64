//! Where a release of this tool is published, and what each manager and
//! venue pair can do.

use vstd::prelude::*;

use crate::self_depend::manager::Manager;

verus! {

/// Where a release of this tool is published.
#[derive(Debug, Clone, Copy, PartialEq, Eq, PartialOrd, Ord, Structural)]
pub enum Venue {
    /// The crate on crates.io, built from source by the consumer.
    Crates,
    /// The flake this repository serves at every tag.
    Flake,
    /// The prebuilt archives attached to a forge release.
    GithubRelease,
}

/// The kebab-case word for a venue.
pub open spec fn venue_word(v: Venue) -> Seq<char> {
    match v {
        Venue::Crates => "crates"@,
        Venue::Flake => "flake"@,
        Venue::GithubRelease => "github-release"@,
    }
}

impl Venue {
    /// Every venue, in the order a manager is offered them.
    pub fn all() -> (r: [Venue; 3])
        ensures
            r@ == seq![Venue::Crates, Venue::Flake, Venue::GithubRelease],
    {
        let r = [Venue::Crates, Venue::Flake, Venue::GithubRelease];
        assert(r@ =~= seq![Venue::Crates, Venue::Flake, Venue::GithubRelease]);
        r
    }

    /// The kebab-case word the command line and the report use.
    pub fn as_str(self) -> (r: &'static str)
        ensures
            r@ == venue_word(self),
    {
        match self {
            Venue::Crates => "crates",
            Venue::Flake => "flake",
            Venue::GithubRelease => "github-release",
        }
    }
}

/// Why a pair is manual, from the closed set.
#[derive(Debug, Clone, Copy, PartialEq, Eq, Structural)]
pub enum Reason {
    /// No package-set attribute is known for that manager.
    AttributeUnknown,
    /// A source hash the tool cannot compute offline is required.
    HashNeeded,
    /// The manager has no backend for that venue.
    NoBackend,
    /// No published plugin installs the tool.
    PluginUnknown,
}

/// The sentence a report prints for a reason.
pub open spec fn reason_sentence(r: Reason) -> Seq<char> {
    match r {
        Reason::AttributeUnknown => "no package-set attribute is known for this manager"@,
        Reason::HashNeeded => "a source hash this tool cannot compute offline is required"@,
        Reason::NoBackend => "the manager has no backend for this venue"@,
        Reason::PluginUnknown => "no published plugin installs this tool"@,
    }
}

impl Reason {
    /// The sentence a report prints.
    pub fn as_str(self) -> (r: &'static str)
        ensures
            r@ == reason_sentence(self),
    {
        match self {
            Reason::AttributeUnknown => "no package-set attribute is known for this manager",
            Reason::HashNeeded => "a source hash this tool cannot compute offline is required",
            Reason::NoBackend => "the manager has no backend for this venue",
            Reason::PluginUnknown => "no published plugin installs this tool",
        }
    }
}

/// What one manager and venue pair can do.
#[derive(Debug, Clone, Copy, PartialEq, Eq, Structural)]
pub enum Verdict {
    /// The tool renders the exact fragment the pair needs.
    Renders,
    /// The operator wires the pair by hand, for the stated reason.
    Manual {
        /// Why the tool renders nothing.
        reason: Reason,
    },
}

/// The one verdict for a pair: four pairs render, and each other pair is
/// manual for the reason its manager and venue give.
pub open spec fn verdict_of(manager: Manager, venue: Venue) -> Verdict {
    match (manager, venue) {
        (Manager::Flake, Venue::Flake) | (Manager::Devbox, Venue::Flake) => Verdict::Renders,
        (Manager::Mise, Venue::Crates) | (Manager::Mise, Venue::GithubRelease) => Verdict::Renders,
        (Manager::Flake, Venue::Crates) | (Manager::Devbox, Venue::Crates) => Verdict::Manual {
            reason: Reason::AttributeUnknown,
        },
        (Manager::Flake, Venue::GithubRelease) | (Manager::Devbox, Venue::GithubRelease) => Verdict::Manual {
            reason: Reason::HashNeeded,
        },
        (Manager::Mise, Venue::Flake) => Verdict::Manual { reason: Reason::NoBackend },
        (Manager::Asdf, _) => Verdict::Manual { reason: Reason::PluginUnknown },
    }
}

/// The one verdict for a pair.
pub fn verdict(manager: Manager, venue: Venue) -> (v: Verdict)
    ensures
        v == verdict_of(manager, venue),
{
    match (manager, venue) {
        (Manager::Flake, Venue::Flake) | (Manager::Devbox, Venue::Flake) => Verdict::Renders,
        (Manager::Mise, Venue::Crates) | (Manager::Mise, Venue::GithubRelease) => Verdict::Renders,
        (Manager::Flake, Venue::Crates) | (Manager::Devbox, Venue::Crates) => Verdict::Manual {
            reason: Reason::AttributeUnknown,
        },
        (Manager::Flake, Venue::GithubRelease) | (Manager::Devbox, Venue::GithubRelease) => Verdict::Manual {
            reason: Reason::HashNeeded,
        },
        (Manager::Mise, Venue::Flake) => Verdict::Manual { reason: Reason::NoBackend },
        (Manager::Asdf, _) => Verdict::Manual { reason: Reason::PluginUnknown },
    }
}

/// The first venue, in venue order, for which a manager renders.
pub open spec fn default_venue_of(manager: Manager) -> Option<Venue> {
    if verdict_of(manager, Venue::Crates) is Renders {
        Some(Venue::Crates)
    } else if verdict_of(manager, Venue::Flake) is Renders {
        Some(Venue::Flake)
    } else if verdict_of(manager, Venue::GithubRelease) is Renders {
        Some(Venue::GithubRelease)
    } else {
        None
    }
}

/// The first venue a manager renders a fragment for, in venue order.
pub fn default_venue(manager: Manager) -> (r: Option<Venue>)
    ensures
        r == default_venue_of(manager),
{
    let venues = Venue::all();
    let mut i: usize = 0;
    while i < 3
        invariant
            i <= 3,
            venues@ == seq![Venue::Crates, Venue::Flake, Venue::GithubRelease],
            forall|j: int| 0 <= j < i ==> !(verdict_of(manager, #[trigger] venues@[j]) is Renders),
        decreases 3 - i,
    {
        if matches!(verdict(manager, venues[i]), Verdict::Renders) {
            return Some(venues[i]);
        }
        i += 1;
    }
    None
}

/// One row of the matrix, as the report prints it.
#[derive(Debug, Clone, Copy, PartialEq, Eq)]
pub struct Pair {
    /// The manager.
    pub manager: Manager,
    /// The venue.
    pub venue: Venue,
    /// What the pair can do.
    pub verdict: Verdict,
}

/// Every pair with its verdict, in manager then venue order.
pub fn matrix() -> (rows: Vec<Pair>)
    ensures
        rows@.len() == 12,
        forall|m: int, v: int|
            0 <= m < 4 && 0 <= v < 3 ==> {
                let row = #[trigger] rows@[3 * m + v];
                &&& row.manager == seq![Manager::Flake, Manager::Mise, Manager::Asdf, Manager::Devbox][m]
                &&& row.venue == seq![Venue::Crates, Venue::Flake, Venue::GithubRelease][v]
                &&& row.verdict == verdict_of(row.manager, row.venue)
            },
{
    let managers = Manager::all();
    let venues = Venue::all();
    let mut rows: Vec<Pair> = Vec::new();
    let mut m: usize = 0;
    while m < 4
        invariant
            m <= 4,
            managers@ == seq![Manager::Flake, Manager::Mise, Manager::Asdf, Manager::Devbox],
            venues@ == seq![Venue::Crates, Venue::Flake, Venue::GithubRelease],
            rows@.len() == 3 * m,
            forall|a: int, b: int|
                0 <= a < m && 0 <= b < 3 ==> {
                    let row = #[trigger] rows@[3 * a + b];
                    &&& row.manager == managers@[a]
                    &&& row.venue == venues@[b]
                    &&& row.verdict == verdict_of(row.manager, row.venue)
                },
        decreases 4 - m,
    {
        let mut v: usize = 0;
        while v < 3
            invariant
                m < 4,
                v <= 3,
                managers@ == seq![Manager::Flake, Manager::Mise, Manager::Asdf, Manager::Devbox],
                venues@ == seq![Venue::Crates, Venue::Flake, Venue::GithubRelease],
                rows@.len() == 3 * m + v,
                forall|a: int, b: int|
                    0 <= a < m && 0 <= b < 3 ==> {
                        let row = #[trigger] rows@[3 * a + b];
                        &&& row.manager == managers@[a]
                        &&& row.venue == venues@[b]
                        &&& row.verdict == verdict_of(row.manager, row.venue)
                    },
                forall|b: int|
                    0 <= b < v ==> {
                        let row = #[trigger] rows@[3 * m + b];
                        &&& row.manager == managers@[m as int]
                        &&& row.venue == venues@[b]
                        &&& row.verdict == verdict_of(row.manager, row.venue)
                    },
            decreases 3 - v,
        {
            let manager = managers[m];
            let venue = venues[v];
            rows.push(Pair { manager, venue, verdict: verdict(manager, venue) });
            v += 1;
        }
        m += 1;
    }
    rows
}

} // verus!
