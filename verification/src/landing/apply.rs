//! What a landing vouches for once it has written.

use vstd::prelude::*;

use crate::digest::Sha256;
use crate::plan::operation::{components_of, path_components, PartModel, PathPart};
use crate::text::{append, join_texts, joined, owned, same_text, views_of};

verus! {

/// What the record vouches for: which managed files the canon wrote and
/// which marked regions may be re-spliced, and which files a release that
/// stopped landing them may take back.
#[derive(Debug, Clone)]
pub struct Recorded {
    /// Each managed destination and the digest the record vouches for.
    pub managed: Vec<(String, Sha256)>,
    /// Each integration host and the hash of the region this tool owns.
    pub integration: Vec<(String, Sha256)>,
}

impl Default for Recorded {
    fn default() -> (r: Recorded)
        ensures
            r.managed@.len() == 0,
            r.integration@.len() == 0,
    {
        Recorded { managed: Vec::new(), integration: Vec::new() }
    }
}

/// What one landing did.
#[derive(Debug)]
pub struct Outcome {
    /// Every destination this run wrote, in the order it wrote them.
    pub written: Vec<String>,
    /// Every managed destination this release no longer owns, taken back.
    pub removed: Vec<String>,
}

/// The refusal a run that stopped partway carries: the cause, then what
/// it finished, so the operator knows what the next run reconciles.
pub open spec fn stopped_text(cause: Seq<char>, written: Seq<Seq<char>>, removed: Seq<Seq<char>>) -> Seq<char> {
    let finished = (if written.len() > 0 {
        seq!["these destinations hold candidate bytes: "@ + joined(written, ", "@)]
    } else {
        Seq::empty()
    }) + (if removed.len() > 0 {
        seq!["these destinations were removed: "@ + joined(removed, ", "@)]
    } else {
        Seq::empty()
    });
    "the landing stopped: "@ + cause + "; "@ + (if finished.len() == 0 {
        "nothing was written or removed"@
    } else {
        joined(finished, "; "@)
    }) + ", the previous record still stands, and running this again finishes the rest"@
}

/// The refusal a run that stopped partway carries.
pub fn stopped(cause: &str, outcome: &Outcome) -> (m: String)
    ensures
        m@ == stopped_text(cause@, views_of(outcome.written@), views_of(outcome.removed@)),
{
    let mut finished: Vec<String> = Vec::new();
    if outcome.written.len() > 0 {
        let mut l = owned("these destinations hold candidate bytes: ");
        append(&mut l, join_texts(&outcome.written, ", ").as_str());
        finished.push(l);
    }
    let ghost first = views_of(finished@);
    if outcome.removed.len() > 0 {
        let mut l = owned("these destinations were removed: ");
        append(&mut l, join_texts(&outcome.removed, ", ").as_str());
        finished.push(l);
        assert(views_of(finished@) =~= first.push(l@));
    }
    let ghost all = views_of(finished@);
    assert(all =~= (if outcome.written@.len() > 0 {
        seq!["these destinations hold candidate bytes: "@ + joined(views_of(outcome.written@), ", "@)]
    } else {
        Seq::empty()
    }) + (if outcome.removed@.len() > 0 {
        seq!["these destinations were removed: "@ + joined(views_of(outcome.removed@), ", "@)]
    } else {
        Seq::empty()
    }));
    let mut m = owned("the landing stopped: ");
    append(&mut m, cause);
    append(&mut m, "; ");
    if finished.len() == 0 {
        append(&mut m, "nothing was written or removed");
    } else {
        append(&mut m, join_texts(&finished, "; ").as_str());
    }
    append(&mut m, ", the previous record still stands, and running this again finishes the rest");
    m
}

/// Why a destination cannot resolve beneath any target, whatever the
/// disk holds: it is absolute, or it names a `..` component or starts
/// with `.`.
pub open spec fn lexical_escape_of(dest: Seq<char>) -> Option<Seq<char>> {
    let parts = path_components(dest);
    if parts.contains(PartModel::Root) {
        Some("is absolute"@)
    } else if parts.contains(PartModel::Parent) || parts.contains(PartModel::Current) {
        Some("climbs out of the target"@)
    } else {
        None
    }
}

/// Why a destination cannot resolve beneath any target, whatever the
/// disk holds, where it cannot; the rest of the check walks the disk.
pub fn lexical_escape(destination: &str) -> (r: Option<&'static str>)
    ensures
        match lexical_escape_of(destination@) {
            Some(why) => r matches Some(w) && w@ == why,
            None => r is None,
        },
{
    let parts = components_of(destination);
    let ghost pm = parts@.map_values(|p: PathPart| p@);
    let mut rooted = false;
    let mut climbs = false;
    let mut i: usize = 0;
    while i < parts.len()
        invariant
            i <= parts.len(),
            pm == parts@.map_values(|p: PathPart| p@),
            pm == path_components(destination@),
            rooted == pm.take(i as int).contains(PartModel::Root),
            climbs == (pm.take(i as int).contains(PartModel::Parent) || pm.take(i as int).contains(PartModel::Current)),
        decreases parts.len() - i,
    {
        assert(pm.take(i + 1) =~= pm.take(i as int).push(pm[i as int]));
        assert(pm[i as int] == parts@[i as int]@);
        match &parts[i] {
            PathPart::Root => {
                rooted = true;
            },
            PathPart::Parent => {
                climbs = true;
            },
            PathPart::Current => {
                climbs = true;
            },
            PathPart::Normal(_) => {},
        }
        proof {
            let t = pm.take(i as int);
            let x = pm[i as int];
            assert forall|q: PartModel| t.push(x).contains(q) <==> (t.contains(q) || x == q) by {
                if t.push(x).contains(q) {
                    let j = choose|j: int| 0 <= j < t.push(x).len() && t.push(x)[j] == q;
                    if j < t.len() {
                        assert(t[j] == q);
                    }
                }
                if t.contains(q) {
                    let j = choose|j: int| 0 <= j < t.len() && t[j] == q;
                    assert(t.push(x)[j] == q);
                }
                if x == q {
                    assert(t.push(x)[t.len() as int] == q);
                }
            }
        }
        i += 1;
    }
    assert(pm.take(parts.len() as int) =~= pm);
    if rooted {
        Some("is absolute")
    } else if climbs {
        Some("climbs out of the target")
    } else {
        None
    }
}

/// The reasons found, each once, in the order first found: one blocked
/// directory holds many destinations, and naming it once is what an
/// operator can act on.
pub open spec fn distinct_reasons(found: Seq<Option<(Seq<char>, Seq<char>)>>) -> Seq<Seq<char>>
    decreases found.len(),
{
    if found.len() == 0 {
        Seq::empty()
    } else {
        let before = distinct_reasons(found.drop_last());
        match found.last() {
            Some((component, kind)) => {
                let reason = component + " "@ + kind;
                if before.contains(reason) {
                    before
                } else {
                    before.push(reason)
                }
            },
            None => before,
        }
    }
}

/// An escape as plain text, where there is one.
pub open spec fn escape_model(e: Option<(String, String)>) -> Option<(Seq<char>, Seq<char>)> {
    match e {
        Some((c, k)) => Some((c@, k@)),
        None => None,
    }
}

/// Refuse the whole landing where any destination, the record's among
/// them, does not resolve beneath the target: `escapes` holds, for each,
/// the component that escapes and how, where one does.
pub fn contained(escapes: &Vec<Option<(String, String)>>) -> (r: Result<(), String>)
    ensures
        match r {
            Ok(()) => distinct_reasons(escapes@.map_values(|e: Option<(String, String)>| escape_model(e))).len() == 0,
            Err(m) => distinct_reasons(escapes@.map_values(|e: Option<(String, String)>| escape_model(e))).len() > 0
                && m@ == "the landing writes nothing: "@ + joined(
                distinct_reasons(escapes@.map_values(|e: Option<(String, String)>| escape_model(e))),
                "; "@,
            ),
        },
{
    let ghost all = escapes@.map_values(|e: Option<(String, String)>| escape_model(e));
    let mut reasons: Vec<String> = Vec::new();
    let mut i: usize = 0;
    while i < escapes.len()
        invariant
            i <= escapes.len(),
            all == escapes@.map_values(|e: Option<(String, String)>| escape_model(e)),
            views_of(reasons@) == distinct_reasons(all.take(i as int)),
        decreases escapes.len() - i,
    {
        assert(all.take(i + 1).drop_last() =~= all.take(i as int));
        assert(all.take(i + 1).last() == escape_model(escapes@[i as int]));
        if let Some((component, kind)) = &escapes[i] {
            let mut reason = owned(component.as_str());
            append(&mut reason, " ");
            append(&mut reason, kind.as_str());
            let ghost before = views_of(reasons@);
            let mut seen = false;
            let mut j: usize = 0;
            while j < reasons.len()
                invariant
                    j <= reasons.len(),
                    before == views_of(reasons@),
                    seen == exists|q: int| 0 <= q < j && before[q] == reason@,
                decreases reasons.len() - j,
            {
                if same_text(reasons[j].as_str(), reason.as_str()) {
                    seen = true;
                }
                assert(before[j as int] == reasons@[j as int]@);
                j += 1;
            }
            if !seen {
                reasons.push(reason);
                assert(views_of(reasons@) =~= before.push(reason@));
            }
        }
        i += 1;
    }
    assert(all.take(escapes.len() as int) =~= all);
    if reasons.len() == 0 {
        Ok(())
    } else {
        let mut m = owned("the landing writes nothing: ");
        append(&mut m, join_texts(&reasons, "; ").as_str());
        Err(m)
    }
}

/// Who owns a destination after a landing.
#[derive(Debug, Clone, Copy, PartialEq, Eq, Structural)]
pub enum Ownership {
    /// The canon owns the whole file.
    Managed,
    /// The canon owns one marked region of a file the project owns.
    Integration,
    /// The project owns the file from the moment it lands.
    Adopted,
}

/// What a host file's marked region reads as.
#[derive(Debug)]
pub enum Region {
    /// The file is not text.
    NotText,
    /// The file carries no region yet.
    Absent,
    /// The region's hash.
    Hash(Sha256),
}

/// One destination a landing would write, and what the target holds there.
#[derive(Debug)]
pub struct HeldDestination {
    /// The destination, relative to the target.
    pub path: String,
    /// Who owns it after the landing.
    pub ownership: Ownership,
    /// The digest of what the target holds there, where it can be read.
    pub held: Option<Sha256>,
    /// Whether that is exactly the candidate's bytes.
    pub same_bytes: bool,
    /// For a host file, what its marked region reads as.
    pub region: Region,
}

/// The digest the first entry named `name` vouches for, where one is.
pub open spec fn vouched_for(entries: Seq<(String, Sha256)>, name: Seq<char>) -> Option<Seq<char>>
    decreases entries.len(),
{
    if entries.len() == 0 {
        None
    } else if entries[0].0@ == name {
        Some(entries[0].1@)
    } else {
        vouched_for(entries.drop_first(), name)
    }
}

/// Whether the record vouches for what a destination holds: the bytes of
/// a managed file, the region of a host file, where it has one, and
/// anything in an adopted file.
pub open spec fn vouched(d: HeldDestination, recorded: Recorded) -> bool {
    match d.held {
        None => true,
        Some(h) => d.same_bytes || match d.ownership {
            Ownership::Managed => vouched_for(recorded.managed@, d.path@) == Some(h@),
            Ownership::Integration => match d.region {
                Region::NotText => false,
                Region::Absent => true,
                Region::Hash(r) => vouched_for(recorded.integration@, d.path@) == Some(r@),
            },
            Ownership::Adopted => true,
        },
    }
}

/// The destinations holding bytes no record vouches for, in order.
pub open spec fn collisions(ds: Seq<HeldDestination>, recorded: Recorded) -> Seq<Seq<char>>
    decreases ds.len(),
{
    if ds.len() == 0 {
        Seq::empty()
    } else if vouched(ds.last(), recorded) {
        collisions(ds.drop_last(), recorded)
    } else {
        collisions(ds.drop_last(), recorded).push(ds.last().path@)
    }
}

/// The digest the first entry named `name` vouches for.
fn vouched_digest<'a>(entries: &'a Vec<(String, Sha256)>, name: &str) -> (r: Option<&'a Sha256>)
    ensures
        match vouched_for(entries@, name@) {
            Some(d) => r matches Some(x) && x@ == d,
            None => r is None,
        },
{
    let mut i: usize = 0;
    assert(entries@.skip(0) =~= entries@);
    while i < entries.len()
        invariant
            i <= entries.len(),
            vouched_for(entries@, name@) == vouched_for(entries@.skip(i as int), name@),
        decreases entries.len() - i,
    {
        assert(entries@.skip(i as int)[0] == entries@[i as int]);
        assert(entries@.skip(i as int).drop_first() =~= entries@.skip(i + 1));
        if same_text(entries[i].0.as_str(), name) {
            return Some(&entries[i].1);
        }
        i += 1;
    }
    assert(entries@.skip(i as int) =~= Seq::<(String, Sha256)>::empty());
    None
}

/// Refuse a whole file this tool would own whose bytes no record vouches
/// for: the record authorizes exact bytes, never a path, and missing
/// provenance routes to the agent, never to an automatic overwrite.
pub fn unattributed(destinations: &Vec<HeldDestination>, recorded: &Recorded) -> (r: Result<(), String>)
    ensures
        match r {
            Ok(()) => collisions(destinations@, *recorded).len() == 0,
            Err(m) => collisions(destinations@, *recorded).len() > 0 && m@ == "destinations hold bytes no record vouches for: "@
                + joined(collisions(destinations@, *recorded), ", "@)
                + "; move them aside, or let the setup skill reconcile them"@,
        },
{
    let mut found: Vec<String> = Vec::new();
    let mut i: usize = 0;
    while i < destinations.len()
        invariant
            i <= destinations.len(),
            views_of(found@) == collisions(destinations@.take(i as int), *recorded),
        decreases destinations.len() - i,
    {
        assert(destinations@.take(i + 1).drop_last() =~= destinations@.take(i as int));
        assert(destinations@.take(i + 1).last() == destinations@[i as int]);
        let d = &destinations[i];
        let ok = match &d.held {
            None => true,
            Some(h) => {
                if d.same_bytes {
                    true
                } else {
                    match d.ownership {
                        Ownership::Managed => match vouched_digest(&recorded.managed, d.path.as_str()) {
                            Some(v) => v.same(h),
                            None => false,
                        },
                        Ownership::Integration => match &d.region {
                            Region::NotText => false,
                            Region::Absent => true,
                            Region::Hash(r) => match vouched_digest(&recorded.integration, d.path.as_str()) {
                                Some(v) => v.same(r),
                                None => false,
                            },
                        },
                        Ownership::Adopted => true,
                    }
                }
            },
        };
        if !ok {
            let ghost before = views_of(found@);
            found.push(owned(d.path.as_str()));
            assert(views_of(found@) =~= before.push(d.path@));
        }
        i += 1;
    }
    assert(destinations@.take(destinations.len() as int) =~= destinations@);
    if found.len() == 0 {
        Ok(())
    } else {
        let mut m = owned("destinations hold bytes no record vouches for: ");
        append(&mut m, join_texts(&found, ", ").as_str());
        append(&mut m, "; move them aside, or let the setup skill reconcile them");
        Err(m)
    }
}

} // verus!
