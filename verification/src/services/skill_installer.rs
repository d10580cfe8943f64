//! What installing and uninstalling the skill packages decides.
//!
//! The receipt is the only evidence that this tool wrote a file: the
//! payload's bytes at a destination no receipt vouches for may be a copy
//! the user placed there. So an install refuses bytes neither reference
//! accounts for unless forced, and an uninstall takes back only what the
//! receipt vouches for, naming everything it keeps.
//!
//! The command layer looks at the disk: what each destination holds, which
//! destinations cannot be written through, and which recorded files still
//! hold the bytes the receipt vouches for. The staging, journaling and
//! replacing are its own too. This module decides what a run prints, what
//! it writes and removes, and whether it refuses.

use vstd::prelude::*;

use crate::digest::Sha256;
use crate::text::{append, has_prefix, join_texts, joined, owned, same_text, starts_with, views_of};

verus! {

/// A destination this tool will not write through, whatever `--force`
/// says: where, and what is there instead of what is needed.
#[derive(Debug)]
pub struct Blocked {
    /// The path that blocks.
    pub path: String,
    /// What it is.
    pub kind: String,
}

/// How a blocked destination is named.
pub open spec fn blocked_text(b: Blocked) -> Seq<char> {
    b.path@ + " is "@ + b.kind@
}

impl Blocked {
    /// How this blocked destination is named.
    pub fn text(&self) -> (s: String)
        ensures
            s@ == blocked_text(*self),
    {
        let mut s = owned(self.path.as_str());
        append(&mut s, " is ");
        append(&mut s, self.kind.as_str());
        s
    }
}

/// Whether a path lies at or under another, component by component, for
/// paths written without a trailing separator.
pub open spec fn under(path: Seq<char>, root: Seq<char>) -> bool {
    path == root || has_prefix(path, root + "/"@)
}

/// Whether a path lies at or under another.
pub fn is_under(path: &str, root: &str) -> (r: bool)
    ensures
        r == under(path@, root@),
{
    if same_text(path, root) {
        return true;
    }
    let mut prefix = owned(root);
    append(&mut prefix, "/");
    starts_with(path, prefix.as_str())
}

/// The root of the roots, then the state root, that a destination sits
/// under, where one does.
pub open spec fn owning_root_of(roots: Seq<Seq<char>>, state_root: Seq<char>, dest: Seq<char>) -> Option<Seq<char>>
    decreases roots.len(),
{
    if roots.len() == 0 {
        if under(dest, state_root) {
            Some(state_root)
        } else {
            None
        }
    } else if under(dest, roots[0]) {
        Some(roots[0])
    } else {
        owning_root_of(roots.drop_first(), state_root, dest)
    }
}

/// Which root a destination sits under, for the chain check.
pub fn owning_root(roots: &Vec<String>, state_root: &str, destination: &str) -> (r: Option<String>)
    ensures
        match owning_root_of(views_of(roots@), state_root@, destination@) {
            Some(root) => r matches Some(s) && s@ == root,
            None => r is None,
        },
{
    let ghost all = views_of(roots@);
    let mut i: usize = 0;
    assert(all.skip(0) =~= all);
    while i < roots.len()
        invariant
            i <= roots.len(),
            all == views_of(roots@),
            owning_root_of(all, state_root@, destination@) == owning_root_of(all.skip(i as int), state_root@, destination@),
        decreases roots.len() - i,
    {
        assert(all.skip(i as int)[0] == roots@[i as int]@);
        assert(all.skip(i as int).drop_first() =~= all.skip(i + 1));
        if is_under(destination, roots[i].as_str()) {
            return Some(owned(roots[i].as_str()));
        }
        i += 1;
    }
    assert(all.skip(i as int) =~= Seq::<Seq<char>>::empty());
    if is_under(destination, state_root) {
        Some(owned(state_root))
    } else {
        None
    }
}

/// A blocked destination as plain text.
pub open spec fn blocked_model(b: Blocked) -> (Seq<char>, Seq<char>) {
    (b.path@, b.kind@)
}

/// The blocked destinations found, each once, in the order first found.
pub open spec fn distinct_blocks(found: Seq<Option<Blocked>>) -> Seq<(Seq<char>, Seq<char>)>
    decreases found.len(),
{
    if found.len() == 0 {
        Seq::empty()
    } else {
        let before = distinct_blocks(found.drop_last());
        match found.last() {
            Some(b) => if before.contains(blocked_model(b)) {
                before
            } else {
                before.push(blocked_model(b))
            },
            None => before,
        }
    }
}

/// Every destination this run will not write through, each once: what
/// the chain check found for each destination, in order.
pub fn blocked(found: Vec<Option<Blocked>>) -> (r: Vec<Blocked>)
    ensures
        r@.map_values(|b: Blocked| blocked_model(b)) == distinct_blocks(found@),
{
    let ghost all = found@;
    let mut out: Vec<Blocked> = Vec::new();
    let mut rest = found;
    let mut i: usize = 0;
    let n = rest.len();
    assert(all.take(0) =~= Seq::<Option<Blocked>>::empty());
    while i < n
        invariant
            i <= n,
            n == all.len(),
            rest@ == all.skip(i as int),
            out@.map_values(|b: Blocked| blocked_model(b)) == distinct_blocks(all.take(i as int)),
        decreases n - i,
    {
        assert(all.take(i + 1).drop_last() =~= all.take(i as int));
        assert(all.take(i + 1).last() == all[i as int]);
        assert(all.skip(i as int)[0] == all[i as int]);
        assert(all.skip(i as int).drop_first() =~= all.skip(i + 1));
        let one = rest.remove(0);
        let ghost before = out@.map_values(|b: Blocked| blocked_model(b));
        if let Some(b) = one {
            let mut seen = false;
            let mut j: usize = 0;
            while j < out.len()
                invariant
                    j <= out.len(),
                    before == out@.map_values(|b: Blocked| blocked_model(b)),
                    seen == exists|q: int| 0 <= q < j && before[q] == blocked_model(b),
                decreases out.len() - j,
            {
                if same_text(out[j].path.as_str(), b.path.as_str()) && same_text(out[j].kind.as_str(), b.kind.as_str()) {
                    seen = true;
                }
                assert(before[j as int] == blocked_model(out@[j as int]));
                j += 1;
            }
            if !seen {
                out.push(b);
                assert(out@.map_values(|b: Blocked| blocked_model(b)) =~= before.push(blocked_model(b)));
            }
        }
        i += 1;
    }
    assert(all.take(n as int) =~= all);
    out
}

/// One file the receipt records, and what the disk says of it now.
#[derive(Debug)]
pub struct RecordedNow {
    /// The destination.
    pub path: String,
    /// The digest the receipt vouches for.
    pub digest: Sha256,
    /// Whether a regular file, not a link, holds exactly those bytes.
    pub ours: bool,
    /// Whether anything is there.
    pub exists: bool,
}

/// Whether the receipt says this tool wrote `digest` at `path`.
pub open spec fn receipt_wrote(record: Seq<RecordedNow>, path: Seq<char>, digest: Seq<char>) -> bool {
    exists|j: int| 0 <= j < record.len() && #[trigger] record[j].path@ == path && record[j].digest@ == digest
}

/// What a destination holds, judged against the payload and the receipt.
#[derive(Debug, Clone, Copy, PartialEq, Eq, Structural)]
pub enum Standing {
    /// Nothing is there.
    Absent,
    /// The payload's own bytes.
    Current,
    /// Bytes the receipt vouches for, from an earlier release.
    Recorded,
    /// Bytes neither reference accounts for.
    Foreign,
}

/// What a destination holding `held` stands as.
pub open spec fn standing_of(held: Option<Sha256>, intended: Sha256, path: Seq<char>, record: Seq<RecordedNow>) -> Standing {
    match held {
        None => Standing::Absent,
        Some(h) => if h@ == intended@ {
            Standing::Current
        } else if receipt_wrote(record, path, h@) {
            Standing::Recorded
        } else {
            Standing::Foreign
        },
    }
}

/// Whether the receipt vouches for these bytes at this path.
fn receipt_vouches(record: &Vec<RecordedNow>, path: &str, digest: &Sha256) -> (r: bool)
    ensures
        r == receipt_wrote(record@, path@, digest@),
{
    let mut i: usize = 0;
    while i < record.len()
        invariant
            i <= record.len(),
            forall|j: int| 0 <= j < i ==> !(record@[j].path@ == path@ && record@[j].digest@ == digest@),
        decreases record.len() - i,
    {
        if same_text(record[i].path.as_str(), path) && record[i].digest.same(digest) {
            return true;
        }
        i += 1;
    }
    false
}

/// What a destination stands as: an unreadable one never reaches here,
/// because a comparison that cannot run must never license an overwrite.
pub fn standing(held: &Option<Sha256>, intended: &Sha256, path: &str, record: &Vec<RecordedNow>) -> (s: Standing)
    ensures
        s == standing_of(*held, *intended, path@, record@),
{
    match held {
        None => Standing::Absent,
        Some(h) => {
            if h.same(intended) {
                Standing::Current
            } else if receipt_vouches(record, path, h) {
                Standing::Recorded
            } else {
                Standing::Foreign
            }
        },
    }
}

/// One file the payload plans: where, the digest of its bytes, and what
/// the destination holds now, where a file is there.
#[derive(Debug)]
pub struct PlannedNow {
    /// The destination.
    pub destination: String,
    /// The digest of the payload's bytes.
    pub digest: Sha256,
    /// The digest of what the destination holds, where a file is there.
    pub held: Option<Sha256>,
}

/// Whether a destination lies at or under a blocked path.
pub open spec fn is_blocked(dest: Seq<char>, refused: Seq<Blocked>) -> bool {
    exists|i: int| 0 <= i < refused.len() && under(dest, #[trigger] refused[i].path@)
}

/// Whether a recorded file is one this run no longer plans, under a root
/// it scans.
pub open spec fn is_stale(r: RecordedNow, scanned: Seq<Seq<char>>, keep: Seq<Seq<char>>) -> bool {
    !keep.contains(r.path@) && exists|i: int| 0 <= i < scanned.len() && under(r.path@, #[trigger] scanned[i])
}

/// What an install says of the recorded files it no longer plans, in
/// receipt order: a sweep for bytes the receipt still vouches for, and
/// an edited file kept for any other.
pub open spec fn install_stale_lines(record: Seq<RecordedNow>, scanned: Seq<Seq<char>>, keep: Seq<Seq<char>>) -> Seq<Seq<char>>
    decreases record.len(),
{
    if record.len() == 0 {
        Seq::empty()
    } else {
        let before = install_stale_lines(record.drop_last(), scanned, keep);
        let r = record.last();
        if is_stale(r, scanned, keep) {
            before.push(
                if r.ours {
                    "sweep (no longer in the payload): "@ + r.path@
                } else {
                    "kept (edited): "@ + r.path@
                },
            )
        } else {
            before
        }
    }
}

/// The recorded files a run sweeps: stale, and still holding the bytes the
/// receipt vouches for.
pub open spec fn sweeps(record: Seq<RecordedNow>, scanned: Seq<Seq<char>>, keep: Seq<Seq<char>>) -> Seq<(Seq<char>, Seq<char>)>
    decreases record.len(),
{
    if record.len() == 0 {
        Seq::empty()
    } else {
        let before = sweeps(record.drop_last(), scanned, keep);
        let r = record.last();
        if is_stale(r, scanned, keep) && r.ours {
            before.push((r.path@, r.digest@))
        } else {
            before
        }
    }
}

/// The planned files an install writes, in plan order: each not blocked
/// whose destination does not already hold the payload's bytes.
pub open spec fn install_writes(planned: Seq<PlannedNow>, refused: Seq<Blocked>, record: Seq<RecordedNow>) -> Seq<(Seq<char>, Seq<char>)>
    decreases planned.len(),
{
    if planned.len() == 0 {
        Seq::empty()
    } else {
        let before = install_writes(planned.drop_last(), refused, record);
        let p = planned.last();
        if !is_blocked(p.destination@, refused) && standing_of(p.held, p.digest, p.destination@, record)
            != Standing::Current {
            before.push((p.destination@, p.digest@))
        } else {
            before
        }
    }
}

/// The planned destinations holding bytes neither reference accounts for.
pub open spec fn foreign(planned: Seq<PlannedNow>, refused: Seq<Blocked>, record: Seq<RecordedNow>) -> Seq<Seq<char>>
    decreases planned.len(),
{
    if planned.len() == 0 {
        Seq::empty()
    } else {
        let before = foreign(planned.drop_last(), refused, record);
        let p = planned.last();
        if !is_blocked(p.destination@, refused) && standing_of(p.held, p.digest, p.destination@, record)
            == Standing::Foreign {
            before.push(p.destination@)
        } else {
            before
        }
    }
}

/// The planned destinations.
pub open spec fn destinations(planned: Seq<PlannedNow>) -> Seq<Seq<char>> {
    planned.map_values(|p: PlannedNow| p.destination@)
}

/// The refusal a blocked run ends with.
pub open spec fn blocked_refusal(refused: Seq<Blocked>) -> Seq<char> {
    "destinations cannot be written through: "@ + joined(refused.map_values(|b: Blocked| blocked_text(b)), "; "@)
        + "; move them aside and run this again"@
}

/// The refusal an unforced install over foreign bytes ends with.
pub open spec fn foreign_refusal(paths: Seq<Seq<char>>) -> Seq<char> {
    "destinations hold bytes this tool did not write: "@ + joined(paths, ", "@)
        + "; re-run with --force to overwrite"@
}

/// How a run ends.
#[derive(Debug)]
pub enum Outcome {
    /// A preview: print the lines, write nothing.
    Preview,
    /// Refuse with this reason, writing nothing.
    Refuse(String),
    /// Nothing to write and no receipt to touch: print the lines.
    Untouched,
    /// Write and remove what the decision names, then record it.
    Apply,
}

/// What a run decided.
#[derive(Debug)]
pub struct Decision {
    /// Every line to print, in order.
    pub lines: Vec<String>,
    /// The destinations to write, with the digest of the bytes each takes.
    pub writes: Vec<(String, Sha256)>,
    /// The destinations to take back, with the digest they must hold.
    pub removals: Vec<(String, Sha256)>,
    /// How the run ends.
    pub outcome: Outcome,
}

/// Pairs of destination and digest as plain text.
pub open spec fn pairs(s: Seq<(String, Sha256)>) -> Seq<(Seq<char>, Seq<char>)> {
    s.map_values(|p: (String, Sha256)| (p.0@, p.1@))
}

/// The lines an install prints: every planned destination, what it says
/// of stale recorded files, each blocked destination, each destination
/// holding foreign bytes, and, for a preview, that nothing was written.
pub open spec fn install_lines(
    planned: Seq<PlannedNow>,
    record: Seq<RecordedNow>,
    scanned: Seq<Seq<char>>,
    refused: Seq<Blocked>,
    apply: bool,
) -> Seq<Seq<char>> {
    destinations(planned) + install_stale_lines(record, scanned, destinations(planned)) + refused.map_values(
        |b: Blocked| "conflict: "@ + blocked_text(b),
    ) + foreign(planned, refused, record).map_values(
        |d: Seq<char>| "conflict: "@ + d + " holds bytes this tool did not write"@,
    ) + if apply {
        Seq::empty()
    } else {
        seq!["DRY RUN: no files written"@]
    }
}

/// What an install decides: previewing by default; refusing, when
/// applied, on a blocked destination, then on foreign bytes unless
/// forced; else writing each planned file the destination does not hold
/// and sweeping each stale file the receipt still vouches for.
pub open spec fn install_holds(
    d: Decision,
    planned: Seq<PlannedNow>,
    record: Seq<RecordedNow>,
    scanned: Seq<Seq<char>>,
    refused: Seq<Blocked>,
    apply: bool,
    force: bool,
) -> bool {
    &&& views_of(d.lines@) == install_lines(planned, record, scanned, refused, apply)
    &&& pairs(d.writes@) == install_writes(planned, refused, record)
    &&& pairs(d.removals@) == sweeps(record, scanned, destinations(planned))
    &&& if !apply {
        d.outcome is Preview
    } else if refused.len() > 0 {
        d.outcome matches Outcome::Refuse(m) && m@ == blocked_refusal(refused)
    } else if !force && foreign(planned, refused, record).len() > 0 {
        d.outcome matches Outcome::Refuse(m) && m@ == foreign_refusal(foreign(planned, refused, record))
    } else {
        d.outcome is Apply
    }
}

/// Whether a destination lies at or under a blocked path.
fn blocked_at(dest: &str, refused: &Vec<Blocked>) -> (r: bool)
    ensures
        r == is_blocked(dest@, refused@),
{
    let mut i: usize = 0;
    while i < refused.len()
        invariant
            i <= refused.len(),
            forall|j: int| 0 <= j < i ==> !under(dest@, #[trigger] refused@[j].path@),
        decreases refused.len() - i,
    {
        if is_under(dest, refused[i].path.as_str()) {
            return true;
        }
        i += 1;
    }
    false
}

/// Whether a recorded file is one this run no longer plans, under a root
/// it scans.
fn stale(r: &RecordedNow, scanned: &Vec<String>, keep: &Vec<String>) -> (b: bool)
    ensures
        b == is_stale(*r, views_of(scanned@), views_of(keep@)),
{
    let mut k: usize = 0;
    while k < keep.len()
        invariant
            k <= keep.len(),
            forall|j: int| 0 <= j < k ==> keep@[j]@ != r.path@,
        decreases keep.len() - k,
    {
        if same_text(keep[k].as_str(), r.path.as_str()) {
            assert(views_of(keep@)[k as int] == r.path@);
            return false;
        }
        k += 1;
    }
    proof {
        if views_of(keep@).contains(r.path@) {
            let j = choose|j: int| 0 <= j < views_of(keep@).len() && views_of(keep@)[j] == r.path@;
            assert(keep@[j]@ == r.path@);
        }
    }
    let mut i: usize = 0;
    while i < scanned.len()
        invariant
            i <= scanned.len(),
            !views_of(keep@).contains(r.path@),
            forall|j: int| 0 <= j < i ==> !under(r.path@, #[trigger] views_of(scanned@)[j]),
        decreases scanned.len() - i,
    {
        if is_under(r.path.as_str(), scanned[i].as_str()) {
            assert(under(r.path@, views_of(scanned@)[i as int]));
            return true;
        }
        i += 1;
    }
    false
}

/// Push every line of `items`, each as `head` then the item then `tail`.
fn push_framed(lines: &mut Vec<String>, head: &str, items: &Vec<String>, tail: &str)
    ensures
        views_of(final(lines)@) == views_of(old(lines)@) + views_of(items@).map_values(|d: Seq<char>| head@ + d + tail@),
{
    let ghost base = views_of(lines@);
    let mut i: usize = 0;
    while i < items.len()
        invariant
            i <= items.len(),
            views_of(lines@) == base + views_of(items@).take(i as int).map_values(|d: Seq<char>| head@ + d + tail@),
        decreases items.len() - i,
    {
        let mut line = owned(head);
        append(&mut line, items[i].as_str());
        append(&mut line, tail);
        let ghost before = views_of(lines@);
        lines.push(line);
        assert(views_of(items@).take(i + 1) =~= views_of(items@).take(i as int).push(items@[i as int]@));
        assert(views_of(lines@) =~= before.push(line@));
        i += 1;
    }
    assert(views_of(items@).take(items.len() as int) =~= views_of(items@));
}

/// The refusal a blocked run ends with.
fn refuse_blocked(refused: &Vec<Blocked>) -> (m: String)
    ensures
        m@ == blocked_refusal(refused@),
{
    let mut named: Vec<String> = Vec::new();
    let mut i: usize = 0;
    while i < refused.len()
        invariant
            i <= refused.len(),
            views_of(named@) == refused@.take(i as int).map_values(|b: Blocked| blocked_text(b)),
        decreases refused.len() - i,
    {
        let t = refused[i].text();
        let ghost before = views_of(named@);
        named.push(t);
        assert(views_of(named@) =~= before.push(t@));
        assert(refused@.take(i + 1) =~= refused@.take(i as int).push(refused@[i as int]));
        assert(refused@.take(i + 1).map_values(|b: Blocked| blocked_text(b)) =~= refused@.take(i as int).map_values(|b: Blocked| blocked_text(b)).push(blocked_text(refused@[i as int])));
        i += 1;
    }
    assert(refused@.take(refused.len() as int) =~= refused@);
    let mut m = owned("destinations cannot be written through: ");
    append(&mut m, join_texts(&named, "; ").as_str());
    append(&mut m, "; move them aside and run this again");
    m
}

/// The lines a blocked list prints.
fn blocked_lines(lines: &mut Vec<String>, refused: &Vec<Blocked>)
    ensures
        views_of(final(lines)@) == views_of(old(lines)@) + refused@.map_values(|b: Blocked| "conflict: "@ + blocked_text(b)),
{
    let ghost base = views_of(lines@);
    let mut i: usize = 0;
    while i < refused.len()
        invariant
            i <= refused.len(),
            views_of(lines@) == base + refused@.take(i as int).map_values(|b: Blocked| "conflict: "@ + blocked_text(b)),
        decreases refused.len() - i,
    {
        let mut line = owned("conflict: ");
        append(&mut line, refused[i].text().as_str());
        let ghost before = views_of(lines@);
        lines.push(line);
        assert(views_of(lines@) =~= before.push(line@));
        assert(refused@.take(i + 1) =~= refused@.take(i as int).push(refused@[i as int]));
        assert(refused@.take(i + 1).map_values(|b: Blocked| "conflict: "@ + blocked_text(b)) =~= refused@.take(i as int).map_values(|b: Blocked| "conflict: "@ + blocked_text(b)).push("conflict: "@ + blocked_text(refused@[i as int])));
        i += 1;
    }
    assert(refused@.take(refused.len() as int) =~= refused@);
}

/// Decide an install of every planned file: previewing unless `apply`,
/// and overwriting foreign bytes only when `force`d.
pub fn install(
    planned: &Vec<PlannedNow>,
    record: &Vec<RecordedNow>,
    scanned: &Vec<String>,
    refused: &Vec<Blocked>,
    apply: bool,
    force: bool,
) -> (d: Decision)
    ensures
        install_holds(d, planned@, record@, views_of(scanned@), refused@, apply, force),
{
    let mut lines: Vec<String> = Vec::new();
    let mut keep: Vec<String> = Vec::new();
    let mut i: usize = 0;
    while i < planned.len()
        invariant
            i <= planned.len(),
            views_of(keep@) == destinations(planned@.take(i as int)),
            views_of(lines@) == destinations(planned@.take(i as int)),
        decreases planned.len() - i,
    {
        let ghost before = views_of(keep@);
        keep.push(owned(planned[i].destination.as_str()));
        lines.push(owned(planned[i].destination.as_str()));
        assert(destinations(planned@.take(i + 1)) =~= destinations(planned@.take(i as int)).push(planned@[i as int].destination@));
        assert(views_of(keep@) =~= before.push(planned@[i as int].destination@));
        assert(views_of(lines@) =~= before.push(planned@[i as int].destination@));
        i += 1;
    }
    assert(planned@.take(planned.len() as int) =~= planned@);
    let ghost sc = views_of(scanned@);
    let ghost kp = views_of(keep@);
    let ghost head = views_of(lines@);
    let mut removals: Vec<(String, Sha256)> = Vec::new();
    let mut r: usize = 0;
    while r < record.len()
        invariant
            r <= record.len(),
            sc == views_of(scanned@),
            kp == views_of(keep@),
            kp == destinations(planned@),
            views_of(lines@) == head + install_stale_lines(record@.take(r as int), sc, kp),
            pairs(removals@) == sweeps(record@.take(r as int), sc, kp),
        decreases record.len() - r,
    {
        assert(record@.take(r + 1).drop_last() =~= record@.take(r as int));
        assert(record@.take(r + 1).last() == record@[r as int]);
        let one = &record[r];
        if stale(one, scanned, &keep) {
            let ghost before = views_of(lines@);
            let line = if one.ours {
                let mut l = owned("sweep (no longer in the payload): ");
                append(&mut l, one.path.as_str());
                l
            } else {
                let mut l = owned("kept (edited): ");
                append(&mut l, one.path.as_str());
                l
            };
            lines.push(line);
            assert(views_of(lines@) =~= before.push(line@));
            if one.ours {
                let ghost pb = pairs(removals@);
                removals.push((owned(one.path.as_str()), one.digest.copied()));
                assert(pairs(removals@) =~= pb.push((one.path@, one.digest@)));
            }
        }
        r += 1;
    }
    assert(record@.take(record.len() as int) =~= record@);
    blocked_lines(&mut lines, refused);
    let mut writes: Vec<(String, Sha256)> = Vec::new();
    let mut alien: Vec<String> = Vec::new();
    let mut k: usize = 0;
    while k < planned.len()
        invariant
            k <= planned.len(),
            pairs(writes@) == install_writes(planned@.take(k as int), refused@, record@),
            views_of(alien@) == foreign(planned@.take(k as int), refused@, record@),
        decreases planned.len() - k,
    {
        assert(planned@.take(k + 1).drop_last() =~= planned@.take(k as int));
        assert(planned@.take(k + 1).last() == planned@[k as int]);
        let p = &planned[k];
        if !blocked_at(p.destination.as_str(), refused) {
            let s = standing(&p.held, &p.digest, p.destination.as_str(), record);
            if !matches!(s, Standing::Current) {
                let ghost wb = pairs(writes@);
                writes.push((owned(p.destination.as_str()), p.digest.copied()));
                assert(pairs(writes@) =~= wb.push((p.destination@, p.digest@)));
            }
            if matches!(s, Standing::Foreign) {
                let ghost ab = views_of(alien@);
                alien.push(owned(p.destination.as_str()));
                assert(views_of(alien@) =~= ab.push(p.destination@));
            }
        }
        k += 1;
    }
    assert(planned@.take(planned.len() as int) =~= planned@);
    push_framed(&mut lines, "conflict: ", &alien, " holds bytes this tool did not write");
    let ghost body = views_of(lines@);
    let outcome = if !apply {
        lines.push(owned("DRY RUN: no files written"));
        assert(views_of(lines@) =~= body + seq!["DRY RUN: no files written"@]);
        Outcome::Preview
    } else {
        assert(views_of(lines@) =~= body + Seq::<Seq<char>>::empty());
        if refused.len() > 0 {
            Outcome::Refuse(refuse_blocked(refused))
        } else if !force && alien.len() > 0 {
            let mut m = owned("destinations hold bytes this tool did not write: ");
            append(&mut m, join_texts(&alien, ", ").as_str());
            append(&mut m, "; re-run with --force to overwrite");
            Outcome::Refuse(m)
        } else {
            Outcome::Apply
        }
    };
    Decision { lines, writes, removals, outcome }
}

/// What an uninstall says of one planned file, and what it takes back:
/// nothing for a blocked or absent destination; the bytes the receipt
/// vouches for are taken back; anything else is kept and named.
pub open spec fn uninstall_entry(p: PlannedNow, refused: Seq<Blocked>, record: Seq<RecordedNow>) -> Option<(Seq<char>, Option<(Seq<char>, Seq<char>)>)> {
    if is_blocked(p.destination@, refused) {
        None
    } else {
        match p.held {
            None => None,
            Some(h) => if receipt_wrote(record, p.destination@, h@) {
                Some((p.destination@, Some((p.destination@, h@))))
            } else if h@ == p.digest@ {
                Some(("kept (not this tool's): "@ + p.destination@, None))
            } else {
                Some(("kept (edited): "@ + p.destination@, None))
            },
        }
    }
}

/// The lines an uninstall prints for the planned files, in plan order.
pub open spec fn uninstall_planned_lines(planned: Seq<PlannedNow>, refused: Seq<Blocked>, record: Seq<RecordedNow>) -> Seq<Seq<char>>
    decreases planned.len(),
{
    if planned.len() == 0 {
        Seq::empty()
    } else {
        let before = uninstall_planned_lines(planned.drop_last(), refused, record);
        match uninstall_entry(planned.last(), refused, record) {
            Some((l, _)) => before.push(l),
            None => before,
        }
    }
}

/// The planned files an uninstall takes back, in plan order.
pub open spec fn uninstall_planned_removals(planned: Seq<PlannedNow>, refused: Seq<Blocked>, record: Seq<RecordedNow>) -> Seq<(Seq<char>, Seq<char>)>
    decreases planned.len(),
{
    if planned.len() == 0 {
        Seq::empty()
    } else {
        let before = uninstall_planned_removals(planned.drop_last(), refused, record);
        match uninstall_entry(planned.last(), refused, record) {
            Some((_, Some(r))) => before.push(r),
            _ => before,
        }
    }
}

/// What an uninstall says of the recorded files it does not plan to take
/// back, in receipt order: a sweep for bytes the receipt still vouches
/// for, and an edited file kept for any other that still exists.
pub open spec fn uninstall_stale_lines(record: Seq<RecordedNow>, scanned: Seq<Seq<char>>, keep: Seq<Seq<char>>) -> Seq<Seq<char>>
    decreases record.len(),
{
    if record.len() == 0 {
        Seq::empty()
    } else {
        let before = uninstall_stale_lines(record.drop_last(), scanned, keep);
        let r = record.last();
        if is_stale(r, scanned, keep) && r.ours {
            before.push("sweep (no longer in the payload): "@ + r.path@)
        } else if is_stale(r, scanned, keep) && r.exists {
            before.push("kept (edited): "@ + r.path@)
        } else {
            before
        }
    }
}

/// The destinations of pairs.
pub open spec fn firsts(s: Seq<(Seq<char>, Seq<char>)>) -> Seq<Seq<char>> {
    s.map_values(|p: (Seq<char>, Seq<char>)| p.0)
}

/// What an uninstall decides: previewing by default; refusing, when
/// applied, on a blocked destination; touching nothing where nothing is
/// to be taken back and no receipt exists; else taking back each planned
/// file and each stale file whose bytes the receipt still vouches for.
pub open spec fn uninstall_holds(
    d: Decision,
    planned: Seq<PlannedNow>,
    record: Seq<RecordedNow>,
    scanned: Seq<Seq<char>>,
    refused: Seq<Blocked>,
    apply: bool,
    receipt_exists: bool,
) -> bool {
    let taken = uninstall_planned_removals(planned, refused, record);
    let removals = taken + sweeps(record, scanned, firsts(taken));
    &&& views_of(d.lines@) == refused.map_values(|b: Blocked| "conflict: "@ + blocked_text(b))
        + uninstall_planned_lines(planned, refused, record) + uninstall_stale_lines(
        record,
        scanned,
        firsts(taken),
    ) + if apply {
        Seq::empty()
    } else {
        seq!["DRY RUN: no files removed"@]
    }
    &&& d.writes@.len() == 0
    &&& pairs(d.removals@) == removals
    &&& if !apply {
        d.outcome is Preview
    } else if refused.len() > 0 {
        d.outcome matches Outcome::Refuse(m) && m@ == blocked_refusal(refused)
    } else if removals.len() == 0 && !receipt_exists {
        d.outcome is Untouched
    } else {
        d.outcome is Apply
    }
}

/// Decide an uninstall of every planned file: previewing unless `apply`.
/// Nothing here refuses on foreign bytes: a file the receipt cannot vouch
/// for stays and is named.
pub fn uninstall(
    planned: &Vec<PlannedNow>,
    record: &Vec<RecordedNow>,
    scanned: &Vec<String>,
    refused: &Vec<Blocked>,
    apply: bool,
    receipt_exists: bool,
) -> (d: Decision)
    ensures
        uninstall_holds(d, planned@, record@, views_of(scanned@), refused@, apply, receipt_exists),
{
    let mut lines: Vec<String> = Vec::new();
    blocked_lines(&mut lines, refused);
    let ghost head = views_of(lines@);
    let mut removals: Vec<(String, Sha256)> = Vec::new();
    let mut keep: Vec<String> = Vec::new();
    let mut i: usize = 0;
    while i < planned.len()
        invariant
            i <= planned.len(),
            views_of(lines@) == head + uninstall_planned_lines(planned@.take(i as int), refused@, record@),
            pairs(removals@) == uninstall_planned_removals(planned@.take(i as int), refused@, record@),
            views_of(keep@) == firsts(pairs(removals@)),
        decreases planned.len() - i,
    {
        assert(planned@.take(i + 1).drop_last() =~= planned@.take(i as int));
        assert(planned@.take(i + 1).last() == planned@[i as int]);
        let p = &planned[i];
        if !blocked_at(p.destination.as_str(), refused) {
            if let Some(h) = &p.held {
                let ghost before = views_of(lines@);
                let ghost rb = pairs(removals@);
                if receipt_vouches(record, p.destination.as_str(), h) {
                    let line = owned(p.destination.as_str());
                    lines.push(line);
                    assert(views_of(lines@) =~= before.push(line@));
                    removals.push((owned(p.destination.as_str()), h.copied()));
                    assert(pairs(removals@) =~= rb.push((p.destination@, h@)));
                    let ghost kb = views_of(keep@);
                    keep.push(owned(p.destination.as_str()));
                    assert(views_of(keep@) =~= kb.push(p.destination@));
                    assert(firsts(pairs(removals@)) =~= firsts(rb).push(p.destination@));
                } else {
                    let line = if h.same(&p.digest) {
                        let mut l = owned("kept (not this tool's): ");
                        append(&mut l, p.destination.as_str());
                        l
                    } else {
                        let mut l = owned("kept (edited): ");
                        append(&mut l, p.destination.as_str());
                        l
                    };
                    lines.push(line);
                    assert(views_of(lines@) =~= before.push(line@));
                }
            }
        }
        i += 1;
    }
    assert(planned@.take(planned.len() as int) =~= planned@);
    let ghost taken = pairs(removals@);
    let ghost mid = views_of(lines@);
    let ghost sc = views_of(scanned@);
    let ghost kp = views_of(keep@);
    let mut r: usize = 0;
    while r < record.len()
        invariant
            r <= record.len(),
            sc == views_of(scanned@),
            kp == views_of(keep@),
            kp == firsts(taken),
            views_of(lines@) == mid + uninstall_stale_lines(record@.take(r as int), sc, kp),
            pairs(removals@) == taken + sweeps(record@.take(r as int), sc, kp),
        decreases record.len() - r,
    {
        assert(record@.take(r + 1).drop_last() =~= record@.take(r as int));
        assert(record@.take(r + 1).last() == record@[r as int]);
        let one = &record[r];
        if stale(one, scanned, &keep) {
            if one.ours {
                let mut l = owned("sweep (no longer in the payload): ");
                append(&mut l, one.path.as_str());
                let ghost before = views_of(lines@);
                lines.push(l);
                assert(views_of(lines@) =~= before.push(l@));
                let ghost pb = pairs(removals@);
                removals.push((owned(one.path.as_str()), one.digest.copied()));
                assert(pairs(removals@) =~= pb.push((one.path@, one.digest@)));
            } else if one.exists {
                let mut l = owned("kept (edited): ");
                append(&mut l, one.path.as_str());
                let ghost before = views_of(lines@);
                lines.push(l);
                assert(views_of(lines@) =~= before.push(l@));
            }
        }
        r += 1;
    }
    assert(record@.take(record.len() as int) =~= record@);
    let ghost body = views_of(lines@);
    let outcome = if !apply {
        lines.push(owned("DRY RUN: no files removed"));
        assert(views_of(lines@) =~= body + seq!["DRY RUN: no files removed"@]);
        Outcome::Preview
    } else {
        assert(views_of(lines@) =~= body + Seq::<Seq<char>>::empty());
        if refused.len() > 0 {
            Outcome::Refuse(refuse_blocked(refused))
        } else if removals.len() == 0 && !receipt_exists {
            Outcome::Untouched
        } else {
            Outcome::Apply
        }
    };
    Decision { lines, writes: Vec::new(), removals, outcome }
}

/// A second install writes nothing: where every planned destination
/// already holds the payload's bytes, an install plans no write and finds
/// no foreign bytes, whatever the receipt and the blocked paths say.
pub proof fn law_a_current_home_takes_no_write(planned: Seq<PlannedNow>, refused: Seq<Blocked>, record: Seq<RecordedNow>)
    requires
        forall|i: int| 0 <= i < planned.len() ==> crate::landing::observe::digest_view((#[trigger] planned[i]).held) == Some(planned[i].digest@),
    ensures
        install_writes(planned, refused, record).len() == 0,
        foreign(planned, refused, record).len() == 0,
    decreases planned.len(),
{
    if planned.len() > 0 {
        let rest = planned.drop_last();
        assert forall|i: int| 0 <= i < rest.len() implies crate::landing::observe::digest_view((#[trigger] rest[i]).held) == Some(rest[i].digest@) by {
            assert(rest[i] == planned[i]);
        }
        law_a_current_home_takes_no_write(rest, refused, record);
        let last = planned[planned.len() - 1];
        assert(standing_of(last.held, last.digest, last.destination@, record) == Standing::Current);
    }
}

} // verus!
