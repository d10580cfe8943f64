//! What an upgrade decides, step by step.
//!
//! An upgrade refuses while any managed file or region was edited,
//! reinstalls from the payload this tool carries, and reports the rule
//! identifiers the operator reconciles by hand. Reading the disk and the
//! reinstall itself are the command layer's: it reports what it found,
//! and this module says what the upgrade does next and what it prints.

use vstd::prelude::*;

use crate::digest::Sha256;
use crate::sorted_map::TextMap;
use crate::text::{append, has_prefix, owned, views_of};
use crate::version::{version_lt, CanonVersion};

verus! {

/// What an upgrade did.
#[derive(Debug)]
pub struct UpgradeOutcome {
    /// Every line to print, in order.
    pub lines: Vec<String>,
    /// How many lines are conflicts or failures.
    pub failures: usize,
}

impl Default for UpgradeOutcome {
    fn default() -> (r: UpgradeOutcome)
        ensures
            r.lines@.len() == 0,
            r.failures == 0,
    {
        UpgradeOutcome { lines: Vec::new(), failures: 0 }
    }
}

/// A recorded managed file and the digest the disk holds there, where a
/// file is there.
#[derive(Debug)]
pub struct HeldFile {
    /// The destination, relative to the target.
    pub destination: String,
    /// The digest the record vouches for.
    pub recorded: Sha256,
    /// What the file holds now.
    pub held: Option<Sha256>,
}

/// A recorded integration host and the hash of its managed region: none
/// where the host is missing, and none inside where it carries no region.
#[derive(Debug)]
pub struct HeldBlock {
    /// The host file, relative to the target.
    pub path: String,
    /// The region hash the record vouches for.
    pub recorded: Sha256,
    /// The host's region hash now.
    pub region: Option<Option<Sha256>>,
}

/// The conflict a managed file reports, where it reports one.
pub open spec fn file_conflict(f: HeldFile) -> Option<Seq<char>> {
    match f.held {
        None => Some("CONFLICT missing managed file: "@ + f.destination@),
        Some(d) => if d@ != f.recorded@ {
            Some("CONFLICT locally edited managed file: "@ + f.destination@)
        } else {
            None
        },
    }
}

/// The conflict an integration host reports, where it reports one.
pub open spec fn block_conflict(b: HeldBlock) -> Option<Seq<char>> {
    match b.region {
        None => Some("CONFLICT missing integration host: "@ + b.path@),
        Some(Some(h)) => if h@ == b.recorded@ {
            None
        } else {
            Some("CONFLICT locally edited managed block: "@ + b.path@)
        },
        Some(None) => Some("CONFLICT locally edited managed block: "@ + b.path@),
    }
}

/// The conflicts the managed files report, in record order.
pub open spec fn file_conflicts(fs: Seq<HeldFile>) -> Seq<Seq<char>>
    decreases fs.len(),
{
    if fs.len() == 0 {
        Seq::empty()
    } else {
        match file_conflict(fs.last()) {
            Some(l) => file_conflicts(fs.drop_last()).push(l),
            None => file_conflicts(fs.drop_last()),
        }
    }
}

/// The conflicts the integration hosts report, in record order.
pub open spec fn block_conflicts(bs: Seq<HeldBlock>) -> Seq<Seq<char>>
    decreases bs.len(),
{
    if bs.len() == 0 {
        Seq::empty()
    } else {
        match block_conflict(bs.last()) {
            Some(l) => block_conflicts(bs.drop_last()).push(l),
            None => block_conflicts(bs.drop_last()),
        }
    }
}

/// Every managed file and region the target no longer holds as recorded:
/// a reinstall would lose an edit to either. An edit outside the markers
/// is the project's own, which is why a region is held to its own hash.
pub fn conflicts(files: &Vec<HeldFile>, blocks: &Vec<HeldBlock>) -> (r: Vec<String>)
    ensures
        views_of(r@) == file_conflicts(files@) + block_conflicts(blocks@),
{
    let mut r: Vec<String> = Vec::new();
    let mut i: usize = 0;
    while i < files.len()
        invariant
            i <= files.len(),
            views_of(r@) == file_conflicts(files@.take(i as int)),
        decreases files.len() - i,
    {
        assert(files@.take(i + 1).drop_last() =~= files@.take(i as int));
        assert(files@.take(i + 1).last() == files@[i as int]);
        let f = &files[i];
        let ghost before = views_of(r@);
        match &f.held {
            None => {
                let mut line = owned("CONFLICT missing managed file: ");
                append(&mut line, f.destination.as_str());
                r.push(line);
                assert(views_of(r@) =~= before.push(line@));
            },
            Some(d) => {
                if !d.same(&f.recorded) {
                    let mut line = owned("CONFLICT locally edited managed file: ");
                    append(&mut line, f.destination.as_str());
                    r.push(line);
                    assert(views_of(r@) =~= before.push(line@));
                }
            },
        }
        i += 1;
    }
    assert(files@.take(files.len() as int) =~= files@);
    let ghost head = views_of(r@);
    let mut j: usize = 0;
    while j < blocks.len()
        invariant
            j <= blocks.len(),
            head == file_conflicts(files@),
            views_of(r@) == head + block_conflicts(blocks@.take(j as int)),
        decreases blocks.len() - j,
    {
        assert(blocks@.take(j + 1).drop_last() =~= blocks@.take(j as int));
        assert(blocks@.take(j + 1).last() == blocks@[j as int]);
        let b = &blocks[j];
        let ghost before = views_of(r@);
        let line_head = match &b.region {
            None => Some("CONFLICT missing integration host: "),
            Some(Some(h)) => if h.same(&b.recorded) {
                None
            } else {
                Some("CONFLICT locally edited managed block: ")
            },
            Some(None) => Some("CONFLICT locally edited managed block: "),
        };
        if let Some(text) = line_head {
            let mut line = owned(text);
            append(&mut line, b.path.as_str());
            r.push(line);
            assert(views_of(r@) =~= before.push(line@));
        }
        j += 1;
    }
    assert(blocks@.take(blocks.len() as int) =~= blocks@);
    r
}

/// What an upgrade does next.
#[derive(Debug)]
pub enum UpgradeStep {
    /// This tool is older than the instance; the reason says so.
    Refuse(String),
    /// The upgrade ends here with this outcome: conflicts, or nothing to do.
    Done(UpgradeOutcome),
    /// A dry run: this outcome, then the notes a reinstall preview prints.
    Preview(UpgradeOutcome),
    /// Reinstall, then finish.
    Reinstall,
}

/// What an upgrade does next, from the installed version, this tool's
/// version, whether the record is at this tool's schema, the conflicts
/// found, and whether this is a dry run.
///
/// The conflict scan comes before the version shortcut: a managed file
/// edited in a current instance is exactly the drift an upgrade serves.
pub open spec fn step_holds(
    r: UpgradeStep,
    installed: CanonVersion,
    current: CanonVersion,
    schema_current: bool,
    conflicts: Seq<Seq<char>>,
    dry_run: bool,
) -> bool {
    if version_lt(current, installed) {
        r matches UpgradeStep::Refuse(m) && m@ == "sdd "@ + current.text() + " is older than the installed canon "@
            + installed.text() + "; upgrade sdd"@
    } else if conflicts.len() > 0 {
        r matches UpgradeStep::Done(o) && views_of(o.lines@) == conflicts && o.failures == conflicts.len()
    } else if installed == current && schema_current {
        r matches UpgradeStep::Done(o) && views_of(o.lines@) == seq!["OK already at "@ + current.text()]
            && o.failures == 0
    } else if dry_run {
        r matches UpgradeStep::Preview(o) && views_of(o.lines@) == seq![
            if installed == current {
                "DRY RUN migrate the record of "@ + current.text()
            } else {
                "DRY RUN upgrade "@ + installed.text() + " to "@ + current.text()
            },
        ] && o.failures == 0
    } else {
        r is Reinstall
    }
}

/// What an upgrade does next.
pub fn next_step(
    installed: &CanonVersion,
    current: &CanonVersion,
    schema_current: bool,
    conflicts: Vec<String>,
    dry_run: bool,
) -> (r: UpgradeStep)
    ensures
        step_holds(r, *installed, *current, schema_current, views_of(conflicts@), dry_run),
{
    if current.precedes(installed) {
        let mut m = owned("sdd ");
        append(&mut m, current.to_text().as_str());
        append(&mut m, " is older than the installed canon ");
        append(&mut m, installed.to_text().as_str());
        append(&mut m, "; upgrade sdd");
        return UpgradeStep::Refuse(m);
    }
    if conflicts.len() > 0 {
        let n = conflicts.len();
        return UpgradeStep::Done(UpgradeOutcome { lines: conflicts, failures: n });
    }
    let same = installed.same(current);
    if same && schema_current {
        let mut line = owned("OK already at ");
        append(&mut line, current.to_text().as_str());
        let mut lines = Vec::new();
        lines.push(line);
        assert(views_of(lines@) =~= seq![line@]);
        return UpgradeStep::Done(UpgradeOutcome { lines, failures: 0 });
    }
    if dry_run {
        let mut line = if same {
            let mut l = owned("DRY RUN migrate the record of ");
            append(&mut l, current.to_text().as_str());
            l
        } else {
            let mut l = owned("DRY RUN upgrade ");
            append(&mut l, installed.to_text().as_str());
            append(&mut l, " to ");
            append(&mut l, current.to_text().as_str());
            l
        };
        let mut lines = Vec::new();
        lines.push(line);
        assert(views_of(lines@) =~= seq![line@]);
        return UpgradeStep::Preview(UpgradeOutcome { lines, failures: 0 });
    }
    UpgradeStep::Reinstall
}

/// The lines that are notes, in order.
pub open spec fn notes_of(lines: Seq<Seq<char>>) -> Seq<Seq<char>>
    decreases lines.len(),
{
    if lines.len() == 0 {
        Seq::empty()
    } else if has_prefix(lines.last(), "note:"@) {
        notes_of(lines.drop_last()).push(lines.last())
    } else {
        notes_of(lines.drop_last())
    }
}

/// Carry a reinstall's notes into the outcome: its destination list is
/// noise here, but a seed that did not land is something the operator
/// must hear about once.
pub fn keep_notes(outcome: &mut UpgradeOutcome, lines: Vec<String>)
    ensures
        views_of(final(outcome).lines@) == views_of(old(outcome).lines@) + notes_of(views_of(lines@)),
        final(outcome).failures == old(outcome).failures,
{
    let ghost base = views_of(outcome.lines@);
    let ghost all = views_of(lines@);
    let mut i: usize = 0;
    while i < lines.len()
        invariant
            i <= lines.len(),
            all == views_of(lines@),
            views_of(outcome.lines@) == base + notes_of(all.take(i as int)),
            outcome.failures == old(outcome).failures,
        decreases lines.len() - i,
    {
        assert(all.take(i + 1).drop_last() =~= all.take(i as int));
        assert(all.take(i + 1).last() == lines@[i as int]@);
        if crate::text::starts_with(lines[i].as_str(), "note:") {
            let ghost before = views_of(outcome.lines@);
            outcome.lines.push(lines[i].clone());
            assert(views_of(outcome.lines@) =~= before.push(lines@[i as int]@));
        }
        i += 1;
    }
    assert(all.take(lines.len() as int) =~= all);
}

/// The identifiers of `upstream` that `local` lacks, each once, in
/// increasing order.
pub fn upstream_only(upstream: &Vec<String>, local: &Vec<String>) -> (r: Vec<String>)
    ensures
        forall|i: int, j: int| 0 <= i < j < r@.len() ==> crate::text::text_lt(#[trigger] r@[i]@, #[trigger] r@[j]@),
        forall|k: Seq<char>| views_of(r@).contains(k) <==> (views_of(upstream@).contains(k) && !views_of(local@).contains(k)),
{
    let mut held: TextMap<bool> = TextMap::new();
    let mut i: usize = 0;
    while i < local.len()
        invariant
            i <= local.len(),
            forall|k: Seq<char>| #[trigger] held@.dom().contains(k) <==> views_of(local@).take(i as int).contains(k),
        decreases local.len() - i,
    {
        let ghost t = views_of(local@).take(i as int);
        assert(views_of(local@).take(i + 1) =~= t.push(local@[i as int]@));
        held.insert(local[i].as_str(), true);
        proof {
            assert forall|k: Seq<char>| #[trigger] held@.dom().contains(k) <==> t.push(local@[i as int]@).contains(k) by {
                if t.push(local@[i as int]@).contains(k) && k != local@[i as int]@ {
                    let q = choose|q: int| 0 <= q < t.len() + 1 && t.push(local@[i as int]@)[q] == k;
                    assert(t[q] == k);
                }
                if t.contains(k) {
                    let q = choose|q: int| 0 <= q < t.len() && t[q] == k;
                    assert(t.push(local@[i as int]@)[q] == k);
                }
                if k == local@[i as int]@ {
                    assert(t.push(local@[i as int]@)[t.len() as int] == k);
                }
            }
        }
        i += 1;
    }
    assert(views_of(local@).take(local.len() as int) =~= views_of(local@));
    let mut wanted: TextMap<bool> = TextMap::new();
    let mut j: usize = 0;
    while j < upstream.len()
        invariant
            j <= upstream.len(),
            forall|k: Seq<char>| #[trigger] held@.dom().contains(k) <==> views_of(local@).contains(k),
            forall|k: Seq<char>| #[trigger] wanted@.dom().contains(k) <==> (views_of(upstream@).take(j as int).contains(k) && !views_of(local@).contains(k)),
        decreases upstream.len() - j,
    {
        let ghost t = views_of(upstream@).take(j as int);
        let ghost x = upstream@[j as int]@;
        assert(views_of(upstream@).take(j + 1) =~= t.push(x));
        let missing = held.get(upstream[j].as_str()).is_none();
        if missing {
            wanted.insert(upstream[j].as_str(), true);
        }
        proof {
            assert forall|k: Seq<char>| #[trigger] wanted@.dom().contains(k) <==> (t.push(x).contains(k) && !views_of(local@).contains(k)) by {
                if t.push(x).contains(k) && k != x {
                    let q = choose|q: int| 0 <= q < t.len() + 1 && t.push(x)[q] == k;
                    assert(t[q] == k);
                }
                if t.contains(k) {
                    let q = choose|q: int| 0 <= q < t.len() && t[q] == k;
                    assert(t.push(x)[q] == k);
                }
                if k == x {
                    assert(t.push(x)[t.len() as int] == k);
                }
            }
        }
        j += 1;
    }
    assert(views_of(upstream@).take(upstream.len() as int) =~= views_of(upstream@));
    let e = wanted.entries();
    let mut r: Vec<String> = Vec::new();
    let mut k: usize = 0;
    while k < e.len()
        invariant
            k <= e.len(),
            crate::sorted_map::sorted_keys(e@),
            crate::sorted_map::entries_map(e@) == wanted@,
            r@.len() == k,
            forall|q: int| 0 <= q < k ==> (#[trigger] r@[q])@ == e@[q].0@,
        decreases e.len() - k,
    {
        r.push(e[k].0.clone());
        k += 1;
    }
    proof {
        assert forall|a: int, b: int| 0 <= a < b < r@.len() implies crate::text::text_lt(#[trigger] r@[a]@, #[trigger] r@[b]@) by {
            assert(r@[a]@ == e@[a].0@ && r@[b]@ == e@[b].0@);
        }
        assert forall|key: Seq<char>| views_of(r@).contains(key) <==> (views_of(upstream@).contains(key) && !views_of(local@).contains(key)) by {
            if views_of(r@).contains(key) {
                let q = choose|q: int| 0 <= q < views_of(r@).len() && views_of(r@)[q] == key;
                assert(r@[q]@ == e@[q].0@);
                crate::sorted_map::lemma_map_at(e@, q);
            }
            if wanted@.dom().contains(key) {
                assert(crate::sorted_map::holds_key(e@, key));
                let q = crate::sorted_map::index_of_key(e@, key);
                assert(views_of(r@)[q] == key);
            }
        }
    }
    r
}

/// The lines an upgrade closes with: each file the landing took back, the
/// rule identifiers the canon carries and the project's specifications
/// lack, then the verdict.
pub open spec fn closing_lines(
    removed: Seq<Seq<char>>,
    upstream_only: Seq<Seq<char>>,
    failures: nat,
    installed: CanonVersion,
    current: CanonVersion,
) -> Seq<Seq<char>> {
    removed.map_values(|p: Seq<char>| "removed managed file no longer owned: "@ + p) + (if upstream_only.len()
        > 0 {
        seq!["upstream rule IDs not present locally:"@] + upstream_only.map_values(|id: Seq<char>| "  "@ + id)
    } else {
        Seq::empty()
    }) + seq![
        if failures > 0 {
            "FAIL upgraded "@ + installed.text() + " to "@ + current.text() + " with unfinished removals above"@
        } else if installed == current {
            "OK migrated the record of "@ + current.text()
        } else {
            "OK upgraded "@ + installed.text() + " to "@ + current.text()
        },
    ]
}

/// Push each text, formatted as `head` then the text, onto the lines.
fn push_each(lines: &mut Vec<String>, head: &str, items: &Vec<String>)
    ensures
        views_of(final(lines)@) == views_of(old(lines)@) + views_of(items@).map_values(|p: Seq<char>| head@ + p),
{
    let ghost base = views_of(lines@);
    let mut i: usize = 0;
    while i < items.len()
        invariant
            i <= items.len(),
            views_of(lines@) == base + views_of(items@).take(i as int).map_values(|p: Seq<char>| head@ + p),
        decreases items.len() - i,
    {
        let mut line = owned(head);
        append(&mut line, items[i].as_str());
        let ghost before = views_of(lines@);
        lines.push(line);
        assert(views_of(items@).take(i + 1) =~= views_of(items@).take(i as int).push(items@[i as int]@));
        assert(views_of(lines@) =~= before.push(line@));
        assert(views_of(lines@) =~= base + views_of(items@).take(i + 1).map_values(|p: Seq<char>| head@ + p));
        i += 1;
    }
    assert(views_of(items@).take(items.len() as int) =~= views_of(items@));
}

/// Close an upgrade: report what the landing took back, the rule
/// identifiers to reconcile by hand, and the verdict.
pub fn finish(
    outcome: &mut UpgradeOutcome,
    removed: &Vec<String>,
    upstream_only: &Vec<String>,
    installed: &CanonVersion,
    current: &CanonVersion,
)
    ensures
        views_of(final(outcome).lines@) == views_of(old(outcome).lines@) + closing_lines(
            views_of(removed@),
            views_of(upstream_only@),
            old(outcome).failures as nat,
            *installed,
            *current,
        ),
        final(outcome).failures == old(outcome).failures,
{
    let ghost base = views_of(outcome.lines@);
    push_each(&mut outcome.lines, "removed managed file no longer owned: ", removed);
    let ghost mid = views_of(outcome.lines@);
    let ghost ups = views_of(upstream_only@).map_values(|id: Seq<char>| "  "@ + id);
    if upstream_only.len() > 0 {
        let header = owned("upstream rule IDs not present locally:");
        outcome.lines.push(header);
        assert(views_of(outcome.lines@) =~= mid.push(header@));
        push_each(&mut outcome.lines, "  ", upstream_only);
        assert(mid.push(header@) + ups =~= mid + (seq![header@] + ups));
    } else {
        assert(mid =~= mid + Seq::<Seq<char>>::empty());
    }
    let ghost mid2 = views_of(outcome.lines@);
    assert(mid == base + views_of(removed@).map_values(|p: Seq<char>| "removed managed file no longer owned: "@ + p));
    let verdict = if outcome.failures > 0 {
        let mut l = owned("FAIL upgraded ");
        append(&mut l, installed.to_text().as_str());
        append(&mut l, " to ");
        append(&mut l, current.to_text().as_str());
        append(&mut l, " with unfinished removals above");
        l
    } else if installed.same(current) {
        let mut l = owned("OK migrated the record of ");
        append(&mut l, current.to_text().as_str());
        l
    } else {
        let mut l = owned("OK upgraded ");
        append(&mut l, installed.to_text().as_str());
        append(&mut l, " to ");
        append(&mut l, current.to_text().as_str());
        l
    };
    outcome.lines.push(verdict);
    assert(views_of(outcome.lines@) =~= mid2.push(verdict@));
    assert(views_of(outcome.lines@) =~= base + closing_lines(
        views_of(removed@),
        views_of(upstream_only@),
        old(outcome).failures as nat,
        *installed,
        *current,
    ));
}

} // verus!
