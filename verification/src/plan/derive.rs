//! Turn one computed target state into the operations that reach it.
//!
//! What a release lands into a target is one computation; the planner
//! takes its answer and says what kind of write each destination is. The
//! command layer reads what the target holds at each destination; this
//! module decides which writes that leaves, which kind each one is, and
//! which managed files a release that stopped landing them takes back.

use vstd::prelude::*;

use crate::digest::{digest_text, Sha256};
use crate::landing::observe::digest_view;
use crate::plan::operation::{joined_parts, path_components, target_path_refusal, Class, Operation, TargetPath, TargetPathError};
use crate::plan::planner::writes::{operation_model, operation_models, OperationModel};
use crate::sorted_map::TextMap;
use crate::text::{has_prefix, same_text, starts_with, views_of};

verus! {

/// One destination a landing would write: where, the bytes it would put
/// there, and the digest of what the target holds there now.
#[derive(Debug)]
pub struct Landed {
    /// The destination, relative to the target.
    pub destination: String,
    /// The bytes the landing would put there.
    pub bytes: Vec<u8>,
    /// What the target holds there now, where it holds a file.
    pub held: Option<Sha256>,
}

/// A managed file the record vouches for, and what the target holds at
/// its destination now.
#[derive(Debug)]
pub struct RecordedManaged {
    /// The destination, relative to the target.
    pub destination: String,
    /// The digest the record vouches for.
    pub recorded: Sha256,
    /// What the target holds there now, where it holds a file.
    pub held: Option<Sha256>,
}

/// Where an instance keeps the destinations that take their own kind of
/// write: the record, the files whose marked regions are spliced, and the
/// roots the canon owns outright.
#[derive(Debug)]
pub struct Layout {
    /// The instance record's destination.
    pub record: String,
    /// The hosts whose managed region is spliced rather than replaced.
    pub spliced: Vec<String>,
    /// The roots under which a managed file may be taken back.
    pub prunable_roots: Vec<String>,
}

/// A destination as an operation names it.
pub open spec fn named(dest: Seq<char>) -> Seq<char> {
    joined_parts(path_components(dest))
}

/// The write one landed destination is, where the target does not already
/// hold its bytes: the record, a region splice, an adopted file, or a
/// managed file, in that order of precedence.
pub open spec fn landed_write(f: Landed, layout: Layout, adopted: Seq<Seq<char>>) -> Option<OperationModel> {
    let after = digest_text(f.bytes@);
    let before = digest_view(f.held);
    let path = named(f.destination@);
    if before == Some(after) {
        None
    } else if f.destination@ == layout.record@ {
        Some(OperationModel::WriteRecord(path, before, after))
    } else if views_of(layout.spliced@).contains(f.destination@) {
        Some(OperationModel::SpliceBlock(path, f.destination@, before, after))
    } else if adopted.contains(f.destination@) {
        Some(OperationModel::WriteFile(path, Class::Adopted, before, after))
    } else {
        Some(OperationModel::WriteFile(path, Class::Managed, before, after))
    }
}

/// The writes the landed destinations are, in order.
pub open spec fn landed_writes(fs: Seq<Landed>, layout: Layout, adopted: Seq<Seq<char>>) -> Seq<OperationModel>
    decreases fs.len(),
{
    if fs.len() == 0 {
        Seq::empty()
    } else {
        match landed_write(fs.last(), layout, adopted) {
            Some(m) => landed_writes(fs.drop_last(), layout, adopted).push(m),
            None => landed_writes(fs.drop_last(), layout, adopted),
        }
    }
}

/// The bytes each write lands, by the digest of those bytes.
pub open spec fn landed_blobs(fs: Seq<Landed>, layout: Layout, adopted: Seq<Seq<char>>) -> Map<Seq<char>, Seq<u8>>
    decreases fs.len(),
{
    if fs.len() == 0 {
        Map::empty()
    } else {
        let f = fs.last();
        if landed_write(f, layout, adopted) is Some {
            landed_blobs(fs.drop_last(), layout, adopted).insert(digest_text(f.bytes@), f.bytes@)
        } else {
            landed_blobs(fs.drop_last(), layout, adopted)
        }
    }
}

/// The destinations a landing puts bytes at.
pub open spec fn destinations(fs: Seq<Landed>) -> Seq<Seq<char>> {
    fs.map_values(|f: Landed| f.destination@)
}

/// Whether a destination lies under a root the canon owns.
pub open spec fn prunable(dest: Seq<char>, roots: Seq<Seq<char>>) -> bool {
    exists|i: int| 0 <= i < roots.len() && has_prefix(dest, #[trigger] roots[i])
}

/// Whether a recorded managed file is a candidate to take back: this
/// release no longer lands it, and it lies under a root the canon owns.
pub open spec fn dropped(r: RecordedManaged, fs: Seq<Landed>, layout: Layout) -> bool {
    !destinations(fs).contains(r.destination@) && prunable(r.destination@, views_of(layout.prunable_roots@))
}

/// The removal one recorded managed file is: one the release dropped, and
/// whose bytes are still the ones the record vouches for. An edited file
/// stays, because the operator edited it and a removal would lose that.
pub open spec fn removal(r: RecordedManaged, fs: Seq<Landed>, layout: Layout) -> Option<OperationModel> {
    if dropped(r, fs, layout) && digest_view(r.held) == Some(r.recorded@) {
        Some(OperationModel::RemoveOwnedFile(named(r.destination@), r.recorded@))
    } else {
        None
    }
}

/// The removals, in record order.
pub open spec fn removals(rs: Seq<RecordedManaged>, fs: Seq<Landed>, layout: Layout) -> Seq<OperationModel>
    decreases rs.len(),
{
    if rs.len() == 0 {
        Seq::empty()
    } else {
        match removal(rs.last(), fs, layout) {
            Some(m) => removals(rs.drop_last(), fs, layout).push(m),
            None => removals(rs.drop_last(), fs, layout),
        }
    }
}

/// The recorded destinations a removal would name, in record order.
pub open spec fn dropped_destinations(rs: Seq<RecordedManaged>, fs: Seq<Landed>, layout: Layout) -> Seq<Seq<char>>
    decreases rs.len(),
{
    if rs.len() == 0 {
        Seq::empty()
    } else if dropped(rs.last(), fs, layout) {
        dropped_destinations(rs.drop_last(), fs, layout).push(rs.last().destination@)
    } else {
        dropped_destinations(rs.drop_last(), fs, layout)
    }
}

/// The refusal of the first path no operation may name, where one is.
pub open spec fn first_refusal(paths: Seq<Seq<char>>) -> Option<Seq<char>>
    decreases paths.len(),
{
    if paths.len() == 0 {
        None
    } else {
        match first_refusal(paths.drop_last()) {
            Some(m) => Some(m),
            None => match target_path_refusal(paths.last()) {
                Some(why) => Some(paths.last() + ": "@ + why),
                None => None,
            },
        }
    }
}

/// Every write one target state implies, and the bytes each one lands.
#[derive(Debug)]
pub struct Derived {
    /// The operations, the writes in landing order, then the removals.
    pub operations: Vec<Operation>,
    /// The bytes each write lands, by their digest.
    pub blobs: TextMap<Vec<u8>>,
}

/// Whether a destination is among the landed ones.
fn lands(files: &Vec<Landed>, dest: &str) -> (r: bool)
    ensures
        r == destinations(files@).contains(dest@),
{
    let mut i: usize = 0;
    while i < files.len()
        invariant
            i <= files.len(),
            forall|j: int| 0 <= j < i ==> files@[j].destination@ != dest@,
        decreases files.len() - i,
    {
        if same_text(files[i].destination.as_str(), dest) {
            assert(destinations(files@)[i as int] == dest@);
            return true;
        }
        i += 1;
    }
    proof {
        if destinations(files@).contains(dest@) {
            let j = choose|j: int| 0 <= j < destinations(files@).len() && destinations(files@)[j] == dest@;
            assert(files@[j].destination@ == dest@);
        }
    }
    false
}

/// Whether a destination lies under one of the roots.
fn under_root(dest: &str, roots: &Vec<String>) -> (r: bool)
    ensures
        r == prunable(dest@, views_of(roots@)),
{
    let mut i: usize = 0;
    while i < roots.len()
        invariant
            i <= roots.len(),
            forall|j: int| 0 <= j < i ==> !has_prefix(dest@, #[trigger] views_of(roots@)[j]),
        decreases roots.len() - i,
    {
        if starts_with(dest, roots[i].as_str()) {
            assert(has_prefix(dest@, views_of(roots@)[i as int]));
            return true;
        }
        i += 1;
    }
    false
}

/// Whether a text is one of the texts.
fn among(texts: &Vec<String>, t: &str) -> (r: bool)
    ensures
        r == views_of(texts@).contains(t@),
{
    let mut i: usize = 0;
    while i < texts.len()
        invariant
            i <= texts.len(),
            forall|j: int| 0 <= j < i ==> texts@[j]@ != t@,
        decreases texts.len() - i,
    {
        if same_text(texts[i].as_str(), t) {
            assert(views_of(texts@)[i as int] == t@);
            return true;
        }
        i += 1;
    }
    proof {
        if views_of(texts@).contains(t@) {
            let j = choose|j: int| 0 <= j < views_of(texts@).len() && views_of(texts@)[j] == t@;
            assert(texts@[j]@ == t@);
        }
    }
    false
}

/// Every write one target state implies, and the bytes each one lands.
///
/// A destination that already holds the bytes is no operation: a plan
/// that listed it would tell an operator something would change when
/// nothing would. After the writes come the removals of managed files this
/// release no longer lands. A destination no operation may name refuses
/// the whole derivation, the first one in order naming it.
pub fn operations_for(
    files: &Vec<Landed>,
    layout: &Layout,
    adopted: &Vec<String>,
    recorded_managed: &Vec<RecordedManaged>,
) -> (r: Result<Derived, TargetPathError>)
    ensures
        match first_refusal(
            destinations(files@) + dropped_destinations(recorded_managed@, files@, *layout),
        ) {
            Some(m) => r matches Err(e) && e@ == m,
            None => r matches Ok(d) && operation_models(d.operations@) == landed_writes(
                files@,
                *layout,
                views_of(adopted@),
            ) + removals(recorded_managed@, files@, *layout) && d.blobs@ == landed_blobs(
                files@,
                *layout,
                views_of(adopted@),
            ),
        },
{
    let ghost ad = views_of(adopted@);
    let mut operations: Vec<Operation> = Vec::new();
    let mut blobs: TextMap<Vec<u8>> = TextMap::new();
    let mut i: usize = 0;
    while i < files.len()
        invariant
            i <= files.len(),
            ad == views_of(adopted@),
            first_refusal(destinations(files@.take(i as int))) is None,
            operation_models(operations@) == landed_writes(files@.take(i as int), *layout, ad),
            blobs@ == landed_blobs(files@.take(i as int), *layout, ad),
        decreases files.len() - i,
    {
        let ghost t = files@.take(i as int);
        assert(files@.take(i + 1).drop_last() =~= t);
        assert(files@.take(i + 1).last() == files@[i as int]);
        assert(destinations(files@.take(i + 1)).drop_last() =~= destinations(t));
        let f = &files[i];
        let path = match TargetPath::new(f.destination.as_str()) {
            Ok(p) => p,
            Err(e) => {
                proof {
                    let all = destinations(files@) + dropped_destinations(recorded_managed@, files@, *layout);
                    assert(destinations(files@.take(i + 1)) =~= destinations(files@).take(i + 1));
                    lemma_refusal_prefix(destinations(files@.take(i + 1)), destinations(files@));
                    assert(destinations(files@) =~= all.take(destinations(files@).len() as int));
                    lemma_refusal_prefix(destinations(files@), all);
                }
                return Err(e);
            },
        };
        let after = Sha256::of(f.bytes.as_slice());
        let unchanged = match &f.held {
            Some(h) => h.same(&after),
            None => false,
        };
        if !unchanged {
            let before = match &f.held {
                Some(h) => Some(h.copied()),
                None => None,
            };
            let key = after.copied();
            let op = if same_text(f.destination.as_str(), layout.record.as_str()) {
                Operation::WriteRecord { path, before, after }
            } else if among(&layout.spliced, f.destination.as_str()) {
                Operation::SpliceBlock { path, marker: f.destination.clone(), before, after }
            } else if among(adopted, f.destination.as_str()) {
                Operation::WriteFile { path, class: Class::Adopted, before, after }
            } else {
                Operation::WriteFile { path, class: Class::Managed, before, after }
            };
            let ghost before_ops = operation_models(operations@);
            operations.push(op);
            assert(operation_models(operations@) =~= before_ops.push(operation_model(op)));
            blobs.insert(key.as_str(), crate::text::copy_bytes(&f.bytes));
        }
        i += 1;
    }
    assert(files@.take(files.len() as int) =~= files@);
    let ghost writes = operation_models(operations@);
    let mut k: usize = 0;
    while k < recorded_managed.len()
        invariant
            k <= recorded_managed.len(),
            ad == views_of(adopted@),
            first_refusal(destinations(files@)) is None,
            first_refusal(destinations(files@) + dropped_destinations(recorded_managed@.take(k as int), files@, *layout)) is None,
            writes == landed_writes(files@, *layout, ad),
            operation_models(operations@) == writes + removals(recorded_managed@.take(k as int), files@, *layout),
            blobs@ == landed_blobs(files@, *layout, ad),
        decreases recorded_managed.len() - k,
    {
        let ghost t = recorded_managed@.take(k as int);
        assert(recorded_managed@.take(k + 1).drop_last() =~= t);
        assert(recorded_managed@.take(k + 1).last() == recorded_managed@[k as int]);
        let r = &recorded_managed[k];
        let ghost before_ops = operation_models(operations@);
        if !lands(files, r.destination.as_str()) && under_root(r.destination.as_str(), &layout.prunable_roots) {
            let ghost prefix = destinations(files@) + dropped_destinations(recorded_managed@.take(k + 1), files@, *layout);
            assert(prefix.drop_last() =~= destinations(files@) + dropped_destinations(t, files@, *layout));
            let path = match TargetPath::new(r.destination.as_str()) {
                Ok(p) => p,
                Err(e) => {
                    proof {
                        lemma_refusal_extends(destinations(files@), recorded_managed@, k + 1, files@, *layout);
                    }
                    return Err(e);
                },
            };
            if let Some(h) = &r.held {
                if h.same(&r.recorded) {
                    let op = Operation::RemoveOwnedFile { path, before: h.copied() };
                    operations.push(op);
                    assert(operation_models(operations@) =~= before_ops.push(operation_model(op)));
                }
            }
        } else {
            assert(dropped_destinations(recorded_managed@.take(k + 1), files@, *layout) =~= dropped_destinations(t, files@, *layout));
        }
        k += 1;
    }
    assert(recorded_managed@.take(recorded_managed.len() as int) =~= recorded_managed@);
    Ok(Derived { operations, blobs })
}

/// A refusal found in a prefix of the paths is the refusal of the whole.
proof fn lemma_refusal_prefix(prefix: Seq<Seq<char>>, all: Seq<Seq<char>>)
    requires
        first_refusal(prefix) is Some,
        prefix.len() <= all.len(),
        prefix == all.take(prefix.len() as int),
    ensures
        first_refusal(all) == first_refusal(prefix),
    decreases all.len(),
{
    if all.len() > prefix.len() {
        assert(all.drop_last().take(prefix.len() as int) =~= prefix);
        lemma_refusal_prefix(prefix, all.drop_last());
    } else {
        assert(all =~= prefix);
    }
}

/// A refusal among the first `n` records' dropped destinations is the
/// refusal of all of them.
proof fn lemma_refusal_extends(
    head: Seq<Seq<char>>,
    rs: Seq<RecordedManaged>,
    n: int,
    fs: Seq<Landed>,
    layout: Layout,
)
    requires
        0 <= n <= rs.len(),
        first_refusal(head + dropped_destinations(rs.take(n), fs, layout)) is Some,
    ensures
        first_refusal(head + dropped_destinations(rs, fs, layout)) == first_refusal(
            head + dropped_destinations(rs.take(n), fs, layout),
        ),
    decreases rs.len(),
{
    if n == rs.len() {
        assert(rs.take(n) =~= rs);
    } else {
        assert(rs.drop_last().take(n) =~= rs.take(n));
        lemma_refusal_extends(head, rs.drop_last(), n, fs, layout);
        let x = head + dropped_destinations(rs.drop_last(), fs, layout);
        if dropped(rs.last(), fs, layout) {
            assert(head + dropped_destinations(rs, fs, layout) =~= x.push(rs.last().destination@));
            assert(x.push(rs.last().destination@).drop_last() =~= x);
        } else {
            assert(head + dropped_destinations(rs, fs, layout) =~= x);
        }
    }
}

/// A settled target needs no write: where every landed destination
/// already holds the bytes the landing would put there, no write is
/// derived and no byte is carried, whatever the layout says.
pub proof fn law_a_settled_target_takes_no_write(files: Seq<Landed>, layout: Layout, adopted: Seq<Seq<char>>)
    requires
        forall|i: int| 0 <= i < files.len() ==> digest_view((#[trigger] files[i]).held) == Some(digest_text(files[i].bytes@)),
    ensures
        landed_writes(files, layout, adopted).len() == 0,
        landed_blobs(files, layout, adopted) == Map::<Seq<char>, Seq<u8>>::empty(),
    decreases files.len(),
{
    if files.len() > 0 {
        let rest = files.drop_last();
        assert forall|i: int| 0 <= i < rest.len() implies digest_view((#[trigger] rest[i]).held) == Some(digest_text(rest[i].bytes@)) by {
            assert(rest[i] == files[i]);
        }
        law_a_settled_target_takes_no_write(rest, layout, adopted);
        assert(landed_write(files.last(), layout, adopted) is None);
    }
}

} // verus!
