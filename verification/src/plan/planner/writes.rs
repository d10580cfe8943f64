//! Every write a plan derives for itself.

use vstd::prelude::*;

use crate::digest::Sha256;
use crate::landing::observe::{digest_view, held_by_path, held_map, recorded_files, Installation, RecordedFile};
use crate::landing::path::TargetPath;
use crate::plan::classify::Classification;
use crate::plan::operation::{target_path_refusal, Class, Operation};
use crate::plan::planner::findings::normalized;
use crate::plan::planner::inputs::{selected_in, Landing, Projection};
use crate::sorted_map::TextMap;

verus! {

/// An operation read as plain values.
pub enum OperationModel {
    /// Put bytes at a destination: where, for whom, what it must hold, what it will.
    WriteFile(Seq<char>, Class, Option<Seq<char>>, Seq<char>),
    /// Keep the target's bytes and move the baseline: where, what it holds,
    /// the baseline before, the baseline after.
    KeepFile(Seq<char>, Seq<char>, Seq<char>, Seq<char>),
    /// Replace a marked region: where, which, before, after.
    SpliceBlock(Seq<char>, Seq<char>, Option<Seq<char>>, Seq<char>),
    /// Take back a file: where, and what it must hold.
    RemoveOwnedFile(Seq<char>, Seq<char>),
    /// Write the inherited violations: where, before, after.
    WriteDebt(Seq<char>, Option<Seq<char>>, Seq<char>),
    /// Write the record: where, before, after.
    WriteRecord(Seq<char>, Option<Seq<char>>, Seq<char>),
}

/// One operation read as plain values.
pub open spec fn operation_model(op: Operation) -> OperationModel {
    match op {
        Operation::WriteFile { path, class, before, after } => OperationModel::WriteFile(
            path@,
            class,
            digest_view(before),
            after@,
        ),
        Operation::KeepFile { path, held, baseline_before, baseline_after } => OperationModel::KeepFile(
            path@,
            held@,
            baseline_before@,
            baseline_after@,
        ),
        Operation::SpliceBlock { path, marker, before, after } => OperationModel::SpliceBlock(
            path@,
            marker@,
            digest_view(before),
            after@,
        ),
        Operation::RemoveOwnedFile { path, before } => OperationModel::RemoveOwnedFile(path@, before@),
        Operation::WriteDebt { path, before, after } => OperationModel::WriteDebt(
            path@,
            digest_view(before),
            after@,
        ),
        Operation::WriteRecord { path, before, after } => OperationModel::WriteRecord(
            path@,
            digest_view(before),
            after@,
        ),
    }
}

/// Operations read as plain values.
pub open spec fn operation_models(ops: Seq<Operation>) -> Seq<OperationModel> {
    ops.map_values(|op: Operation| operation_model(op))
}

/// The managed writes: each projection the release carries, at a
/// destination a plan may name, whose bytes the target does not already
/// hold.
pub open spec fn managed_writes(
    managed: Seq<Projection>,
    candidate: Map<Seq<char>, Seq<char>>,
    held: Map<Seq<char>, Seq<char>>,
) -> Seq<OperationModel>
    decreases managed.len(),
{
    if managed.len() == 0 {
        Seq::empty()
    } else {
        let before = managed_writes(managed.drop_last(), candidate, held);
        let p = managed.last();
        if !candidate.dom().contains(p.source@) || target_path_refusal(p.destination@) is Some {
            before
        } else {
            let path = normalized(p.destination@);
            let after = candidate[p.source@];
            let was = selected_in(held, path);
            if was == Some(after) {
                before
            } else {
                before.push(OperationModel::WriteFile(path, Class::Managed, was, after))
            }
        }
    }
}

/// What the record says of one adopted path's baseline: nothing where the
/// record does not list the path, and otherwise the baseline the last entry
/// for it carries, if any.
pub open spec fn recorded_baseline(files: Seq<RecordedFile>, path: Seq<char>) -> Option<Seq<char>>
    decreases files.len(),
{
    if files.len() == 0 {
        None
    } else if files.last().path@ == path {
        digest_view(files.last().baseline)
    } else {
        recorded_baseline(files.drop_last(), path)
    }
}

/// The baseline an adopted file is read against now: the record's, or the
/// recorded release's bytes where the record carries none.
pub open spec fn baseline_now(
    files: Seq<RecordedFile>,
    baseline: Option<Map<Seq<char>, Seq<char>>>,
    path: Seq<char>,
    source: Seq<char>,
) -> Option<Seq<char>> {
    match recorded_baseline(files, path) {
        Some(b) => Some(b),
        None => match baseline {
            Some(m) => selected_in(m, source),
            None => None,
        },
    }
}

/// The adopted writes: a seed where the target holds nothing, and where it
/// holds the project's bytes, a move of the baseline only, when the
/// baseline is known and differs from the release's.
pub open spec fn adopted_writes(
    adopted: Seq<Projection>,
    candidate: Map<Seq<char>, Seq<char>>,
    held: Map<Seq<char>, Seq<char>>,
    files: Seq<RecordedFile>,
    baseline: Option<Map<Seq<char>, Seq<char>>>,
) -> Seq<OperationModel>
    decreases adopted.len(),
{
    if adopted.len() == 0 {
        Seq::empty()
    } else {
        let before = adopted_writes(adopted.drop_last(), candidate, held, files, baseline);
        let p = adopted.last();
        if !candidate.dom().contains(p.source@) || target_path_refusal(p.destination@) is Some {
            before
        } else {
            let path = normalized(p.destination@);
            let seed = candidate[p.source@];
            match selected_in(held, path) {
                Some(current) => match baseline_now(files, baseline, path, p.source@) {
                    None => before,
                    Some(b) => if b == seed {
                        before
                    } else {
                        before.push(OperationModel::KeepFile(path, current, b, seed))
                    },
                },
                None => before.push(OperationModel::WriteFile(path, Class::Adopted, None, seed)),
            }
        }
    }
}

/// The adopted files an installation records.
pub open spec fn adopted_files(installation: Option<Installation>) -> Seq<RecordedFile> {
    match installation {
        Some(i) => i.adopted@,
        None => Seq::empty(),
    }
}

/// An optional map read as its view.
pub open spec fn map_view(m: Option<TextMap<Sha256>>) -> Option<Map<Seq<char>, Seq<char>>> {
    match m {
        Some(x) => Some(x@),
        None => None,
    }
}

/// Every write a plan derives: nothing for an untrusted or current target
/// or before the profile and its root are settled, and otherwise the
/// managed writes followed by the adopted ones.
pub open spec fn writes_spec(
    classification: Classification,
    landing: Option<Landing>,
    installation: Option<Installation>,
    candidate: Map<Seq<char>, Seq<char>>,
    baseline: Option<Map<Seq<char>, Seq<char>>>,
) -> Seq<OperationModel> {
    if classification is Invalid || classification is Current {
        Seq::empty()
    } else {
        match landing {
            None => Seq::empty(),
            Some(l) => {
                let held = held_map(recorded_files(installation));
                managed_writes(l.managed@, candidate, held) + adopted_writes(
                    l.adopted@,
                    candidate,
                    held,
                    adopted_files(installation),
                    baseline,
                )
            },
        }
    }
}

/// The baseline the record carries for an adopted path.
fn baseline_recorded(files: &Vec<RecordedFile>, path: &str) -> (r: Option<Sha256>)
    ensures
        digest_view(r) == recorded_baseline(files@, path@),
{
    let mut k: usize = files.len();
    assert(files@.take(k as int) =~= files@);
    while k > 0
        invariant
            k <= files.len(),
            recorded_baseline(files@, path@) == recorded_baseline(files@.take(k as int), path@),
        decreases k,
    {
        let f = &files[k - 1];
        assert(files@.take(k as int).drop_last() =~= files@.take(k - 1));
        assert(files@.take(k as int).last() == files@[k - 1]);
        if crate::text::same_text(f.path.as_str(), path) {
            return match &f.baseline {
                Some(b) => Some(b.copied()),
                None => None,
            };
        }
        k -= 1;
    }
    None
}

/// A digest the map holds under a key, as a fresh copy.
fn digest_at(map: &TextMap<Sha256>, key: &str) -> (r: Option<Sha256>)
    ensures
        digest_view(r) == selected_in(map@, key@),
{
    match map.get(key) {
        Some(d) => Some(d.copied()),
        None => None,
    }
}

/// Every write the plan will make.
pub fn operations_of(
    classification: Classification,
    landing: &Option<Landing>,
    installation: &Option<Installation>,
    candidate: &TextMap<Sha256>,
    baseline: &Option<TextMap<Sha256>>,
) -> (r: Vec<Operation>)
    ensures
        operation_models(r@) == writes_spec(
            classification,
            *landing,
            *installation,
            candidate@,
            map_view(*baseline),
        ),
{
    let mut operations: Vec<Operation> = Vec::new();
    if matches!(classification, Classification::Invalid | Classification::Current) {
        assert(operation_models(operations@) =~= Seq::<OperationModel>::empty());
        return operations;
    }
    let l = match landing {
        None => {
            assert(operation_models(operations@) =~= Seq::<OperationModel>::empty());
            return operations;
        },
        Some(l) => l,
    };
    let held = held_by_path(
        match installation {
            Some(i) => Some(i),
            None => None,
        },
    );
    let ghost hm = held_map(recorded_files(*installation));
    assert(held@ == hm);
    let mut i: usize = 0;
    while i < l.managed.len()
        invariant
            i <= l.managed.len(),
            held@ == hm,
            operation_models(operations@) == managed_writes(l.managed@.take(i as int), candidate@, hm),
        decreases l.managed.len() - i,
    {
        let p = &l.managed[i];
        assert(l.managed@.take(i + 1).drop_last() =~= l.managed@.take(i as int));
        assert(l.managed@.take(i + 1).last() == l.managed@[i as int]);
        if let Some(after) = candidate.get(p.source.as_str()) {
            if let Ok(path) = TargetPath::new(p.destination.as_str()) {
                let before = digest_at(&held, path.as_str());
                let unchanged = match &before {
                    Some(b) => b.same(after),
                    None => false,
                };
                if !unchanged {
                    let ghost prior = operations@;
                    operations.push(
                        Operation::WriteFile { path, class: Class::Managed, before, after: after.copied() },
                    );
                    assert(operation_models(operations@) =~= operation_models(prior).push(
                        operation_model(operations@.last()),
                    ));
                }
            }
        }
        i += 1;
    }
    assert(l.managed@.take(l.managed.len() as int) =~= l.managed@);
    let ghost managed_part = operation_models(operations@);
    let empty_files: Vec<RecordedFile> = Vec::new();
    let files = match installation {
        Some(inst) => &inst.adopted,
        None => &empty_files,
    };
    assert(files@ == adopted_files(*installation));
    let mut j: usize = 0;
    while j < l.adopted.len()
        invariant
            j <= l.adopted.len(),
            held@ == hm,
            files@ == adopted_files(*installation),
            operation_models(operations@) == managed_part + adopted_writes(
                l.adopted@.take(j as int),
                candidate@,
                hm,
                files@,
                map_view(*baseline),
            ),
        decreases l.adopted.len() - j,
    {
        let p = &l.adopted[j];
        assert(l.adopted@.take(j + 1).drop_last() =~= l.adopted@.take(j as int));
        assert(l.adopted@.take(j + 1).last() == l.adopted@[j as int]);
        let ghost prior = operations@;
        if let Some(seed) = candidate.get(p.source.as_str()) {
            if let Ok(path) = TargetPath::new(p.destination.as_str()) {
                match digest_at(&held, path.as_str()) {
                    // An adopted file the target holds is the project's.
                    // Only the baseline it is read against moves.
                    Some(current) => {
                        let from_record = baseline_recorded(files, path.as_str());
                        let before = match from_record {
                            Some(b) => Some(b),
                            None => match baseline {
                                Some(m) => digest_at(m, p.source.as_str()),
                                None => None,
                            },
                        };
                        if let Some(b) = before {
                            if !b.same(seed) {
                                operations.push(
                                    Operation::KeepFile {
                                        path,
                                        held: current,
                                        baseline_before: b,
                                        baseline_after: seed.copied(),
                                    },
                                );
                            }
                        }
                    },
                    None => {
                        operations.push(
                            Operation::WriteFile {
                                path,
                                class: Class::Adopted,
                                before: None,
                                after: seed.copied(),
                            },
                        );
                    },
                }
            }
        }
        proof {
            if operations@.len() > prior.len() {
                assert(operations@ == prior.push(operations@.last()));
                assert(operation_models(operations@) =~= operation_models(prior).push(
                    operation_model(operations@.last()),
                ));
            }
        }
        j += 1;
    }
    assert(l.adopted@.take(l.adopted.len() as int) =~= l.adopted@);
    operations
}

} // verus!
