//! Everything that must hold before an apply.

use vstd::prelude::*;

use crate::landing::observe::{digest_view, Installation, RecordedFile};
use crate::plan::classify::Classification;
use crate::plan::decision::{id, Decision};
use crate::plan::operation::{
    first_clash, kind_of, lemma_first_clash_unique, no_duplicate_destination, path_of,
    shares_destination, Operation,
};
use crate::plan::planner::decision_preconditions;
use crate::plan::readiness::{Evaluation, Precondition, Requirement};
use crate::text::{append, decimal, join_texts, joined, owned, push_decimal, same_text, views_of};

verus! {

/// An evaluation read as plain values.
pub enum EvaluationModel {
    /// It holds.
    Satisfied,
    /// Nobody could tell, and why.
    NotObserved(Seq<char>),
    /// It does not hold, and why.
    Unsatisfied(Seq<char>),
}

/// A precondition read as its identifier, statement, requirement,
/// evaluation, and resolving decision.
pub type GateModel = (Seq<char>, Seq<char>, Requirement, EvaluationModel, Option<Seq<char>>);

/// One evaluation read as plain values.
pub open spec fn evaluation_model(e: Evaluation) -> EvaluationModel {
    match e {
        Evaluation::Satisfied => EvaluationModel::Satisfied,
        Evaluation::NotObserved { reason } => EvaluationModel::NotObserved(reason@),
        Evaluation::Unsatisfied { reason } => EvaluationModel::Unsatisfied(reason@),
    }
}

/// One precondition read as plain values.
pub open spec fn gate_model(p: Precondition) -> GateModel {
    (
        p.id@,
        p.statement@,
        p.requirement,
        evaluation_model(p.evaluation),
        match p.resolved_by {
            Some(r) => Some(r@),
            None => None,
        },
    )
}

/// Preconditions read as plain values.
pub open spec fn gate_models(ps: Seq<Precondition>) -> Seq<GateModel> {
    ps.map_values(|p: Precondition| gate_model(p))
}

/// Whether no precondition cites evidence.
pub open spec fn uncited(ps: Seq<Precondition>) -> bool {
    forall|i: int| 0 <= i < ps.len() ==> (#[trigger] ps[i]).evidence_refs@.len() == 0
}

/// A required or advisory precondition no decision resolves.
pub open spec fn gate(
    id: Seq<char>,
    statement: Seq<char>,
    requirement: Requirement,
    evaluation: EvaluationModel,
) -> GateModel {
    (id, statement, requirement, evaluation, None)
}

/// The precondition an unanswered or answered decision raises.
pub open spec fn waiting_gate(d: Decision) -> GateModel {
    (
        "decision:"@ + d.id@,
        d.question@,
        Requirement::DecisionRequired,
        if d.selected is Some {
            EvaluationModel::Satisfied
        } else {
            EvaluationModel::Unsatisfied("the operator has not answered it"@)
        },
        Some(d.id@),
    )
}

/// Every managed file the target no longer holds as the record says, as a
/// person reads it.
pub open spec fn edited_spec(files: Seq<RecordedFile>) -> Seq<Seq<char>>
    decreases files.len(),
{
    if files.len() == 0 {
        Seq::empty()
    } else {
        let before = edited_spec(files.drop_last());
        let f = files.last();
        match digest_view(f.held) {
            Some(found) => if found == f.recorded@ {
                before
            } else {
                before.push(f.path@ + " was edited"@)
            },
            None => before.push(f.path@ + " is gone"@),
        }
    }
}

/// The managed files of an installation, if any.
pub open spec fn managed_files(installation: Option<Installation>) -> Seq<RecordedFile> {
    match installation {
        Some(i) => i.managed@,
        None => Seq::empty(),
    }
}

/// The answer selected for the first decision with an identifier.
pub open spec fn first_selected(ds: Seq<Decision>, key: Seq<char>) -> Option<Seq<char>>
    decreases ds.len(),
{
    if ds.len() == 0 {
        None
    } else if ds[0].id@ == key {
        match ds[0].selected {
            Some(s) => Some(s@),
            None => None,
        }
    } else {
        first_selected(ds.drop_first(), key)
    }
}

/// Whether any operation writes the record.
pub open spec fn writes_record(ops: Seq<Operation>) -> bool {
    exists|i: int| 0 <= i < ops.len() && (#[trigger] ops[i]) is WriteRecord
}

/// Whether two operations write one destination.
pub open spec fn clashes(ops: Seq<Operation>) -> bool {
    exists|a: int, b: int| #[trigger] shares_destination(ops, a, b)
}

/// The first clash, as a person reads it.
pub open spec fn clash_text(ops: Seq<Operation>) -> Seq<char> {
    let (a, b) = choose|a: int, b: int| #[trigger] first_clash(ops, a, b);
    path_of(ops[a])@ + " is written by two operations, "@ + kind_of(ops[a]) + " and "@ + kind_of(
        ops[b],
    )
}

/// The first-landing reason that no record is derived yet.
pub open spec fn first_landing_reason() -> Seq<char> {
    "this engine does not yet derive the record or the marked regions; land with 'sdd init --apply'"@
}

/// A readable record, where the record is broken.
pub open spec fn readable_spec(invalid: Option<Seq<char>>) -> Seq<GateModel> {
    match invalid {
        Some(reason) => seq![
            gate(
                "record-is-readable"@,
                "the instance record parses"@,
                Requirement::Required,
                EvaluationModel::Unsatisfied(reason),
            ),
        ],
        None => Seq::empty(),
    }
}

/// Unedited managed files, where some were edited or are gone.
pub open spec fn unedited_spec(installation: Option<Installation>) -> Seq<GateModel> {
    let edited = edited_spec(managed_files(installation));
    if edited.len() > 0 {
        seq![
            gate(
                "managed-files-are-unedited"@,
                "every managed file still holds what the record says"@,
                Requirement::Required,
                EvaluationModel::Unsatisfied(joined(edited, "; "@)),
            ),
        ]
    } else {
        Seq::empty()
    }
}

/// A readable baseline, advisory, where an installation's was not read.
pub open spec fn baseline_spec(baseline_read: bool, installation: Option<Installation>) -> Seq<
    GateModel,
> {
    if !baseline_read && installation is Some {
        seq![
            gate(
                "baseline-is-readable"@,
                "the recorded release's bundle can be read for baselines"@,
                Requirement::Advisory,
                EvaluationModel::NotObserved(
                    "the recorded release's bundle was not read, so an adopted baseline cannot move"@,
                ),
            ),
        ]
    } else {
        Seq::empty()
    }
}

/// No incremental migration over a structural finding.
pub open spec fn incremental_spec(
    classification: Classification,
    ds: Seq<Decision>,
    structural: nat,
) -> Seq<GateModel> {
    if classification is Migration && first_selected(ds, id::MIGRATION_SCOPE@) == Some(
        "incremental"@,
    ) && structural > 0 {
        seq![
            gate(
                "incremental-scope-has-no-structural-finding"@,
                "an incremental migration leaves no structural finding behind"@,
                Requirement::Required,
                EvaluationModel::Unsatisfied(
                    decimal(structural) + " structural finding(s) would make two conventions coexist"@,
                ),
            ),
        ]
    } else {
        Seq::empty()
    }
}

/// A first landing that records the instance, where it writes anything.
pub open spec fn recorded_spec(classification: Classification, ops: Seq<Operation>) -> Seq<
    GateModel,
> {
    if (classification is Setup || classification is Migration) && !writes_record(ops) && ops.len()
        > 0 {
        seq![
            gate(
                "the-plan-records-the-instance"@,
                "a first landing writes the instance record and both marked regions"@,
                Requirement::Required,
                EvaluationModel::NotObserved(first_landing_reason()),
            ),
        ]
    } else {
        Seq::empty()
    }
}

/// No destination written twice, where one is.
pub open spec fn once_spec(ops: Seq<Operation>) -> Seq<GateModel> {
    if clashes(ops) {
        seq![
            gate(
                "no-destination-is-written-twice"@,
                "each destination is written by at most one operation"@,
                Requirement::Required,
                EvaluationModel::Unsatisfied(clash_text(ops)),
            ),
        ]
    } else {
        Seq::empty()
    }
}

/// Everything that must hold before the apply, in order: a readable
/// record, unedited managed files, a readable baseline, no incremental
/// migration over a structural finding, a first landing that records the
/// instance, every decision answered, and no destination written twice.
pub open spec fn gates_spec(
    invalid: Option<Seq<char>>,
    installation: Option<Installation>,
    baseline_read: bool,
    classification: Classification,
    ops: Seq<Operation>,
    ds: Seq<Decision>,
    structural: nat,
) -> Seq<GateModel> {
    readable_spec(invalid) + unedited_spec(installation) + baseline_spec(baseline_read, installation)
        + incremental_spec(classification, ds, structural) + recorded_spec(classification, ops)
        + ds.map_values(|d: Decision| waiting_gate(d)) + once_spec(ops)
}

/// Every managed file the target no longer holds as the record says.
///
/// Collected in one pass rather than refused one at a time, so an operator
/// sees the whole conflict set in one run.
pub fn edited_managed_files(installation: &Option<Installation>) -> (r: Vec<String>)
    ensures
        views_of(r@) == edited_spec(managed_files(*installation)),
{
    let mut edited: Vec<String> = Vec::new();
    let installed = match installation {
        None => {
            assert(views_of(edited@) =~= Seq::<Seq<char>>::empty());
            return edited;
        },
        Some(i) => i,
    };
    let files = &installed.managed;
    let mut i: usize = 0;
    while i < files.len()
        invariant
            i <= files.len(),
            views_of(edited@) == edited_spec(files@.take(i as int)),
        decreases files.len() - i,
    {
        let f = &files[i];
        assert(files@.take(i + 1).drop_last() =~= files@.take(i as int));
        assert(files@.take(i + 1).last() == files@[i as int]);
        let ghost before = edited@;
        match &f.held {
            Some(found) => {
                if !found.same(&f.recorded) {
                    let mut line = owned(f.path.as_str());
                    append(&mut line, " was edited");
                    edited.push(line);
                }
            },
            None => {
                let mut line = owned(f.path.as_str());
                append(&mut line, " is gone");
                edited.push(line);
            },
        }
        assert(views_of(edited@) =~= edited_spec(files@.take(i + 1)));
        i += 1;
    }
    assert(files@.take(files.len() as int) =~= files@);
    edited
}

/// The answer selected for the first decision with an identifier.
fn selected_of<'a>(decisions: &'a [Decision], key: &str) -> (r: Option<&'a str>)
    ensures
        match r {
            Some(s) => first_selected(decisions@, key@) == Some(s@),
            None => first_selected(decisions@, key@) is None,
        },
{
    let mut i: usize = 0;
    assert(decisions@.skip(0) =~= decisions@);
    while i < decisions.len()
        invariant
            i <= decisions.len(),
            first_selected(decisions@, key@) == first_selected(decisions@.skip(i as int), key@),
        decreases decisions.len() - i,
    {
        assert(decisions@.skip(i as int)[0] == decisions@[i as int]);
        assert(decisions@.skip(i as int).drop_first() =~= decisions@.skip(i + 1));
        if same_text(decisions[i].id.as_str(), key) {
            return match &decisions[i].selected {
                Some(s) => Some(s.as_str()),
                None => None,
            };
        }
        i += 1;
    }
    None
}

/// Whether any operation writes the record.
fn any_record(operations: &[Operation]) -> (r: bool)
    ensures
        r == writes_record(operations@),
{
    let mut i: usize = 0;
    while i < operations.len()
        invariant
            i <= operations.len(),
            forall|j: int| 0 <= j < i ==> !((#[trigger] operations@[j]) is WriteRecord),
        decreases operations.len() - i,
    {
        if matches!(operations[i], Operation::WriteRecord { .. }) {
            return true;
        }
        i += 1;
    }
    false
}

/// A precondition no decision resolves and no evidence backs.
fn required(id: &str, statement: &str, requirement: Requirement, evaluation: Evaluation) -> (p:
    Precondition)
    ensures
        gate_model(p) == gate(id@, statement@, requirement, evaluation_model(evaluation)),
        p.evidence_refs@.len() == 0,
{
    Precondition {
        id: owned(id),
        statement: owned(statement),
        requirement,
        evaluation,
        resolved_by: None,
        evidence_refs: Vec::new(),
    }
}

/// Append the gates of `extra` to `out`.
fn extend(out: &mut Vec<Precondition>, extra: Vec<Precondition>)
    requires
        uncited(old(out)@),
        uncited(extra@),
    ensures
        gate_models(final(out)@) == gate_models(old(out)@) + gate_models(extra@),
        uncited(final(out)@),
{
    let mut extra = extra;
    let ghost a = out@;
    let ghost b = extra@;
    out.append(&mut extra);
    assert(out@ == a + b);
    assert(gate_models(out@) =~= gate_models(a) + gate_models(b));
}

/// One gate, or none.
fn one_or_none(p: Option<Precondition>) -> (r: Vec<Precondition>)
    requires
        p matches Some(x) ==> x.evidence_refs@.len() == 0,
    ensures
        gate_models(r@) == (match p {
            Some(x) => seq![gate_model(x)],
            None => Seq::<GateModel>::empty(),
        }),
        uncited(r@),
{
    let mut r: Vec<Precondition> = Vec::new();
    if let Some(x) = p {
        r.push(x);
    }
    assert(gate_models(r@) =~= (match p {
        Some(x) => seq![gate_model(x)],
        None => Seq::<GateModel>::empty(),
    }));
    r
}

/// A readable record, where the record is broken.
fn readable_gate(invalid: &Option<String>) -> (r: Vec<Precondition>)
    ensures
        gate_models(r@) == readable_spec(
            match invalid {
                Some(s) => Some(s@),
                None => None,
            },
        ),
        uncited(r@),
{
    one_or_none(
        match invalid {
            Some(reason) => Some(
                required(
                    "record-is-readable",
                    "the instance record parses",
                    Requirement::Required,
                    Evaluation::Unsatisfied { reason: reason.clone() },
                ),
            ),
            None => None,
        },
    )
}

/// Unedited managed files.
fn unedited_gate(installation: &Option<Installation>) -> (r: Vec<Precondition>)
    ensures
        gate_models(r@) == unedited_spec(*installation),
        uncited(r@),
{
    let edited = edited_managed_files(installation);
    one_or_none(
        if edited.len() > 0 {
            Some(
                required(
                    "managed-files-are-unedited",
                    "every managed file still holds what the record says",
                    Requirement::Required,
                    Evaluation::Unsatisfied { reason: join_texts(&edited, "; ") },
                ),
            )
        } else {
            None
        },
    )
}

/// A readable baseline.
fn baseline_gate(baseline_read: bool, installation: &Option<Installation>) -> (r: Vec<Precondition>)
    ensures
        gate_models(r@) == baseline_spec(baseline_read, *installation),
        uncited(r@),
{
    one_or_none(
        if !baseline_read && installation.is_some() {
            Some(
                required(
                    "baseline-is-readable",
                    "the recorded release's bundle can be read for baselines",
                    Requirement::Advisory,
                    Evaluation::NotObserved {
                        reason: owned(
                            "the recorded release's bundle was not read, so an adopted baseline cannot move",
                        ),
                    },
                ),
            )
        } else {
            None
        },
    )
}

/// No incremental migration over a structural finding: it would start a
/// second convention beside the first, which is the harm the sweep exists
/// to stop.
fn incremental_gate(classification: Classification, decisions: &[Decision], structural: usize) -> (r:
    Vec<Precondition>)
    ensures
        gate_models(r@) == incremental_spec(classification, decisions@, structural as nat),
        uncited(r@),
{
    let incremental = match selected_of(decisions, id::MIGRATION_SCOPE) {
        Some(s) => same_text(s, "incremental"),
        None => false,
    };
    one_or_none(
        if matches!(classification, Classification::Migration) && incremental && structural > 0 {
            let mut reason = String::new();
            push_decimal(&mut reason, structural as u64);
            append(&mut reason, " structural finding(s) would make two conventions coexist");
            Some(
                required(
                    "incremental-scope-has-no-structural-finding",
                    "an incremental migration leaves no structural finding behind",
                    Requirement::Required,
                    Evaluation::Unsatisfied { reason },
                ),
            )
        } else {
            None
        },
    )
}

/// A first landing that records the instance: one that wrote every
/// projection and no record would leave a target the verifier cannot read.
fn recorded_gate(classification: Classification, operations: &[Operation]) -> (r: Vec<Precondition>)
    ensures
        gate_models(r@) == recorded_spec(classification, operations@),
        uncited(r@),
{
    one_or_none(
        if matches!(classification, Classification::Setup | Classification::Migration)
            && !any_record(operations) && operations.len() > 0 {
            Some(
                required(
                    "the-plan-records-the-instance",
                    "a first landing writes the instance record and both marked regions",
                    Requirement::Required,
                    Evaluation::NotObserved {
                        reason: owned(
                            "this engine does not yet derive the record or the marked regions; land with 'sdd init --apply'",
                        ),
                    },
                ),
            )
        } else {
            None
        },
    )
}

/// No destination written twice.
fn once_gate(operations: &[Operation]) -> (r: Vec<Precondition>)
    ensures
        gate_models(r@) == once_spec(operations@),
        uncited(r@),
{
    match no_duplicate_destination(operations) {
        Ok(()) => one_or_none(None),
        Err(clash) => {
            proof {
                let (a, b) = choose|a: int, b: int|
                    #![trigger shares_destination(operations@, a, b)]
                    {
                        &&& first_clash(operations@, a, b)
                        &&& clash.path@ == path_of(operations@[a])@
                        &&& clash.first@ == kind_of(operations@[a])
                        &&& clash.second@ == kind_of(operations@[b])
                    };
                let (c, d) = choose|c: int, d: int| #[trigger] first_clash(operations@, c, d);
                lemma_first_clash_unique(operations@, a, b, c, d);
                assert(shares_destination(operations@, a, b));
            }
            one_or_none(
                Some(
                    required(
                        "no-destination-is-written-twice",
                        "each destination is written by at most one operation",
                        Requirement::Required,
                        Evaluation::Unsatisfied { reason: clash.message() },
                    ),
                ),
            )
        },
    }
}

/// The gates the decisions raise, in decision order.
fn waiting_gates(decisions: &[Decision]) -> (r: Vec<Precondition>)
    ensures
        gate_models(r@) == decisions@.map_values(|d: Decision| waiting_gate(d)),
        uncited(r@),
{
    let r = decision_preconditions(decisions);
    assert(gate_models(r@) =~= decisions@.map_values(|d: Decision| waiting_gate(d))) by {
        assert forall|j: int| 0 <= j < r@.len() implies gate_model(#[trigger] r@[j]) == waiting_gate(
            decisions@[j],
        ) by {
            assert(crate::plan::planner::decision_gate(decisions@[j], r@[j]));
        }
    }
    assert forall|j: int| 0 <= j < r@.len() implies (#[trigger] r@[j]).evidence_refs@.len() == 0 by {
        assert(crate::plan::planner::decision_gate(decisions@[j], r@[j]));
    }
    r
}

/// Everything that must hold before the apply.
pub fn preconditions_of(
    invalid: &Option<String>,
    installation: &Option<Installation>,
    baseline_read: bool,
    classification: Classification,
    operations: &[Operation],
    decisions: &[Decision],
    structural: usize,
) -> (r: Vec<Precondition>)
    ensures
        gate_models(r@) == gates_spec(
            match invalid {
                Some(s) => Some(s@),
                None => None,
            },
            *installation,
            baseline_read,
            classification,
            operations@,
            decisions@,
            structural as nat,
        ),
        uncited(r@),
{
    let mut preconditions = readable_gate(invalid);
    extend(&mut preconditions, unedited_gate(installation));
    extend(&mut preconditions, baseline_gate(baseline_read, installation));
    extend(&mut preconditions, incremental_gate(classification, decisions, structural));
    extend(&mut preconditions, recorded_gate(classification, operations));
    extend(&mut preconditions, waiting_gates(decisions));
    extend(&mut preconditions, once_gate(operations));
    preconditions
}

} // verus!
