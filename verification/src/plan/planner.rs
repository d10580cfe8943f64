//! The planner's own rules: which preconditions an unanswered decision
//! raises, and what an apply proves once it has finished.

use vstd::prelude::*;

use crate::landing::finding::{Finding, FindingKind};
use crate::plan::classify::{classification_of, Classification};
use crate::plan::decision::{Choice, Decision};
use crate::plan::fingerprint::{canonical_text, fingerprint, Value};
use crate::plan::planner::findings::{finding_models, findings_spec, style_candidates_of, unmeasured, candidate_reason, findings_of};
use crate::plan::planner::gates::{gate_models, gates_spec, preconditions_of};
use crate::plan::planner::inputs::{chosen_profile, classification_for, profile_chosen, signals_of, Inputs};
use crate::plan::planner::offered::{any_budget, decision_models, decisions_of, offers_spec};
use crate::plan::planner::projection::{evidence_model, inputs_projection, ledger_of, ledger_spec, projection_is, refs_spec};
use crate::plan::planner::writes::{map_view, operation_models, operations_of, writes_spec, OperationModel};
use crate::plan::evidence::Evidence;
use crate::plan::readiness::{readiness, readiness_of, Evaluation, Precondition, Readiness, Requirement};
use crate::plan::{count_of, DesiredState, Identity, ObservedState, Plan, Postcondition, ReleaseSource, PLAN_SCHEMA};
use crate::digest::digest_text;
use crate::text::{append, owned, views_of};

pub mod findings;
pub mod gates;
pub mod inputs;
pub mod offered;
pub mod projection;
pub mod writes;
pub mod clock;

verus! {

/// Whether a plan may be applied, for a caller that has only the verdict.
pub fn is_ready(verdict: Readiness) -> (r: bool)
    ensures
        r == (verdict is Ready),
{
    matches!(verdict, Readiness::Ready)
}

/// One answer an offered decision carries.
pub fn choice(id: &str, consequence: &str) -> (c: Choice)
    ensures
        c.id@ == id@,
        c.consequence@ == consequence@,
{
    Choice { id: owned(id), consequence: owned(consequence) }
}

/// The precondition one decision raises: it waits on the operator until
/// they have answered, and the decision resolves it.
pub open spec fn decision_gate(d: Decision, p: Precondition) -> bool {
    &&& p.id@ == "decision:"@ + d.id@
    &&& p.statement@ == d.question@
    &&& p.requirement == Requirement::DecisionRequired
    &&& (d.selected is Some ==> p.evaluation is Satisfied)
    &&& (d.selected is None ==> (p.evaluation matches Evaluation::Unsatisfied { reason } && reason@
        == "the operator has not answered it"@))
    &&& p.resolved_by matches Some(r) && r@ == d.id@
    &&& p.evidence_refs@.len() == 0
}

/// One precondition per decision the operator has not answered, in the
/// order the decisions come.
pub fn decision_preconditions(decisions: &[Decision]) -> (r: Vec<Precondition>)
    ensures
        r@.len() == decisions@.len(),
        forall|i: int| 0 <= i < r@.len() ==> decision_gate(decisions@[i], #[trigger] r@[i]),
{
    let mut out: Vec<Precondition> = Vec::new();
    let mut i: usize = 0;
    while i < decisions.len()
        invariant
            i <= decisions.len(),
            out@.len() == i,
            forall|j: int| 0 <= j < i ==> decision_gate(decisions@[j], #[trigger] out@[j]),
        decreases decisions.len() - i,
    {
        let decision = &decisions[i];
        let mut id = owned("decision:");
        append(&mut id, decision.id.as_str());
        let evaluation = match &decision.selected {
            Some(_) => Evaluation::Satisfied,
            None => Evaluation::Unsatisfied { reason: owned("the operator has not answered it") },
        };
        out.push(
            Precondition {
                id,
                statement: owned(decision.question.as_str()),
                requirement: Requirement::DecisionRequired,
                evaluation,
                resolved_by: Some(owned(decision.id.as_str())),
                evidence_refs: Vec::new(),
            },
        );
        i += 1;
    }
    out
}

/// The postconditions a classification asks for, each as its identifier
/// and its statement.
pub open spec fn postconditions_spec(classification: Classification) -> Seq<(Seq<char>, Seq<char>)> {
    if classification is Invalid {
        Seq::empty()
    } else {
        seq![
            ("record-matches-the-tree"@, "every operation's destination holds the digest the plan named"@),
            ("verification-passes"@, "sdd verify reports OK against the target"@),
        ]
    }
}

/// A postcondition as its identifier and its statement.
pub open spec fn postcondition_model(q: Postcondition) -> (Seq<char>, Seq<char>) {
    (q.id@, q.statement@)
}

/// What the apply proves once it has finished: nothing for a target whose
/// metadata cannot be trusted, and otherwise that the record matches the
/// tree and that verification passes.
pub fn postconditions_of(classification: Classification) -> (r: Vec<Postcondition>)
    ensures
        r@.map_values(|q: Postcondition| postcondition_model(q)) == postconditions_spec(classification),
        classification is Invalid ==> r@.len() == 0,
        !(classification is Invalid) ==> {
            &&& r@.len() == 2
            &&& r@[0].id@ == "record-matches-the-tree"@
            &&& r@[0].statement@
                == "every operation's destination holds the digest the plan named"@
            &&& r@[1].id@ == "verification-passes"@
            &&& r@[1].statement@ == "sdd verify reports OK against the target"@
        },
{
    if matches!(classification, Classification::Invalid) {
        let none: Vec<Postcondition> = Vec::new();
        assert(none@.map_values(|q: Postcondition| postcondition_model(q)) =~= postconditions_spec(classification));
        return none;
    }
    let mut out = Vec::new();
    out.push(
        Postcondition {
            id: owned("record-matches-the-tree"),
            statement: owned("every operation's destination holds the digest the plan named"),
        },
    );
    out.push(
        Postcondition {
            id: owned("verification-passes"),
            statement: owned("sdd verify reports OK against the target"),
        },
    );
    assert(out@.map_values(|q: Postcondition| postcondition_model(q)) =~= postconditions_spec(classification));
    out
}


/// How many findings are structural.
fn structural_in(findings: &Vec<Finding>) -> (n: usize)
    ensures
        n == count_of(findings@, FindingKind::StructuralDebt),
{
    let mut n: usize = 0;
    let mut i: usize = 0;
    while i < findings.len()
        invariant
            i <= findings.len(),
            n == count_of(findings@.take(i as int), FindingKind::StructuralDebt),
            n <= i,
        decreases findings.len() - i,
    {
        assert(findings@.take(i + 1).drop_last() =~= findings@.take(i as int));
        if matches!(findings[i].kind, FindingKind::StructuralDebt) {
            n = n + 1;
        }
        i += 1;
    }
    assert(findings@.take(findings.len() as int) =~= findings@);
    n
}

/// Compute one plan.
///
/// The order is fixed: classify from what was observed, read the findings,
/// offer the decisions, derive the operations the selected decisions
/// allow, evaluate the preconditions, and take the readiness from the worst
/// of them. The fingerprint is last, over exactly the parts that decide
/// what the apply would do.
pub fn plan(inputs: Inputs) -> (p: Plan)
    ensures
        crate::plan::planner::clock::planned(inputs, p),
        p.classification == classification_of(signals_of(inputs.observation, inputs.release@)),
        finding_models(p.findings@) == findings_spec(
            inputs.observation.corpus,
            profile_chosen(inputs.observation.installation, inputs.selections@),
            inputs.landing,
            p.classification,
        ),
        unmeasured(p.findings@),
        p.classification is Migration ==> p.style_candidates@.len()
            == inputs.observation.corpus.documents@.len(),
        !(p.classification is Migration) ==> p.style_candidates@.len() == 0,
        forall|i: int|
            0 <= i < p.style_candidates@.len() ==> (#[trigger] p.style_candidates@[i]).path@
                == inputs.observation.corpus.documents@[i]@ && p.style_candidates@[i].reason@
                == candidate_reason(),
        decision_models(p.decisions@) == offers_spec(
            inputs.observation.installation is Some,
            p.classification,
            profile_chosen(inputs.observation.installation, inputs.selections@),
            count_of(p.findings@, FindingKind::StructuralDebt),
            any_budget(p.findings@),
            inputs.yanked,
            inputs.release@,
            inputs.selections@,
        ),
        match inputs.proposed {
            Some(ops) => p.operations == ops,
            None => operation_models(p.operations@) == if profile_chosen(
                inputs.observation.installation,
                inputs.selections@,
            ) is None {
                Seq::<OperationModel>::empty()
            } else {
                writes_spec(
                    p.classification,
                    inputs.landing,
                    inputs.observation.installation,
                    inputs.candidate@,
                    map_view(inputs.baseline),
                )
            },
        },
        gate_models(p.preconditions@) == gates_spec(
            match inputs.observation.invalid {
                Some(s) => Some(s@),
                None => None,
            },
            inputs.observation.installation,
            inputs.baseline is Some,
            p.classification,
            p.operations@,
            p.decisions@,
            count_of(p.findings@, FindingKind::StructuralDebt),
        ),
        p.readiness == readiness_of(p.preconditions@),
        p.postconditions@.map_values(|q: Postcondition| postcondition_model(q)) == postconditions_spec(
            p.classification,
        ),
        p.evidence@.map_values(|e: Evidence| evidence_model(e)) == ledger_spec(
            inputs.observation.installation,
            inputs.now@,
            inputs.release_sha256@,
        ),
        views_of(p.observed_state.evidence_refs@) == refs_spec(inputs.observation.installation),
        p.observed_state.repository == inputs.observation.repository,
        p.observed_state.installation == inputs.observation.installation,
        p.observed_state.host == inputs.observation.host,
        p.observed_state.corpus == inputs.observation.corpus,
        p.release.version@ == inputs.release@,
        p.release.provenance@ == inputs.provenance@,
        p.release.registry_checksum == inputs.registry_checksum,
        p.release.yanked == inputs.yanked,
        views_of(p.release.evidence_refs@) == seq!["release"@],
        p.desired_state.selector@ == inputs.selector@,
        p.desired_state.release@ == inputs.release@,
        p.desired_state.release_sha256@ == inputs.release_sha256@,
        p.desired_state.profile == profile_chosen(inputs.observation.installation, inputs.selections@),
        p.desired_state.declared == inputs.declared,
        p.identity.schema@ == PLAN_SCHEMA@,
        p.identity.plan_id@ == p.input_fingerprint@,
        p.identity.created_at@ == inputs.now@,
        p.identity.engine_version@ == inputs.engine_version@,
        exists|v: Value|
            projection_is(
                v,
                p.classification,
                inputs.release@,
                inputs.release_sha256@,
                inputs.observation.repository.root@,
                inputs.observation.installation,
                p.operations@,
                p.preconditions@,
                p.decisions@,
            ) && p.input_fingerprint@ == digest_text(
                vstd::utf8::encode_utf8(canonical_text(v)),
            ),
{
    let (ledger, refs, release_ref) = ledger_of(
        &inputs.observation.installation,
        inputs.now.as_str(),
        &inputs.release_sha256,
    );
    let profile = chosen_profile(&inputs.observation.installation, &inputs.selections);
    let classification = classification_for(&inputs.observation, inputs.release.as_str());
    let findings = findings_of(&inputs.observation.corpus, profile, &inputs.landing, classification);
    let style_candidates = style_candidates_of(&inputs.observation.corpus, classification);
    let structural = structural_in(&findings);
    let decisions = decisions_of(
        inputs.observation.installation.is_some(),
        classification,
        profile,
        structural,
        findings.as_slice(),
        inputs.yanked,
        inputs.release.as_str(),
        &inputs.selections,
    );
    let operations = match inputs.proposed {
        Some(ops) => ops,
        None => {
            if profile.is_none() {
                let none: Vec<crate::plan::operation::Operation> = Vec::new();
                assert(operation_models(none@) =~= Seq::<OperationModel>::empty());
                none
            } else {
                operations_of(
                    classification,
                    &inputs.landing,
                    &inputs.observation.installation,
                    &inputs.candidate,
                    &inputs.baseline,
                )
            }
        },
    };
    let preconditions = preconditions_of(
        &inputs.observation.invalid,
        &inputs.observation.installation,
        inputs.baseline.is_some(),
        classification,
        operations.as_slice(),
        decisions.as_slice(),
        structural,
    );
    let verdict = readiness(preconditions.as_slice());
    let projection = inputs_projection(
        classification,
        inputs.release.as_str(),
        &inputs.release_sha256,
        inputs.observation.repository.root.as_str(),
        &inputs.observation.installation,
        operations.as_slice(),
        preconditions.as_slice(),
        decisions.as_slice(),
    );
    let digest = fingerprint(&projection);
    let ghost release_text = inputs.release@;
    let ghost release_digest = inputs.release_sha256@;
    let ghost root_text = inputs.observation.repository.root@;
    let ghost installed = inputs.observation.installation;
    assert(projection_is(
        projection,
        classification,
        inputs.release@,
        inputs.release_sha256@,
        inputs.observation.repository.root@,
        inputs.observation.installation,
        operations@,
        preconditions@,
        decisions@,
    ));
    let postconditions = postconditions_of(classification);
    let Inputs {
        observation,
        declared,
        landing: _,
        candidate: _,
        baseline: _,
        selector,
        release,
        release_sha256,
        provenance,
        registry_checksum,
        yanked,
        proposed: _,
        selections: _,
        now,
        engine_version,
    } = inputs;
    let desired_state = DesiredState {
        selector,
        release: release.clone(),
        release_sha256,
        profile,
        declared,
    };
    let observed_state = ObservedState {
        repository: observation.repository,
        installation: observation.installation,
        host: observation.host,
        corpus: observation.corpus,
        evidence_refs: refs,
    };
    let mut cited: Vec<String> = Vec::new();
    cited.push(release_ref);
    assert(views_of(cited@) =~= seq!["release"@]);
    let release_source = ReleaseSource {
        version: release,
        provenance,
        registry_checksum,
        yanked,
        evidence_refs: cited,
    };
    let identity = Identity {
        schema: owned(PLAN_SCHEMA),
        plan_id: owned(digest.as_str()),
        created_at: now,
        engine_version,
    };
    let p = Plan {
        identity,
        classification,
        findings,
        style_candidates,
        desired_state,
        observed_state,
        release: release_source,
        operations,
        preconditions,
        decisions,
        postconditions,
        evidence: ledger.items,
        readiness: verdict,
        input_fingerprint: digest,
    };
    assert(projection_is(
        projection,
        p.classification,
        release_text,
        release_digest,
        root_text,
        installed,
        p.operations@,
        p.preconditions@,
        p.decisions@,
    ) && p.input_fingerprint@ == digest_text(vstd::utf8::encode_utf8(canonical_text(projection))));
    p
}

} // verus!
