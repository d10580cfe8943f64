//! The clock is an input to a plan and decides nothing in it: two plans
//! of the same inputs at different moments carry one fingerprint,
//! one identifier, the same operations and the same verdict.

use vstd::prelude::*;

use crate::landing::finding::{Finding, FindingKind};
use crate::landing::observe::digest_view;
use crate::plan::classify::classification_of;
use crate::plan::decision::Decision;
use crate::plan::fingerprint::{
    canonical_text, entries_assoc, keys_strictly_sorted, law_map_order_irrelevant, lemma_model_entries, model,
    model_entries, Json, Value,
};
use crate::plan::operation::{after_of, before_of, kind_of, path_of, first_clash, lemma_first_clash_unique, shares_destination, Operation};
use crate::plan::planner::findings::{finding_model, finding_models, findings_spec};
use crate::plan::planner::gates::{
    clash_text, clashes, first_selected, gate_model, gate_models, gates_spec, waiting_gate, writes_record,
};
use crate::plan::planner::inputs::{profile_chosen, signals_of, Inputs};
use crate::plan::planner::offered::{any_budget, decision_model, decision_models, offers_spec};
use crate::plan::planner::projection::{answers_json, digest_json, gates_json, op_json, ops_json, projection_is};
use crate::plan::planner::writes::{map_view, operation_model, operation_models, writes_spec, OperationModel};
use crate::plan::readiness::{readiness_of, verdict_of, Precondition};
use crate::plan::{count_of, Plan};
use crate::digest::digest_text;

verus! {

/// What a plan for `inputs` holds of everything its fingerprint,
/// its operations and its verdict are decided by.
pub open spec fn planned(inputs: Inputs, p: Plan) -> bool {
    &&& p.classification == classification_of(signals_of(inputs.observation, inputs.release@))
    &&& finding_models(p.findings@) == findings_spec(
        inputs.observation.corpus,
        profile_chosen(inputs.observation.installation, inputs.selections@),
        inputs.landing,
        p.classification,
    )
    &&& decision_models(p.decisions@) == offers_spec(
        inputs.observation.installation is Some,
        p.classification,
        profile_chosen(inputs.observation.installation, inputs.selections@),
        count_of(p.findings@, FindingKind::StructuralDebt),
        any_budget(p.findings@),
        inputs.yanked,
        inputs.release@,
        inputs.selections@,
    )
    &&& match inputs.proposed {
        Some(ops) => p.operations == ops,
        None => operation_models(p.operations@) == if profile_chosen(
            inputs.observation.installation,
            inputs.selections@,
        ) is None {
            Seq::<OperationModel>::empty()
        } else {
            writes_spec(
                p.classification,
                inputs.landing,
                inputs.observation.installation,
                inputs.candidate@,
                map_view(inputs.baseline),
            )
        },
    }
    &&& gate_models(p.preconditions@) == gates_spec(
        match inputs.observation.invalid {
            Some(s) => Some(s@),
            None => None,
        },
        inputs.observation.installation,
        inputs.baseline is Some,
        p.classification,
        p.operations@,
        p.decisions@,
        count_of(p.findings@, FindingKind::StructuralDebt),
    )
    &&& p.readiness == readiness_of(p.preconditions@)
    &&& p.identity.plan_id@ == p.input_fingerprint@
    &&& exists|v: Value|
        projection_is(
            v,
            p.classification,
            inputs.release@,
            inputs.release_sha256@,
            inputs.observation.repository.root@,
            inputs.observation.installation,
            p.operations@,
            p.preconditions@,
            p.decisions@,
        ) && p.input_fingerprint@ == digest_text(vstd::utf8::encode_utf8(canonical_text(v)))
}

/// Two planning inputs that differ in nothing but the clock.
pub open spec fn same_but_clock(a: Inputs, b: Inputs) -> bool {
    &&& a.observation == b.observation
    &&& a.declared == b.declared
    &&& a.landing == b.landing
    &&& a.candidate@ == b.candidate@
    &&& map_view(a.baseline) == map_view(b.baseline)
    &&& (a.baseline is Some <==> b.baseline is Some)
    &&& a.selector@ == b.selector@
    &&& a.release@ == b.release@
    &&& a.release_sha256@ == b.release_sha256@
    &&& a.provenance@ == b.provenance@
    &&& a.registry_checksum == b.registry_checksum
    &&& a.yanked == b.yanked
    &&& a.proposed == b.proposed
    &&& a.selections@ == b.selections@
    &&& a.engine_version@ == b.engine_version@
}

proof fn lemma_findings_agree(x: Seq<Finding>, y: Seq<Finding>)
    requires
        finding_models(x) == finding_models(y),
    ensures
        count_of(x, FindingKind::StructuralDebt) == count_of(y, FindingKind::StructuralDebt),
        any_budget(x) == any_budget(y),
    decreases x.len(),
{
    assert(x.len() == finding_models(x).len());
    assert(y.len() == finding_models(y).len());
    assert forall|i: int| 0 <= i < x.len() implies #[trigger] x[i].kind == y[i].kind by {
        assert(finding_models(x)[i] == finding_model(x[i]));
        assert(finding_models(y)[i] == finding_model(y[i]));
    }
    if x.len() > 0 {
        assert(finding_models(x.drop_last()) =~= finding_models(y.drop_last())) by {
            assert forall|i: int| 0 <= i < x.len() - 1 implies finding_models(x.drop_last())[i] == finding_models(
                y.drop_last(),
            )[i] by {
                assert(finding_models(x)[i] == finding_models(y)[i]);
            }
        }
        lemma_findings_agree(x.drop_last(), y.drop_last());
        assert(x.last().kind == y.last().kind);
    }
    if any_budget(x) {
        let i = choose|i: int| 0 <= i < x.len() && (#[trigger] x[i]).kind is Budget;
        assert(y[i].kind is Budget);
    }
    if any_budget(y) {
        let i = choose|i: int| 0 <= i < y.len() && (#[trigger] y[i]).kind is Budget;
        assert(x[i].kind is Budget);
    }
}

proof fn lemma_op_agrees(x: Operation, y: Operation)
    requires
        operation_model(x) == operation_model(y),
    ensures
        kind_of(x) == kind_of(y),
        path_of(x)@ == path_of(y)@,
        digest_json(before_of(x)) == digest_json(before_of(y)),
        digest_json(after_of(x)) == digest_json(after_of(y)),
        op_json(x) == op_json(y),
        (x is WriteRecord) == (y is WriteRecord),
{
}

proof fn lemma_ops_agree(x: Seq<Operation>, y: Seq<Operation>)
    requires
        operation_models(x) == operation_models(y),
    ensures
        x.len() == y.len(),
        forall|i: int| 0 <= i < x.len() ==> path_of(#[trigger] x[i])@ == path_of(y[i])@ && kind_of(x[i])
            == kind_of(y[i]) && (x[i] is WriteRecord) == (y[i] is WriteRecord),
        ops_json(x) == ops_json(y),
        writes_record(x) == writes_record(y),
        clashes(x) == clashes(y),
        clashes(x) ==> clash_text(x) == clash_text(y),
    decreases x.len(),
{
    assert(x.len() == operation_models(x).len());
    assert(y.len() == operation_models(y).len());
    assert forall|i: int| 0 <= i < x.len() implies #[trigger] operation_model(x[i]) == operation_model(y[i]) by {
        assert(operation_models(x)[i] == operation_model(x[i]));
        assert(operation_models(y)[i] == operation_model(y[i]));
    }
    assert forall|i: int| 0 <= i < x.len() implies path_of(#[trigger] x[i])@ == path_of(y[i])@ && kind_of(x[i])
        == kind_of(y[i]) && (x[i] is WriteRecord) == (y[i] is WriteRecord) by {
        assert(operation_model(x[i]) == operation_model(y[i]));
        lemma_op_agrees(x[i], y[i]);
    }
    if x.len() > 0 {
        assert(operation_models(x.drop_last()) =~= operation_models(y.drop_last())) by {
            assert forall|i: int| 0 <= i < x.len() - 1 implies operation_models(x.drop_last())[i]
                == operation_models(y.drop_last())[i] by {
                assert(x.drop_last()[i] == x[i]);
                assert(y.drop_last()[i] == y[i]);
                assert(operation_model(x[i]) == operation_model(y[i]));
            }
        }
        lemma_ops_agree(x.drop_last(), y.drop_last());
        assert(operation_model(x[x.len() - 1]) == operation_model(y[x.len() - 1]));
        lemma_op_agrees(x.last(), y.last());
    }
    if writes_record(x) {
        let i = choose|i: int| 0 <= i < x.len() && (#[trigger] x[i]) is WriteRecord;
        assert(y[i] is WriteRecord);
    }
    if writes_record(y) {
        let i = choose|i: int| 0 <= i < y.len() && (#[trigger] y[i]) is WriteRecord;
        assert(x[i] is WriteRecord);
    }
    assert forall|a: int, b: int| #[trigger] shares_destination(x, a, b) == shares_destination(y, a, b) by {
        if 0 <= a < b < x.len() {
            assert(path_of(x[a])@ == path_of(y[a])@);
            assert(path_of(x[b])@ == path_of(y[b])@);
        }
    }
    if clashes(x) {
        let (a, b) = choose|a: int, b: int| #[trigger] shares_destination(x, a, b);
        assert(shares_destination(y, a, b));
    }
    if clashes(y) {
        let (a, b) = choose|a: int, b: int| #[trigger] shares_destination(y, a, b);
        assert(shares_destination(x, a, b));
    }
    if clashes(x) {
        assert forall|a: int, b: int| #[trigger] first_clash(x, a, b) == first_clash(y, a, b) by {
            assert(shares_destination(x, a, b) == shares_destination(y, a, b));
            if first_clash(x, a, b) {
                assert forall|c: int, d: int| #[trigger] shares_destination(y, c, d) implies a < c || (a == c && b
                    <= d) by {
                    assert(shares_destination(x, c, d));
                }
            }
            if first_clash(y, a, b) {
                assert forall|c: int, d: int| #[trigger] shares_destination(x, c, d) implies a < c || (a == c && b
                    <= d) by {
                    assert(shares_destination(y, c, d));
                }
            }
        }
        let (a0, b0) = choose|a: int, b: int| #[trigger] shares_destination(x, a, b);
        lemma_first_clash_exists(x, a0, b0);
        let (a, b) = choose|a: int, b: int| #[trigger] first_clash(x, a, b);
        let (c, d) = choose|a: int, b: int| #[trigger] first_clash(y, a, b);
        assert(first_clash(y, a, b));
        assert(first_clash(x, c, d));
        lemma_first_clash_unique(x, a, b, c, d);
    }
}

proof fn lemma_first_clash_exists(ops: Seq<Operation>, a: int, b: int)
    requires
        shares_destination(ops, a, b),
    ensures
        exists|c: int, d: int| #[trigger] first_clash(ops, c, d),
    decreases a, b,
{
    if !first_clash(ops, a, b) {
        let (c, d) = choose|c: int, d: int| #[trigger] shares_destination(ops, c, d) && !(a < c || (a == c && b <= d));
        lemma_first_clash_exists(ops, c, d);
    } else {
        assert(first_clash(ops, a, b));
    }
}

proof fn lemma_decisions_agree(x: Seq<Decision>, y: Seq<Decision>)
    requires
        decision_models(x) == decision_models(y),
    ensures
        forall|k: Seq<char>| #[trigger] first_selected(x, k) == first_selected(y, k),
        x.map_values(|d: Decision| waiting_gate(d)) == y.map_values(|d: Decision| waiting_gate(d)),
        answers_json(x) == answers_json(y),
    decreases x.len(),
{
    assert(x.len() == decision_models(x).len());
    assert(y.len() == decision_models(y).len());
    assert forall|i: int| 0 <= i < x.len() implies #[trigger] x[i].id@ == y[i].id@ && x[i].question@
        == y[i].question@ && crate::plan::planner::offered::opt_text(x[i].selected)
        == crate::plan::planner::offered::opt_text(y[i].selected) by {
        assert(decision_models(x)[i] == decision_model(x[i]));
        assert(decision_models(y)[i] == decision_model(y[i]));
    }
    assert(x.map_values(|d: Decision| waiting_gate(d)) =~= y.map_values(|d: Decision| waiting_gate(d))) by {
        assert forall|i: int| 0 <= i < x.len() implies waiting_gate(x[i]) == waiting_gate(y[i]) by {
            assert(x[i].id@ == y[i].id@);
        }
    }
    if x.len() > 0 {
        assert(decision_models(x.drop_last()) =~= decision_models(y.drop_last())) by {
            assert forall|i: int| 0 <= i < x.len() - 1 implies decision_models(x.drop_last())[i]
                == decision_models(y.drop_last())[i] by {
                assert(decision_models(x)[i] == decision_models(y)[i]);
            }
        }
        lemma_decisions_agree(x.drop_last(), y.drop_last());
        assert(x.last().id@ == y.last().id@);
        assert(decision_models(x.drop_first()) =~= decision_models(y.drop_first())) by {
            assert forall|i: int| 0 <= i < x.len() - 1 implies decision_models(x.drop_first())[i]
                == decision_models(y.drop_first())[i] by {
                assert(decision_models(x)[i + 1] == decision_models(y)[i + 1]);
            }
        }
        lemma_decisions_agree(x.drop_first(), y.drop_first());
        assert(x[0].id@ == y[0].id@);
    }
    assert forall|k: Seq<char>| #[trigger] first_selected(x, k) == first_selected(y, k) by {
        if x.len() > 0 {
            assert(first_selected(x.drop_first(), k) == first_selected(y.drop_first(), k));
            assert(x[0].id@ == y[0].id@);
            assert(crate::plan::planner::offered::opt_text(x[0].selected) == crate::plan::planner::offered::opt_text(
                y[0].selected,
            ));
        }
    }
}

proof fn lemma_gates_agree(x: Seq<Precondition>, y: Seq<Precondition>)
    requires
        gate_models(x) == gate_models(y),
    ensures
        gates_json(x) == gates_json(y),
        readiness_of(x) == readiness_of(y),
    decreases x.len(),
{
    assert(x.len() == gate_models(x).len());
    assert(y.len() == gate_models(y).len());
    if x.len() > 0 {
        assert(gate_models(x.drop_last()) =~= gate_models(y.drop_last())) by {
            assert forall|i: int| 0 <= i < x.len() - 1 implies gate_models(x.drop_last())[i] == gate_models(
                y.drop_last(),
            )[i] by {
                assert(gate_models(x)[i] == gate_models(y)[i]);
            }
        }
        lemma_gates_agree(x.drop_last(), y.drop_last());
        assert(gate_models(x)[x.len() - 1] == gate_model(x.last()));
        assert(gate_models(y)[x.len() - 1] == gate_model(y.last()));
        assert(verdict_of(x.last()) == verdict_of(y.last()));
    }
}

proof fn lemma_projection_agrees(
    va: Value,
    vb: Value,
    c: crate::plan::classify::Classification,
    release: Seq<char>,
    release_sha256: Seq<char>,
    target: Seq<char>,
    installation: Option<crate::landing::observe::Installation>,
    oa: Seq<Operation>,
    ob: Seq<Operation>,
    pa: Seq<Precondition>,
    pb: Seq<Precondition>,
    da: Seq<Decision>,
    db: Seq<Decision>,
)
    requires
        projection_is(va, c, release, release_sha256, target, installation, oa, pa, da),
        projection_is(vb, c, release, release_sha256, target, installation, ob, pb, db),
        ops_json(oa) == ops_json(ob),
        gates_json(pa) == gates_json(pb),
        answers_json(da) == answers_json(db),
    ensures
        canonical_text(va) == canonical_text(vb),
{
    let ea = va->Object_0@;
    let eb = vb->Object_0@;
    law_map_order_irrelevant(ea[1].1, eb[1].1);
    lemma_model_entries(ea);
    lemma_model_entries(eb);
    assert(model_entries(ea) =~= model_entries(eb));
    assert(model(va) == model(vb));
}

/// Two plans for inputs that differ only in the clock carry one
/// fingerprint and one identifier, the same operations, and the same
/// readiness. The moment of planning decides nothing in a plan.
pub proof fn law_the_clock_decides_nothing(a: Inputs, b: Inputs, pa: Plan, pb: Plan)
    requires
        planned(a, pa),
        planned(b, pb),
        same_but_clock(a, b),
    ensures
        pa.input_fingerprint@ == pb.input_fingerprint@,
        pa.identity.plan_id@ == pb.identity.plan_id@,
        operation_models(pa.operations@) == operation_models(pb.operations@),
        pa.readiness == pb.readiness,
{
    lemma_findings_agree(pa.findings@, pb.findings@);
    lemma_decisions_agree(pa.decisions@, pb.decisions@);
    lemma_ops_agree(pa.operations@, pb.operations@);
    lemma_gates_agree(pa.preconditions@, pb.preconditions@);
    let va = choose|v: Value|
        projection_is(
            v,
            pa.classification,
            a.release@,
            a.release_sha256@,
            a.observation.repository.root@,
            a.observation.installation,
            pa.operations@,
            pa.preconditions@,
            pa.decisions@,
        ) && pa.input_fingerprint@ == digest_text(vstd::utf8::encode_utf8(canonical_text(v)));
    let vb = choose|v: Value|
        projection_is(
            v,
            pb.classification,
            b.release@,
            b.release_sha256@,
            b.observation.repository.root@,
            b.observation.installation,
            pb.operations@,
            pb.preconditions@,
            pb.decisions@,
        ) && pb.input_fingerprint@ == digest_text(vstd::utf8::encode_utf8(canonical_text(v)));
    lemma_projection_agrees(
        va,
        vb,
        pa.classification,
        a.release@,
        a.release_sha256@,
        a.observation.repository.root@,
        a.observation.installation,
        pa.operations@,
        pb.operations@,
        pa.preconditions@,
        pb.preconditions@,
        pa.decisions@,
        pb.decisions@,
    );
}

} // verus!
