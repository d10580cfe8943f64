use spec_driven_docs::plan::readiness::Requirement::{Advisory, DecisionRequired, Required};
use spec_driven_docs::plan::readiness::{readiness, Evaluation, Precondition, Readiness, Requirement};

fn precondition(requirement: Requirement, evaluation: Evaluation) -> Precondition {
    Precondition {
        id: "one".to_string(),
        statement: "one thing holds".to_string(),
        requirement,
        evaluation,
        resolved_by: None,
        evidence_refs: Vec::new(),
    }
}

fn unsatisfied() -> Evaluation {
    Evaluation::Unsatisfied {
        reason: "it does not".to_string(),
    }
}

fn not_observed() -> Evaluation {
    Evaluation::NotObserved {
        reason: "nobody could tell".to_string(),
    }
}

#[test]
fn readiness_is_the_worst_precondition() {
    let cases: &[(Requirement, Evaluation, Readiness)] = &[
        (Advisory, Evaluation::Satisfied, Readiness::Ready),
        (Advisory, unsatisfied(), Readiness::Ready),
        (Advisory, not_observed(), Readiness::Ready),
        (DecisionRequired, Evaluation::Satisfied, Readiness::Ready),
        (DecisionRequired, unsatisfied(), Readiness::NeedsDecision),
        (DecisionRequired, not_observed(), Readiness::NeedsDecision),
        (Required, Evaluation::Satisfied, Readiness::Ready),
        (Required, unsatisfied(), Readiness::Blocked),
        (Required, not_observed(), Readiness::Blocked),
    ];
    for (requirement, evaluation, expected) in cases {
        let held = precondition(*requirement, evaluation.clone());
        assert_eq!(held.verdict(), *expected, "{requirement:?} {evaluation:?}");
    }
}

#[test]
fn one_blocked_precondition_blocks_the_plan_whatever_its_position() {
    let ready = precondition(Requirement::Advisory, Evaluation::Satisfied);
    let waiting = precondition(Requirement::DecisionRequired, unsatisfied());
    let blocked = precondition(Requirement::Required, unsatisfied());
    assert_eq!(readiness(&[]), Readiness::Ready);
    assert_eq!(readiness(std::slice::from_ref(&ready)), Readiness::Ready);
    assert_eq!(
        readiness(&[ready.clone(), waiting.clone()]),
        Readiness::NeedsDecision
    );
    assert_eq!(
        readiness(&[blocked.clone(), ready.clone(), waiting.clone()]),
        Readiness::Blocked
    );
    assert_eq!(readiness(&[waiting, ready, blocked]), Readiness::Blocked);
}

#[test]
fn a_gap_is_honest_and_is_not_permission() {
    let held = precondition(Requirement::Required, not_observed());
    assert_eq!(held.verdict(), Readiness::Blocked);
}

#[test]
fn any_order_of_the_same_preconditions_is_as_ready() {
    let waiting = precondition(Requirement::DecisionRequired, not_observed());
    let ready = precondition(Requirement::Required, Evaluation::Satisfied);
    assert_eq!(
        readiness(&[waiting.clone(), ready.clone()]),
        readiness(&[ready, waiting])
    );
}
