use spec_driven_docs::plan::apply::after_failed_write;
use spec_driven_docs::digest::Sha256;
use spec_driven_docs::landing::observe::{Corpus, Host, Observation, Repository};
use spec_driven_docs::landing::path::TargetPath;
use spec_driven_docs::plan::apply::{
    aborted_reason, admission, disposition_slug, moved, ordered, prove, settle, terminal, Admission, Verified,
};
use spec_driven_docs::plan::decision::Selections;
use spec_driven_docs::plan::operation::{Class, Operation};
use spec_driven_docs::plan::planner::inputs::Inputs;
use spec_driven_docs::plan::planner::plan;
use spec_driven_docs::plan::readiness::Readiness;
use spec_driven_docs::plan::store::{Disposition, PostconditionOutcome};
use spec_driven_docs::plan::{Declared, Plan, Postcondition};
use spec_driven_docs::sorted_map::TextMap;

fn write(path: &str, after: &[u8]) -> Operation {
    Operation::WriteFile {
        path: TargetPath::new(path).unwrap(),
        class: Class::Managed,
        before: None,
        after: Sha256::of(after),
    }
}

fn record(path: &str, after: &[u8]) -> Operation {
    Operation::WriteRecord { path: TargetPath::new(path).unwrap(), before: None, after: Sha256::of(after) }
}

fn plan_with(operations: Vec<Operation>) -> Plan {
    let mut p = plan(Inputs {
        observation: Observation {
            repository: Repository { root: "/nowhere".to_string(), version_controlled: true, empty: true },
            installation: None,
            invalid: None,
            host: Host { offline: true, cache_root: None },
            corpus: Corpus {
                populated_doc_roots: vec![],
                documents: vec![],
                spec_shaped: vec![],
                spec_without_rule_id: vec![],
                ordinal_named: vec![],
                records_outside_decisions: vec![],
                has_specs_directory: false,
            },
        },
        declared: Declared { payload_schema: 1, managed: 0, adopted: 0, sentinels: 0 },
        landing: None,
        candidate: TextMap::new(),
        baseline: None,
        selector: "embedded".to_string(),
        release: "0.0.0".to_string(),
        release_sha256: Sha256::of(b"release"),
        provenance: "native".to_string(),
        registry_checksum: None,
        yanked: false,
        proposed: None,
        selections: Selections::new(),
        now: "2026-09-12T00:00:00Z".to_string(),
        engine_version: "0.0.0".to_string(),
    });
    p.operations = operations;
    p
}

#[test]
fn the_record_is_written_last() {
    let plan = plan_with(vec![
        record(".spec-driven-docs/instance.json", b"record"),
        write("a.md", b"a"),
        write("b.md", b"b"),
    ]);
    let order: Vec<&str> = ordered(&plan).iter().map(|operation| operation.path().as_str()).collect();
    assert_eq!(order, ["a.md", "b.md", ".spec-driven-docs/instance.json"]);
}

#[test]
fn nothing_moved_reports_no_difference() {
    let plan = plan_with(vec![write("a.md", b"a")]);
    assert!(moved(&plan, &plan).is_empty());
}

#[test]
fn a_changed_operation_is_named_by_its_destination() {
    let one = plan_with(vec![write("a.md", b"a")]);
    let two = plan_with(vec![write("a.md", b"different")]);
    let differences = moved(&one, &two);
    assert_eq!(differences.len(), 1);
    assert!(differences[0].contains("a.md"), "{differences:?}");
}

#[test]
fn an_added_or_dropped_operation_is_named() {
    let one = plan_with(vec![write("a.md", b"a")]);
    let two = plan_with(vec![write("a.md", b"a"), write("b.md", b"b")]);
    assert!(moved(&one, &two).iter().any(|held| held.contains("newly")));
    assert!(moved(&two, &one).iter().any(|held| held.contains("no longer part")));
}

#[test]
fn a_changed_operation_reads_exactly() {
    let one = plan_with(vec![write("a.md", b"a")]);
    let two = plan_with(vec![write("a.md", b"different")]);
    assert_eq!(moved(&one, &two), ["a.md no longer needs what the plan described"]);
}

#[test]
fn a_plan_whose_fingerprint_moved_is_invalidated_with_the_differences() {
    let one = plan_with(vec![write("a.md", b"a")]);
    let mut two = plan_with(vec![write("a.md", b"a"), write("b.md", b"b")]);
    two.input_fingerprint = Sha256::of(b"another world");
    match admission(&one, &two) {
        Admission::Invalidated(reason) => assert_eq!(
            reason,
            "the plan no longer describes the target: b.md is newly part of the plan"
        ),
        other => panic!("{other:?}"),
    }
}

#[test]
fn a_moved_fingerprint_with_no_named_input_names_the_identity() {
    let one = plan_with(vec![write("a.md", b"a")]);
    let mut two = plan_with(vec![write("a.md", b"a")]);
    two.input_fingerprint = Sha256::of(b"another world");
    match admission(&one, &two) {
        Admission::Invalidated(reason) => assert_eq!(
            reason,
            format!(
                "the plan no longer describes the target: the plan's inputs no longer hash to {}",
                one.identity.plan_id
            )
        ),
        other => panic!("{other:?}"),
    }
}

#[test]
fn a_ready_plan_executes_and_an_empty_one_writes_nothing() {
    let mut full = plan_with(vec![write("a.md", b"a")]);
    full.readiness = Readiness::Ready;
    assert!(matches!(admission(&full, &full), Admission::Execute));
    let mut empty = plan_with(vec![]);
    empty.readiness = Readiness::Ready;
    assert!(matches!(admission(&empty, &empty), Admission::NothingToWrite));
}

#[test]
fn a_plan_waiting_on_a_decision_names_it() {
    let p = plan_with(vec![]);
    assert_eq!(p.readiness, Readiness::NeedsDecision);
    match admission(&p, &p) {
        Admission::Waits(reason) => assert_eq!(
            reason,
            "the plan waits on a decision: profile; answer it with --set and plan again"
        ),
        other => panic!("{other:?}"),
    }
}

#[test]
fn a_terminal_result_carries_the_plan_and_a_dashed_identifier() {
    let p = plan_with(vec![]);
    let r = terminal(&p, "2026-09-12T00:00:00.5Z", Disposition::RecoveryRequired, "stopped");
    assert_eq!(r.result_id, "2026-09-12T00-00-00-5Z-recovery-required");
    assert_eq!(r.plan_id, p.identity.plan_id);
    assert!(r.recovery_required);
    assert_eq!(r.reason, "stopped");
    assert_eq!(disposition_slug(Disposition::Succeeded), "succeeded");
}

#[test]
fn an_aborted_apply_names_the_postcondition() {
    let first = PostconditionOutcome {
        id: "record-matches".to_string(),
        held: false,
        detail: Some("digest differs".to_string()),
    };
    assert_eq!(
        aborted_reason(&first),
        "apply aborted: the postcondition record-matches did not hold: digest differs"
    );
}

fn with_postconditions(mut p: Plan, ids: &[&str]) -> Plan {
    p.postconditions = ids
        .iter()
        .map(|id| Postcondition { id: id.to_string(), statement: "s".to_string() })
        .collect();
    p
}

#[test]
fn each_postcondition_is_checked_by_its_own_evidence() {
    let p = with_postconditions(
        plan_with(vec![write("a.md", b"a"), write("b.md", b"b")]),
        &["record-matches-the-tree", "verification-passes", "unheard-of"],
    );
    let found = vec![Some(Sha256::of(b"a")), Some(Sha256::of(b"stale"))];
    let verified = Verified::Ran { failures: 2, lines: vec!["FAIL x".to_string(), "FAIL y".to_string()] };
    let outcomes = prove(&p, &found, &verified);
    assert!(!outcomes[0].held);
    assert_eq!(outcomes[0].detail.as_deref(), Some("these destinations do not hold the plan's digest: b.md"));
    assert_eq!(outcomes[1].detail.as_deref(), Some("sdd verify reports 2 failure(s): FAIL x; FAIL y"));
    assert_eq!(outcomes[2].detail.as_deref(), Some("unheard-of has no check behind it in this engine"));
    let (disposition, reason) = settle(&outcomes);
    assert_eq!(disposition, Disposition::Retryable);
    assert_eq!(
        reason,
        "apply aborted: the postcondition record-matches-the-tree did not hold: these destinations do not hold the plan's digest: b.md"
    );
}

#[test]
fn a_target_that_holds_everything_settles_as_succeeded() {
    let p = with_postconditions(plan_with(vec![write("a.md", b"a")]), &["record-matches-the-tree", "verification-passes"]);
    let outcomes = prove(&p, &vec![Some(Sha256::of(b"a"))], &Verified::Ran { failures: 0, lines: vec![] });
    assert!(outcomes.iter().all(|o| o.held));
    let (disposition, reason) = settle(&outcomes);
    assert_eq!(disposition, Disposition::Succeeded);
    assert_eq!(reason, "the target already holds what the plan describes");
    let broken = prove(&p, &vec![Some(Sha256::of(b"a"))], &Verified::CouldNotRun("no record".to_string()));
    assert_eq!(broken[1].detail.as_deref(), Some("sdd verify could not run: no record"));
}

#[test]
fn a_failed_write_is_retryable_only_where_the_target_was_put_back() {
    let (disposition, reason, error) = after_failed_write("docs/a.md", "disk full", Ok(()));
    assert_eq!(disposition, Disposition::Retryable);
    assert_eq!(reason, "docs/a.md could not be written: disk full");
    assert_eq!(error.kind(), "Refused");
    assert_eq!(error.message(), "docs/a.md could not be written: disk full; the target was put back");
    let (disposition, _, error) = after_failed_write("docs/a.md", "disk full", Err("journal gone".to_string()));
    assert_eq!(disposition, Disposition::RecoveryRequired);
    assert_eq!(error.kind(), "Unrecovered");
    assert_eq!(
        error.message(),
        "docs/a.md could not be written: disk full; the target could not be put back: journal gone"
    );
}
