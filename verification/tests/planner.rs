use spec_driven_docs::digest::Sha256;
use spec_driven_docs::landing::finding::FindingKind;
use spec_driven_docs::landing::observe::{
    held_by_path, Corpus, Host, Installation, Observation, RecordedFile, Repository,
};
use spec_driven_docs::landing::path::TargetPath;
use spec_driven_docs::plan::classify::Classification;
use spec_driven_docs::plan::decision::Selections;
use spec_driven_docs::plan::operation::{Class, Operation};
use spec_driven_docs::plan::planner::inputs::{chosen_profile, Inputs, Landing, Projection};
use spec_driven_docs::plan::planner::plan;
use spec_driven_docs::plan::readiness::{Evaluation, Readiness, Requirement};
use spec_driven_docs::plan::Declared;
use spec_driven_docs::profile::ProfileId;
use spec_driven_docs::sorted_map::TextMap;
use spec_driven_docs::version::CanonVersion;

fn path(p: &str) -> TargetPath {
    TargetPath::new(p).unwrap()
}

fn corpus(documents: &[&str]) -> Corpus {
    Corpus {
        populated_doc_roots: vec![],
        documents: documents.iter().map(|d| path(d)).collect(),
        spec_shaped: vec![],
        spec_without_rule_id: vec![],
        ordinal_named: vec![],
        records_outside_decisions: vec![],
        has_specs_directory: false,
    }
}

fn observation(installation: Option<Installation>, corpus: Corpus) -> Observation {
    Observation {
        repository: Repository { root: "/repo".to_string(), version_controlled: true, empty: false },
        installation,
        invalid: None,
        host: Host { offline: true, cache_root: None },
        corpus,
    }
}

fn landing() -> Landing {
    Landing {
        docs_root: "_docs".to_string(),
        managed: vec![Projection {
            source: "method/gate.md".to_string(),
            destination: "_docs/method/gate.md".to_string(),
        }],
        adopted: vec![Projection {
            source: "seeds/style.md".to_string(),
            destination: "_docs/style.md".to_string(),
        }],
    }
}

fn candidate() -> TextMap<Sha256> {
    let mut m = TextMap::new();
    m.insert("method/gate.md", Sha256::of(b"gate v2"));
    m.insert("seeds/style.md", Sha256::of(b"style v2"));
    m
}

fn inputs(observation: Observation, selections: Selections, now: &str) -> Inputs {
    Inputs {
        observation,
        declared: Declared { payload_schema: 1, managed: 1, adopted: 1, sentinels: 0 },
        landing: Some(landing()),
        candidate: candidate(),
        baseline: None,
        selector: "latest".to_string(),
        release: "0.9.0".to_string(),
        release_sha256: Sha256::of(b"release"),
        provenance: "native".to_string(),
        registry_checksum: None,
        yanked: false,
        proposed: None,
        selections,
        now: now.to_string(),
        engine_version: "0.9.0".to_string(),
    }
}

fn installed(version: CanonVersion) -> Installation {
    Installation {
        canon_version: version,
        profile: ProfileId::KnowledgeBase,
        docs_root: "_docs".to_string(),
        record_sha256: Sha256::of(b"record"),
        declaration_sha256: None,
        managed: vec![RecordedFile {
            path: path("_docs/method/gate.md"),
            recorded: Sha256::of(b"gate v1"),
            baseline: None,
            held: Some(Sha256::of(b"gate v1")),
        }],
        adopted: vec![RecordedFile {
            path: path("_docs/style.md"),
            recorded: Sha256::of(b"style v1"),
            baseline: Some(Sha256::of(b"style v1")),
            held: Some(Sha256::of(b"style edited")),
        }],
        blocks: vec![],
    }
}

#[test]
fn a_first_landing_waits_for_the_profile_and_offers_no_write() {
    let p = plan(inputs(observation(None, corpus(&[])), Selections::new(), "t1"));
    assert_eq!(p.classification, Classification::Setup);
    let ids: Vec<&str> = p.decisions.iter().map(|d| d.id.as_str()).collect();
    assert_eq!(ids, ["profile"]);
    assert!(p.operations.is_empty());
    assert_eq!(p.readiness, Readiness::NeedsDecision);
    assert_eq!(p.desired_state.profile, None);
}

#[test]
fn a_chosen_profile_offers_the_placements_and_the_writes() {
    let mut s = Selections::new();
    s.insert("profile", "knowledge-base");
    assert_eq!(chosen_profile(&None, &s), Some(ProfileId::KnowledgeBase));
    let p = plan(inputs(observation(None, corpus(&[])), s, "t1"));
    let ids: Vec<&str> = p.decisions.iter().map(|d| d.id.as_str()).collect();
    assert_eq!(ids, ["profile", "plan-zone", "docs-scratch", "writing-style"]);
    assert_eq!(p.decisions[1].depends_on, vec!["profile".to_string()]);
    assert_eq!(p.operations.len(), 2);
    assert!(matches!(&p.operations[0], Operation::WriteFile { class: Class::Managed, before: None, .. }));
    assert!(matches!(&p.operations[1], Operation::WriteFile { class: Class::Adopted, before: None, .. }));
    let gate = p
        .preconditions
        .iter()
        .find(|g| g.id == "the-plan-records-the-instance")
        .unwrap();
    assert_eq!(gate.requirement, Requirement::Required);
    assert_eq!(p.readiness, Readiness::Blocked);
}

#[test]
fn an_upgrade_writes_the_managed_file_and_moves_only_the_adopted_baseline() {
    let inst = installed(CanonVersion { major: 0, minor: 8, patch: 0 });
    let p = plan(inputs(observation(Some(inst), corpus(&["_docs/a.md"])), Selections::new(), "t1"));
    assert_eq!(p.classification, Classification::Upgrade);
    assert!(p.decisions.is_empty());
    assert_eq!(p.operations.len(), 2);
    match &p.operations[0] {
        Operation::WriteFile { path, class, before, after } => {
            assert_eq!(path.as_str(), "_docs/method/gate.md");
            assert_eq!(*class, Class::Managed);
            assert_eq!(before.as_ref(), Some(&Sha256::of(b"gate v1")));
            assert_eq!(after, &Sha256::of(b"gate v2"));
        }
        other => panic!("{other:?}"),
    }
    match &p.operations[1] {
        Operation::KeepFile { held, baseline_before, baseline_after, .. } => {
            assert_eq!(held, &Sha256::of(b"style edited"));
            assert_eq!(baseline_before, &Sha256::of(b"style v1"));
            assert_eq!(baseline_after, &Sha256::of(b"style v2"));
        }
        other => panic!("{other:?}"),
    }
    let advisory = p.preconditions.iter().find(|g| g.id == "baseline-is-readable").unwrap();
    assert_eq!(advisory.requirement, Requirement::Advisory);
    assert_eq!(p.readiness, Readiness::Ready);
    let refs: Vec<&str> = p.observed_state.evidence_refs.iter().map(|r| r.as_str()).collect();
    assert_eq!(refs, ["target", "record", "host"]);
}

#[test]
fn an_edited_managed_file_blocks_the_plan_and_names_itself() {
    let mut inst = installed(CanonVersion { major: 0, minor: 8, patch: 0 });
    inst.managed[0].held = Some(Sha256::of(b"edited"));
    let p = plan(inputs(observation(Some(inst), corpus(&[])), Selections::new(), "t1"));
    let gate = p.preconditions.iter().find(|g| g.id == "managed-files-are-unedited").unwrap();
    assert_eq!(
        gate.evaluation,
        Evaluation::Unsatisfied { reason: "_docs/method/gate.md was edited".to_string() }
    );
    assert_eq!(p.readiness, Readiness::Blocked);
}

#[test]
fn the_identity_does_not_read_the_clock() {
    let one = plan(inputs(observation(None, corpus(&[])), Selections::new(), "2024-01-01T00:00:00Z"));
    let two = plan(inputs(observation(None, corpus(&[])), Selections::new(), "2025-06-01T12:00:00Z"));
    assert_eq!(one.input_fingerprint, two.input_fingerprint);
    assert_eq!(one.identity.plan_id, one.input_fingerprint.as_str());
    assert_ne!(one.identity.created_at, two.identity.created_at);
}

#[test]
fn an_answer_changes_the_identity() {
    let mut s = Selections::new();
    s.insert("profile", "codebase");
    let one = plan(inputs(observation(None, corpus(&[])), Selections::new(), "t"));
    let two = plan(inputs(observation(None, corpus(&[])), s, "t"));
    assert_ne!(one.input_fingerprint, two.input_fingerprint);
}

#[test]
fn a_migration_names_its_documents_and_asks_for_the_scope() {
    let mut s = Selections::new();
    s.insert("profile", "knowledge-base");
    s.insert("migration-scope", "incremental");
    let mut c = corpus(&["docs/one.md"]);
    c.populated_doc_roots = vec!["docs".to_string()];
    c.ordinal_named = vec![path("docs/one.md")];
    let p = plan(inputs(observation(None, c), s, "t"));
    assert_eq!(p.classification, Classification::Migration);
    let rules: Vec<&str> = p.findings.iter().map(|f| f.rule.as_str()).collect();
    assert_eq!(
        rules,
        ["foreign-documentation-root", "no-specifications-directory", "ordinal-filename"]
    );
    assert_eq!(
        p.findings[0].statement,
        "docs holds documents and the knowledge-base profile keeps them under _docs"
    );
    assert_eq!(p.structural_count(), 3);
    assert_eq!(p.findings_of(FindingKind::Budget).len(), 0);
    assert_eq!(p.style_candidates.len(), 1);
    let scope = p.decisions.iter().find(|d| d.id == "migration-scope").unwrap();
    assert_eq!(scope.depends_on, vec!["profile".to_string()]);
    let gate = p
        .preconditions
        .iter()
        .find(|g| g.id == "incremental-scope-has-no-structural-finding")
        .unwrap();
    assert_eq!(
        gate.evaluation,
        Evaluation::Unsatisfied {
            reason: "3 structural finding(s) would make two conventions coexist".to_string()
        }
    );
}

#[test]
fn a_yanked_release_asks_before_it_lands() {
    let mut i = inputs(observation(None, corpus(&[])), Selections::new(), "t");
    i.yanked = true;
    let p = plan(i);
    let last = p.decisions.last().unwrap();
    assert_eq!(last.id, "accept-yanked-release");
    assert_eq!(last.question, "the registry marks 0.9.0 yanked; land it anyway?");
}

#[test]
fn held_paths_come_from_managed_then_adopted_files() {
    let inst = installed(CanonVersion { major: 0, minor: 8, patch: 0 });
    let held = held_by_path(Some(&inst));
    assert_eq!(held.get("_docs/method/gate.md"), Some(&Sha256::of(b"gate v1")));
    assert_eq!(held.get("_docs/style.md"), Some(&Sha256::of(b"style edited")));
    assert_eq!(held.entries().len(), 2);
}

#[test]
fn a_result_keeps_no_absolute_target_path() {
    let mut observed = observation(None, corpus(&["docs/a.md"]));
    observed.host.cache_root = Some("/home/u/.cache/spec-driven-docs".to_string());
    let p = plan(inputs(observed, Selections::new(), "t1"));
    let fingerprint = p.input_fingerprint.as_str().to_string();
    let held = spec_driven_docs::plan::store::redact(p);
    assert_eq!(held.observed_state.repository.root, "<target>");
    assert!(held.observed_state.host.cache_root.is_none());
    assert!(held.observed_state.host.offline);
    assert_eq!(held.observed_state.corpus.documents.len(), 1);
    assert_eq!(held.input_fingerprint.as_str(), fingerprint);
}

#[test]
fn the_clock_decides_nothing_in_a_plan() {
    let chosen = || {
        let mut s = Selections::new();
        s.insert("profile", "knowledge-base");
        s
    };
    let one = plan(inputs(observation(None, corpus(&[])), chosen(), "2024-01-01T00:00:00Z"));
    let two = plan(inputs(observation(None, corpus(&[])), chosen(), "2025-06-01T12:00:00Z"));
    assert_eq!(one.input_fingerprint.as_str(), two.input_fingerprint.as_str());
    assert_eq!(one.identity.plan_id, two.identity.plan_id);
    assert_eq!(one.operations, two.operations);
    assert_eq!(one.readiness, two.readiness);
}
