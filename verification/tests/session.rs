use spec_driven_docs::digest::Sha256;
use spec_driven_docs::landing::observe::Installation;
use spec_driven_docs::plan::decision::Selections;
use spec_driven_docs::plan::session::{
    answered, baseline_for, compatibility_for, derives_landing, interval_for, payload_candidate,
    recorded_is_destination,
};
use spec_driven_docs::profile::ProfileId;
use spec_driven_docs::release::{Artifact, Role};
use spec_driven_docs::version::CanonVersion;

fn artifact(path: &str, role: Role, body: &str) -> Artifact {
    Artifact { path: path.to_string(), role, bytes: body.len() as u64, sha256: Sha256::of(body.as_bytes()) }
}

fn installed(major: u64, minor: u64, patch: u64) -> Option<Installation> {
    Some(Installation {
        canon_version: CanonVersion { major, minor, patch },
        profile: ProfileId::Codebase,
        docs_root: "docs".to_string(),
        record_sha256: Sha256::of(b"record"),
        declaration_sha256: None,
        managed: Vec::new(),
        adopted: Vec::new(),
        blocks: Vec::new(),
    })
}

#[test]
fn only_payload_files_are_candidates() {
    let artifacts = vec![
        artifact("skills/a.md", Role::Payload, "a"),
        artifact("instance/compatibility.toml", Role::Metadata, "c"),
        artifact("skills/a.md", Role::Payload, "b"),
    ];
    let candidate = payload_candidate(&artifacts);
    assert_eq!(candidate.entries().len(), 1);
    assert_eq!(candidate.get("skills/a.md").unwrap().as_str(), Sha256::of(b"b").as_str());
    assert!(candidate.get("instance/compatibility.toml").is_none());
}

#[test]
fn the_candidate_is_the_baseline_only_where_the_record_names_the_destination() {
    let candidate = payload_candidate(&[artifact("skills/a.md", Role::Payload, "a")]);
    assert!(recorded_is_destination(&installed(0, 4, 1), "0.4.1"));
    let same = baseline_for(&installed(0, 4, 1), "0.4.1", &candidate).unwrap();
    assert_eq!(same.get("skills/a.md").unwrap().as_str(), Sha256::of(b"a").as_str());
    assert!(baseline_for(&installed(0, 4, 0), "0.4.1", &candidate).is_none());
    assert!(baseline_for(&None, "0.4.1", &candidate).is_none());
}

#[test]
fn a_landing_is_derived_once_its_questions_are_answered() {
    let mut selections = Selections::new();
    assert!(!answered(false, false, &selections));
    assert!(answered(true, false, &selections));
    assert!(answered(false, true, &selections));
    selections.insert("plan-zone", "docs/plans");
    selections.insert("docs-scratch", "docs/.scratch");
    assert!(!answered(false, false, &selections));
    selections.insert("writing-style", "none");
    assert!(answered(false, false, &selections));
    assert!(derives_landing(Some(ProfileId::Codebase), true, &None));
    assert!(!derives_landing(None, true, &None));
    assert!(!derives_landing(Some(ProfileId::Codebase), false, &None));
    assert!(!derives_landing(Some(ProfileId::Codebase), true, &Some("broken".to_string())));
}

#[test]
fn a_bundle_that_owes_a_declaration_and_carries_none_is_refused() {
    assert!(compatibility_for(None, 0, "0.4.1").unwrap().is_none());
    assert_eq!(
        compatibility_for(None, 1, "0.4.1").unwrap_err(),
        "release 0.4.1 declares payload schema 1 and carries no instance/compatibility.toml"
    );
    let declared = b"schema = \"sdd.compatibility/1\"\nminimum_engine = \"0.3.0\"\nmust_pass_through = []\n";
    let held = compatibility_for(Some(declared), 1, "0.4.1").unwrap().unwrap();
    assert_eq!(held.minimum_engine.to_text(), "0.3.0");
    let refused = compatibility_for(Some(b"schema = 1"), 1, "0.4.1").unwrap_err();
    assert!(refused.starts_with("instance/compatibility.toml"), "{refused}");
}

#[test]
fn the_interval_runs_from_the_record_to_the_destination() {
    let engine = CanonVersion { major: 0, minor: 5, patch: 0 };
    let interval = interval_for(true, engine, &installed(0, 3, 2), "0.4.1").unwrap().unwrap();
    assert_eq!(interval.destination.to_text(), "0.4.1");
    assert_eq!(interval.recorded.unwrap().to_text(), "0.3.2");
    assert_eq!(interval.engine.to_text(), "0.5.0");
    assert!(interval_for(false, engine, &None, "0.4.1").unwrap().is_none());
    assert_eq!(interval_for(true, engine, &None, "latest").unwrap_err(), "latest is not a released triple");
}
