use spec_driven_docs::digest::Sha256;
use spec_driven_docs::probes::{
    judge, payload_plan, reinstall, run_all, skill_gate, skill_payload, skill_probes, skill_roots,
    state_root, state_root_of, tool, AgentRoot, HostObservation, Observed, ProbeClass, ProbeStatus,
    Recorded, RootAccess, Skill, ToolAnswer,
};

fn observed(destination: &str, expected: &[u8], held: Option<&[u8]>) -> Observed {
    Observed {
        destination: destination.to_string(),
        expected: expected.to_vec(),
        held: held.map(|h| h.to_vec()),
    }
}

#[test]
fn the_reinstall_needs_force_only_over_the_users_bytes() {
    assert_eq!(reinstall(true), "sdd skill install --apply");
    assert_eq!(reinstall(false), "sdd skill install --apply --force");
}

/// The judge sorts every destination into exactly one bucket, and the
/// record decides whether a differing one still counts as the tool's.
#[test]
fn the_judge_tells_stale_bytes_from_the_users_own() {
    let record = vec![Recorded {
        path: "/h/stale.md".to_string(),
        digest: Sha256::of(b"older release"),
    }];
    let planned = vec![
        observed("/h/matching.md", b"payload", Some(b"payload")),
        observed("/h/stale.md", b"payload", Some(b"older release")),
        observed("/h/missing.md", b"payload", None),
    ];
    let found = judge(&planned, &record);
    assert_eq!(found.matching, 1);
    assert_eq!(found.differing.len(), 1);
    assert_eq!(found.missing, vec!["/h/missing.md".to_string()]);
    assert!(found.all_recorded, "the record vouches for the stale copy");

    let planned = vec![observed("/h/edited.md", b"payload", Some(b"the user's own"))];
    let found = judge(&planned, &record);
    assert!(!found.all_recorded, "bytes the record cannot account for are the user's");
}

#[test]
fn a_record_entry_vouches_only_for_its_own_path() {
    let record = vec![Recorded {
        path: "/h/other.md".to_string(),
        digest: Sha256::of(b"older release"),
    }];
    let planned = vec![observed("/h/stale.md", b"payload", Some(b"older release"))];
    let found = judge(&planned, &record);
    assert!(!found.all_recorded);
    assert_eq!(found.differing, vec!["/h/stale.md".to_string()]);
}

#[test]
fn the_skill_probes_are_named_in_catalog_order() {
    assert_eq!(skill_probes(), vec!["skill-roots", "skill-gate", "skill-payload"]);
}

#[test]
fn a_tool_answer_reads_as_its_probe() {
    let args = vec!["--version".to_string()];
    let runs = tool("git", "git", "git; x", &args, ToolAnswer::Runs);
    assert_eq!(runs.status, ProbeStatus::Passed);
    assert_eq!(runs.class, ProbeClass::Soft);
    assert_eq!(runs.message, "git runs");
    assert_eq!(runs.remediation, None);

    let refuses = tool("git", "git", "git; x", &args, ToolAnswer::Refuses);
    assert_eq!(refuses.status, ProbeStatus::Failed);
    assert_eq!(refuses.message, "git does not answer --version");
    assert_eq!(refuses.remediation.as_deref(), Some("repair git; x"));

    let absent = tool("git", "git", "git; x", &args, ToolAnswer::Absent);
    assert_eq!(absent.message, "git is not on PATH");
    assert_eq!(absent.remediation.as_deref(), Some("install git; x"));
}

#[test]
fn the_state_root_sits_under_the_home() {
    assert_eq!(state_root_of("/home/u"), "/home/u/.local/state/spec-driven-docs");
    assert_eq!(state_root_of("/home/u/"), "/home/u/.local/state/spec-driven-docs");
}

#[test]
fn the_state_root_probe_is_hard_and_names_the_root() {
    let ok = state_root(&Some("/home/u".to_string()), &Ok(()));
    assert_eq!(ok.class, ProbeClass::Hard);
    assert_eq!(ok.status, ProbeStatus::Passed);
    assert_eq!(ok.message, "/home/u/.local/state/spec-driven-docs is writable");

    let refused = state_root(&Some("/home/u".to_string()), &Err("denied".to_string()));
    assert_eq!(refused.status, ProbeStatus::Failed);
    assert_eq!(
        refused.message,
        "/home/u/.local/state/spec-driven-docs is not writable: denied"
    );
    assert_eq!(
        refused.remediation.as_deref(),
        Some("make /home/u/.local/state/spec-driven-docs writable")
    );

    for home in [None, Some(String::new())] {
        let unset = state_root(&home, &Ok(()));
        assert_eq!(unset.message, "HOME is not set, so no state root resolves");
        assert_eq!(unset.remediation.as_deref(), Some("export HOME"));
    }
}

#[test]
fn every_refusing_root_is_named_in_one_message() {
    let home = Some("/h".to_string());
    let roots = vec![
        RootAccess { root: ".editor/skills".to_string(), existing: None, refusal: None },
        RootAccess {
            root: ".agents/skills".to_string(),
            existing: Some("/h".to_string()),
            refusal: Some("read-only".to_string()),
        },
        RootAccess {
            root: ".local/state/x".to_string(),
            existing: Some("/h/.local".to_string()),
            refusal: None,
        },
    ];
    let r = skill_roots(&home, &roots);
    assert_eq!(r.status, ProbeStatus::Failed);
    assert_eq!(
        r.message,
        "no ancestor of /h/.editor/skills exists; /h is not writable: read-only"
    );
    assert_eq!(r.remediation.as_deref(), Some("make the skill roots under /h writable"));

    let fine = skill_roots(&home, &roots[2..].to_vec());
    assert_eq!(fine.status, ProbeStatus::Passed);
    assert_eq!(fine.message, "the skill roots under /h accept writes");
}

#[test]
fn the_gate_probe_refuses_a_symlink_before_it_reads_anything() {
    let home = Some("/h".to_string());
    let r = skill_gate(&home, ".local/shared", &Some("/h/.local".to_string()), &vec![], &vec![]);
    assert_eq!(r.message, "the shared root is reached through a symlink: /h/.local");
    assert_eq!(
        r.remediation.as_deref(),
        Some("remove the symlink; sdd skill install refuses to write through it")
    );
}

#[test]
fn the_gate_probe_names_the_first_missing_artifact_then_counts_the_differing() {
    let home = Some("/h".to_string());
    let planned = vec![
        observed("/h/s/a.md", b"a", Some(b"edited")),
        observed("/h/s/b.md", b"b", None),
    ];
    let r = skill_gate(&home, "s", &None, &planned, &vec![]);
    assert_eq!(
        r.message,
        "a shared artifact every skill reads before acting is not installed: /h/s/b.md"
    );
    assert_eq!(r.remediation.as_deref(), Some("sdd skill install --apply --force"));

    let planned = vec![observed("/h/s/a.md", b"a", Some(b"edited"))];
    let r = skill_gate(&home, "s", &None, &planned, &vec![]);
    assert_eq!(r.message, "1 shared artifact(s) under /h/s are not this binary's");

    let planned = vec![observed("/h/s/a.md", b"a", Some(b"a"))];
    let r = skill_gate(&home, "s", &None, &planned, &vec![]);
    assert_eq!(r.status, ProbeStatus::Passed);
    assert_eq!(r.message, "/h/s holds this binary's shared artifacts");
}

#[test]
fn the_payload_plan_covers_present_roots_only() {
    let roots = vec![
        AgentRoot { root: ".editor/skills".to_string(), present: true },
        AgentRoot { root: ".agents/skills".to_string(), present: false },
    ];
    let skills = vec![
        Skill { name: "plan".to_string(), text: Some(b"P".to_vec()) },
        Skill { name: "land".to_string(), text: Some(b"L".to_vec()) },
    ];
    let plan = payload_plan("/h", &roots, &skills).unwrap();
    let destinations: Vec<&str> = plan.iter().map(|o| o.destination.as_str()).collect();
    assert_eq!(
        destinations,
        vec!["/h/.editor/skills/plan/SKILL.md", "/h/.editor/skills/land/SKILL.md"]
    );
    assert_eq!(plan[1].expected, b"L".to_vec());
    assert!(plan.iter().all(|o| o.held.is_none()));

    let broken = vec![Skill { name: "plan".to_string(), text: None }];
    assert!(payload_plan("/h", &roots, &broken).is_none());
    let absent = vec![AgentRoot { root: ".editor/skills".to_string(), present: false }];
    assert_eq!(payload_plan("/h", &absent, &broken).unwrap().len(), 0);
}

#[test]
fn the_payload_probe_reports_drift_with_the_release() {
    let home = Some("/h".to_string());
    let none = skill_payload(&home, &Some(vec![]), &vec![], "1.2.3");
    assert_eq!(none.message, "no agent skill root exists under /h");
    assert_eq!(none.remediation.as_deref(), Some("sdd skill install --apply"));

    let unread = skill_payload(&home, &None, &vec![], "1.2.3");
    assert_eq!(unread.message, "this binary's embedded skills do not read");

    let drift = Some(vec![
        observed("/h/a/SKILL.md", b"new", Some(b"old")),
        observed("/h/b/SKILL.md", b"new", Some(b"new")),
    ]);
    let record = vec![Recorded { path: "/h/a/SKILL.md".to_string(), digest: Sha256::of(b"old") }];
    let r = skill_payload(&home, &drift, &record, "1.2.3");
    assert_eq!(r.message, "1 installed skill(s) are not this binary's; sdd is 1.2.3");
    assert_eq!(r.remediation.as_deref(), Some("sdd skill install --apply"));

    let missing = Some(vec![
        observed("/h/a/SKILL.md", b"new", None),
        observed("/h/b/SKILL.md", b"new", None),
    ]);
    let r = skill_payload(&home, &missing, &vec![], "1.2.3");
    assert_eq!(
        r.message,
        "2 of this binary's skills are not installed, the first at /h/a/SKILL.md"
    );

    let current = Some(vec![observed("/h/a/SKILL.md", b"new", Some(b"new"))]);
    let r = skill_payload(&home, &current, &vec![], "1.2.3");
    assert_eq!(r.status, ProbeStatus::Passed);
    assert_eq!(r.message, "1 installed skill destination(s) are this binary's");
}

#[test]
fn the_catalog_runs_in_its_stable_order() {
    let host = HostObservation {
        home: None,
        state_written: Ok(()),
        roots: vec![],
        shared_root: ".local/shared".to_string(),
        shared_symlink: None,
        shared: vec![],
        payload: Some(vec![]),
        record: vec![],
        version: "1.0.0".to_string(),
        git: ToolAnswer::Runs,
        pre_commit: ToolAnswer::Absent,
    };
    let results = run_all(&host);
    let ids: Vec<&str> = results.iter().map(|r| r.id.as_str()).collect();
    assert_eq!(
        ids,
        vec!["state-root", "skill-roots", "skill-gate", "skill-payload", "git", "pre-commit"]
    );
    assert_eq!(results[0].class, ProbeClass::Hard);
    assert!(results[..4].iter().all(|r| r.status == ProbeStatus::Failed));
    assert_eq!(results[4].status, ProbeStatus::Passed);
    assert_eq!(
        results[5].remediation.as_deref(),
        Some("install pre-commit; the delivered gates run through it")
    );
}
