use spec_driven_docs::digest::Sha256;
use spec_driven_docs::profile::ProfileId;
use spec_driven_docs::services::instance_check::{
    check_adopted, check_block_entries, check_managed, check_specs, conclude, duplicated,
    Checked, Found, VerifyReport,
};
use spec_driven_docs::text::split_words;
use spec_driven_docs::services::status::{absent, alignment, status, Alignment, Present};
use spec_driven_docs::services::upgrader::{
    conflicts, finish, keep_notes, next_step, upstream_only, HeldBlock, HeldFile, UpgradeOutcome, UpgradeStep,
};
use spec_driven_docs::version::CanonVersion;

fn v(major: u64, minor: u64, patch: u64) -> CanonVersion {
    CanonVersion { major, minor, patch }
}

fn checked(destination: &str, recorded: &[u8], found: Found) -> Checked {
    Checked { destination: destination.to_string(), recorded: Sha256::of(recorded), found }
}

fn gates() -> Vec<String> {
    vec!["adr-filename-shape".to_string(), "spec-size-cap".to_string()]
}

#[test]
fn each_managed_fault_fails_and_counts_as_drift() {
    let mut report = VerifyReport::default();
    let files = vec![
        checked("a.md", b"a", Found::ThroughLink),
        checked("b.md", b"b", Found::Absent),
        checked("c.md", b"c", Found::Holds(Sha256::of(b"edited"))),
        checked("d.md", b"d", Found::Holds(Sha256::of(b"d"))),
    ];
    check_managed(&mut report, &files);
    assert_eq!(
        report.lines,
        [
            "FAIL managed file reached through a symlink: a.md",
            "FAIL missing managed file: b.md",
            "FAIL managed drift: c.md",
        ]
    );
    assert_eq!(report.failures, 3);
    assert_eq!(report.managed_drift, 3);
    assert_eq!(report.adopted_drift, 0);
}

#[test]
fn an_edited_adopted_file_is_a_note_and_not_a_failure() {
    let mut report = VerifyReport::default();
    let files = vec![
        checked("style.md", b"seed", Found::Holds(Sha256::of(b"mine"))),
        checked("gone.md", b"seed", Found::Absent),
    ];
    check_adopted(&mut report, &files);
    assert_eq!(
        report.lines,
        ["DRIFT adopted file requires reconciliation: style.md", "FAIL missing adopted file: gone.md"]
    );
    assert_eq!(report.failures, 1);
    assert_eq!(report.adopted_drift, 1);
}

#[test]
fn words_split_at_any_white_space() {
    let text: Vec<char> = "  sdd\tgate  spec-size-cap \n".chars().collect();
    let words: Vec<String> = split_words(&text).into_iter().map(|w| w.into_iter().collect()).collect();
    assert_eq!(words, ["sdd", "gate", "spec-size-cap"]);
}

#[test]
fn a_block_entry_must_name_a_known_gate() {
    let mut report = VerifyReport::default();
    let block = "- id: a\n  entry: sdd gate spec-size-cap\n- id: b\n  entry: sdd gate nonsense\n- id: c\n  entry: sdd gate\n";
    check_block_entries(&mut report, block, &gates());
    assert_eq!(
        report.lines,
        [
            "FAIL managed block entry names an unknown gate: nonsense",
            "FAIL managed block entry names no gate: sdd gate",
        ]
    );
    assert_eq!(report.failures, 2);
}

#[test]
fn a_block_without_an_entry_of_this_tool_fails_once() {
    let mut report = VerifyReport::default();
    check_block_entries(&mut report, "- id: other\n  entry: markdownlint\n", &gates());
    assert_eq!(report.lines, ["FAIL managed block wires no sdd entry"]);
    let mut verified = VerifyReport::default();
    check_block_entries(&mut verified, "  entry: sdd verify\n", &gates());
    assert!(verified.lines.is_empty());
}

#[test]
fn repeated_rule_ids_are_listed_once_in_order() {
    let ids: Vec<String> = ["b", "a", "b", "c", "a", "b"].iter().map(|s| s.to_string()).collect();
    assert_eq!(duplicated(&ids), ["a", "b"]);
    let mut report = VerifyReport::default();
    let dups = check_specs(&mut report, "_docs", Some(&ids));
    assert_eq!(dups, ["a", "b"]);
    assert_eq!(report.lines, ["FAIL duplicate rule ID in local specs", "### `a`", "### `b`"]);
    assert_eq!(report.failures, 1);
}

#[test]
fn missing_specs_fail() {
    let mut report = VerifyReport::default();
    check_specs(&mut report, "_docs", None);
    assert_eq!(report.lines, ["FAIL missing local specs: _docs/specs"]);
}

#[test]
fn an_older_instance_is_a_note_and_a_sound_one_says_ok() {
    let mut report = VerifyReport::default();
    conclude(&mut report, &v(0, 8, 0), &v(0, 9, 0), "/repo");
    assert_eq!(
        report.lines,
        [
            "note: sdd 0.9.0 is newer than the installed canon 0.8.0; run 'sdd upgrade'",
            "OK spec-driven-docs 0.8.0 at /repo",
        ]
    );
    let mut newer = VerifyReport::default();
    conclude(&mut newer, &v(1, 0, 0), &v(0, 9, 0), "/repo");
    assert_eq!(newer.lines, ["FAIL sdd 0.9.0 is older than the installed canon 1.0.0; upgrade sdd"]);
    assert_eq!(newer.failures, 1);
}

#[test]
fn status_reports_absence_and_alignment() {
    let none = absent(v(0, 9, 0));
    assert!(!none.instance);
    assert_eq!(none.ok, None);
    assert_eq!(alignment(&v(0, 8, 0), &v(0, 9, 0)), Alignment::BinaryNewer);
    assert_eq!(alignment(&v(1, 0, 0), &v(0, 9, 0)), Alignment::InstanceNewer);
    assert_eq!(alignment(&v(0, 9, 0), &v(0, 9, 0)), Alignment::Aligned);
    let mut report = VerifyReport::default();
    report.fail("FAIL x".to_string());
    let r = status(
        Some(Present { profile: ProfileId::Codebase, docs_root: "_docs".to_string(), canon_version: v(0, 9, 0), report }),
        v(0, 9, 0),
    );
    assert!(r.instance);
    assert_eq!(r.failures, 1);
    assert_eq!(r.ok, Some(false));
    assert_eq!(r.alignment, Some(Alignment::Aligned));
}

#[test]
fn an_edit_blocks_the_upgrade_before_anything_else() {
    let files = vec![
        HeldFile { destination: "m.md".to_string(), recorded: Sha256::of(b"m"), held: Some(Sha256::of(b"edited")) },
        HeldFile { destination: "n.md".to_string(), recorded: Sha256::of(b"n"), held: None },
    ];
    let blocks = vec![
        HeldBlock { path: "AGENTS.md".to_string(), recorded: Sha256::of(b"r"), region: Some(None) },
        HeldBlock { path: "hooks.yaml".to_string(), recorded: Sha256::of(b"r"), region: Some(Some(Sha256::of(b"r"))) },
    ];
    let found = conflicts(&files, &blocks);
    assert_eq!(
        found,
        [
            "CONFLICT locally edited managed file: m.md",
            "CONFLICT missing managed file: n.md",
            "CONFLICT locally edited managed block: AGENTS.md",
        ]
    );
    match next_step(&v(0, 9, 0), &v(0, 9, 0), true, found, false) {
        UpgradeStep::Done(outcome) => assert_eq!(outcome.failures, 3),
        other => panic!("{other:?}"),
    }
}

#[test]
fn the_upgrade_steps_follow_the_versions() {
    match next_step(&v(1, 0, 0), &v(0, 9, 0), true, vec![], false) {
        UpgradeStep::Refuse(m) => assert_eq!(m, "sdd 0.9.0 is older than the installed canon 1.0.0; upgrade sdd"),
        other => panic!("{other:?}"),
    }
    match next_step(&v(0, 9, 0), &v(0, 9, 0), true, vec![], false) {
        UpgradeStep::Done(o) => assert_eq!(o.lines, ["OK already at 0.9.0"]),
        other => panic!("{other:?}"),
    }
    match next_step(&v(0, 8, 0), &v(0, 9, 0), true, vec![], true) {
        UpgradeStep::Preview(o) => assert_eq!(o.lines, ["DRY RUN upgrade 0.8.0 to 0.9.0"]),
        other => panic!("{other:?}"),
    }
    match next_step(&v(0, 9, 0), &v(0, 9, 0), false, vec![], true) {
        UpgradeStep::Preview(o) => assert_eq!(o.lines, ["DRY RUN migrate the record of 0.9.0"]),
        other => panic!("{other:?}"),
    }
    assert!(matches!(next_step(&v(0, 8, 0), &v(0, 9, 0), true, vec![], false), UpgradeStep::Reinstall));
}

#[test]
fn an_upgrade_closes_with_removals_rule_ids_and_the_verdict() {
    let mut outcome = UpgradeOutcome::default();
    keep_notes(&mut outcome, vec!["_docs/a.md".to_string(), "note: kept yours".to_string()]);
    let upstream: Vec<String> = ["R-2", "R-1", "R-3"].iter().map(|s| s.to_string()).collect();
    let local: Vec<String> = vec!["R-2".to_string()];
    let only = upstream_only(&upstream, &local);
    assert_eq!(only, ["R-1", "R-3"]);
    finish(&mut outcome, &vec!["old.jsonc".to_string()], &only, &v(0, 8, 0), &v(0, 9, 0));
    assert_eq!(
        outcome.lines,
        [
            "note: kept yours",
            "removed managed file no longer owned: old.jsonc",
            "upstream rule IDs not present locally:",
            "  R-1",
            "  R-3",
            "OK upgraded 0.8.0 to 0.9.0",
        ]
    );
}
