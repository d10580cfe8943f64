use spec_driven_docs::digest::Sha256;
use spec_driven_docs::services::skill_installer::{
    blocked, install, is_under, owning_root, standing, uninstall, Blocked, Outcome, PlannedNow, RecordedNow,
    Standing,
};

const ROOT: &str = "/home/u/.agents/skills";

fn planned(name: &str, bytes: &[u8], held: Option<&[u8]>) -> PlannedNow {
    PlannedNow { destination: format!("{ROOT}/{name}"), digest: Sha256::of(bytes), held: held.map(Sha256::of) }
}

fn recorded(name: &str, bytes: &[u8], ours: bool) -> RecordedNow {
    RecordedNow { path: format!("{ROOT}/{name}"), digest: Sha256::of(bytes), ours, exists: true }
}

fn scanned() -> Vec<String> {
    vec![ROOT.to_string()]
}

#[test]
fn a_path_is_under_a_root_by_whole_components() {
    assert!(is_under("/a/b/c", "/a/b"));
    assert!(is_under("/a/b", "/a/b"));
    assert!(!is_under("/a/bc", "/a/b"));
    let roots = vec!["/x".to_string(), "/a".to_string()];
    assert_eq!(owning_root(&roots, "/state", "/a/b").as_deref(), Some("/a"));
    assert_eq!(owning_root(&roots, "/state", "/state/lock").as_deref(), Some("/state"));
    assert_eq!(owning_root(&roots, "/state", "/elsewhere"), None);
}

#[test]
fn each_blocked_destination_is_named_once() {
    let one = || Some(Blocked { path: "/a".to_string(), kind: "a symlink".to_string() });
    let found = blocked(vec![one(), None, one()]);
    assert_eq!(found.len(), 1);
    assert_eq!(found[0].text(), "/a is a symlink");
}

#[test]
fn a_destination_stands_as_its_bytes_say() {
    let record = vec![recorded("a/SKILL.md", b"old", true)];
    let path = format!("{ROOT}/a/SKILL.md");
    assert_eq!(standing(&None, &Sha256::of(b"new"), &path, &record), Standing::Absent);
    assert_eq!(standing(&Some(Sha256::of(b"new")), &Sha256::of(b"new"), &path, &record), Standing::Current);
    assert_eq!(standing(&Some(Sha256::of(b"old")), &Sha256::of(b"new"), &path, &record), Standing::Recorded);
    assert_eq!(standing(&Some(Sha256::of(b"mine")), &Sha256::of(b"new"), &path, &record), Standing::Foreign);
}

#[test]
fn a_recorded_file_is_rewritten_without_force() {
    let plan = vec![planned("a/SKILL.md", b"new", Some(b"old")), planned("a/ref.md", b"r", Some(b"r"))];
    let record = vec![recorded("a/SKILL.md", b"old", true)];
    let d = install(&plan, &record, &scanned(), &vec![], true, false);
    assert!(matches!(d.outcome, Outcome::Apply));
    assert_eq!(d.writes.len(), 1);
    assert_eq!(d.writes[0].0, format!("{ROOT}/a/SKILL.md"));
}

#[test]
fn foreign_bytes_refuse_an_unforced_install() {
    let plan = vec![planned("a/ref.md", b"r", Some(b"mine"))];
    let d = install(&plan, &vec![], &scanned(), &vec![], true, false);
    match &d.outcome {
        Outcome::Refuse(m) => assert_eq!(
            m,
            &format!("destinations hold bytes this tool did not write: {ROOT}/a/ref.md; re-run with --force to overwrite")
        ),
        other => panic!("{other:?}"),
    }
    assert!(d.lines.contains(&format!("conflict: {ROOT}/a/ref.md holds bytes this tool did not write")));
    let forced = install(&plan, &vec![], &scanned(), &vec![], true, true);
    assert!(matches!(forced.outcome, Outcome::Apply));
    assert_eq!(forced.writes.len(), 1);
}

#[test]
fn a_preview_lists_every_destination_and_sweeps_what_left_the_payload() {
    let plan = vec![planned("a/SKILL.md", b"new", None)];
    let record = vec![recorded("gone/SKILL.md", b"g", true), recorded("kept/SKILL.md", b"k", false)];
    let d = install(&plan, &record, &scanned(), &vec![], false, false);
    assert_eq!(
        d.lines,
        [
            format!("{ROOT}/a/SKILL.md"),
            format!("sweep (no longer in the payload): {ROOT}/gone/SKILL.md"),
            format!("kept (edited): {ROOT}/kept/SKILL.md"),
            "DRY RUN: no files written".to_string(),
        ]
    );
    assert!(matches!(d.outcome, Outcome::Preview));
    assert_eq!(d.removals.len(), 1);
}

#[test]
fn a_blocked_destination_refuses_whatever_force_says() {
    let plan = vec![planned("a/SKILL.md", b"new", None)];
    let refused = vec![Blocked { path: format!("{ROOT}/a"), kind: "a symlink".to_string() }];
    let d = install(&plan, &vec![], &scanned(), &refused, true, true);
    match &d.outcome {
        Outcome::Refuse(m) => assert_eq!(
            m,
            &format!("destinations cannot be written through: {ROOT}/a is a symlink; move them aside and run this again")
        ),
        other => panic!("{other:?}"),
    }
    assert!(d.writes.is_empty());
}

#[test]
fn an_uninstall_takes_back_only_what_the_receipt_vouches_for() {
    let plan = vec![
        planned("a/SKILL.md", b"s", Some(b"s")),
        planned("a/ref.md", b"r", Some(b"edited")),
        planned("b/SKILL.md", b"t", Some(b"t")),
        planned("c/SKILL.md", b"u", None),
    ];
    let record = vec![recorded("a/SKILL.md", b"s", true)];
    let d = uninstall(&plan, &record, &scanned(), &vec![], true, true);
    assert_eq!(
        d.lines,
        [
            format!("{ROOT}/a/SKILL.md"),
            format!("kept (edited): {ROOT}/a/ref.md"),
            format!("kept (not this tool's): {ROOT}/b/SKILL.md"),
        ]
    );
    assert_eq!(d.removals.len(), 1);
    assert!(matches!(d.outcome, Outcome::Apply));
}

#[test]
fn an_uninstall_with_no_receipt_and_nothing_to_take_touches_nothing() {
    let plan = vec![planned("a/SKILL.md", b"s", None)];
    let d = uninstall(&plan, &vec![], &scanned(), &vec![], true, false);
    assert!(matches!(d.outcome, Outcome::Untouched));
    assert!(d.removals.is_empty());
}

#[test]
fn a_second_install_writes_nothing() {
    let plan = vec![planned("a/SKILL.md", b"s", Some(b"s")), planned("a/ref.md", b"r", Some(b"r"))];
    let record = vec![recorded("a/SKILL.md", b"s", true), recorded("a/ref.md", b"r", true)];
    let d = install(&plan, &record, &scanned(), &vec![], true, false);
    assert!(d.writes.is_empty());
    assert!(d.removals.is_empty());
    assert!(matches!(d.outcome, Outcome::Apply));
}
