use spec_driven_docs::digest::Sha256;
use spec_driven_docs::landing::apply::{
    contained, lexical_escape, stopped, unattributed, HeldDestination, Outcome, Ownership, Recorded, Region,
};

fn held(path: &str, ownership: Ownership, bytes: Option<&[u8]>, region: Region) -> HeldDestination {
    HeldDestination { path: path.to_string(), ownership, held: bytes.map(Sha256::of), same_bytes: false, region }
}

#[test]
fn a_stopped_landing_names_what_it_finished() {
    let none = Outcome { written: vec![], removed: vec![] };
    assert_eq!(
        stopped("disk full", &none),
        "the landing stopped: disk full; nothing was written or removed, the previous record still stands, and running this again finishes the rest"
    );
    let some = Outcome { written: vec!["a.md".to_string(), "b.md".to_string()], removed: vec!["old.md".to_string()] };
    assert_eq!(
        stopped("disk full", &some),
        "the landing stopped: disk full; these destinations hold candidate bytes: a.md, b.md; these destinations were removed: old.md, the previous record still stands, and running this again finishes the rest"
    );
}

#[test]
fn a_destination_that_climbs_out_refuses() {
    assert_eq!(lexical_escape("../escaped.md"), Some("climbs out of the target"));
    assert_eq!(lexical_escape("/etc/passwd"), Some("is absolute"));
    assert_eq!(lexical_escape("./a.md"), Some("climbs out of the target"));
    assert_eq!(lexical_escape("a/./b.md"), None);
    assert_eq!(lexical_escape("docs/a.md"), None);
}

#[test]
fn one_blocked_directory_is_named_once() {
    let link = || Some((".spec-driven-docs".to_string(), "escapes the target through a symlink".to_string()));
    assert_eq!(contained(&vec![None, None]), Ok(()));
    assert_eq!(
        contained(&vec![link(), None, link()]).unwrap_err(),
        "the landing writes nothing: .spec-driven-docs escapes the target through a symlink"
    );
}

#[test]
fn bytes_no_record_vouches_for_refuse_the_landing() {
    let recorded = Recorded {
        managed: vec![("m.md".to_string(), Sha256::of(b"v1"))],
        integration: vec![("AGENTS.md".to_string(), Sha256::of(b"region"))],
    };
    let fine = vec![
        held("m.md", Ownership::Managed, Some(b"v1"), Region::Absent),
        held("AGENTS.md", Ownership::Integration, Some(b"host"), Region::Hash(Sha256::of(b"region"))),
        held("new.md", Ownership::Managed, None, Region::Absent),
        held("style.md", Ownership::Adopted, Some(b"mine"), Region::Absent),
        held("hooks.yaml", Ownership::Integration, Some(b"plain"), Region::Absent),
    ];
    assert_eq!(unattributed(&fine, &recorded), Ok(()));
    let edited = vec![
        held("m.md", Ownership::Managed, Some(b"edited"), Region::Absent),
        held("AGENTS.md", Ownership::Integration, Some(b"host"), Region::Hash(Sha256::of(b"changed"))),
        held("x.md", Ownership::Managed, Some(b"somebody"), Region::Absent),
    ];
    assert_eq!(
        unattributed(&edited, &recorded).unwrap_err(),
        "destinations hold bytes no record vouches for: m.md, AGENTS.md, x.md; move them aside, or let the setup skill reconcile them"
    );
}
