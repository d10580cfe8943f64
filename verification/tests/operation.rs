use spec_driven_docs::digest::Sha256;
use spec_driven_docs::plan::operation::{no_duplicate_destination, Class, Operation, TargetPath};

fn path(value: &str) -> TargetPath {
    TargetPath::new(value).unwrap()
}

#[test]
fn an_ordinary_relative_path_is_accepted_and_normalized() {
    assert_eq!(
        path("docs/specs/SPEC-x.md").as_str(),
        "docs/specs/SPEC-x.md"
    );
    assert_eq!(path("./docs/x.md").as_str(), "docs/x.md");
    assert_eq!(path("docs//x.md").as_str(), "docs/x.md");
}

#[test]
fn a_path_a_plan_may_not_name_is_refused() {
    for value in ["", "/etc/passwd", "../escape.md", "docs/../../out.md"] {
        assert!(TargetPath::new(value).is_err(), "{value} was accepted");
    }
    assert!(TargetPath::new("docs/\0.md").is_err());
    assert!(TargetPath::new("./").is_err());
}

#[test]
fn every_operation_names_its_path_and_its_kind() {
    let write = Operation::WriteFile {
        path: path("a.md"),
        class: Class::Managed,
        before: None,
        after: Sha256::of(b"a"),
    };
    assert_eq!(write.kind(), "write-file");
    assert_eq!(write.path().as_str(), "a.md");
    assert_eq!(write.before(), None);
    assert_eq!(write.after(), Some(&Sha256::of(b"a")));

    let remove = Operation::RemoveOwnedFile {
        path: path("b.md"),
        before: Sha256::of(b"b"),
    };
    assert_eq!(remove.after(), None);
    assert_eq!(remove.before(), Some(&Sha256::of(b"b")));
}

#[test]
fn a_kept_file_holds_its_bytes_and_moves_only_the_baseline() {
    let kept = Operation::KeepFile {
        path: path("docs/specs/SPEC-x.md"),
        held: Sha256::of(b"mine"),
        baseline_before: Sha256::of(b"old seed"),
        baseline_after: Sha256::of(b"new seed"),
    };
    assert_eq!(kept.before(), kept.after());
}

#[test]
fn one_destination_written_twice_is_refused() {
    let operations = vec![
        Operation::WriteFile {
            path: path("a.md"),
            class: Class::Managed,
            before: None,
            after: Sha256::of(b"a"),
        },
        Operation::WriteDebt {
            path: path("a.md"),
            before: None,
            after: Sha256::of(b"b"),
        },
    ];
    let error = no_duplicate_destination(&operations).unwrap_err();
    assert!(error.message().contains("a.md"), "{error:?}");
    assert!(no_duplicate_destination(&operations[..1]).is_ok());
}

#[test]
fn each_refusal_names_the_path_and_the_reason() {
    assert_eq!(TargetPath::new("").unwrap_err().message(), ": the path is empty");
    assert_eq!(
        TargetPath::new("/etc/passwd").unwrap_err().message(),
        "/etc/passwd: the path is absolute"
    );
    assert_eq!(
        TargetPath::new("a/../b").unwrap_err().message(),
        "a/../b: the path climbs out of the target"
    );
    assert_eq!(
        TargetPath::new("./.").unwrap_err().message(),
        "./.: the path names no file"
    );
    assert_eq!(path("a/./b").as_str(), "a/b");
    assert_eq!(
        TargetPath::new("docs/").unwrap_err().message(),
        "docs/: the path ends in a separator"
    );
}
