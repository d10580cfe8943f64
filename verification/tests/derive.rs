use spec_driven_docs::digest::Sha256;
use spec_driven_docs::plan::derive::{operations_for, Landed, Layout, RecordedManaged};
use spec_driven_docs::plan::operation::{Class, Operation};

const RECORD: &str = ".spec-driven-docs/instance.json";
const HOOKS: &str = ".pre-commit-config.yaml";
const AGENTS: &str = "AGENTS.md";

fn layout() -> Layout {
    Layout {
        record: RECORD.to_string(),
        spliced: vec![HOOKS.to_string(), AGENTS.to_string()],
        prunable_roots: vec![".spec-driven-docs/".to_string()],
    }
}

fn adopted() -> Vec<String> {
    vec!["docs/specs/SPEC-instance.md".to_string()]
}

fn landed(destination: &str, bytes: &[u8], held: Option<&[u8]>) -> Landed {
    Landed { destination: destination.to_string(), bytes: bytes.to_vec(), held: held.map(Sha256::of) }
}

fn recorded(destination: &str, recorded: &[u8], held: Option<&[u8]>) -> RecordedManaged {
    RecordedManaged {
        destination: destination.to_string(),
        recorded: Sha256::of(recorded),
        held: held.map(Sha256::of),
    }
}

fn kind(op: &Operation) -> &'static str {
    match op {
        Operation::WriteFile { .. } => "write-file",
        Operation::KeepFile { .. } => "keep-file",
        Operation::SpliceBlock { .. } => "splice-block",
        Operation::RemoveOwnedFile { .. } => "remove-owned-file",
        Operation::WriteDebt { .. } => "write-debt",
        Operation::WriteRecord { .. } => "write-record",
    }
}

#[test]
fn each_destination_takes_the_operation_its_kind_implies() {
    let files = vec![
        landed(RECORD, b"record", None),
        landed(HOOKS, b"hooks", None),
        landed(AGENTS, b"digest", None),
        landed("docs/specs/SPEC-instance.md", b"seed", None),
        landed(".spec-driven-docs/markdownlint/adr.markdownlint-cli2.jsonc", b"config", None),
    ];
    let derived = operations_for(&files, &layout(), &adopted(), &vec![]).unwrap();
    let kinds: Vec<&str> = derived.operations.iter().map(kind).collect();
    assert_eq!(kinds, ["write-record", "splice-block", "splice-block", "write-file", "write-file"]);
    assert!(matches!(derived.operations[3], Operation::WriteFile { class: Class::Adopted, .. }));
    assert!(matches!(derived.operations[4], Operation::WriteFile { class: Class::Managed, .. }));
    assert_eq!(derived.blobs.entries().len(), 5);
    assert_eq!(derived.blobs.get(Sha256::of(b"seed").as_str()), Some(&b"seed".to_vec()));
}

#[test]
fn a_destination_that_already_holds_the_bytes_is_no_operation() {
    let files = vec![landed("a.md", b"same", Some(b"same"))];
    let derived = operations_for(&files, &layout(), &adopted(), &vec![]).unwrap();
    assert!(derived.operations.is_empty());
    assert!(derived.blobs.entries().is_empty());
}

#[test]
fn a_managed_file_the_release_dropped_is_taken_back() {
    let dropped = ".spec-driven-docs/markdownlint/retired.jsonc";
    let derived =
        operations_for(&vec![], &layout(), &adopted(), &vec![recorded(dropped, b"old", Some(b"old"))]).unwrap();
    assert_eq!(derived.operations.len(), 1);
    assert_eq!(kind(&derived.operations[0]), "remove-owned-file");
    assert_eq!(derived.operations[0].path().as_str(), dropped);
}

#[test]
fn an_edited_dropped_file_and_one_outside_the_owned_roots_both_stay() {
    let records = vec![
        recorded(".spec-driven-docs/markdownlint/retired.jsonc", b"old", Some(b"mine now")),
        recorded("docs/specs/SPEC-retired.md", b"seed", Some(b"seed")),
    ];
    let derived = operations_for(&vec![], &layout(), &adopted(), &records).unwrap();
    assert!(derived.operations.is_empty(), "an edited file or one the project owns was taken back");
}

#[test]
fn a_destination_no_operation_may_name_refuses() {
    let files = vec![landed("../escape.md", b"x", None)];
    assert!(operations_for(&files, &layout(), &adopted(), &vec![]).is_err());
}

#[test]
fn a_write_carries_what_the_target_held_before() {
    let files = vec![landed("_docs/method/gate.md", b"v2", Some(b"v1"))];
    let derived = operations_for(&files, &layout(), &adopted(), &vec![]).unwrap();
    match &derived.operations[0] {
        Operation::WriteFile { before, after, class, .. } => {
            assert_eq!(before.as_ref(), Some(&Sha256::of(b"v1")));
            assert_eq!(after, &Sha256::of(b"v2"));
            assert_eq!(*class, Class::Managed);
        }
        other => panic!("{other:?}"),
    }
}
