use spec_driven_docs::landing::finding::{is_markdown, is_ordinal_name, is_record_shaped, is_spec_shaped};

#[test]
fn a_position_is_an_ordinal_name_and_a_subject_is_not() {
    assert!(is_ordinal_name("01-intro.md"));
    assert!(is_ordinal_name("0007-thing.md"));
    assert!(!is_ordinal_name("roadmap-2026.md"));
    assert!(!is_ordinal_name("intro.md"));
    assert!(!is_ordinal_name("README.md"));
    assert!(!is_ordinal_name("2026.md"));
    assert!(!is_ordinal_name("01-.md"));
}

#[test]
fn only_this_conventions_shapes_are_recognized() {
    assert!(is_spec_shaped("SPEC-distribution.md"));
    assert!(!is_spec_shaped("notes.md"));
    assert!(!is_spec_shaped("SPEC-distribution.rst"));
    assert!(is_record_shaped("ADR-a-choice.md"));
    assert!(!is_record_shaped("decision.md"));
}

#[test]
fn the_extension_is_read_as_a_path_reads_it() {
    assert!(is_markdown("docs/a.md"));
    assert!(!is_markdown(".md"));
    assert!(!is_markdown("a.MD"));
    assert!(is_markdown("a.md/"));
    assert!(!is_markdown("a.md/.."));
    assert!(is_ordinal_name("01-intro"));
}
