use spec_driven_docs::services::assess::{
    classify, doc_roots, is_document, is_root_metadata, marker_candidates, populated_root, Classification,
};

#[test]
fn root_metadata_is_an_exact_stem_at_the_top() {
    assert!(is_root_metadata("README.md"));
    assert!(is_root_metadata("LICENSE"));
    assert!(is_root_metadata("Code_Of_Conduct.md"));
    assert!(!is_root_metadata("README.architecture.md"));
    assert!(!is_root_metadata("docs/README.md"));
    assert!(!is_root_metadata("guide.md"));
}

#[test]
fn a_document_carries_a_document_extension_in_any_case() {
    assert!(is_document("docs/guide.md"));
    assert!(is_document("notes/Plan.ADOC"));
    assert!(!is_document("src/main.rs"));
    assert!(!is_document(".md"));
    assert!(!is_document("Makefile"));
}

#[test]
fn the_verdict_reads_the_evidence_in_order() {
    let metadata = vec!["README.md".to_string(), "LICENSE".to_string()];
    assert_eq!(classify(0, 0, &metadata), Classification::Greenfield);
    let stray = vec!["README.md".to_string(), "notes/plan.md".to_string()];
    assert_eq!(classify(0, 0, &stray), Classification::NeedsDecision);
    assert_eq!(classify(1, 0, &stray), Classification::Brownfield);
    assert_eq!(classify(0, 2, &metadata), Classification::Brownfield);
    assert_eq!(Classification::NeedsDecision.as_str(), "needs-decision");
}

#[test]
fn markers_are_looked_for_at_the_root_and_under_each_documentation_root() {
    let found = marker_candidates(&vec!["docs".to_string()]);
    assert_eq!(found.len(), 13);
    assert_eq!(found[0], "specs");
    assert_eq!(found[8], "docs/specs");
    assert_eq!(found[12], "docs/conf.py");
    assert_eq!(doc_roots(), ["docs", "_docs", "doc", "documentation"]);
}

#[test]
fn an_entry_below_a_top_level_directory_populates_it() {
    assert_eq!(populated_root("docs/a.md").as_deref(), Some("docs"));
    assert_eq!(populated_root("README.md"), None);
}
