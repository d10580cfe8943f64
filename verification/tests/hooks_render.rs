use spec_driven_docs::services::hooks_render::{
    glob_to_regex, quoted, render_block, render_gates, render_patterns, Gate, RenderOptions,
};

fn regex(glob: &str) -> String {
    glob_to_regex(&glob.chars().collect())
}

fn gate(id: &str, files: &[&str], exclude: &[&str], always_run: bool) -> Gate {
    Gate {
        id: id.to_string(),
        name: format!("the {id} gate"),
        files: files.iter().map(|g| g.to_string()).collect(),
        exclude: exclude.iter().map(|g| g.to_string()).collect(),
        types: Some("markdown".to_string()),
        always_run,
    }
}

fn registry() -> Vec<Gate> {
    vec![
        gate("adr-cites-a-live-rule", &["{docs_root}/decisions/*.md"], &[], false),
        gate("adr-filename-shape", &["{docs_root}/decisions/*.md"], &[], false),
        gate("guides-stay-out-of-decisions", &["{docs_root}/guides/**/*.md"], &["{docs_root}/decisions/**"], false),
        gate("tracking-is-current", &["{docs_root}/reference/tracking.yaml"], &[], true),
    ]
}

#[test]
fn every_gate_renders_its_wiring_fields() {
    let out = render_gates(&RenderOptions::default(), &registry());
    assert!(out.starts_with("      - id: adr-cites-a-live-rule\n"));
    assert!(out.contains("        entry: sdd gate adr-filename-shape\n"));
    assert!(out.contains("        language: system\n"));
    assert!(out.contains("        types: [markdown]\n"));
    assert_eq!(out.matches("- id: ").count(), registry().len());
}

#[test]
fn the_docs_root_reaches_every_templated_pattern() {
    let out = render_gates(
        &RenderOptions {
            docs_root: "docs".to_string(),
            ..RenderOptions::default()
        },
        &registry(),
    );
    assert!(out.contains("        files: '^docs/decisions/[^/]*\\.md$'\n"));
    assert!(out.contains("        exclude: '^docs/decisions/.*$'\n"));
    assert!(!out.contains("{docs_root}"));
}

#[test]
fn block_style_carries_the_markers_and_the_verifier() {
    let out = render_block(&RenderOptions::default(), &registry());
    assert!(out.starts_with("# BEGIN spec-driven-docs managed\n"));
    assert!(out.ends_with("# END spec-driven-docs managed\n"));
    assert!(out.contains("      - id: spec-driven-docs-verify\n"));
    assert!(out.contains("        entry: sdd verify\n"));
    assert!(out.contains("      - id: adr-filename-shape\n"));
    assert!(out.contains("        files: '^_docs/decisions/[^/]*\\.md$'\n"));
}

#[test]
fn a_glob_projects_onto_an_anchored_regex() {
    assert_eq!(regex("README.md"), r"^README\.md$");
    assert_eq!(regex("_docs/*.md"), r"^_docs/[^/]*\.md$");
    assert_eq!(regex("_docs/**/*.md"), r"^_docs/(?:.*/)?[^/]*\.md$");
    assert_eq!(regex("**/AGENTS.md"), r"^(?:.*/)?AGENTS\.md$");
    assert_eq!(regex("vendor/**"), r"^vendor/.*$");
    assert_eq!(regex("a?.md"), r"^a[^/]\.md$");
    assert_eq!(regex("[abc].md"), r"^[abc]\.md$");
    assert_eq!(regex("{SPEC,ADR}-a.md"), r"^(?:SPEC|ADR)-a\.md$");
}

#[test]
fn several_includes_render_as_one_alternation() {
    let rendered = render_patterns(&["a.md", "b/*.md"], "_docs").expect("two patterns render");
    assert_eq!(rendered, r"^(?:a\.md|b/[^/]*\.md)$");
    assert_eq!(render_patterns(&[], "_docs"), None);
}

#[test]
fn always_run_gates_do_not_take_filenames() {
    let out = render_gates(&RenderOptions::default(), &registry());
    assert_eq!(
        out.matches("always_run: true").count(),
        out.matches("pass_filenames: false").count()
    );
    assert!(!out.contains("files: '^_docs/reference/tracking\\.yaml$'"));
}

#[test]
fn an_apostrophe_in_a_name_would_be_doubled() {
    assert_eq!(quoted("it's"), "'it''s'");
}

#[test]
fn an_unclosed_class_or_brace_is_a_literal_and_a_negated_class_negates() {
    assert_eq!(regex("[a"), r"^\[a$");
    assert_eq!(regex("{a"), r"^\{a$");
    assert_eq!(regex("[!x].md"), r"^[^x]\.md$");
    assert_eq!(regex("a+b$"), r"^a\+b\$$");
}
