use spec_driven_docs::instance_config::{WritingSource, WritingStyle};
use spec_driven_docs::services::agents_render::{render_block, route_line};

const SNIPPET: &str = "## Documentation\n\n- Specifications live in `{docs_root}/specs/SPEC-<domain>.md`.\n- {writing_style}\n";

#[test]
fn the_block_carries_the_markers_and_the_root() {
    let block = render_block(SNIPPET, "docs", &WritingStyle::default());
    assert!(block.starts_with("<!-- BEGIN spec-driven-docs docs -->\n"));
    assert!(block.ends_with("<!-- END spec-driven-docs docs -->\n"));
    assert!(block.contains(
        "Read the writing style before you author or edit prose: `sdd method writing-style`."
    ));
    assert!(!block.contains("{docs_root}"));
    assert!(!block.contains("{writing_style}"));
    assert!(!block.contains("simple-english"));
}

#[test]
fn the_underscore_root_reaches_the_block() {
    let block = render_block(SNIPPET, "_docs", &WritingStyle::default());
    assert!(block.contains(
        "Read the writing style before you author or edit prose: `sdd method writing-style`."
    ));
    assert!(block.contains("`_docs/specs/SPEC-<domain>.md`"));
}

#[test]
fn the_route_matches_each_selection() {
    let project = WritingStyle {
        source: WritingSource::Project,
        path: Some("docs/STYLE.md".to_string()),
    };
    assert!(render_block(SNIPPET, "docs", &project)
        .contains("Read the writing style before you author or edit prose: `docs/STYLE.md`."));
    let none = WritingStyle {
        source: WritingSource::NoStyle,
        path: None,
    };
    let block = render_block(SNIPPET, "docs", &none);
    assert!(!block.contains("writing style"), "{block}");
    assert!(!block.contains("{writing_style}"));
    assert!(
        !block.contains("\n\n<!-- END"),
        "the removed route left a blank line:\n{block}"
    );
}

#[test]
fn the_whole_block_reads_exactly() {
    assert_eq!(
        render_block(SNIPPET, "docs", &WritingStyle::default()),
        "<!-- BEGIN spec-driven-docs docs -->\n## Documentation\n\n- Specifications live in `docs/specs/SPEC-<domain>.md`.\n- Read the writing style before you author or edit prose: `sdd method writing-style`.\n<!-- END spec-driven-docs docs -->\n"
    );
    assert_eq!(
        route_line(&WritingStyle { source: WritingSource::Project, path: None }),
        None
    );
}
