use spec_driven_docs::digest::Sha256;
use spec_driven_docs::instance_config::{WritingSource, WritingStyle};
use spec_driven_docs::stage::{resolve_root, stage_name, writing_style_of, RootSource};

fn name(target: &str, leaf: &str) -> String {
    format!("{leaf}-{}", &Sha256::of(target.as_bytes()).as_str()[..12])
}

#[test]
fn a_stage_is_named_by_the_target_leaf_and_its_digest() {
    assert_eq!(stage_name("/work/repo"), name("/work/repo", "repo"));
    assert_eq!(stage_name("/"), name("/", "target"));
}

#[test]
fn the_flag_wins_then_the_automation_base_then_the_state_root() {
    let (root, source) = resolve_root("/work/repo", Some("/tmp/mine"), Some("/base"), "/state").unwrap();
    assert_eq!((root.as_str(), source), ("/tmp/mine", RootSource::Flag));
    let (root, source) = resolve_root("/work/repo", None, Some("/base"), "/state").unwrap();
    assert_eq!(root, format!("/base/{}", name("/work/repo", "repo")));
    assert_eq!(source, RootSource::Environment);
    let (root, source) = resolve_root("/work/repo", None, Some(""), "/state").unwrap();
    assert_eq!(root, format!("/state/stages/{}", name("/work/repo", "repo")));
    assert_eq!(source, RootSource::Default);
}

#[test]
fn a_relative_stage_root_is_refused() {
    assert_eq!(
        resolve_root("/work/repo", Some("stage"), None, "/state").unwrap_err().message(),
        "the stage root must be absolute: stage"
    );
}

#[test]
fn the_writing_source_reads_as_one_word() {
    assert_eq!(writing_style_of(&WritingStyle { source: WritingSource::Builtin, path: None }), "builtin");
    assert_eq!(writing_style_of(&WritingStyle { source: WritingSource::NoStyle, path: None }), "none");
    assert_eq!(
        writing_style_of(&WritingStyle { source: WritingSource::Project, path: Some("docs/style.md".to_string()) }),
        "project:docs/style.md"
    );
    assert_eq!(writing_style_of(&WritingStyle { source: WritingSource::Project, path: None }), "project");
}

#[test]
fn the_flag_wins_then_the_base_then_the_state_root() {
    let target = "/work/project";
    let state = "/state/spec-driven-docs";
    let (path, source) = resolve_root(target, Some("/tmp/here"), Some("/base"), state).unwrap();
    assert_eq!(path, "/tmp/here");
    assert_eq!(source, RootSource::Flag);
    let (path, source) = resolve_root(target, None, Some("/base"), state).unwrap();
    assert!(path.starts_with("/base/project-"), "{path}");
    assert_eq!(source, RootSource::Environment);
    let (path, source) = resolve_root(target, None, None, state).unwrap();
    assert!(path.starts_with("/state/spec-driven-docs/stages"), "{path}");
    assert_eq!(source, RootSource::Default);
}

#[test]
fn a_relative_stage_root_is_a_usage_error() {
    let error = resolve_root("/work/project", Some("stage"), None, "/state").unwrap_err();
    assert_eq!(error.kind(), "Usage");
}

#[test]
fn two_targets_stage_under_different_names() {
    assert_ne!(stage_name("/one/project"), stage_name("/two/project"));
}
