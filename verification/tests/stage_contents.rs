use spec_driven_docs::stage::contents::{reference_roots, stage_contents, Destination, Ownership, Placement};

fn group(name: &str, files: &[(&str, &str)]) -> (String, Vec<(String, Vec<u8>)>) {
    (
        name.to_string(),
        files.iter().map(|(path, body)| (path.to_string(), body.as_bytes().to_vec())).collect(),
    )
}

#[test]
fn a_stage_holds_the_candidate_and_the_reference_material() {
    let destinations = vec![
        Destination {
            path: "docs/a.md".to_string(),
            bytes: b"a".to_vec(),
            ownership: Ownership::Managed,
            placement: Placement::WholeFile,
        },
        Destination {
            path: "AGENTS.md".to_string(),
            bytes: b"block".to_vec(),
            ownership: Ownership::Integration,
            placement: Placement::MarkedRegion,
        },
    ];
    let skills = vec![group("specify", &[("SKILL.md", "s")])];
    let roots = vec![group("method", &[("method/one.md", "m")]), group("templates", &[])];
    let c = stage_contents(
        &destinations,
        ".spec-driven-docs/instance.json",
        b"{}",
        &skills,
        b"notes",
        &roots,
        Some(b"catalog"),
    );
    let paths: Vec<&str> = c.files.iter().map(|(path, _)| path.as_str()).collect();
    assert_eq!(
        paths,
        vec![
            "artifacts/docs/a.md",
            "artifacts/AGENTS.md",
            "artifacts/.spec-driven-docs/instance.json",
            "reference/skills/specify/SKILL.md",
            "reference/CHANGELOG.md",
            "reference/method/one.md",
            "reference/instance/docs-catalog.toml",
        ]
    );
    assert_eq!(c.files[4].1, b"notes".to_vec());
    let listed: Vec<(&str, &str, &str)> = c
        .artifacts
        .iter()
        .map(|a| (a.path.as_str(), a.ownership.as_str(), a.placement.as_str()))
        .collect();
    assert_eq!(
        listed,
        vec![
            ("docs/a.md", "managed", "whole-file"),
            ("AGENTS.md", "integration", "marked-region"),
            (".spec-driven-docs/instance.json", "record", "whole-file"),
        ]
    );
    assert_eq!(
        c.reference,
        vec![
            "reference/skills",
            "reference/CHANGELOG.md",
            "reference/method",
            "reference/instance/docs-catalog.toml",
        ]
    );
    assert_eq!(reference_roots().len(), 8);
    let bare = stage_contents(&Vec::new(), "r.json", b"", &Vec::new(), b"", &Vec::new(), None);
    assert_eq!(bare.reference, vec!["reference/skills", "reference/CHANGELOG.md"]);
}
