use spec_driven_docs::plan::decision::Selections;
use spec_driven_docs::plan::guidance::{
    brief, coverage, Actor, Coverage, Guidance, Index, StepKind, NONE,
};
use spec_driven_docs::plan::readiness::Readiness;
use spec_driven_docs::version::CanonVersion;

fn version(value: &str) -> CanonVersion {
    CanonVersion::parse(value).unwrap()
}

fn bodies() -> Vec<String> {
    vec!["guidance/0.7.0/one.md".to_string()]
}

const ONE: &str = r#"
schema = "sdd.guidance/1"
release = "0.7.0"

[[steps]]
id = "one"
kind = "rule-retired"
breaking = true
destinations = ["specs"]
actor = "operator"
text = "one.md"
"#;

#[test]
fn a_step_declares_every_part_and_parses() {
    let held = Guidance::parse("guidance/0.7.0.toml", ONE.as_bytes(), &bodies()).unwrap();
    assert_eq!(held.release, version("0.7.0"));
    assert_eq!(held.steps[0].kind, StepKind::RuleRetired);
    assert_eq!(held.steps[0].actor, Actor::Operator);
    assert!(held.steps[0].breaking);
}

#[test]
fn a_decision_id_derives_from_the_release_and_the_step_id() {
    let held = Guidance::parse("guidance/0.7.0.toml", ONE.as_bytes(), &bodies()).unwrap();
    assert_eq!(
        held.steps[0].decision_id(&version("0.7.0")),
        "guidance:0.7.0:one"
    );
    let reworded = ONE.replace("kind = \"rule-retired\"", "kind = \"gate-widened\"");
    let again = Guidance::parse("guidance/0.7.0.toml", reworded.as_bytes(), &bodies()).unwrap();
    assert_eq!(
        again.steps[0].decision_id(&version("0.7.0")),
        held.steps[0].decision_id(&version("0.7.0"))
    );
}

#[test]
fn guidance_refuses_what_it_cannot_filter_or_resolve() {
    let cases = [
        (
            ONE.replace("kind = \"rule-retired\"", "kind = \"invented\""),
            "parse",
        ),
        (
            ONE.replace("destinations = [\"specs\"]", "destinations = []"),
            "destination",
        ),
        (
            ONE.replace("destinations = [\"specs\"]", "destinations = [\"nowhere\"]"),
            "destination",
        ),
        (
            ONE.replace("text = \"one.md\"", "text = \"absent.md\""),
            "body",
        ),
        (format!("{ONE}extra = 1\n"), "parse"),
        (format!("{ONE}{ONE}"), "parse"),
    ];
    for (text, _) in cases {
        assert!(
            Guidance::parse("guidance/0.7.0.toml", text.as_bytes(), &bodies()).is_err(),
            "{text}"
        );
    }
}

#[test]
fn a_duplicate_step_identifier_refuses() {
    let doubled = format!(
        "{ONE}\n[[steps]]\nid = \"one\"\nkind = \"seed-added\"\nbreaking = false\ndestinations = [\"specs\"]\nactor = \"plan\"\ntext = \"one.md\"\n"
    );
    let error =
        Guidance::parse("guidance/0.7.0.toml", doubled.as_bytes(), &bodies()).unwrap_err();
    assert!(error.message().contains("twice"), "{error:?}");
}

#[test]
fn a_step_is_filtered_against_the_targets_destinations() {
    let held = Guidance::parse("guidance/0.7.0.toml", ONE.as_bytes(), &bodies()).unwrap();
    assert_eq!(held.filtered(&["specs".to_string()]).len(), 1);
    assert_eq!(held.filtered(&["debt".to_string()]).len(), 0);
}

fn index() -> Index {
    Index::parse(
        br#"
schema = "sdd.guidance-index/1"
capability_floor = "0.6.6"

[[releases]]
version = "0.6.6"
guidance = "none"

[[releases]]
version = "0.7.0"
guidance = "0.7.0.toml"

[[releases]]
version = "0.7.1"
guidance = "none"
"#,
    )
    .unwrap()
}

#[test]
fn the_interval_is_derived_from_the_ledger_alone() {
    let held = index();
    let found: Vec<String> = held
        .interval(Some(version("0.6.6")), version("0.7.1"))
        .iter()
        .map(|entry| entry.version.to_text())
        .collect();
    assert_eq!(found, ["0.7.0", "0.7.1"]);
    assert_eq!(held.interval(None, version("0.6.6")).len(), 1);
    assert_eq!(held.entry(version("0.7.0")).unwrap().guidance, "0.7.0.toml");
    assert_eq!(held.entry(version("0.7.1")).unwrap().guidance, NONE);
    assert!(held.entry(version("9.9.9")).is_none());
}

#[test]
fn a_release_below_the_floor_is_partial_coverage() {
    let held = index();
    assert_eq!(coverage(&held, Some(version("0.6.5"))), Coverage::Partial);
    assert_eq!(coverage(&held, Some(version("0.6.6"))), Coverage::Complete);
    assert_eq!(coverage(&held, None), Coverage::Complete);
}

#[test]
fn an_additive_upgrade_needs_no_decision_and_a_breaking_one_does() {
    let additive = ONE.replace("breaking = true", "breaking = false");
    let held = Guidance::parse("guidance/0.7.0.toml", additive.as_bytes(), &bodies()).unwrap();
    let briefing = brief(
        &index(),
        &[(version("0.7.0"), held)],
        Some(version("0.6.6")),
        &["specs".to_string()],
        &Selections::new(),
    );
    assert!(briefing.decisions.is_empty());
    assert_eq!(briefing.applicable, ["guidance:0.7.0:one"]);

    let breaking = Guidance::parse("guidance/0.7.0.toml", ONE.as_bytes(), &bodies()).unwrap();
    let briefing = brief(
        &index(),
        &[(version("0.7.0"), breaking.clone())],
        Some(version("0.6.6")),
        &["specs".to_string()],
        &Selections::new(),
    );
    assert_eq!(briefing.decisions.len(), 1);
    assert_eq!(briefing.preconditions.len(), 1);
    assert_eq!(briefing.preconditions[0].verdict(), Readiness::NeedsDecision);

    let mut selections = Selections::new();
    selections.insert("guidance:0.7.0:one", "accepted");
    let briefing = brief(
        &index(),
        &[(version("0.7.0"), breaking)],
        Some(version("0.6.6")),
        &["specs".to_string()],
        &selections,
    );
    assert_eq!(briefing.preconditions[0].verdict(), Readiness::Ready);
}

#[test]
fn a_filtered_out_step_is_counted_rather_than_hidden() {
    let held = Guidance::parse("guidance/0.7.0.toml", ONE.as_bytes(), &bodies()).unwrap();
    let briefing = brief(
        &index(),
        &[(version("0.7.0"), held)],
        Some(version("0.6.6")),
        &["debt".to_string()],
        &Selections::new(),
    );
    assert_eq!(briefing.excluded, 1);
    assert!(briefing.applicable.is_empty());
    assert!(briefing.decisions.is_empty());
}

#[test]
fn partial_coverage_is_a_decision_a_selection_resolves() {
    let briefing = brief(
        &index(),
        &[],
        Some(version("0.6.5")),
        &["specs".to_string()],
        &Selections::new(),
    );
    assert_eq!(briefing.preconditions.len(), 1);
    assert_eq!(briefing.preconditions[0].verdict(), Readiness::NeedsDecision);
    let mut selections = Selections::new();
    selections.insert("guidance-coverage", "accepted");
    let briefing = brief(
        &index(),
        &[],
        Some(version("0.6.5")),
        &["specs".to_string()],
        &selections,
    );
    assert_eq!(briefing.preconditions[0].verdict(), Readiness::Ready);
}

#[test]
fn a_breaking_step_asks_in_words_and_points_at_its_body() {
    let held = Guidance::parse("guidance/0.7.0.toml", ONE.replace("id = \"one\"", "id = \"one-two\"").as_bytes(), &bodies()).unwrap();
    let briefing = brief(
        &index(),
        &[(version("0.7.0"), held)],
        Some(version("0.6.6")),
        &["specs".to_string()],
        &Selections::new(),
    );
    assert_eq!(briefing.decisions[0].question, "0.7.0 asks: one two");
    assert_eq!(briefing.preconditions[0].id, "step:guidance:0.7.0:one-two");
}

#[test]
fn a_release_listed_twice_refuses() {
    let doubled = br#"
schema = "sdd.guidance-index/1"
capability_floor = "0.6.6"

[[releases]]
version = "0.7.0"
guidance = "none"

[[releases]]
version = "0.7.0"
guidance = "none"
"#;
    let error = Index::parse(doubled).unwrap_err();
    assert!(error.message().contains("0.7.0 appears twice"), "{error:?}");
}
