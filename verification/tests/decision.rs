use spec_driven_docs::plan::decision::id;
use spec_driven_docs::plan::decision::{
    acyclic, parse, validate, AnswerError, AnswerSchema, Choice, Decision, Selections,
};

fn choice(id: &str) -> Choice {
    Choice {
        id: id.to_string(),
        consequence: format!("it does {id}"),
    }
}

fn scope() -> Decision {
    Decision {
        id: id::MIGRATION_SCOPE.to_string(),
        question: "how much of the corpus moves?".to_string(),
        schema: AnswerSchema::Choice {
            choices: vec![choice("sweep"), choice("incremental")],
        },
        depends_on: Vec::new(),
        selected: None,
    }
}

fn zone() -> Decision {
    Decision {
        id: id::PLAN_ZONE.to_string(),
        question: "where does the planning tool write?".to_string(),
        schema: AnswerSchema::ChoiceOrValue {
            choices: vec![choice("env"), choice("none")],
            prefixes: vec!["project:".to_string(), "untracked:".to_string()],
        },
        depends_on: vec![id::PROFILE.to_string()],
        selected: None,
    }
}

fn profile() -> Decision {
    Decision {
        id: id::PROFILE.to_string(),
        question: "which profile?".to_string(),
        schema: AnswerSchema::Choice {
            choices: vec![choice("codebase"), choice("knowledge-base")],
        },
        depends_on: Vec::new(),
        selected: None,
    }
}

#[test]
fn a_closed_choice_takes_only_its_own_identifiers() {
    let held = scope();
    assert!(held.accepts("sweep"));
    assert!(!held.accepts("Sweep"));
    assert!(!held.accepts("project:docs/plan"));
}

#[test]
fn a_parameterized_answer_takes_a_prefix_with_something_after_it() {
    let held = zone();
    assert!(held.accepts("env"));
    assert!(held.accepts("project:docs/plan"));
    assert!(held.accepts("untracked:.plans"));
    assert!(!held.accepts("project:"));
    assert!(!held.accepts("elsewhere"));
}

#[test]
fn a_selection_splits_on_the_first_equals_so_a_value_may_carry_one() {
    let held = parse(&["plan-zone=project:docs/plan=1".to_string()]).unwrap();
    assert_eq!(held.get("plan-zone").unwrap(), "project:docs/plan=1");
}

#[test]
fn a_malformed_or_repeated_selection_is_refused() {
    assert_eq!(
        parse(&["nonsense".to_string()]).unwrap_err(),
        AnswerError::Malformed("nonsense".to_string())
    );
    assert!(matches!(
        parse(&["=x".to_string()]).unwrap_err(),
        AnswerError::Malformed(_)
    ));
    assert_eq!(
        parse(&["a=1".to_string(), "a=2".to_string()]).unwrap_err(),
        AnswerError::Duplicate("a".to_string())
    );
}

#[test]
fn an_unknown_or_stale_answer_is_refused_against_the_plan() {
    let offered = vec![scope()];
    let selections = parse(&["migration-scope=sweep".to_string()]).unwrap();
    assert!(validate(&offered, &selections).is_ok());

    let unknown = parse(&["no-such-decision=x".to_string()]).unwrap();
    assert!(matches!(
        validate(&offered, &unknown).unwrap_err(),
        AnswerError::Unknown(_)
    ));

    let stale = parse(&["migration-scope=partial".to_string()]).unwrap();
    assert!(matches!(
        validate(&offered, &stale).unwrap_err(),
        AnswerError::Rejected { .. }
    ));
}

#[test]
fn the_decision_dependency_graph_is_acyclic() {
    assert!(acyclic(&[profile(), zone()]).is_ok());
    // A prerequisite nothing offers is the same defect as a cycle: the
    // decision can never be reached.
    assert!(acyclic(&[zone()]).is_err());

    let mut one = profile();
    let mut two = zone();
    one.depends_on = vec![two.id.clone()];
    two.depends_on = vec![one.id.clone()];
    let error = acyclic(&[one, two]).unwrap_err();
    assert!(error.contains("cycle"), "{error}");
}

#[test]
fn an_answer_is_trimmed_and_its_identifier_is_not() {
    let held = parse(&["migration-scope=  sweep \t".to_string()]).unwrap();
    assert_eq!(held.get("migration-scope").unwrap(), "sweep");
    let spaced = parse(&[" migration-scope=sweep".to_string()]).unwrap();
    assert!(spaced.get("migration-scope").is_none());
    assert!(spaced.contains_key(" migration-scope"));
}

#[test]
fn the_first_identifier_in_order_decides_which_refusal_comes_back() {
    let offered = vec![scope()];
    let held = parse(&["zz=1".to_string(), "aa=2".to_string()]).unwrap();
    assert_eq!(
        validate(&offered, &held).unwrap_err(),
        AnswerError::Unknown("aa".to_string())
    );
    let rejected = parse(&["migration-scope=partial".to_string(), "zz=1".to_string()]).unwrap();
    assert_eq!(
        validate(&offered, &rejected).unwrap_err(),
        AnswerError::Rejected {
            id: "migration-scope".to_string(),
            answer: "partial".to_string()
        }
    );
}

#[test]
fn a_missing_prerequisite_is_named_and_two_decisions_with_one_id_never_settle() {
    assert_eq!(
        acyclic(&[zone()]).unwrap_err(),
        "plan-zone depends on profile, which this plan does not offer"
    );
    let error = acyclic(&[profile(), profile()]).unwrap_err();
    assert!(error.starts_with("these decisions form a cycle: "), "{error}");
    assert!(acyclic(&[]).is_ok());
}

#[test]
fn a_later_insert_replaces_the_selection_and_keeps_identifier_order() {
    let mut held = Selections::new();
    held.insert("b", "1");
    held.insert("a", "2");
    held.insert("b", "3");
    assert_eq!(held.get("b").unwrap(), "3");
    let ids: Vec<&str> = held.pairs().iter().map(|(k, _)| k.as_str()).collect();
    assert_eq!(ids, ["a", "b"]);
}

#[test]
fn a_cycle_names_every_decision_no_order_reaches() {
    let mut one = profile();
    let mut two = zone();
    one.depends_on = vec![two.id.clone()];
    two.depends_on = vec![one.id.clone()];
    let mut three = scope();
    three.depends_on = vec![one.id.clone()];
    let error = acyclic(&[three, one, two]).unwrap_err();
    assert_eq!(error, "these decisions form a cycle: migration-scope, profile, plan-zone");
    assert_eq!(
        acyclic(&[profile(), profile()]).unwrap_err(),
        "these decisions form a cycle: "
    );
}
