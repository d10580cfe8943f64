use spec_driven_docs::self_depend::fragments::{envrc_fragment, envrc_seed};
use spec_driven_docs::self_depend::manager::Manager;
use spec_driven_docs::self_depend::pin::input_name;
use spec_driven_docs::self_depend::registry::{index_path, transient, Index, CRATE_NAME};
use spec_driven_docs::self_depend::status::{conclude, next_lines, switched_off, State};
use spec_driven_docs::self_depend::venue::{default_venue, matrix, verdict, Venue, Verdict};
use spec_driven_docs::self_depend::{coordinates, slug, SYNC_LINE};

const SOURCE: &str = "https://github.com/example-owner/spec-driven-docs.git";

#[test]
fn registry_the_index_path_follows_the_registry_protocol() {
    assert_eq!(index_path("a"), "1/a");
    assert_eq!(index_path("ab"), "2/ab");
    assert_eq!(index_path("abc"), "3/a/abc");
    assert_eq!(index_path(CRATE_NAME), "sp/ec/spec-driven-docs");
}

#[test]
fn a_transient_answer_is_worth_asking_again() {
    assert!(transient(429));
    assert!(transient(503));
    assert!(!transient(404));
}

#[test]
fn a_manager_defaults_to_its_first_rendering_venue() {
    assert_eq!(default_venue(Manager::Flake), Some(Venue::Flake));
    assert_eq!(default_venue(Manager::Mise), Some(Venue::Crates));
    assert_eq!(default_venue(Manager::Devbox), Some(Venue::Flake));
    assert_eq!(default_venue(Manager::Asdf), None);
}

#[test]
fn the_shell_loader_seed_carries_the_sync_line_once() {
    assert_eq!(envrc_seed().matches(SYNC_LINE).count(), 1);
    assert_eq!(envrc_fragment().text.trim(), SYNC_LINE);
}

#[test]
fn a_dotted_flake_input_names_itself_on_the_url_line() {
    let text = format!(
        "{{ inputs = {{\n  tool.url = \"github:{}/v0.9.0\";\n }}; }}\n",
        slug(SOURCE)
    );
    assert_eq!(input_name(&text, &slug(SOURCE)).as_deref(), Some("tool"));
}

#[test]
fn an_input_opened_above_its_url_is_named() {
    let text = format!(
        "{{\n  inputs = {{\n    nixpkgs.url = \"github:NixOS/nixpkgs/nixos-unstable\";\n    sdd = {{\n      url = \"github:{}/v0.10.1\";\n      inputs.nixpkgs.follows = \"nixpkgs\";\n    }};\n  }};\n}}\n",
        slug(SOURCE)
    );
    assert_eq!(input_name(&text, &slug(SOURCE)).as_deref(), Some("sdd"));
    assert_eq!(input_name("{ }\n", &slug(SOURCE)), None);
}

#[test]
fn the_coordinates_come_from_the_canon_source() {
    let (owner, repo) = coordinates(SOURCE);
    assert_eq!(owner, "example-owner");
    assert_eq!(repo, "spec-driven-docs");
    assert!(SOURCE.trim_end_matches(".git").ends_with(&slug(SOURCE)));
    assert_eq!(coordinates("nothing-to-split"), ("nothing-to-split".to_string(), String::new()));
}

#[test]
fn every_pair_carries_a_verdict_and_every_manual_pair_a_reason() {
    let rows = matrix();
    assert_eq!(rows.len(), 12);
    for row in &rows {
        match row.verdict {
            Verdict::Renders => {}
            Verdict::Manual { reason } => assert!(!reason.as_str().is_empty()),
        }
    }
}

#[test]
fn the_rendering_pairs_are_the_four_this_release_proves() {
    let renders: Vec<(Manager, Venue)> = matrix()
        .into_iter()
        .filter(|row| row.verdict == Verdict::Renders)
        .map(|row| (row.manager, row.venue))
        .collect();
    assert_eq!(
        renders,
        [
            (Manager::Flake, Venue::Flake),
            (Manager::Mise, Venue::Crates),
            (Manager::Mise, Venue::GithubRelease),
            (Manager::Devbox, Venue::Flake),
        ]
    );
    assert_eq!(verdict(Manager::Asdf, Venue::Flake), matrix()[7].verdict);
}

#[test]
fn an_index_stays_offline_once_it_is_and_drops_trailing_separators() {
    let index = Index::new().offline(true).offline(false).with_root("http://localhost//");
    assert!(index.refuses_reads());
    assert_eq!(index.root_text(), "http://localhost");
    assert!(!Index::new().refuses_reads());
}

#[test]
fn the_status_conclusion_and_its_next_line() {
    assert!(switched_off(true, false));
    assert!(!switched_off(false, false));
    assert_eq!(conclude(0, true, true), State::Unwired);
    assert_eq!(conclude(1, true, true), State::Ready);
    assert_eq!(conclude(1, true, false), State::Leftovers);
    assert_eq!(conclude(1, false, true), State::LineAbsent);
    assert_eq!(conclude(2, true, true), State::Ambiguous);
    assert_eq!(
        next_lines(State::Ambiguous, &[Manager::Flake, Manager::Mise], "t"),
        ["one target runs one mechanism; keep one of flake, mise and remove the others' pins"]
    );
}
