use spec_driven_docs::self_depend::fragments::{render, seed, FLAKE_INPUT};
use spec_driven_docs::self_depend::manager::Manager;
use spec_driven_docs::self_depend::pin::{input_name, read};
use spec_driven_docs::self_depend::registry::CRATE_NAME;
use spec_driven_docs::self_depend::tag::SemVer;
use spec_driven_docs::self_depend::venue::Venue;
use spec_driven_docs::self_depend::{slug, BINARY_NAME};

const SOURCE: &str = "https://github.com/example-owner/spec-driven-docs.git";

fn version() -> SemVer {
    SemVer::parse("0.10.2").unwrap()
}

#[test]
fn a_registry_fragment_names_the_crate_and_an_archive_fragment_the_binary() {
    let home = slug(SOURCE);
    let registry = render(Manager::Mise, Venue::Crates, &version(), &home);
    assert!(registry[0].text.contains(&format!("cargo:{CRATE_NAME}")));
    assert!(!registry[0].text.contains(BINARY_NAME));
    let archive = render(Manager::Mise, Venue::GithubRelease, &version(), &home);
    assert!(archive[0].text.contains(&format!("exe = \"{BINARY_NAME}\"")));
}

#[test]
fn a_manual_pair_renders_nothing_and_seeds_nothing() {
    let home = slug(SOURCE);
    assert!(render(Manager::Asdf, Venue::Crates, &version(), &home).is_empty());
    assert!(seed(Manager::Flake, Venue::Crates, &version(), &home).is_none());
}

#[test]
fn every_seed_reads_back_as_a_pin_at_the_seeded_version() {
    let home = slug(SOURCE);
    for (manager, venue) in [
        (Manager::Flake, Venue::Flake),
        (Manager::Mise, Venue::Crates),
        (Manager::Mise, Venue::GithubRelease),
        (Manager::Devbox, Venue::Flake),
    ] {
        let (file, contents) = seed(manager, venue, &version(), &home).unwrap();
        assert_eq!(file, manager.files()[0]);
        let held = read(manager, &contents, &home).unwrap();
        assert_eq!(held.version.to_text(), version().to_text(), "{manager:?} {venue:?}");
        assert_eq!(held.venue, Some(venue));
    }
    assert_eq!(
        input_name(&seed(Manager::Flake, Venue::Flake, &version(), &home).unwrap().1, &home).as_deref(),
        Some(FLAKE_INPUT)
    );
}

#[test]
fn a_flake_fragment_names_the_tag_of_the_home_repository() {
    let home = slug(SOURCE);
    let flake = render(Manager::Flake, Venue::Flake, &version(), &home);
    assert_eq!(flake.len(), 2);
    assert_eq!(
        flake[0].text,
        "spec-driven-docs = {\n  url = \"github:example-owner/spec-driven-docs/v0.10.2\";\n  inputs.nixpkgs.follows = \"nixpkgs\";\n};\n"
    );
    assert_eq!(flake[1].text, "spec-driven-docs.packages.${system}.default\n");
    let devbox = seed(Manager::Devbox, Venue::Flake, &version(), &home).unwrap();
    assert_eq!(
        devbox.1,
        "{\n  \"packages\": [\n    \"github:example-owner/spec-driven-docs/v0.10.2#default\"\n  ]\n}\n"
    );
}
