use spec_driven_docs::self_depend::manager::Manager;
use spec_driven_docs::self_depend::pin::{locked_rev, read, rewrite};
use spec_driven_docs::self_depend::registry::{newest_in_index, newest_stable, CRATE_NAME};
use spec_driven_docs::self_depend::tag::{parse_tag, SemVer};
use spec_driven_docs::self_depend::venue::Venue;
use spec_driven_docs::self_depend::{coordinates, slug, BINARY_NAME};

const SOURCE: &str = "https://github.com/example-owner/spec-driven-docs.git";

fn version(text: &str) -> SemVer {
    SemVer::parse(text).unwrap()
}

fn flake() -> String {
    format!(
        "{{\n  inputs = {{\n    nixpkgs.url = \"github:NixOS/nixpkgs/nixos-unstable\";\n    sdd = {{\n      url = \"github:{}/v0.10.1\";\n      inputs.nixpkgs.follows = \"nixpkgs\";\n    }};\n  }};\n}}\n",
        slug(SOURCE)
    )
}

#[test]
fn a_tag_parses_in_every_spelling() {
    assert_eq!(parse_tag("v0.2.16").unwrap().to_text(), "0.2.16");
    assert_eq!(parse_tag("0.2.16").unwrap().to_text(), "0.2.16");
    assert_eq!(parse_tag("https://example.invalid/releases/tag/v1.2.3").unwrap().to_text(), "1.2.3");
    assert!(parse_tag("v1.2.3-rc.1").is_err());
    assert!(parse_tag("latest").is_err());
}

#[test]
fn a_tag_refusal_names_the_value() {
    assert_eq!(
        parse_tag("latest").unwrap_err(),
        "latest is not a release tag: expected v<major>.<minor>.<patch>"
    );
    assert_eq!(parse_tag("v1.2.3-rc.1").unwrap_err(), "v1.2.3-rc.1 is not a released triple");
    assert_eq!(parse_tag("  v2.0.0 \n").unwrap().to_text(), "2.0.0");
}

#[test]
fn a_flake_pin_reads_and_rewrites_in_place() {
    let text = flake();
    let pin = read(Manager::Flake, &text, &slug(SOURCE)).unwrap();
    assert_eq!(pin.version.to_text(), "0.10.1");
    assert_eq!(pin.spelled, "v0.10.1");
    assert_eq!(pin.venue, Some(Venue::Flake));
    assert_eq!(pin.line, 5);
    assert_eq!(pin.lines, 1);
    let (moved, _) = rewrite(Manager::Flake, &text, &version("0.10.2"), &slug(SOURCE)).unwrap();
    assert!(moved.contains(&format!("github:{}/v0.10.2\"", slug(SOURCE))));
    assert_eq!(moved.len(), text.len());
    assert_eq!(&text[pin.span.0..pin.span.1], "v0.10.1");
}

#[test]
fn a_mise_pin_reads_both_forms() {
    let registry = format!("[tools]\n\"cargo:{CRATE_NAME}\" = \"0.10.1\"\n");
    let pin = read(Manager::Mise, &registry, &slug(SOURCE)).unwrap();
    assert_eq!(pin.venue, Some(Venue::Crates));
    assert_eq!(pin.spelled, "0.10.1");
    let archive = format!(
        "[tools]\n\"ubi:{}\" = {{ version = \"0.10.1\", exe = \"{BINARY_NAME}\" }}\n",
        slug(SOURCE)
    );
    let pin = read(Manager::Mise, &archive, &slug(SOURCE)).unwrap();
    assert_eq!(pin.venue, Some(Venue::GithubRelease));
    let (moved, _) = rewrite(Manager::Mise, &archive, &version("0.11.0"), &slug(SOURCE)).unwrap();
    assert!(moved.contains("version = \"0.11.0\""));
}

#[test]
fn an_asdf_pin_reads_the_second_token() {
    let text = format!("nodejs 20.0.0\n{CRATE_NAME} 0.10.1\n");
    let pin = read(Manager::Asdf, &text, &slug(SOURCE)).unwrap();
    assert_eq!(pin.version.to_text(), "0.10.1");
    assert_eq!(pin.venue, None);
    assert!(read(Manager::Asdf, "nodejs 20.0.0\n", &slug(SOURCE)).is_none());
}

#[test]
fn a_devbox_pin_reads_up_to_the_output() {
    let text = format!("{{ \"packages\": [\"github:{}/v0.10.1#default\"] }}\n", slug(SOURCE));
    let pin = read(Manager::Devbox, &text, &slug(SOURCE)).unwrap();
    assert_eq!(pin.spelled, "v0.10.1");
    let (moved, _) = rewrite(Manager::Devbox, &text, &version("0.10.2"), &slug(SOURCE)).unwrap();
    assert!(moved.contains("v0.10.2#default"));
}

#[test]
fn a_second_pin_is_counted_and_a_missing_one_refuses_the_rewrite() {
    let text = format!("{CRATE_NAME} 0.10.1\n{BINARY_NAME} v0.9.0\n");
    let pin = read(Manager::Asdf, &text, &slug(SOURCE)).unwrap();
    assert_eq!(pin.lines, 2);
    assert_eq!(pin.line, 1);
    assert_eq!(
        rewrite(Manager::Asdf, "nodejs 20.0.0\n", &version("1.0.0"), &slug(SOURCE)).unwrap_err(),
        "the file no longer records a pin"
    );
}

#[test]
fn the_lock_revision_is_found_by_the_repository_it_names() {
    let (owner, repo) = coordinates(SOURCE);
    let lock = format!(
        "{{\"nodes\":{{\"root\":{{\"inputs\":{{\"sdd\":\"sdd\"}}}},\"sdd\":{{\"locked\":{{\"rev\":\"abc123\"}},\"original\":{{\"owner\":\"{owner}\",\"repo\":\"{repo}\",\"type\":\"github\"}}}}}},\"version\":7}}"
    );
    assert_eq!(locked_rev(&lock, SOURCE).as_deref(), Some("abc123"));
    assert_eq!(locked_rev("{\"nodes\":{}}", SOURCE), None);
    let shouted = lock.replace(&owner, &owner.to_uppercase());
    assert_eq!(locked_rev(&shouted, SOURCE).as_deref(), Some("abc123"));
    assert_eq!(locked_rev("not json", SOURCE), None);
}

#[test]
fn the_newest_stable_release_skips_yanked_and_prereleases() {
    let entries = vec![
        ("0.9.0".to_string(), false),
        ("0.11.0".to_string(), true),
        ("0.10.0".to_string(), false),
        ("0.12.0-rc.1".to_string(), false),
        ("not a version".to_string(), false),
        ("0.2.0".to_string(), false),
    ];
    assert_eq!(newest_stable(&entries).unwrap().to_text(), "0.10.0");
    assert!(newest_stable(&vec![("1.0.0".to_string(), true)]).is_none());
}

#[test]
fn the_newest_release_is_read_from_the_index_lines() {
    let index = [
        "{\"name\":\"spec-driven-docs\",\"vers\":\"0.9.0\"}\n",
        "\n",
        "{\"vers\":\"0.11.0\",\"yanked\":true}\r\n",
        "{\"vers\":\"0.10.0\",\"yanked\":false}\n",
        "{\"vers\":\"0.12.0-rc.1\"}\n",
    ]
    .join("");
    let newest = newest_in_index("https://index/sp/ec/spec-driven-docs", index.as_bytes()).unwrap();
    assert_eq!(newest.to_text(), "0.10.0");
}

#[test]
fn an_index_line_that_cannot_be_read_refuses_the_index() {
    let refused = newest_in_index("idx", b"{\"vers\":\"0.1.0\"}\nnot json\n").unwrap_err();
    assert!(refused.starts_with("idx carries a line this tool cannot read: "), "{refused}");
    assert_eq!(
        newest_in_index("idx", b"{\"name\":\"x\"}").unwrap_err(),
        "idx carries a line this tool cannot read: the line names no version"
    );
    assert_eq!(
        newest_in_index("idx", b"{\"vers\":\"1.0.0\",\"yanked\":1}").unwrap_err(),
        "idx carries a line this tool cannot read: the yanked mark is not a boolean"
    );
    assert!(newest_in_index("idx", &[0xff, 0xfe]).unwrap_err().starts_with("idx is not text: "));
    assert_eq!(
        newest_in_index("idx", b"{\"vers\":\"1.0.0\",\"yanked\":true}\n").unwrap_err(),
        format!("the registry serves no stable {CRATE_NAME}")
    );
}
