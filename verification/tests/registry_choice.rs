use spec_driven_docs::release::registry_choice::{choose_entry, forbidden_read, registry_entries};
use spec_driven_docs::release::selector::Selector;
use spec_driven_docs::self_depend::tag::SemVer;

const INDEX: &str = "{\"vers\":\"0.9.0\",\"cksum\":\"a\"}\n\
{\"vers\":\"0.10.0\",\"cksum\":\"b\",\"yanked\":false}\n\
\n\
{\"vers\":\"0.11.0\",\"cksum\":\"c\",\"yanked\":true}\n\
{\"vers\":\"0.12.0-rc.1\",\"cksum\":\"d\"}\n";

#[test]
fn latest_is_the_newest_stable_release_the_index_lists() {
    let entries = registry_entries("idx", INDEX.as_bytes()).unwrap();
    assert_eq!(entries.len(), 4);
    let chosen = choose_entry(&Selector::Latest, false, &entries).unwrap();
    assert_eq!(chosen.vers, "0.10.0");
    assert_eq!(chosen.cksum, "b");
    assert!(choose_entry(&Selector::Latest, true, &entries).unwrap_err().message().starts_with("--offline cannot resolve latest"));
}

#[test]
fn an_exact_version_is_the_first_entry_spelling_it() {
    let entries = registry_entries("idx", INDEX.as_bytes()).unwrap();
    let yanked = choose_entry(&Selector::Exact(SemVer::parse("0.11.0").unwrap()), true, &entries).unwrap();
    assert_eq!(yanked.cksum, "c");
    assert!(yanked.yanked);
    assert_eq!(
        choose_entry(&Selector::Exact(SemVer::parse("1.0.0").unwrap()), false, &entries).unwrap_err().message(),
        "the registry serves no spec-driven-docs 1.0.0"
    );
    assert_eq!(
        choose_entry(&Selector::Embedded, false, &entries).unwrap_err().message(),
        "the embedded release is not resolved through the registry"
    );
}

#[test]
fn an_index_the_engine_cannot_use_is_refused() {
    assert_eq!(registry_entries("idx", b"\n  \n").unwrap_err(), "idx lists no version");
    assert_eq!(
        registry_entries("idx", b"{\"vers\":\"1.0.0\"}").unwrap_err(),
        "idx carries a line this engine cannot read: the line names no checksum"
    );
    assert!(registry_entries("idx", b"oops").unwrap_err().starts_with("idx carries a line this engine cannot read: "));
    let none_stable = registry_entries("idx", b"{\"vers\":\"1.0.0-beta\",\"cksum\":\"x\"}").unwrap();
    assert_eq!(
        choose_entry(&Selector::Latest, false, &none_stable).unwrap_err().message(),
        "the registry serves no stable spec-driven-docs"
    );
}

#[test]
fn offline_refuses_latest_and_an_uncached_exact() {
    let error = choose_entry(&Selector::Latest, true, &Vec::new()).unwrap_err().message();
    assert!(error.contains("cannot resolve latest"), "{error}");
    let error = forbidden_read(true, "https://index.crates.io/sp/ec/spec-driven-docs").unwrap();
    assert!(error.contains("--offline forbids"), "{error}");
    assert!(forbidden_read(false, "https://index.crates.io/config.json").is_none());
}

#[test]
fn the_embedded_selector_is_not_the_registry_resolvers_business() {
    let error = choose_entry(&Selector::Embedded, false, &Vec::new()).unwrap_err();
    assert_eq!(error.kind(), "Usage");
    assert_eq!(error.message(), "the embedded release is not resolved through the registry");
}
