use spec_driven_docs::release::selector::{canon_version, Selector};
use spec_driven_docs::self_depend::tag::SemVer;

#[test]
fn a_selector_reads_the_two_words_or_a_version() {
    assert!(matches!(Selector::parse("embedded"), Ok(Selector::Embedded)));
    assert!(matches!(Selector::parse("latest"), Ok(Selector::Latest)));
    match Selector::parse("0.9.1-rc.2") {
        Ok(s @ Selector::Exact(_)) => assert_eq!(s.text(), "0.9.1-rc.2"),
        other => panic!("{other:?}"),
    }
    assert_eq!(
        Selector::parse("newest").unwrap_err(),
        "--to takes embedded, latest, or a semantic version; newest is none of those"
    );
    assert_eq!(Selector::Latest.text(), "latest");
}

#[test]
fn only_a_released_triple_names_a_record_version() {
    assert_eq!(canon_version(&SemVer::parse("0.9.1").unwrap()).unwrap().to_text(), "0.9.1");
    assert_eq!(
        canon_version(&SemVer::parse("0.9.1+build.5").unwrap()).unwrap_err(),
        "0.9.1+build.5 is not a released triple, so no instance record can name it"
    );
    assert!(canon_version(&SemVer::parse("1.0.0-alpha").unwrap()).is_err());
}

#[test]
fn semver_orders_by_the_triple_then_the_prerelease() {
    let v = |t: &str| SemVer::parse(t).unwrap();
    assert!(v("0.9.0").precedes(&v("0.10.0")));
    assert!(v("1.0.0-alpha").precedes(&v("1.0.0")));
    assert!(!v("1.0.0").precedes(&v("1.0.0-alpha")));
    assert!(SemVer::parse("v1.0.0").is_none());
}
