use spec_driven_docs::plan::compatibility::{
    preconditions, Compatibility, CompatibilityError, Interval, SCHEMA,
};
use spec_driven_docs::plan::readiness::{Readiness, Requirement};
use spec_driven_docs::version::CanonVersion;

fn version(value: &str) -> CanonVersion {
    CanonVersion::parse(value).unwrap()
}

fn declaration(minimum: &str, through: &[&str]) -> Compatibility {
    Compatibility {
        schema: SCHEMA.to_string(),
        minimum_engine: version(minimum),
        must_pass_through: through.iter().map(|held| version(held)).collect(),
    }
}

fn interval(engine: &str, recorded: Option<&str>, destination: &str) -> Interval {
    Interval {
        engine: version(engine),
        recorded: recorded.map(version),
        destination: version(destination),
    }
}

#[test]
fn the_smallest_true_declaration_requires_only_its_engine() {
    let held =
        Compatibility::parse(b"schema = \"sdd.compatibility/1\"\nminimum_engine = \"0.9.0\"\n")
            .unwrap();
    assert_eq!(held.minimum_engine, version("0.9.0"));
    assert!(held.must_pass_through.is_empty());
    assert!(preconditions(&held, &interval("0.9.0", None, "0.9.0")).is_empty());
}

#[test]
fn an_unknown_schema_or_shape_refuses() {
    assert!(matches!(
        Compatibility::parse(b"schema = \"sdd.compatibility/9\"\nminimum_engine = \"0.9.0\"\n")
            .unwrap_err(),
        CompatibilityError::UnknownSchema(_)
    ));
    assert!(matches!(
        Compatibility::parse(b"minimum_engine = \"0.9.0\"\n").unwrap_err(),
        CompatibilityError::Malformed(_)
    ));
    assert!(matches!(
        Compatibility::parse(
            b"schema = \"sdd.compatibility/1\"\nminimum_engine = \"0.9.0\"\nextra = 1\n"
        )
        .unwrap_err(),
        CompatibilityError::Malformed(_)
    ));
}

#[test]
fn an_engine_below_requirement_is_blocked_naming_the_engine() {
    let held = declaration("0.9.0", &[]);
    let found = preconditions(&held, &interval("0.8.1", Some("0.8.0"), "0.9.0"));
    assert_eq!(found.len(), 1);
    assert_eq!(found[0].id, "engine-is-new-enough");
    assert_eq!(found[0].requirement, Requirement::Required);
    assert_eq!(found[0].verdict(), Readiness::Blocked);
}

#[test]
fn a_skipped_intermediate_version_is_blocked_naming_it() {
    let held = declaration("0.1.0", &["0.8.0"]);
    let found = preconditions(&held, &interval("1.0.0", Some("0.7.0"), "0.9.0"));
    assert_eq!(found.len(), 1);
    assert_eq!(found[0].id, "no-version-is-skipped");
    let reason = format!("{:?}", found[0].evaluation);
    assert!(reason.contains("0.8.0"), "{reason}");
    assert!(reason.contains("--to 0.8.0"), "{reason}");
}

#[test]
fn a_version_outside_the_interval_is_not_skipped() {
    let held = declaration("0.1.0", &["0.5.0", "0.9.5"]);
    assert!(preconditions(&held, &interval("1.0.0", Some("0.7.0"), "0.9.0")).is_empty());
}

#[test]
fn a_downgrade_is_blocked() {
    let held = declaration("0.1.0", &[]);
    let found = preconditions(&held, &interval("1.0.0", Some("0.9.0"), "0.8.0"));
    assert_eq!(found.len(), 1);
    assert_eq!(found[0].id, "the-target-is-not-downgraded");
}

#[test]
fn the_versions_to_pass_through_are_read_and_named_in_order() {
    let held = Compatibility::parse(
        b"schema = \"sdd.compatibility/1\"\nminimum_engine = \"0.9.0\"\nmust_pass_through = [\"0.7.0\", \"0.8.0\"]\n",
    )
    .unwrap();
    assert_eq!(held.must_pass_through, vec![version("0.7.0"), version("0.8.0")]);
    let found = preconditions(&held, &interval("1.0.0", Some("0.6.0"), "0.9.0"));
    assert_eq!(found.len(), 1);
    let reason = format!("{:?}", found[0].evaluation);
    assert!(
        reason.contains("0.7.0, 0.8.0 must be passed through; plan --to 0.7.0 first"),
        "{reason}"
    );
}

#[test]
fn bytes_that_are_not_text_are_malformed() {
    assert!(matches!(
        Compatibility::parse(&[0xff, 0xfe]).unwrap_err(),
        CompatibilityError::Malformed(_)
    ));
    assert!(matches!(
        Compatibility::parse(b"schema = \"sdd.compatibility/1\"\nminimum_engine = \"nine\"\n")
            .unwrap_err(),
        CompatibilityError::Malformed(_)
    ));
}
