use spec_driven_docs::digest::Sha256;
use spec_driven_docs::release::legacy::{parse_descriptor, parse_index, LegacyCatalog, PRE_SCHEMA};
use spec_driven_docs::sorted_map::TextMap;

const DESCRIPTOR: &str = "version = \"0.6.6\"\npayload_roots = [\"instance\"]\n\n[projection]\ndocs_root = \"docs\"\n";

fn index_text(descriptor_sha256: &str) -> String {
    format!(
        "schema = 1\naudited_on = \"2026-01-10\"\ncapability_floor = \"0.6.6\"\n\n\
         [[releases]]\nversion = \"0.6.5\"\nchecksum = \"aa\"\neligible = false\n\
         reason = \"its archive carries no instance/seeds root\"\n\n\
         [[releases]]\nversion = \"0.6.6\"\nchecksum = \"bb\"\neligible = true\n\
         descriptor = \"legacy/0.6.6.toml\"\ndescriptor_sha256 = \"{descriptor_sha256}\"\n"
    )
}

fn catalog_with(descriptor: &str, recorded: &str) -> LegacyCatalog {
    let index = parse_index(&index_text(recorded)).unwrap();
    let mut carried = TextMap::new();
    carried.insert("0.6.6", descriptor.to_string());
    LegacyCatalog::new(index, carried)
}

fn catalog() -> LegacyCatalog {
    catalog_with(DESCRIPTOR, Sha256::of(DESCRIPTOR.as_bytes()).as_str())
}

#[test]
fn every_eligible_release_has_one_descriptor_and_no_other_does() {
    let catalog = catalog();
    for entry in &catalog.index().releases {
        if entry.eligible {
            assert!(entry.descriptor.is_some(), "{} names no descriptor", entry.version);
            assert!(catalog.descriptors().get(&entry.version).is_some());
        } else {
            assert!(entry.descriptor.is_none());
            assert!(catalog.descriptors().get(&entry.version).is_none());
            assert!(entry.reason.is_some());
        }
    }
    assert_eq!(
        catalog.descriptors().entries().len(),
        catalog.index().releases.iter().filter(|e| e.eligible).count()
    );
}

#[test]
fn no_version_appears_twice() {
    let catalog = catalog();
    let mut seen: Vec<&str> = Vec::new();
    for entry in &catalog.index().releases {
        assert!(!seen.contains(&entry.version.as_str()), "{} twice", entry.version);
        seen.push(&entry.version);
    }
}

#[test]
fn release_0_6_5_is_unavailable_and_0_6_6_is_the_capability_floor() {
    let catalog = catalog();
    assert_eq!(catalog.index().capability_floor, "0.6.6");
    let error = catalog.descriptor("0.6.5").unwrap_err().message();
    assert!(error.contains("unavailable"), "{error}");
    assert!(error.contains("instance/seeds"), "{error}");
    assert_eq!(
        error,
        "0.6.5 is unavailable as a destination: its archive carries no instance/seeds root. The lowest release this engine reads is 0.6.6"
    );
    assert!(catalog.descriptor("0.6.6").is_ok());
}

#[test]
fn an_uncataloged_version_is_never_a_candidate() {
    let error = catalog().descriptor("9.9.9").unwrap_err().message();
    assert!(error.contains("not in the release catalog"), "{error}");
}

#[test]
fn every_descriptor_matches_the_digest_the_index_records() {
    let catalog = catalog();
    for (version, text) in catalog.descriptors().entries() {
        let entry = catalog.entry(version).unwrap();
        assert_eq!(entry.descriptor_sha256.as_deref(), Some(Sha256::of(text.as_bytes()).as_str()));
    }
}

#[test]
fn a_descriptor_reads_with_its_digest() {
    let (descriptor, digest) = catalog().descriptor("0.6.6").unwrap();
    assert_eq!(descriptor.version, "0.6.6");
    assert_eq!(descriptor.payload_roots, ["instance"]);
    assert_eq!(digest, Sha256::of(DESCRIPTOR.as_bytes()));
    assert_eq!(PRE_SCHEMA, 0);
}

#[test]
fn a_drifted_descriptor_refuses() {
    let catalog = catalog_with(DESCRIPTOR, "0000");
    let error = catalog.descriptor("0.6.6").unwrap_err().message();
    assert_eq!(
        error,
        format!(
            "the descriptor for 0.6.6 hashes to {} and the catalog records 0000",
            Sha256::of(DESCRIPTOR.as_bytes())
                .as_str()
        )
    );
}

#[test]
fn a_misfiled_descriptor_refuses() {
    let misfiled = "version = \"0.7.0\"\npayload_roots = []\n[projection]\n";
    let catalog = catalog_with(misfiled, Sha256::of(misfiled.as_bytes()).as_str());
    let error = catalog.descriptor("0.6.6").unwrap_err().message();
    assert_eq!(error, "legacy/0.6.6.toml describes 0.7.0 and the catalog files it under 0.6.6");
}

#[test]
fn an_unknown_key_or_a_missing_field_refuses() {
    assert_eq!(
        parse_index("schema = 1\naudited_on = \"x\"\ncapability_floor = \"0.6.6\"\nreleases = []\nextra = 1\n")
            .unwrap_err(),
        "unknown field `extra`"
    );
    assert_eq!(parse_descriptor("version = \"0.6.6\"\npayload_roots = []\n").unwrap_err(), "missing field `projection`");
}

const PROJECTING: &str = "version = \"0.6.6\"\npayload_roots = [\"instance\", \"method\"]\n\n[projection]\ndocs_root = \"docs\"\n\n[[projection.managed]]\nsource = \"method/a.md\"\ndestination = \"docs/a.md\"\n\n[[projection.adopted]]\nsource = \"instance/seed.md\"\ndestination = \"docs/seed.md\"\n";

fn archive(paths: &[&str]) -> spec_driven_docs::release::FileMap {
    let mut files = spec_driven_docs::release::FileMap::new();
    for path in paths {
        files.insert(path, b"x".to_vec());
    }
    files
}

#[test]
fn an_archive_that_agrees_with_its_descriptor_is_adapted() {
    let catalog = catalog_with(PROJECTING, Sha256::of(PROJECTING.as_bytes()).as_str());
    let adapted = catalog.adapt("0.6.6", &archive(&["instance/seed.md", "method/a.md"])).unwrap();
    assert_eq!(adapted.payload_schema, PRE_SCHEMA);
    assert_eq!(adapted.descriptor_sha256.as_str(), Sha256::of(PROJECTING.as_bytes()).as_str());
}

#[test]
fn an_archive_that_disagrees_with_its_descriptor_is_refused() {
    let catalog = catalog_with(PROJECTING, Sha256::of(PROJECTING.as_bytes()).as_str());
    assert_eq!(
        catalog.adapt("0.6.6", &archive(&["instance/seed.md", "methods/a.md"])).unwrap_err().message(),
        "the descriptor for 0.6.6 names the root method, and the published archive carries no file under it"
    );
    assert_eq!(
        catalog.adapt("0.6.6", &archive(&["instance/seed.md", "method/b.md"])).unwrap_err().message(),
        "the descriptor for 0.6.6 projects method/a.md, and the published archive does not carry it"
    );
    assert_eq!(
        catalog.adapt("0.6.6", &archive(&["instance/other.md", "method/a.md"])).unwrap_err().message(),
        "the descriptor for 0.6.6 projects instance/seed.md, and the published archive does not carry it"
    );
    assert!(catalog.adapt("0.6.5", &archive(&["method/a.md"])).unwrap_err().message().contains("unavailable"));
}
