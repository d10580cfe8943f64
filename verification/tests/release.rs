use spec_driven_docs::digest::Sha256;
use spec_driven_docs::release::embedded::EmbeddedReleaseBundle;
use spec_driven_docs::release::fixture::FixtureReleaseBundle;
use spec_driven_docs::release::{
    blob_from, manifest_from, FileMap, Provenance, ReleaseManifest, Role, MANIFEST_SCHEMA,
};

fn current() -> String {
    "0.9.0".to_string()
}

fn files() -> FileMap {
    let mut files = FileMap::new();
    files.insert("b.md", b"two".to_vec());
    files.insert("a.md", b"one".to_vec());
    files
}

#[test]
fn a_manifest_lists_every_artifact_in_path_order() {
    let manifest = manifest_from(current(), 1, Provenance::Native, None, &files(), &FileMap::new());
    let paths: Vec<&str> = manifest.artifacts.iter().map(|a| a.path.as_str()).collect();
    assert_eq!(paths, ["a.md", "b.md"]);
    assert_eq!(manifest.schema, MANIFEST_SCHEMA);
    assert_eq!(manifest.digest_of("a.md"), Some(&Sha256::of(b"one")));
    assert_eq!(manifest.digest_of("absent.md"), None);
}

#[test]
fn the_payload_digest_reads_the_content_and_not_the_order_it_was_given() {
    let one = manifest_from(current(), 1, Provenance::Native, None, &files(), &FileMap::new());
    let mut reversed = FileMap::new();
    reversed.insert("a.md", b"one".to_vec());
    reversed.insert("b.md", b"two".to_vec());
    let two = manifest_from(current(), 1, Provenance::Native, None, &reversed, &FileMap::new());
    assert_eq!(one.payload_sha256, two.payload_sha256);
}

#[test]
fn metadata_joins_the_manifest_as_a_second_role() {
    let mut metadata = FileMap::new();
    metadata.insert("m.toml", b"x".to_vec());
    let manifest = manifest_from(
        current(),
        1,
        Provenance::LegacyAdapted,
        Some(Sha256::of(b"descriptor")),
        &files(),
        &metadata,
    );
    let roles: Vec<Role> = manifest.artifacts.iter().map(|a| a.role).collect();
    assert_eq!(roles, [Role::Payload, Role::Payload, Role::Metadata]);
    assert_eq!(manifest.provenance, Provenance::LegacyAdapted);
}

#[test]
fn a_blob_is_served_by_digest_and_an_unknown_digest_refuses() {
    let held = files();
    assert_eq!(blob_from(&held, &FileMap::new(), &Sha256::of(b"one")).unwrap(), b"one");
    assert!(blob_from(&held, &FileMap::new(), &Sha256::of(b"nope")).is_err());
}

#[test]
fn an_unknown_digest_is_named_in_the_refusal() {
    let digest = Sha256::of(b"nope");
    let error = blob_from(&files(), &FileMap::new(), &digest).unwrap_err();
    assert_eq!(error.message(), format!("the bundle carries no blob {}", digest.as_str()));
}

#[test]
fn a_metadata_path_sorts_among_the_payload_paths() {
    let mut metadata = FileMap::new();
    metadata.insert("aa.toml", b"m".to_vec());
    metadata.insert("a.md", b"shadow".to_vec());
    let manifest = manifest_from(current(), 1, Provenance::Native, None, &files(), &metadata);
    let listed: Vec<(&str, Role)> =
        manifest.artifacts.iter().map(|a| (a.path.as_str(), a.role)).collect();
    assert_eq!(
        listed,
        [
            ("a.md", Role::Payload),
            ("a.md", Role::Metadata),
            ("aa.toml", Role::Metadata),
            ("b.md", Role::Payload)
        ]
    );
    assert_eq!(manifest.artifacts[0].bytes, 3);
}

#[test]
fn the_payload_digest_is_over_paths_and_digests() {
    let manifest = manifest_from(current(), 1, Provenance::Native, None, &files(), &FileMap::new());
    let text = format!(
        "a.md\0{}\nb.md\0{}\n",
        Sha256::of(b"one").as_str(),
        Sha256::of(b"two").as_str()
    );
    assert_eq!(manifest.payload_sha256, Sha256::of(text.as_bytes()));
    assert_eq!(ReleaseManifest::payload_digest(&manifest.artifacts), manifest.payload_sha256);
}

#[test]
fn a_file_map_replaces_what_a_path_held() {
    let mut map = FileMap::new();
    map.insert("x", b"1".to_vec());
    map.insert("x", b"2".to_vec());
    assert_eq!(map.len(), 1);
    assert_eq!(map.get("x"), Some(&b"2".to_vec()));
    assert_eq!(map.get("y"), None);
    assert!(!map.is_empty());
    assert!(FileMap::new().is_empty());
}

#[test]
fn every_artifact_resolves_to_its_own_bytes() {
    let bundle = EmbeddedReleaseBundle::new(current(), 1, files());
    let manifest = bundle.manifest();
    for artifact in &manifest.artifacts {
        let bytes = bundle.blob(&artifact.sha256).unwrap();
        assert_eq!(Sha256::of(&bytes), artifact.sha256);
        assert_eq!(bytes.len() as u64, artifact.bytes);
    }
    assert_eq!(manifest.version, current());
    assert_eq!(manifest.provenance, Provenance::Native);
}

#[test]
fn a_fixture_serves_the_files_it_was_given() {
    let bundle = FixtureReleaseBundle::of("1.2.3".to_string(), 2, files());
    let manifest = bundle.manifest();
    assert_eq!(manifest.payload_schema, 2);
    assert_eq!(manifest.artifacts.len(), 2);
    assert_eq!(bundle.blob(&Sha256::of(b"two")).unwrap(), b"two");
}
