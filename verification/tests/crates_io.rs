use spec_driven_docs::release::crates_io::{
    admit_archive, admit_payload, payload_roots, expand_download, CrateReleaseBundle, MAX_FILE_BYTES,
};
use spec_driven_docs::release::{FileMap, Provenance};
use spec_driven_docs::self_depend::registry::index_path;

/// One `.crate`-shaped archive built in memory.
fn archive(entries: &[(&str, &[u8])]) -> Vec<u8> {
    let mut builder = tar::Builder::new(Vec::new());
    for (path, bytes) in entries {
        let mut header = tar::Header::new_gnu();
        header.set_size(bytes.len() as u64);
        header.set_mode(0o644);
        header.set_cksum();
        builder.append_data(&mut header, path, *bytes).unwrap();
    }
    let tarred = builder.into_inner().unwrap();
    let mut encoder = flate2::write::GzEncoder::new(Vec::new(), flate2::Compression::default());
    std::io::Write::write_all(&mut encoder, &tarred).unwrap();
    encoder.finish().unwrap()
}

fn roots() -> Vec<String> {
    vec!["method".to_string()]
}

#[test]
fn crates_io_the_index_path_follows_the_registry_protocol() {
    assert_eq!(index_path("a"), "1/a");
    assert_eq!(index_path("ab"), "2/ab");
    assert_eq!(index_path("abc"), "3/a/abc");
    assert_eq!(index_path("spec-driven-docs"), "sp/ec/spec-driven-docs");
}

#[test]
fn a_download_template_without_markers_takes_the_default_form() {
    assert_eq!(
        expand_download("https://static.crates.io/crates", "x", "1.0.0", "ab"),
        "https://static.crates.io/crates/x/1.0.0/download"
    );
}

#[test]
fn a_download_template_with_markers_is_filled() {
    assert_eq!(
        expand_download(
            "https://example.test/{prefix}/{crate}/{version}/{sha256-checksum}",
            "spec-driven-docs",
            "1.0.0",
            "abc"
        ),
        "https://example.test/sp/ec/spec-driven-docs/1.0.0/abc"
    );
}

#[test]
fn a_lower_prefix_marker_is_filled_in_lower_case() {
    assert_eq!(
        expand_download("https://x.test/{lowerprefix}/{crate}", "Abc", "1.0.0", "c"),
        "https://x.test/3/a/Abc"
    );
}

#[test]
fn an_archive_admits_only_payload_roots_under_the_package_prefix() {
    let bytes = archive(&[
        ("spec-driven-docs-1.0.0/method/one.md", b"one\n"),
        ("spec-driven-docs-1.0.0/src/main.rs", b"fn main() {}\n"),
        ("spec-driven-docs-1.0.0/Cargo.toml", b"[package]\n"),
    ]);
    let files = admit_archive(&bytes, "spec-driven-docs-1.0.0", &roots()).unwrap();
    let keys: Vec<&str> = files.entries().iter().map(|(k, _)| k.as_str()).collect();
    assert_eq!(keys, ["method/one.md"]);
    assert_eq!(files.get("method/one.md"), Some(&b"one\n".to_vec()));
}

#[test]
fn an_archive_with_no_payload_root_refuses() {
    let bytes = archive(&[("spec-driven-docs-1.0.0/src/main.rs", b"x")]);
    let error = admit_archive(&bytes, "spec-driven-docs-1.0.0", &roots()).unwrap_err();
    assert!(error.message().contains("no payload root"), "{}", error.message());
}

#[test]
fn an_entry_outside_the_package_prefix_refuses() {
    let bytes = archive(&[("elsewhere/method/one.md", b"one\n")]);
    let error = admit_archive(&bytes, "spec-driven-docs-1.0.0", &roots()).unwrap_err();
    assert!(error.message().contains("outside"), "{}", error.message());
}

/// One archive whose entry name the `tar` writer would refuse.
fn hostile(name: &str, body: &[u8]) -> Vec<u8> {
    let mut header = [0u8; 512];
    header[..name.len()].copy_from_slice(name.as_bytes());
    header[100..108].copy_from_slice(b"0000644\0");
    header[108..116].copy_from_slice(b"0000000\0");
    header[116..124].copy_from_slice(b"0000000\0");
    header[124..136].copy_from_slice(format!("{:011o}\0", body.len()).as_bytes());
    header[136..148].copy_from_slice(b"00000000000\0");
    header[148..156].copy_from_slice(b"        ");
    header[156] = b'0';
    header[257..263].copy_from_slice(b"ustar\0");
    header[263..265].copy_from_slice(b"00");
    let sum: u32 = header.iter().map(|byte| u32::from(*byte)).sum();
    header[148..156].copy_from_slice(format!("{sum:06o}\0 ").as_bytes());

    let mut tarred = header.to_vec();
    tarred.extend_from_slice(body);
    tarred.resize(tarred.len().next_multiple_of(512), 0);
    tarred.extend_from_slice(&[0u8; 1024]);

    let mut encoder = flate2::write::GzEncoder::new(Vec::new(), flate2::Compression::default());
    std::io::Write::write_all(&mut encoder, &tarred).unwrap();
    encoder.finish().unwrap()
}

#[test]
fn traversal_and_absolute_paths_refuse() {
    for name in ["spec-driven-docs-1.0.0/../escape.md", "/etc/passwd"] {
        let bytes = hostile(name, b"x");
        let error = admit_archive(&bytes, "spec-driven-docs-1.0.0", &roots()).unwrap_err();
        assert!(error.message().contains("leaves the package"), "{name}: {}", error.message());
    }
}

#[test]
fn a_duplicate_logical_path_refuses() {
    let bytes = archive(&[
        ("spec-driven-docs-1.0.0/method/one.md", b"one\n"),
        ("spec-driven-docs-1.0.0/method/one.md", b"two\n"),
    ]);
    let error = admit_archive(&bytes, "spec-driven-docs-1.0.0", &roots()).unwrap_err();
    assert!(error.message().contains("appears twice"), "{}", error.message());
}

#[test]
fn a_link_entry_refuses() {
    let mut builder = tar::Builder::new(Vec::new());
    let mut header = tar::Header::new_gnu();
    header.set_size(0);
    header.set_entry_type(tar::EntryType::Symlink);
    header.set_mode(0o777);
    builder
        .append_link(&mut header, "spec-driven-docs-1.0.0/method/link.md", "/etc/passwd")
        .unwrap();
    let tarred = builder.into_inner().unwrap();
    let mut encoder = flate2::write::GzEncoder::new(Vec::new(), flate2::Compression::default());
    std::io::Write::write_all(&mut encoder, &tarred).unwrap();
    let bytes = encoder.finish().unwrap();
    let error = admit_archive(&bytes, "spec-driven-docs-1.0.0", &roots()).unwrap_err();
    assert!(error.message().contains("not a regular file"), "{}", error.message());
}

#[test]
fn a_file_over_the_per_file_cap_refuses() {
    let big = vec![b'x'; usize::try_from(MAX_FILE_BYTES).unwrap() + 1];
    let bytes = archive(&[("spec-driven-docs-1.0.0/method/big.md", &big)]);
    let error = admit_archive(&bytes, "spec-driven-docs-1.0.0", &roots()).unwrap_err();
    assert!(error.message().contains("per-file cap"), "{}", error.message());
}

#[test]
fn bytes_that_are_not_an_archive_refuse() {
    let error = admit_archive(b"not gzip", "p", &roots()).unwrap_err();
    assert!(error.message().starts_with("the archive is refused: "), "{}", error.message());
}

#[test]
fn a_crate_bundle_lists_payload_and_metadata() {
    let mut files = FileMap::new();
    files.insert("method/one.md", b"one".to_vec());
    let mut metadata = FileMap::new();
    metadata.insert("projection.toml", b"x".to_vec());
    let bundle = CrateReleaseBundle::new(
        "0.8.0".to_string(),
        0,
        Provenance::LegacyAdapted,
        None,
        files,
        metadata,
    );
    let manifest = bundle.manifest();
    assert_eq!(manifest.artifacts.len(), 2);
    assert_eq!(manifest.version, "0.8.0");
    let served = bundle.blob(&manifest.artifacts[1].sha256).unwrap();
    assert_eq!(served, b"x");
}

#[test]
fn the_published_archive_is_admitted_under_the_roots_the_binary_embeds() {
    assert_eq!(payload_roots().len(), 8);
    let bytes = archive(&[
        ("spec-driven-docs-1.0.0/skills/sdd-setup/SKILL.md", b"skill\n"),
        ("spec-driven-docs-1.0.0/instance/snippets/a.md", b"a\n"),
        ("spec-driven-docs-1.0.0/instance/seeds/b.md", b"b\n"),
        ("spec-driven-docs-1.0.0/src/main.rs", b"fn main() {}\n"),
    ]);
    let files = admit_payload(&bytes, "spec-driven-docs-1.0.0").unwrap();
    let keys: Vec<&str> = files.entries().iter().map(|(k, _)| k.as_str()).collect();
    assert_eq!(keys, ["instance/snippets/a.md", "skills/sdd-setup/SKILL.md"]);
}
