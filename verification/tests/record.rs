use spec_driven_docs::digest::Sha256;
use spec_driven_docs::landing::record::installation_of;
use spec_driven_docs::profile::ProfileId;
use spec_driven_docs::sorted_map::TextMap;

const RECORD: &str = ".spec-driven-docs/instance.json";

fn digest(text: &str) -> Sha256 {
    Sha256::of(text.as_bytes())
}

fn record(managed: &str, adopted: &str, blocks: &str) -> String {
    format!(
        "{{\"canon_version\":\"0.4.1\",\"profile\":\"codebase\",\"docs_root\":\"docs\",\
         \"managed_files\":[{managed}],\"adopted_files\":[{adopted}],\"integration_blocks\":[{blocks}]}}"
    )
}

#[test]
fn a_record_reads_as_the_installation_it_vouches_for() {
    let a = digest("a");
    let b = digest("b");
    let text = record(
        &format!(
            "{{\"destination\":\"docs/./a.md\",\"sha256\":\"{}\"}},{{\"destination\":\"skipped.md\"}}",
            a.as_str()
        ),
        &format!(
            "{{\"destination\":\"AGENTS.md\",\"sha256\":\"{}\",\"baseline_sha256\":\"{}\"}}",
            a.as_str(),
            b.as_str()
        ),
        &format!("{{\"path\":\".pre-commit-config.yaml\",\"marker_hash\":\"{}\"}}", b.as_str()),
    );
    let mut held = TextMap::new();
    held.insert("docs/a.md", digest("a"));
    let mut blocks_held = TextMap::new();
    blocks_held.insert(".pre-commit-config.yaml", digest("c"));
    let (installation, refused) = installation_of(RECORD, &text, &held, &blocks_held, Some(digest("d")));
    assert!(refused.is_none());
    let i = installation.unwrap();
    assert_eq!(i.canon_version.to_text(), "0.4.1");
    assert_eq!(i.profile, ProfileId::Codebase);
    assert_eq!(i.docs_root, "docs");
    assert_eq!(i.record_sha256.as_str(), digest(&text).as_str());
    assert_eq!(i.declaration_sha256.as_ref().unwrap().as_str(), digest("d").as_str());
    assert_eq!(i.managed.len(), 1);
    assert_eq!(i.managed[0].path.as_str(), "docs/a.md");
    assert_eq!(i.managed[0].held.as_ref().unwrap().as_str(), a.as_str());
    assert!(i.managed[0].baseline.is_none());
    assert_eq!(i.adopted.len(), 1);
    assert!(i.adopted[0].held.is_none());
    assert_eq!(i.adopted[0].baseline.as_ref().unwrap().as_str(), b.as_str());
    assert_eq!(i.blocks.len(), 1);
    assert_eq!(i.blocks[0].held.as_ref().unwrap().as_str(), digest("c").as_str());
    assert!(i.drifted());
}

#[test]
fn a_record_that_cannot_be_read_is_refused() {
    let empty = TextMap::new();
    for text in ["not json", "{}", "{\"canon_version\":\"v1\",\"profile\":\"codebase\",\"docs_root\":\"docs\"}"] {
        let (installation, refused) = installation_of(RECORD, text, &empty, &empty, None);
        assert!(installation.is_none());
        assert_eq!(refused.unwrap(), format!("{RECORD} is not a record this engine can read"));
    }
    let unreadable_block = record("", "", "{\"path\":\"AGENTS.md\"}");
    assert!(installation_of(RECORD, &unreadable_block, &empty, &empty, None).1.is_some());
    let odd_profile = record("", "", "").replace("codebase", "wiki");
    assert!(installation_of(RECORD, &odd_profile, &empty, &empty, None).1.is_some());
}

#[test]
fn a_record_naming_a_path_no_operation_may_name_is_refused() {
    let empty = TextMap::new();
    let a = digest("a");
    let climbing = record(
        &format!("{{\"destination\":\"../out.md\",\"sha256\":\"{}\"}}", a.as_str()),
        "",
        "",
    );
    assert_eq!(
        installation_of(RECORD, &climbing, &empty, &empty, None).1.unwrap(),
        format!("{RECORD} records the destination ../out.md, which no operation may name")
    );
    let absolute_host = record("", "", &format!("{{\"path\":\"/etc/hosts\",\"marker_hash\":\"{}\"}}", a.as_str()));
    assert_eq!(
        installation_of(RECORD, &absolute_host, &empty, &empty, None).1.unwrap(),
        format!("{RECORD} records the block host /etc/hosts, which no operation may name")
    );
}

#[test]
fn a_record_that_does_not_parse_is_invalid_and_never_absent() {
    let empty = TextMap::new();
    let (installation, invalid) = installation_of(RECORD, "{not json", &empty, &empty, None);
    assert!(installation.is_none());
    assert!(invalid.is_some(), "a broken record read as absent");
}
