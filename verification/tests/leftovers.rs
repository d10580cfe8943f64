use spec_driven_docs::self_depend::leftovers::{catalog, find, kept, Wired};
use spec_driven_docs::self_depend::manager::Manager;
use spec_driven_docs::self_depend::{ENVRC, SYNC_LINE};

#[test]
fn a_named_file_is_a_leftover_only_where_it_exists() {
    let found = find(
        &vec!["bump.sh".to_string(), "absent.sh".to_string(), "bump.sh".to_string()],
        &vec!["bump.sh".to_string()],
    );
    assert_eq!(found.len(), 1);
    assert_eq!(found[0].file, "bump.sh");
    assert_eq!(found[0].reason, "named by the operator as a predecessor's file");
    assert!(catalog().is_empty());
}

#[test]
fn the_sync_line_is_named_as_kept() {
    let text = format!("use flake\n{SYNC_LINE}\n");
    let held = kept(&Vec::new(), Some(&text));
    assert_eq!(held.len(), 1);
    assert_eq!(held[0].file, ENVRC);
    assert_eq!(held[0].line.as_deref(), Some(SYNC_LINE));
    assert!(kept(&Vec::new(), Some("use flake\n")).is_empty());
}

#[test]
fn a_wired_flake_keeps_its_file_and_its_lock() {
    let wired = vec![
        Wired { manager: Manager::Flake, file: Some("flake.nix".to_string()), pin_line: Some(7), lock_present: true },
        Wired { manager: Manager::Mise, file: Some("mise.toml".to_string()), pin_line: None, lock_present: true },
    ];
    let held = kept(&wired, None);
    let files: Vec<&str> = held.iter().map(|k| k.file.as_str()).collect();
    assert_eq!(files, ["flake.nix", "flake.lock", "mise.toml"]);
    assert_eq!(held[0].line.as_deref(), Some("line 7"));
    assert!(held[1].line.is_none());
    assert!(held[2].line.is_none());
}
