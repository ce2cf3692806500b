use sf_compact::cli::is_watched_file;
use sf_compact::hook::generate_script;
use sf_compact::agent::generate_agent;
use sf_compact::str_map::StrMap;
use sf_compact::tracking::{
    branch_to_filename, detect_changes, parse_reset_scope, record_packed_files, reset_tracking, PackedFileInfo, ResetScope,
    TrackingState,
};

fn state() -> TrackingState {
    TrackingState { branch: "main".to_string(), global: StrMap::new(), deployment: StrMap::new() }
}

fn packed(xml: &str, compact: &str) -> PackedFileInfo {
    PackedFileInfo { xml_relative_path: xml.to_string(), compact_path: compact.to_string() }
}

#[test]
fn record_tracks_in_both_scopes() {
    let mut s = state();
    let files = vec![packed("b.flow-meta.xml", "b.flow-meta.yaml"), packed("a.profile-meta.xml", "a.profile-meta.json")];
    record_packed_files(&mut s, &files, &[Some(7), None], 100);
    assert_eq!(s.global.len(), 2);
    let a = s.global.get("a.profile-meta.xml").unwrap();
    assert_eq!(a.compact_path, "a.profile-meta.json");
    assert_eq!(a.packed_at_epoch, 100);
    assert_eq!(a.compact_mtime_epoch, 100);
    let b = s.deployment.get("b.flow-meta.xml").unwrap();
    assert_eq!(b.compact_mtime_epoch, 7);
    // Walked in key order.
    assert_eq!(s.global.entries()[0].0, "a.profile-meta.xml");
}

#[test]
fn later_record_wins() {
    let mut s = state();
    let files = vec![packed("a.xml", "one.yaml"), packed("a.xml", "two.yaml")];
    record_packed_files(&mut s, &files, &[Some(1), Some(2)], 5);
    assert_eq!(s.global.len(), 1);
    assert_eq!(s.global.get("a.xml").unwrap().compact_path, "two.yaml");
}

#[test]
fn reset_global_clears_both() {
    let mut s = state();
    record_packed_files(&mut s, &[packed("a.xml", "a.yaml")], &[Some(1)], 5);
    reset_tracking(&mut s, ResetScope::Global, &[], 9);
    assert!(s.global.is_empty());
    assert!(s.deployment.is_empty());
}

#[test]
fn reset_since_deploy_rebases_on_current_times() {
    let mut s = state();
    record_packed_files(&mut s, &[packed("a.xml", "a.yaml"), packed("b.xml", "b.yaml")], &[Some(1), Some(2)], 5);
    reset_tracking(&mut s, ResetScope::SinceDeploy, &[Some(40), None], 50);
    assert_eq!(s.global.get("a.xml").unwrap().compact_mtime_epoch, 1);
    let a = s.deployment.get("a.xml").unwrap();
    assert_eq!((a.packed_at_epoch, a.compact_mtime_epoch), (50, 40));
    let b = s.deployment.get("b.xml").unwrap();
    assert_eq!((b.packed_at_epoch, b.compact_mtime_epoch), (50, 50));
}

#[test]
fn changes_are_modified_then_new_files() {
    let mut s = state();
    record_packed_files(&mut s, &[packed("a.xml", "a-meta.yaml"), packed("b.xml", "b-meta.yaml")], &[Some(10), Some(10)], 10);
    let scanned = vec!["a-meta.yaml".to_string(), "c-meta.json".to_string(), "notes.txt".to_string()];
    let changes = detect_changes(&s, false, &[Some(11), Some(10)], &scanned);
    let got: Vec<(String, String)> = changes.into_iter().map(|c| (c.xml_relative_path, c.compact_path)).collect();
    assert_eq!(
        got,
        vec![
            ("a.xml".to_string(), "a-meta.yaml".to_string()),
            ("c-meta.xml".to_string(), "c-meta.json".to_string())
        ]
    );
}

#[test]
fn no_new_files_when_nothing_is_tracked() {
    let s = state();
    let scanned = vec!["c-meta.json".to_string()];
    assert!(detect_changes(&s, false, &[], &scanned).is_empty());
}

#[test]
fn branch_file_names() {
    assert_eq!(branch_to_filename("feature/x/y"), "feature--x--y.json");
    assert_eq!(branch_to_filename("main"), "main.json");
}

#[test]
fn watched_files() {
    assert!(is_watched_file("Admin.profile-meta.xml"));
    assert!(is_watched_file("x.xml"));
    assert!(!is_watched_file("x.yaml"));
}

#[test]
fn hook_and_agent_texts() {
    let s = generate_script("force-app", ".sf-compact");
    assert!(s.starts_with("#!/bin/sh\n"));
    assert!(s.contains("  */force-app/*-meta.xml | force-app/*-meta.xml) ;;"));
    assert!(s.contains("RELATIVE=\"${FILE_PATH#*force-app/}\""));
    assert!(s.contains("PREFIX=\".sf-compact\""));
    assert!(s.contains("printf '{\"hookSpecificOutput\":{"));
    let a = generate_agent();
    assert!(a.starts_with("---\nname: sf-explorer\n"));
    assert!(a.contains("ALWAYS read from .sf-compact/ directory instead of force-app/. The .sf-compact/"));
}

fn changed(xml: &str) -> sf_compact::tracking::ChangedFile {
    sf_compact::tracking::ChangedFile { xml_relative_path: xml.to_string(), compact_path: format!("{xml}.yaml") }
}

#[test]
fn deploy_and_retrieve_commands_list_every_changed_file() {
    let cs = vec![changed("main/a.profile-meta.xml"), changed("main/b.flow-meta.xml")];
    assert_eq!(
        sf_compact::tracking::sf_command("deploy", &cs),
        "sf project deploy start -d main/a.profile-meta.xml -d main/b.flow-meta.xml"
    );
    assert_eq!(
        sf_compact::tracking::sf_command("retrieve", &cs[..1].iter().map(|c| changed(&c.xml_relative_path)).collect()),
        "sf project retrieve start -d main/a.profile-meta.xml"
    );
    assert_eq!(sf_compact::tracking::sf_command("deploy", &vec![]), "sf project deploy start -d ");
}

#[test]
fn reset_scope_names() {
    assert!(matches!(parse_reset_scope("global"), Some(ResetScope::Global)));
    assert!(matches!(parse_reset_scope("since-deploy"), Some(ResetScope::SinceDeploy)));
    assert!(parse_reset_scope("deploy").is_none());
    assert!(parse_reset_scope("").is_none());
}

#[test]
fn no_changes_right_after_a_pack() {
    let mut s = state();
    record_packed_files(&mut s, &[packed("a.xml", "a-meta.yaml"), packed("b.xml", "b-meta.json")], &[Some(10), None], 20);
    let scanned = vec!["a-meta.yaml".to_string(), "b-meta.json".to_string()];
    // Times as recorded (b's could not be read at pack time, so `now` was kept).
    assert!(detect_changes(&s, false, &[Some(10), Some(20)], &scanned).is_empty());
    assert!(detect_changes(&s, true, &[Some(10), None], &scanned).is_empty());
}

#[test]
fn nothing_reported_after_global_reset() {
    let mut s = state();
    record_packed_files(&mut s, &[packed("a.xml", "a-meta.yaml")], &[Some(1)], 5);
    reset_tracking(&mut s, ResetScope::Global, &[], 9);
    let scanned = vec!["a-meta.yaml".to_string(), "z-meta.json".to_string()];
    assert!(detect_changes(&s, false, &[], &scanned).is_empty());
    assert!(detect_changes(&s, true, &[], &scanned).is_empty());
}

#[test]
fn since_deploy_reset_then_edit() {
    let mut s = state();
    record_packed_files(&mut s, &[packed("a.xml", "a-meta.yaml"), packed("b.xml", "b-meta.yaml")], &[Some(1), Some(2)], 5);
    reset_tracking(&mut s, ResetScope::SinceDeploy, &[Some(30), Some(31)], 40);
    assert!(detect_changes(&s, true, &[Some(30), Some(31)], &[]).is_empty());
    let changes = detect_changes(&s, true, &[Some(30), Some(45)], &[]);
    assert_eq!(changes.len(), 1);
    assert_eq!(changes[0].xml_relative_path, "b.xml");
    // Globally both files changed since they were packed.
    assert_eq!(detect_changes(&s, false, &[Some(30), Some(45)], &[]).len(), 2);
}
