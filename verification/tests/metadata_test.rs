use sf_compact::convert::{compact_extension, compact_style, skips_type, stale_extension, CompactStyle};
use sf_compact::convert::{
    compact_file_name, effective_format_for, glob_match, is_sf_compact_file_name, metadata_type_for, token_counts, tokenizable_text,
    xml_file_name, ConvertStats,
};
use sf_compact::config::SfCompactConfig;
use sf_compact::diff::DiffResult;
use sf_compact::manifest::build_manifest;
use sf_compact::metadata_types::{classify, is_sf_metadata_filename, manifest_type_for_short, metadata_info_for_config};

#[test]
fn classify_known_and_unknown() {
    assert_eq!(classify("flow-meta.xml"), ("Flow", "automation", true));
    assert_eq!(classify("profile-meta.xml"), ("Profile", "security", false));
    assert_eq!(classify("foo-meta.xml"), ("Unknown", "other", false));
}

#[test]
fn metadata_file_names() {
    assert!(is_sf_metadata_filename("Admin.profile-meta.xml"));
    assert!(!is_sf_metadata_filename("Admin.profile-meta.yaml"));
    assert!(!is_sf_metadata_filename("README.md"));
}

#[test]
fn short_types_map_to_type_names() {
    assert_eq!(manifest_type_for_short("flow"), "Flow");
    assert_eq!(manifest_type_for_short("object"), "CustomObject");
    assert_eq!(manifest_type_for_short("widget"), "widget");
}

#[test]
fn config_info_has_each_type_once() {
    let info = metadata_info_for_config();
    assert_eq!(info.len(), 71);
    assert_eq!(info.iter().filter(|e| e.0 == "LightningComponentBundle").count(), 1);
    assert_eq!(info[0].0, "Profile");
    assert_eq!(info[0].2, vec!["yaml".to_string(), "yaml-ordered".to_string(), "json".to_string()]);
}

#[test]
fn manifest_lists_every_extension() {
    let m = build_manifest();
    assert_eq!(m.supported_metadata.len(), 76);
    assert_eq!(m.supported_metadata[6].extension, "flow-meta.xml");
    assert_eq!(m.supported_metadata[6].meta_type, "Flow");
    assert!(m.supported_metadata[6].order_sensitive);
    assert_eq!(
        m.supported_metadata[6].supported_formats,
        vec!["yaml".to_string(), "yaml-ordered".to_string(), "json".to_string()]
    );
}

#[test]
fn metadata_type_of_file_names() {
    assert_eq!(metadata_type_for("Account.object-meta.xml"), "object");
    assert_eq!(metadata_type_for("My.Flow.flow-meta.xml"), "flow");
    assert_eq!(metadata_type_for("noext-meta.xml"), "unknown");
    assert_eq!(metadata_type_for("plain.txt"), "unknown");
}

#[test]
fn compact_and_xml_names() {
    assert_eq!(compact_file_name("Admin.profile-meta.xml", "json"), "Admin.profile-meta.json");
    assert_eq!(compact_file_name("Admin.profile-meta.xml", "yaml-ordered"), "Admin.profile-meta.yaml");
    assert_eq!(xml_file_name("Admin.profile-meta.yaml"), "Admin.profile-meta.xml");
    assert_eq!(xml_file_name("Admin.profile-meta.json"), "Admin.profile-meta.xml");
    assert!(is_sf_compact_file_name("x-meta.json"));
    assert!(!is_sf_compact_file_name("x-meta.xml"));
}

#[test]
fn effective_format_prefers_cli_then_type_then_short_type() {
    let mut cfg = SfCompactConfig::default();
    cfg.formats.insert("flow".to_string(), "json".to_string());
    assert_eq!(effective_format_for("flow", "Flow", &cfg, &Some("yaml".to_string())), "yaml");
    assert_eq!(effective_format_for("flow", "Flow", &cfg, &None), "json");
    cfg.formats.insert("Flow".to_string(), "yaml-ordered".to_string());
    assert_eq!(effective_format_for("flow", "Flow", &cfg, &None), "yaml-ordered");
    assert_eq!(effective_format_for("profile", "Profile", &cfg, &None), "yaml");
}

#[test]
fn yaml_type_override_defers_to_short_type() {
    let mut cfg = SfCompactConfig::default();
    cfg.formats.insert("Flow".to_string(), "yaml".to_string());
    cfg.formats.insert("flow".to_string(), "json".to_string());
    assert_eq!(effective_format_for("flow", "Flow", &cfg, &None), "json");
}

#[test]
fn short_type_override_beats_default() {
    let mut cfg = SfCompactConfig::default();
    cfg.default_format = "json".to_string();
    cfg.formats.insert("flow".to_string(), "json".to_string());
    cfg.formats.insert("profile".to_string(), "yaml".to_string());
    assert_eq!(effective_format_for("profile", "Profile", &cfg, &None), "yaml");
    assert_eq!(effective_format_for("flow", "Flow", &cfg, &None), "json");
    assert_eq!(effective_format_for("layout", "Layout", &cfg, &None), "json");
    cfg.formats.insert("Profile".to_string(), "yaml-ordered".to_string());
    assert_eq!(effective_format_for("profile", "Profile", &cfg, &None), "yaml-ordered");
}

#[test]
fn manifest_lists_every_documented_extension() {
    let m = build_manifest();
    let mut cats: Vec<&str> = Vec::new();
    for e in &m.supported_metadata {
        if !cats.contains(&e.category.as_str()) {
            cats.push(e.category.as_str());
        }
    }
    assert_eq!(cats.len(), 10);
    for t in ["Role", "Group", "NamedCredential", "Settings", "CustomObjectTranslation", "AuraDefinitionBundle"] {
        assert!(m.supported_metadata.iter().any(|e| e.meta_type == t), "{t}");
    }
}

#[test]
fn include_filter() {
    assert!(glob_match("*.profile-meta.xml", "a/b/Admin.profile-meta.xml", Some("Admin.profile-meta.xml")));
    assert!(glob_match("profiles/**", "profiles/x/Admin.profile-meta.xml", Some("Admin.profile-meta.xml")));
    assert!(!glob_match("*.flow-meta.xml", "a/Admin.profile-meta.xml", Some("Admin.profile-meta.xml")));
    // A pattern that does not compile is looked for as text.
    assert!(glob_match("[", "a/[b", Some("[b")));
    assert!(!glob_match("[", "a/b", Some("b")));
}

#[test]
fn token_counting() {
    let (a, b) = token_counts("<custom>false</custom>", "custom: false").unwrap();
    assert!(a > b);
    assert!(b > 0);
    assert_eq!(token_counts("", "").unwrap(), (0, 0));
}

#[test]
fn stats_accumulate_by_type() {
    let mut s = ConvertStats::new();
    s.accumulate("a.profile-meta.xml".to_string(), "profile".to_string(), 100, 40, 30, 10);
    s.accumulate("b.flow-meta.xml".to_string(), "flow".to_string(), 50, 30, 20, 15);
    s.accumulate("c.profile-meta.xml".to_string(), "profile".to_string(), 10, 5, 4, 2);
    assert_eq!(s.files_processed, 3);
    assert_eq!(s.original_bytes, 160);
    assert_eq!(s.compact_bytes, 75);
    assert_eq!(s.tokens_saved(), 27);
    assert_eq!(s.by_type.len(), 2);
    assert_eq!(s.by_type[0].0, "profile");
    assert_eq!(s.by_type[0].1.count, 2);
    assert_eq!(s.by_type[0].1.original_tokens, 34);
    assert_eq!(s.per_file.len(), 3);
    s.add_unpacked(7, 9);
    assert_eq!(s.files_processed, 4);
    assert_eq!(s.original_bytes, 169);
    let mut t = ConvertStats::new();
    t.accumulate("x".to_string(), "x".to_string(), 1, 1, 1, 5);
    assert_eq!(t.tokens_saved(), 0);
}

#[test]
fn diff_classifies_files() {
    let mut d = DiffResult::new();
    d.record("a.xml".to_string(), None);
    d.record("b.xml".to_string(), Some(("x: 1\n", "  x: 1")));
    d.record("c.xml".to_string(), Some(("x: 1\n", "x: 2\n")));
    d.record_deleted("d.yaml".to_string());
    assert_eq!(d.new_files, vec!["a.xml".to_string()]);
    assert_eq!(d.modified_files, vec!["c.xml".to_string()]);
    assert_eq!(d.deleted_files, vec!["d.yaml".to_string()]);
    assert_eq!(d.unchanged_files, 1);
    assert_eq!(d.total_changes(), 3);
}

#[test]
fn file_names_map_back_in_every_format() {
    for name in ["Admin.profile-meta.xml", "Account.object-meta.xml", "My_Flow.flow-meta.xml"] {
        for format in ["yaml", "yaml-ordered", "json"] {
            assert_eq!(xml_file_name(&compact_file_name(name, format)), name);
        }
    }
}

#[test]
fn manifest_marks_order_sensitive_types() {
    let m = build_manifest();
    let flow = m.supported_metadata.iter().find(|e| e.meta_type == "Flow").expect("Flow entry");
    assert!(flow.order_sensitive);
    let profile = m.supported_metadata.iter().find(|e| e.meta_type == "Profile").expect("Profile entry");
    assert!(!profile.order_sensitive);
    for f in ["yaml", "yaml-ordered", "json"] {
        assert!(flow.supported_formats.iter().any(|s| s == f));
    }
}

#[test]
fn tokenizable_asks_for_a_space_and_a_letter_in_every_window() {
    assert!(tokenizable_text(""));
    assert!(tokenizable_text("<custom>false</custom>"));
    let long_word = "a".repeat(100000);
    assert!(!tokenizable_text(&long_word));
    assert!(tokenizable_text(&"a".repeat(99999)));
    let spaced = "ab ".repeat(40000);
    assert!(tokenizable_text(&spaced));
    let blanks = " ".repeat(100000);
    assert!(!tokenizable_text(&blanks));
}

#[test]
fn compact_style_extension_and_skip() {
    assert!(matches!(compact_style("json"), CompactStyle::Json));
    assert!(matches!(compact_style("yaml-ordered"), CompactStyle::YamlOrdered));
    assert!(matches!(compact_style("yaml"), CompactStyle::Yaml));
    assert_eq!(compact_extension("json"), "json");
    assert_eq!(compact_extension("yaml-ordered"), "yaml");
    assert_eq!(stale_extension("json"), "yaml");
    assert_eq!(stale_extension("yaml"), "json");
    let mut cfg = SfCompactConfig::default();
    cfg.skip.push("customMetadata".to_string());
    assert!(skips_type(&cfg, "CustomMetadata", "customMetadata"));
    assert!(!skips_type(&cfg, "Flow", "flow"));
}
