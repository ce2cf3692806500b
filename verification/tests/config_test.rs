use sf_compact::cli::{add_skip, apply_config_pairs, parse_u8, plan_instructions, validate_format, CliError, InstructionsPlan};
use sf_compact::config::{ConfigError, SfCompactConfig};
use sf_compact::metadata_types::metadata_info_for_config;

#[test]
fn default_config() {
    let config = SfCompactConfig::default();
    assert_eq!(config.default_format, "yaml");
    assert!(config.formats.is_empty());
    assert!(config.skip.is_empty());
}

#[test]
fn format_for_type_uses_override() {
    let mut config = SfCompactConfig::default();
    config
        .formats
        .insert("flow".to_string(), "yaml-ordered".to_string());
    assert_eq!(config.format_for_type("flow"), "yaml-ordered");
    assert_eq!(config.format_for_type("profile"), "yaml");
}

#[test]
fn should_skip() {
    let mut config = SfCompactConfig::default();
    config.skip.push("customMetadata".to_string());
    assert!(config.should_skip("customMetadata"));
    assert!(!config.should_skip("profile"));
}

#[test]
fn smart_defaults_assigns_formats_by_order_sensitivity() {
    let entries = vec![
        (
            "Flow".to_string(),
            true,
            vec![
                "yaml".to_string(),
                "yaml-ordered".to_string(),
                "json".to_string(),
            ],
        ),
        (
            "Profile".to_string(),
            false,
            vec![
                "yaml".to_string(),
                "yaml-ordered".to_string(),
                "json".to_string(),
            ],
        ),
    ];
    let config = SfCompactConfig::with_smart_defaults(&entries);
    // Order-sensitive Flow gets yaml-ordered; Profile falls through to default (yaml)
    assert_eq!(config.format_for_type("Flow"), "yaml-ordered");
    assert_eq!(config.format_for_type("Profile"), "yaml");
}

#[test]
fn smart_defaults_from_the_type_table() {
    let entries = metadata_info_for_config();
    let config = SfCompactConfig::with_smart_defaults(&entries);
    assert_eq!(config.format_for_type("Flow"), "yaml-ordered");
    assert_eq!(config.format_for_type("Layout"), "yaml-ordered");
    assert_eq!(config.format_for_type("FlexiPage"), "yaml-ordered");
    assert_eq!(config.format_for_type("Profile"), "yaml");
    assert_eq!(config.formats.len(), 3);
    assert!(config.validate().is_ok());
}

#[test]
fn format_map_keeps_keys_in_order() {
    let mut config = SfCompactConfig::default();
    config.formats.insert("profile".to_string(), "json".to_string());
    config.formats.insert("flow".to_string(), "json".to_string());
    config.formats.insert("layout".to_string(), "yaml".to_string());
    let old = config.formats.insert("flow".to_string(), "yaml-ordered".to_string());
    assert_eq!(old, Some("json".to_string()));
    let keys: Vec<&str> = config.formats.entries().iter().map(|(k, _)| k.as_str()).collect();
    assert_eq!(keys, vec!["flow", "layout", "profile"]);
    assert_eq!(config.format_for_type("flow"), "yaml-ordered");
}

#[test]
fn validate_reports_invalid_default() {
    let mut config = SfCompactConfig::default();
    config.default_format = "xml".to_string();
    match config.validate() {
        Err(ConfigError::InvalidDefaultFormat(f)) => assert_eq!(f, "xml"),
        other => panic!("unexpected {:?}", other),
    }
    let e = config.validate().unwrap_err();
    assert_eq!(
        e.message(),
        "Invalid default_format 'xml' in config. Valid formats: yaml, yaml-ordered, json"
    );
}

#[test]
fn validate_reports_first_invalid_override_in_key_order() {
    let mut config = SfCompactConfig::default();
    config.formats.insert("zeta".to_string(), "bad1".to_string());
    config.formats.insert("alpha".to_string(), "bad2".to_string());
    match config.validate() {
        Err(ConfigError::InvalidFormat(f, t)) => {
            assert_eq!(f, "bad2");
            assert_eq!(t, "alpha");
        }
        other => panic!("unexpected {:?}", other),
    }
}

#[test]
fn config_set_applies_pairs() {
    let mut config = SfCompactConfig::default();
    let pairs: Vec<String> = ["flow", "json", "default", "json", "indent", "2", "preserve_comments", "true"]
        .iter()
        .map(|s| s.to_string())
        .collect();
    assert!(apply_config_pairs(&mut config, &pairs).is_ok());
    assert_eq!(config.format_for_type("flow"), "json");
    assert_eq!(config.default_format, "json");
    assert_eq!(config.indent, 2);
    assert!(config.preserve_comments);
}

#[test]
fn config_set_rejects_bad_input() {
    let mut config = SfCompactConfig::default();
    let odd: Vec<String> = vec!["flow".to_string()];
    assert!(matches!(apply_config_pairs(&mut config, &odd), Err(CliError::OddPairs(1))));
    let bad: Vec<String> = vec!["flow".to_string(), "xml".to_string()];
    match apply_config_pairs(&mut config, &bad) {
        Err(e) => assert_eq!(e.message(), "Invalid format 'xml' for 'flow'. Valid formats: yaml, yaml-ordered, json"),
        Ok(()) => panic!("accepted a bad format"),
    }
    let indent: Vec<String> = vec!["indent".to_string(), "300".to_string()];
    assert!(matches!(apply_config_pairs(&mut config, &indent), Err(CliError::InvalidIndent(_))));
    let empty: Vec<String> = vec!["".to_string(), "json".to_string()];
    assert!(matches!(apply_config_pairs(&mut config, &empty), Err(CliError::EmptyTypeName)));
}

#[test]
fn parse_u8_follows_std() {
    for s in ["0", "7", "255", "+12", "007", "256", "", "+", "-1", "1a", " 1"] {
        assert_eq!(parse_u8(s), s.parse::<u8>().ok(), "input {s:?}");
    }
}

#[test]
fn config_skip_adds_once() {
    let mut config = SfCompactConfig::default();
    assert!(add_skip(&mut config, "customMetadata").is_ok());
    assert!(add_skip(&mut config, "customMetadata").is_ok());
    assert_eq!(config.skip, vec!["customMetadata".to_string()]);
    assert!(matches!(add_skip(&mut config, ""), Err(CliError::EmptyTypeName)));
}

#[test]
fn format_argument_is_checked() {
    assert!(validate_format(&None).is_ok());
    assert!(validate_format(&Some("yaml-ordered".to_string())).is_ok());
    let e = validate_format(&Some("toml".to_string())).unwrap_err();
    assert_eq!(e.message(), "Invalid format 'toml'. Valid formats: yaml, yaml-ordered, json");
}

#[test]
fn instructions_arguments_are_checked() {
    assert!(matches!(plan_instructions("auto", Some("x.md"), true), Err(CliError::NameWithRemove)));
    assert!(matches!(plan_instructions("cursor", Some("x.md"), false), Err(CliError::NameWithTarget)));
    assert!(matches!(plan_instructions("cursor", None, true), Err(CliError::RemoveWithTarget)));
    assert!(matches!(plan_instructions("auto", None, false), Ok(InstructionsPlan::Auto)));
    assert!(matches!(plan_instructions("stdout", None, false), Ok(InstructionsPlan::Stdout)));
    assert!(matches!(plan_instructions("auto", None, true), Ok(InstructionsPlan::Remove)));
    assert!(matches!(plan_instructions("copilot", None, false), Ok(InstructionsPlan::File(".github/copilot-instructions.md"))));
    match plan_instructions("vim", None, false) {
        Err(e) => assert_eq!(
            e.message(),
            "Unknown target 'vim'. Valid targets: auto, stdout, cursor, copilot, codex, windsurf, cline, aider"
        ),
        Ok(_) => panic!("accepted an unknown target"),
    }
    match plan_instructions("auto", Some("AI.md"), false) {
        Ok(InstructionsPlan::Standalone(f)) => assert_eq!(f, "AI.md"),
        _ => panic!("expected a standalone plan"),
    }
}

#[test]
fn config_set_applies_pairs_before_the_refused_one() {
    let mut config = SfCompactConfig::default();
    let pairs: Vec<String> = ["flow", "json", "default", "yaml-ordered", "profile", "xml", "layout", "json"]
        .iter()
        .map(|s| s.to_string())
        .collect();
    match apply_config_pairs(&mut config, &pairs) {
        Err(CliError::InvalidFormatFor(v, k)) => assert_eq!((v.as_str(), k.as_str()), ("xml", "profile")),
        _ => panic!("the third pair should be refused"),
    }
    assert_eq!(config.format_for_type("flow"), "json");
    assert_eq!(config.default_format, "yaml-ordered");
    assert_eq!(config.format_for_type("layout"), "yaml-ordered");
    // A later pair for the same key wins.
    let mut config = SfCompactConfig::default();
    let pairs: Vec<String> =
        ["flow", "json", "flow", "yaml", "indent", "2", "preserve_comments", "true"].iter().map(|s| s.to_string()).collect();
    assert!(apply_config_pairs(&mut config, &pairs).is_ok());
    assert_eq!(config.format_for_type("flow"), "yaml");
    assert_eq!(config.indent, 2);
    assert!(config.preserve_comments);
}
