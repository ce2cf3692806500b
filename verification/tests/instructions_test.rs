use sf_compact::instructions::{
    generate_directive, generate_legacy_instructions, inject_block, remove_block, remove_outcome, replace_between_markers,
    target_file, RemoveOutcome, MARKER_END, MARKER_START,
};

#[test]
fn directive_contains_markers() {
    let d = generate_directive(".sf-compact", "force-app");
    assert!(d.starts_with(MARKER_START));
    assert!(d.ends_with(MARKER_END));
}

#[test]
fn directive_substitutes_paths() {
    let d = generate_directive("output-dir", "src-dir");
    assert!(d.contains("`output-dir/`"));
    assert!(d.contains("`src-dir/`"));
    assert!(!d.contains("{output_dir}"));
    assert!(!d.contains("{source_dir}"));
}

#[test]
fn inject_into_empty() {
    let block = "<!-- sf-compact:start -->\ntest\n<!-- sf-compact:end -->";
    let result = inject_block("", block);
    assert_eq!(result, format!("{block}\n"));
}

#[test]
fn inject_appends_to_existing() {
    let existing = "# My Project\n\nSome content.\n";
    let block = "<!-- sf-compact:start -->\ntest\n<!-- sf-compact:end -->";
    let result = inject_block(existing, block);
    assert!(result.starts_with("# My Project"));
    assert!(result.contains(block));
    // Two newlines between existing and block
    assert!(result.contains("Some content.\n\n<!-- sf-compact:start -->"));
}

#[test]
fn inject_replaces_existing_block() {
    let existing = "# Header\n\n<!-- sf-compact:start -->\nold content\n<!-- sf-compact:end -->\n\n# Footer\n";
    let block = "<!-- sf-compact:start -->\nnew content\n<!-- sf-compact:end -->";
    let result = inject_block(existing, block);
    assert!(result.contains("new content"));
    assert!(!result.contains("old content"));
    assert!(result.contains("# Header"));
    assert!(result.contains("# Footer"));
}

#[test]
fn remove_block_from_content() {
    let content = "# Header\n\n<!-- sf-compact:start -->\nstuff\n<!-- sf-compact:end -->\n\n# Footer\n";
    let result = remove_block(content).unwrap();
    assert!(!result.contains("sf-compact"));
    assert!(result.contains("# Header"));
    assert!(result.contains("# Footer"));
}

#[test]
fn remove_block_returns_none_if_no_markers() {
    assert!(remove_block("no markers here").is_none());
}

#[test]
fn inject_twice_is_inject_once() {
    let block = generate_directive(".sf-compact", "force-app");
    let once = inject_block("# Header\n", &block);
    let twice = inject_block(&once, &block);
    assert_eq!(once, twice);
    assert_eq!(once, format!("# Header\n\n{block}\n"));
}

#[test]
fn inject_then_remove_gives_back_the_content() {
    let block = generate_directive(".sf-compact", "force-app");
    let injected = inject_block("# My Project", &block);
    assert_eq!(remove_block(&injected).unwrap(), "# My Project\n");
    let injected = inject_block("", &block);
    assert_eq!(remove_block(&injected).unwrap(), "");
}

#[test]
fn end_marker_before_start_marker_is_no_block() {
    let content = "<!-- sf-compact:end -->\n<!-- sf-compact:start -->\n";
    assert!(replace_between_markers(content, "x").is_none());
    assert!(remove_block(content).is_none());
    let injected = inject_block(content, "B");
    assert_eq!(injected, format!("{content}\nB\n"));
}

#[test]
fn replace_keeps_what_surrounds_the_block() {
    let content = "a<!-- sf-compact:start -->x<!-- sf-compact:end -->b";
    assert_eq!(replace_between_markers(content, "R").unwrap(), "aR\nb");
    let content = "a\n<!-- sf-compact:start -->x<!-- sf-compact:end -->\nb";
    assert_eq!(remove_block(content).unwrap(), "ab");
}

#[test]
fn targets_resolve_to_files() {
    assert_eq!(target_file("cursor"), Some(".cursorrules"));
    assert_eq!(target_file("aider"), Some(".aiderules"));
    assert_eq!(target_file("emacs"), None);
}

#[test]
fn legacy_instructions_list_every_extension() {
    let text = generate_legacy_instructions();
    assert!(text.starts_with("# sf-compact: Salesforce Metadata Compaction for AI"));
    assert!(text.contains("- **Flow** (`flow-meta.xml`) — automation\n"));
    assert!(text.ends_with("- **LightningMessageChannel** (`messageChannel-meta.xml`) — content\n"));
}

#[test]
fn removing_the_only_block_deletes_the_file() {
    let block = sf_compact::instructions::generate_directive(".sf-compact", "force-app");
    let content = inject_block("", &block);
    assert!(matches!(sf_compact::instructions::remove_outcome(&content), sf_compact::instructions::RemoveOutcome::Delete));
}

#[test]
fn removing_keeps_the_rest_trimmed() {
    let block = sf_compact::instructions::generate_directive(".sf-compact", "force-app");
    let content = inject_block("# My Project\n", &block);
    match sf_compact::instructions::remove_outcome(&content) {
        sf_compact::instructions::RemoveOutcome::Write(text) => assert_eq!(text, "# My Project\n"),
        _ => panic!("expected the rest to be written"),
    }
    let padded = format!("\n\n  # Notes  \n\n{block}\n\n");
    match sf_compact::instructions::remove_outcome(&padded) {
        sf_compact::instructions::RemoveOutcome::Write(text) => assert_eq!(text, "# Notes\n"),
        _ => panic!("expected the rest to be written"),
    }
    assert!(matches!(
        sf_compact::instructions::remove_outcome("no markers here"),
        sf_compact::instructions::RemoveOutcome::NoBlock
    ));
}

#[test]
fn injecting_the_directive_twice_changes_nothing() {
    let block = generate_directive(".sf-compact", "force-app");
    let first = inject_block("# Header\n", &block);
    let second = inject_block(&first, &block);
    assert_eq!(first, second);
}

#[test]
fn removing_the_directive_gives_the_file_back() {
    let block = generate_directive(".sf-compact", "force-app");
    let injected = inject_block("# My Project\n", &block);
    assert!(injected.contains(MARKER_START));
    match remove_outcome(&injected) {
        RemoveOutcome::Write(t) => assert_eq!(t, "# My Project\n"),
        _ => panic!("expected the file to be written"),
    }
    let empty = inject_block("", &block);
    assert!(matches!(remove_outcome(&empty), RemoveOutcome::Delete));
}

#[test]
fn legacy_instructions_mention_the_changes_command() {
    let text = generate_legacy_instructions();
    assert_eq!(text, sf_compact::mcp::generate_instructions());
    assert!(text.contains("changes"));
    assert!(text.contains("--since-deploy"));
    assert!(text.contains("reset"));
}
