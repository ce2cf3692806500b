use sf_compact::hook::generate_script;
use sf_compact::hook_settings::{add_hook_entry, is_own_entry_value, remove_hook_entries, SettingsError};
use sf_compact::json_value::JsonValue;
use sf_compact::strings::decimal_string;

const SCRIPT: &str = "hooks-dir/sf-compact-read.sh";

fn s(x: &str) -> JsonValue {
    JsonValue::Str(x.to_string())
}

fn obj(es: Vec<(&str, JsonValue)>) -> JsonValue {
    JsonValue::Object(es.into_iter().map(|(k, v)| (k.to_string(), v)).collect(), String::new())
}

fn arr(items: Vec<JsonValue>) -> JsonValue {
    JsonValue::Array(items, String::new())
}

fn get<'a>(v: &'a JsonValue, k: &str) -> Option<&'a JsonValue> {
    match v {
        JsonValue::Object(es, _) => es.iter().find(|(key, _)| key == k).map(|(_, x)| x),
        _ => None,
    }
}

fn keys(v: &JsonValue) -> Vec<String> {
    match v {
        JsonValue::Object(es, _) => es.iter().map(|(k, _)| k.clone()).collect(),
        _ => vec![],
    }
}

fn items(v: &JsonValue) -> &Vec<JsonValue> {
    match v {
        JsonValue::Array(items, _) => items,
        _ => panic!("not an array"),
    }
}

fn text(v: &JsonValue) -> &str {
    match v {
        JsonValue::Str(t) => t,
        JsonValue::Number(n) => n,
        _ => panic!("not text"),
    }
}

fn pre_tool_use(settings: &JsonValue) -> &Vec<JsonValue> {
    items(get(get(settings, "hooks").unwrap(), "PreToolUse").unwrap())
}

fn command_entry(matcher: &str, command: &str) -> JsonValue {
    obj(vec![
        ("matcher", s(matcher)),
        ("hooks", arr(vec![obj(vec![("type", s("command")), ("command", s(command))])])),
    ])
}

#[test]
fn decimal_text_of_numbers() {
    assert_eq!(decimal_string(0), "0");
    assert_eq!(decimal_string(5), "5");
    assert_eq!(decimal_string(10), "10");
    assert_eq!(decimal_string(1234567890), "1234567890");
    assert_eq!(decimal_string(u64::MAX), u64::MAX.to_string());
}

#[test]
fn add_to_empty_settings_creates_entry() {
    let out = add_hook_entry(obj(vec![]), SCRIPT).unwrap();
    assert_eq!(keys(&out), vec!["hooks"]);
    let pre = pre_tool_use(&out);
    assert_eq!(pre.len(), 1);
    let e = &pre[0];
    assert_eq!(keys(e), vec!["matcher", "hooks"]);
    assert_eq!(text(get(e, "matcher").unwrap()), "Read");
    let h = &items(get(e, "hooks").unwrap())[0];
    assert_eq!(keys(h), vec!["type", "command", "timeout"]);
    assert_eq!(text(get(h, "type").unwrap()), "command");
    assert_eq!(text(get(h, "command").unwrap()), SCRIPT);
    assert!(matches!(get(h, "timeout").unwrap(), JsonValue::Number(n) if n == "5"));
    assert!(is_own_entry_value(e));
}

#[test]
fn add_twice_keeps_one_entry() {
    let once = add_hook_entry(obj(vec![]), SCRIPT).unwrap();
    let twice = add_hook_entry(once, SCRIPT).unwrap();
    assert_eq!(pre_tool_use(&twice).len(), 1);
}

#[test]
fn add_keeps_other_settings_and_entries() {
    let settings = obj(vec![
        ("model", s("x")),
        (
            "hooks",
            obj(vec![
                ("PostToolUse", arr(vec![])),
                (
                    "PreToolUse",
                    arr(vec![
                        command_entry("Bash", "lint.sh"),
                        command_entry("Read", "old/sf-compact-read.sh"),
                        command_entry("Edit", "fmt.sh"),
                    ]),
                ),
            ]),
        ),
        ("theme", s("dark")),
    ]);
    let out = add_hook_entry(settings, SCRIPT).unwrap();
    assert_eq!(keys(&out), vec!["model", "hooks", "theme"]);
    assert_eq!(keys(get(&out, "hooks").unwrap()), vec!["PostToolUse", "PreToolUse"]);
    let pre = pre_tool_use(&out);
    assert_eq!(pre.len(), 3);
    assert_eq!(text(get(&pre[0], "matcher").unwrap()), "Bash");
    assert_eq!(text(get(&pre[1], "matcher").unwrap()), "Edit");
    assert!(is_own_entry_value(&pre[2]));
    assert!(!is_own_entry_value(&pre[0]));
}

#[test]
fn add_refuses_malformed_settings() {
    assert_eq!(add_hook_entry(arr(vec![]), SCRIPT).err(), Some(SettingsError::NotObject));
    assert_eq!(add_hook_entry(obj(vec![("hooks", arr(vec![]))]), SCRIPT).err(), Some(SettingsError::HooksNotObject));
    assert_eq!(
        add_hook_entry(obj(vec![("hooks", obj(vec![("PreToolUse", obj(vec![]))]))]), SCRIPT).err(),
        Some(SettingsError::PreToolUseNotArray)
    );
    assert_eq!(SettingsError::NotObject.message(), "Expected settings to be a JSON object");
    assert_eq!(SettingsError::HooksNotObject.message(), "Expected hooks to be a JSON object");
    assert_eq!(SettingsError::PreToolUseNotArray.message(), "Expected PreToolUse to be an array");
}

#[test]
fn remove_takes_out_only_own_entries() {
    let settings = obj(vec![(
        "hooks",
        obj(vec![(
            "PreToolUse",
            arr(vec![
                command_entry("Read", "a/sf-compact-read.sh"),
                command_entry("Bash", "lint.sh"),
                command_entry("Read", "b/sf-compact-read.sh"),
            ]),
        )]),
    )]);
    let out = remove_hook_entries(settings);
    let pre = pre_tool_use(&out);
    assert_eq!(pre.len(), 1);
    assert_eq!(text(get(&pre[0], "matcher").unwrap()), "Bash");
}

#[test]
fn remove_after_add_gives_back_other_entries() {
    let settings = obj(vec![("hooks", obj(vec![("PreToolUse", arr(vec![command_entry("Bash", "lint.sh")]))]))]);
    let added = add_hook_entry(settings, SCRIPT).unwrap();
    assert_eq!(pre_tool_use(&added).len(), 2);
    let removed = remove_hook_entries(added);
    let pre = pre_tool_use(&removed);
    assert_eq!(pre.len(), 1);
    assert_eq!(text(get(&pre[0], "matcher").unwrap()), "Bash");
}

#[test]
fn remove_leaves_settings_without_the_array_alone() {
    let out = remove_hook_entries(obj(vec![("model", s("x"))]));
    assert_eq!(keys(&out), vec!["model"]);
    let out = remove_hook_entries(obj(vec![("hooks", arr(vec![]))]));
    assert!(matches!(get(&out, "hooks").unwrap(), JsonValue::Array(v, _) if v.is_empty()));
    let out = remove_hook_entries(s("plain"));
    assert_eq!(text(&out), "plain");
}

#[test]
fn pointer_step_zero_reads_object_key() {
    // `/hooks/0` selects the key "0" when `hooks` is an object.
    let e = obj(vec![("hooks", obj(vec![("0", obj(vec![("command", s("x/sf-compact-read.sh"))]))]))]);
    assert!(is_own_entry_value(&e));
    let e = obj(vec![("hooks", arr(vec![]))]);
    assert!(!is_own_entry_value(&e));
    let e = obj(vec![("hooks", arr(vec![obj(vec![("command", JsonValue::Bool(true))])]))]);
    assert!(!is_own_entry_value(&e));
}

#[test]
fn hook_script_mentions_both_directories() {
    let script = generate_script("force-app", ".sf-compact");
    assert!(script.starts_with("#!/bin/sh\n"));
    assert!(script.contains("*/force-app/*-meta.xml | force-app/*-meta.xml) ;;"));
    assert!(script.contains("PREFIX=\".sf-compact\""));
    assert!(script.contains("PREFIX=\"${FILE_PATH%%force-app/*}.sf-compact\""));
}
