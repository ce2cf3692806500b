use sf_compact::json_writer::{json_value_to_node, node_to_json_value};
use sf_compact::xml_node::{escape_attr, escape_text, to_xml};
use sf_compact::xml_parser::{parse_xml, ParseError};
use sf_compact::error::ConvertError;
use sf_compact::json_value::JsonValue;
use sf_compact::yaml_value::YamlValue;
use sf_compact::yaml_reader::yaml_to_xml_node;
use sf_compact::yaml_writer::{node_to_yaml_ordered_value, node_to_yaml_value};

/// XML through a compact form (`yaml`, `yaml-ordered` or `json`) and back to XML.
fn through(xml: &str, format: &str) -> String {
    let node = parse_xml(xml).expect("valid XML");
    let back = match format {
        "json" => json_value_to_node(&node_to_json_value(&node)).expect("JSON back"),
        "yaml-ordered" => yaml_to_xml_node(&node_to_yaml_ordered_value(&node)).expect("ordered YAML back"),
        _ => yaml_to_xml_node(&node_to_yaml_value(&node)).expect("YAML back"),
    };
    to_xml(&back)
}

fn roundtrip_entity_test(xml: &str, format: &str, expected_fragments: &[&str]) {
    let restored = through(xml, format);
    for fragment in expected_fragments {
        assert!(restored.contains(fragment), "Expected fragment '{fragment}' not found in restored XML:\n{restored}");
    }
}

const FORMULA: &str = r#"<?xml version="1.0" encoding="UTF-8"?>
<CustomField xmlns="http://soap.sforce.com/2006/04/metadata">
    <formula>INCLUDES(Business_Unit__c, &quot;D&amp;I&quot;)</formula>
</CustomField>"#;

const MULTIPLE: &str = r#"<?xml version="1.0" encoding="UTF-8"?>
<CustomField xmlns="http://soap.sforce.com/2006/04/metadata">
    <formula>IF(Name = &quot;A &amp; B&quot;, &quot;C &lt; D&quot;, &quot;E &gt; F&quot;)</formula>
</CustomField>"#;

#[test]
fn entity_quot_in_formula_yaml() {
    roundtrip_entity_test(FORMULA, "yaml", &["&quot;D&amp;I&quot;"]);
}

#[test]
fn entity_quot_in_formula_json() {
    roundtrip_entity_test(FORMULA, "json", &["&quot;D&amp;I&quot;"]);
}

#[test]
fn entity_quot_in_formula_ordered() {
    roundtrip_entity_test(FORMULA, "yaml-ordered", &["&quot;D&amp;I&quot;"]);
}

#[test]
fn entity_amp_in_description() {
    roundtrip_entity_test(
        r#"<?xml version="1.0" encoding="UTF-8"?>
<CustomField xmlns="http://soap.sforce.com/2006/04/metadata">
    <description>Sales &amp; Marketing department</description>
</CustomField>"#,
        "yaml",
        &["Sales &amp; Marketing"],
    );
}

#[test]
fn entity_amp_in_label() {
    roundtrip_entity_test(
        r#"<?xml version="1.0" encoding="UTF-8"?>
<CustomField xmlns="http://soap.sforce.com/2006/04/metadata">
    <label>R&amp;D Team</label>
</CustomField>"#,
        "yaml",
        &["R&amp;D Team"],
    );
}

#[test]
fn entity_lt_gt_in_formula() {
    roundtrip_entity_test(
        r#"<?xml version="1.0" encoding="UTF-8"?>
<CustomField xmlns="http://soap.sforce.com/2006/04/metadata">
    <formula>IF(Amount &gt; 1000 &amp;&amp; Amount &lt; 5000, true, false)</formula>
</CustomField>"#,
        "yaml",
        &["&gt; 1000", "&lt; 5000"],
    );
}

#[test]
fn entity_lt_gt_in_validation_message() {
    roundtrip_entity_test(
        r#"<?xml version="1.0" encoding="UTF-8"?>
<ValidationRule xmlns="http://soap.sforce.com/2006/04/metadata">
    <errorMessage>Value must be &gt; 0 and &lt; 100</errorMessage>
</ValidationRule>"#,
        "yaml",
        &["&gt; 0", "&lt; 100"],
    );
}

#[test]
fn entity_multiple_in_one_value() {
    roundtrip_entity_test(MULTIPLE, "yaml", &["&quot;A &amp; B&quot;", "&quot;C &lt; D&quot;", "&quot;E &gt; F&quot;"]);
}

#[test]
fn entity_multiple_json_roundtrip() {
    roundtrip_entity_test(MULTIPLE, "json", &["&quot;A &amp; B&quot;", "&quot;C &lt; D&quot;", "&quot;E &gt; F&quot;"]);
}

#[test]
fn self_closing_elements_roundtrip() {
    roundtrip_entity_test(
        r#"<?xml version="1.0" encoding="UTF-8"?>
<SharingRules xmlns="http://soap.sforce.com/2006/04/metadata"/>"#,
        "yaml",
        &["<SharingRules"],
    );
}

#[test]
fn self_closing_in_children() {
    roundtrip_entity_test(
        r#"<?xml version="1.0" encoding="UTF-8"?>
<CustomObject xmlns="http://soap.sforce.com/2006/04/metadata">
    <label>Test</label>
    <enableActivities/>
    <enableHistory/>
</CustomObject>"#,
        "yaml",
        &["<label>Test</label>"],
    );
}

#[test]
fn numeric_leading_zeros_all_formats() {
    let xml = r#"<?xml version="1.0" encoding="UTF-8"?>
<ApexClass xmlns="http://soap.sforce.com/2006/04/metadata">
    <apiVersion>59.0</apiVersion>
    <status>0012</status>
</ApexClass>"#;
    for format in ["yaml", "yaml-ordered", "json"] {
        let content = through(xml, format);
        assert!(content.contains(">59.0<"), "{format}: apiVersion 59.0 corrupted: {content}");
        assert!(content.contains(">0012<"), "{format}: leading zeros 0012 corrupted: {content}");
    }
}

#[test]
fn validation_rule_complex_entities() {
    let xml = r#"<?xml version="1.0" encoding="UTF-8"?>
<ValidationRule xmlns="http://soap.sforce.com/2006/04/metadata">
    <fullName>Amount_Validation</fullName>
    <active>true</active>
    <errorConditionFormula>Amount &lt; 0 || Amount &gt; 999999</errorConditionFormula>
    <errorMessage>Amount must be between 0 &amp; 999,999. Use &quot;0&quot; for no amount.</errorMessage>
</ValidationRule>"#;
    for format in ["yaml", "yaml-ordered", "json"] {
        let restored = through(xml, format);
        assert!(restored.contains("&lt; 0"), "{format}: &lt; lost: {restored}");
        assert!(restored.contains("&gt; 999999"), "{format}: &gt; lost: {restored}");
        assert!(restored.contains("0 &amp; 999"), "{format}: &amp; lost: {restored}");
        assert!(restored.contains("&quot;0&quot;"), "{format}: &quot; lost: {restored}");
        assert!(restored.contains("<active>true</active>"), "{format}: boolean lost: {restored}");
    }
}

#[test]
fn text_and_attribute_escapes() {
    assert_eq!(escape_text("a \"b\" & <c>"), "a &quot;b&quot; &amp; &lt;c&gt;");
    assert_eq!(escape_attr("x=\"1\" & y<2>"), "x=&quot;1&quot; &amp; y&lt;2&gt;");
    assert_eq!(escape_text("plain 'text'"), "plain 'text'");
}

#[test]
fn damaged_xml_is_refused() {
    assert!(matches!(parse_xml("(hidden)"), Err(ParseError::EmptyDocument)));
    assert!(parse_xml("<?xml version=\"1.0\" encoding=\"UTF-8\"?>\n<ApexClass xmlns=\"http://soap").is_err());
    assert!(parse_xml(
        "<?xml version=\"1.0\" encoding=\"UTF-8\"?>\n<ApexClass xmlns=\"http://soap.sforce.com/2006/04/metadata\">\n    <apiVersion>59.0</apiVersion>\n"
    )
    .is_err());
    assert!(matches!(parse_xml(""), Err(ParseError::EmptyDocument)));
    assert!(parse_xml("\u{0}\u{1}\u{2}").is_err());
}

#[test]
fn compact_values_without_tag_are_refused() {
    let yaml = YamlValue::Mapping(
        vec![
            (YamlValue::Str("apiVersion".to_string()), YamlValue::Str("59.0".to_string())),
            (YamlValue::Str("status".to_string()), YamlValue::Str("Active".to_string())),
        ],
        String::new(),
    );
    assert!(matches!(yaml_to_xml_node(&yaml), Err(ConvertError::MissingYamlTag)));
    assert!(yaml_to_xml_node(&YamlValue::Null).is_err());
    let json = JsonValue::Object(
        vec![
            ("apiVersion".to_string(), JsonValue::Str("59.0".to_string())),
            ("status".to_string(), JsonValue::Str("Active".to_string())),
        ],
        String::new(),
    );
    assert!(matches!(json_value_to_node(&json), Err(ConvertError::MissingJsonTag)));
    assert!(matches!(json_value_to_node(&JsonValue::Object(vec![], "{}".to_string())), Err(ConvertError::MissingJsonTag)));
}

#[test]
fn grouped_form_groups_children_by_tag() {
    // Top level: groups in order of first appearance, each tag's children in order.
    let xml = "<r><b>1</b><c>2</c><b>3</b></r>";
    assert_eq!(
        through(xml, "yaml"),
        "<?xml version=\"1.0\" encoding=\"UTF-8\"?>\n<r>\n    <b>1</b>\n    <b>3</b>\n    <c>2</c>\n</r>\n"
    );
    // Inside a child written in full, the last group comes first.
    let nested = "<r><x><p>1</p><q>2</q><p>3</p></x></r>";
    assert_eq!(
        through(nested, "yaml"),
        "<?xml version=\"1.0\" encoding=\"UTF-8\"?>\n<r>\n    <x>\n        <q>2</q>\n        <p>1</p>\n        <p>3</p>\n    </x>\n</r>\n"
    );
    // The ordered form and JSON keep the document order.
    for format in ["yaml-ordered", "json"] {
        assert_eq!(
            through(nested, format),
            "<?xml version=\"1.0\" encoding=\"UTF-8\"?>\n<r>\n    <x>\n        <p>1</p>\n        <q>2</q>\n        <p>3</p>\n    </x>\n</r>\n"
        );
    }
}
