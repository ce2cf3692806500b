use sf_compact::error::ConvertError;
use sf_compact::json_value::JsonValue;
use sf_compact::json_writer::{json_value_to_node, node_to_json_value};
use sf_compact::xml_node::{to_xml, to_xml_with_indent, XmlNode, XmlValue};
use sf_compact::xml_parser::{parse_xml, ParseError};
use sf_compact::yaml_reader::{yaml_to_xml_node, yaml_value_to_string};
use sf_compact::yaml_value::YamlValue;
use sf_compact::yaml_writer::{node_to_yaml_ordered_value, node_to_yaml_value};

const PROFILE: &str = r#"<?xml version="1.0" encoding="UTF-8"?>
<Profile xmlns="http://soap.sforce.com/2006/04/metadata">
    <custom>false</custom>
    <fieldPermissions>
        <editable>true</editable>
        <field>Account.Name</field>
        <readable>true</readable>
    </fieldPermissions>
    <fieldPermissions>
        <editable>false</editable>
        <field>Account.Phone</field>
        <readable>true</readable>
    </fieldPermissions>
    <userLicense>Salesforce</userLicense>
</Profile>
"#;

const FLOW: &str = r#"<?xml version="1.0" encoding="UTF-8"?>
<Flow xmlns="http://soap.sforce.com/2006/04/metadata">
    <apiVersion>60.0</apiVersion>
    <decisions>
        <name>Check</name>
        <rules>
            <name>Yes</name>
            <conditions>
                <leftValueReference>x</leftValueReference>
            </conditions>
        </rules>
    </decisions>
    <label>My &amp; Flow</label>
    <decisions>
        <name>Second</name>
    </decisions>
</Flow>
"#;

fn mapping_keys(v: &YamlValue) -> Vec<String> {
    match v {
        YamlValue::Mapping(es, _) => es
            .iter()
            .map(|(k, _)| match k {
                YamlValue::Str(s) => s.clone(),
                _ => String::new(),
            })
            .collect(),
        _ => Vec::new(),
    }
}

fn get<'a>(v: &'a YamlValue, key: &str) -> Option<&'a YamlValue> {
    match v {
        YamlValue::Mapping(es, _) => es.iter().find(|(k, _)| matches!(k, YamlValue::Str(s) if s == key)).map(|(_, v)| v),
        _ => None,
    }
}

#[test]
fn parse_reads_elements_text_and_namespace() {
    let n = parse_xml(PROFILE).unwrap();
    assert_eq!(n.tag, "Profile");
    assert_eq!(n.namespace.as_deref(), Some("http://soap.sforce.com/2006/04/metadata"));
    assert!(n.attrs.is_empty());
    assert_eq!(n.children.len(), 4);
    match &n.children[0] {
        XmlValue::Node(c) => {
            assert_eq!(c.tag, "custom");
            assert!(matches!(&c.children[0], XmlValue::Text(t) if t == "false"));
        }
        _ => panic!("expected an element"),
    }
}

#[test]
fn parse_unescapes_text_and_writes_it_escaped() {
    let n = parse_xml(FLOW).unwrap();
    let xml = to_xml(&n);
    assert!(xml.contains("<label>My &amp; Flow</label>"));
    assert!(xml.starts_with("<?xml version=\"1.0\" encoding=\"UTF-8\"?>\n<Flow xmlns=\"http://soap.sforce.com/2006/04/metadata\">\n"));
}

#[test]
fn xml_is_written_back_as_read() {
    let n = parse_xml(PROFILE).unwrap();
    assert_eq!(to_xml(&n), PROFILE);
    let again = parse_xml(&to_xml(&n)).unwrap();
    assert_eq!(to_xml(&again), PROFILE);
}

#[test]
fn indentation_is_configurable() {
    let n = parse_xml("<a><b>x</b><c/></a>").unwrap();
    assert_eq!(
        to_xml_with_indent(&n, 2),
        "<?xml version=\"1.0\" encoding=\"UTF-8\"?>\n<a>\n  <b>x</b>\n  <c/>\n</a>\n"
    );
}

#[test]
fn parse_errors() {
    assert!(matches!(parse_xml(""), Err(ParseError::EmptyDocument)));
    assert!(matches!(parse_xml("<?xml version=\"1.0\"?>"), Err(ParseError::EmptyDocument)));
    assert!(matches!(parse_xml("<a></a></b>"), Err(ParseError::UnexpectedClosingTag) | Err(ParseError::Syntax(_))));
    assert!(matches!(parse_xml("<a><b></a>"), Err(ParseError::Syntax(_))));
}

#[test]
fn parse_keeps_cdata_and_attributes() {
    let n = parse_xml("<a k=\"1\" j=\"&lt;2\"><![CDATA[<x>]]></a>").unwrap();
    assert_eq!(n.attrs, vec![("k".to_string(), "1".to_string()), ("j".to_string(), "<2".to_string())]);
    assert!(matches!(&n.children[0], XmlValue::Text(t) if t == "<x>"));
    assert_eq!(to_xml(&n), "<?xml version=\"1.0\" encoding=\"UTF-8\"?>\n<a k=\"1\" j=\"&lt;2\">&lt;x&gt;</a>\n");
}

#[test]
fn json_roundtrip_keeps_the_tree() {
    for src in [PROFILE, FLOW] {
        let n = parse_xml(src).unwrap();
        let j = node_to_json_value(&n);
        let back = json_value_to_node(&j).unwrap();
        assert_eq!(to_xml(&back), to_xml(&n));
    }
}

#[test]
fn json_errors() {
    assert!(matches!(json_value_to_node(&JsonValue::Null), Err(ConvertError::ExpectedJsonObject)));
    let no_tag = JsonValue::Object(vec![("x".to_string(), JsonValue::Str("y".to_string()))], String::new());
    assert!(matches!(json_value_to_node(&no_tag), Err(ConvertError::MissingJsonTag)));
}

#[test]
fn yaml_grouped_form_groups_same_tag_children() {
    let n = parse_xml(PROFILE).unwrap();
    let y = node_to_yaml_value(&n);
    assert_eq!(mapping_keys(&y), vec!["_tag", "_ns", "custom", "fieldPermissions", "userLicense"]);
    assert!(matches!(get(&y, "custom"), Some(YamlValue::Bool(false))));
    match get(&y, "fieldPermissions") {
        Some(YamlValue::Sequence(items, _)) => {
            assert_eq!(items.len(), 2);
            assert_eq!(mapping_keys(&items[0]), vec!["editable", "field", "readable"]);
        }
        _ => panic!("expected a sequence"),
    }
    assert!(matches!(get(&y, "userLicense"), Some(YamlValue::Str(s)) if s == "Salesforce"));
}

#[test]
fn yaml_grouped_roundtrip_keeps_profiles() {
    let n = parse_xml(PROFILE).unwrap();
    let back = yaml_to_xml_node(&node_to_yaml_value(&n)).unwrap();
    assert_eq!(to_xml(&back), PROFILE);
}

#[test]
fn yaml_ordered_roundtrip_keeps_order() {
    let n = parse_xml(FLOW).unwrap();
    let y = node_to_yaml_ordered_value(&n);
    assert_eq!(mapping_keys(&y), vec!["_tag", "_ns", "_children"]);
    let back = yaml_to_xml_node(&y).unwrap();
    assert_eq!(to_xml(&back), to_xml(&n));
}

#[test]
fn yaml_grouped_form_moves_later_same_tag_children_up() {
    let n = parse_xml(FLOW).unwrap();
    let back = yaml_to_xml_node(&node_to_yaml_value(&n)).unwrap();
    let tags: Vec<String> = back
        .children
        .iter()
        .map(|c| match c {
            XmlValue::Node(c) => c.tag.clone(),
            XmlValue::Text(_) => String::new(),
        })
        .collect();
    assert_eq!(tags, vec!["apiVersion", "decisions", "decisions", "label"]);
}

#[test]
fn yaml_errors() {
    assert!(matches!(yaml_to_xml_node(&YamlValue::Null), Err(ConvertError::ExpectedYamlMapping)));
    let no_tag = YamlValue::Mapping(vec![(YamlValue::Str("a".to_string()), YamlValue::Null)], String::new());
    assert!(matches!(yaml_to_xml_node(&no_tag), Err(ConvertError::MissingYamlTag)));
    let bad_child = YamlValue::Mapping(
        vec![
            (YamlValue::Str("_tag".to_string()), YamlValue::Str("a".to_string())),
            (YamlValue::Str("_children".to_string()), YamlValue::Sequence(vec![YamlValue::Null], String::new())),
        ],
        String::new(),
    );
    assert!(matches!(yaml_to_xml_node(&bad_child), Err(ConvertError::ExpectedMappingInChildren)));
    let two_keys = YamlValue::Mapping(
        vec![
            (YamlValue::Str("_tag".to_string()), YamlValue::Str("a".to_string())),
            (
                YamlValue::Str("_children".to_string()),
                YamlValue::Sequence(
                    vec![YamlValue::Mapping(
                        vec![
                            (YamlValue::Str("x".to_string()), YamlValue::Null),
                            (YamlValue::Str("y".to_string()), YamlValue::Null),
                        ],
                        String::new(),
                    )],
                    String::new(),
                ),
            ),
        ],
        String::new(),
    );
    assert!(matches!(yaml_to_xml_node(&two_keys), Err(ConvertError::NotSingleKey(2))));
}

#[test]
fn yaml_scalars_as_text() {
    assert_eq!(yaml_value_to_string(&YamlValue::Bool(true)), "true");
    assert_eq!(yaml_value_to_string(&YamlValue::Number("60.0".to_string())), "60.0");
    assert_eq!(yaml_value_to_string(&YamlValue::Null), "");
    assert_eq!(yaml_value_to_string(&YamlValue::Sequence(vec![], "[]".to_string())), "[]");
}

#[test]
fn empty_leaf_comes_back_empty() {
    let n = XmlNode {
        tag: "a".to_string(),
        namespace: None,
        attrs: vec![],
        children: vec![XmlValue::Node(XmlNode { tag: "b".to_string(), namespace: None, attrs: vec![], children: vec![] })],
    };
    let back = yaml_to_xml_node(&node_to_yaml_ordered_value(&n)).unwrap();
    assert_eq!(to_xml(&back), "<?xml version=\"1.0\" encoding=\"UTF-8\"?>\n<a>\n    <b/>\n</a>\n");
}

#[test]
fn parse_unescapes_and_drops_comments_and_blank_text() {
    let src = "<?xml version=\"1.0\" encoding=\"UTF-8\"?>\n<CustomField xmlns=\"http://soap.sforce.com/2006/04/metadata\">\n    <label>R&amp;D Team</label>\n    <!-- note -->\n</CustomField>";
    let n = parse_xml(src).unwrap();
    assert_eq!(n.tag, "CustomField");
    assert_eq!(n.namespace.as_deref(), Some("http://soap.sforce.com/2006/04/metadata"));
    assert!(n.attrs.is_empty());
    assert_eq!(n.children.len(), 1);
    match &n.children[0] {
        XmlValue::Node(c) => {
            assert_eq!(c.tag, "label");
            assert_eq!(c.namespace, None);
            assert!(c.attrs.is_empty());
            assert_eq!(c.children.len(), 1);
            assert!(matches!(&c.children[0], XmlValue::Text(t) if t == "R&D Team"));
        }
        _ => panic!("expected an element"),
    }
}

#[test]
fn parse_refuses_unfinished_documents() {
    assert!(parse_xml("<?xml version=\"1.0\"?>\n<broken").is_err());
    assert!(parse_xml("<ApexClass><apiVersion>59.0</apiVersion>").is_err());
}

#[test]
fn parsed_tree_keeps_xmlns_apart_and_drops_blank_text() {
    let n = parse_xml("<a xmlns=\"u\" k=\"1\">  <b/>  </a>").unwrap();
    assert_eq!(n.namespace.as_deref(), Some("u"));
    assert!(n.attrs.iter().all(|(k, _)| k != "xmlns"));
    assert_eq!(n.attrs.iter().filter(|(k, _)| k == "k").count(), 1);
    assert_eq!(n.children.len(), 1);
    assert!(matches!(&n.children[0], XmlValue::Node(b) if b.tag == "b" && b.children.is_empty()));
    let back = json_value_to_node(&node_to_json_value(&n)).unwrap();
    assert_eq!(to_xml(&back), to_xml(&n));
}
