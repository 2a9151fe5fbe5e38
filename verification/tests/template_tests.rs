use std::collections::HashMap;

use plc_xmlgen::xml_gen::get_omron_template;
use plc_xmlgen::xml_gen::CONFIGURATION;
use plc_xmlgen::xml_gen::CONTENT_HEADER;
use plc_xmlgen::xml_gen::FILE_HEADER;
use plc_xmlgen::xml_gen::GLOBAL_NAMESPACE;
use plc_xmlgen::xml_gen::INSTANCES;
use plc_xmlgen::xml_gen::OMRON_SCHEMA;
use plc_xmlgen::xml_gen::RESOURCE;
use plc_xmlgen::xml_gen::TYPES;

#[test]
fn test_omron_template_has_correct_root() {
    let template = get_omron_template();
    assert_eq!(template.name, "Project");
}

#[test]
fn test_omron_template_has_required_attributes() {
    let template = get_omron_template();
    let attr_map: HashMap<&str, &str> =
        template.attributes.iter().map(|(k, v)| (k.as_str(), v.as_str())).collect();

    assert_eq!(attr_map.get("xmlns:xsi"), Some(&"http://www.w3.org/2001/XMLSchema-instance"));
    assert_eq!(attr_map.get("xmlns:smcext"), Some(&"https://www.ia.omron.com/Smc"));
    assert_eq!(attr_map.get("xsi:schemaLocation"), Some(&OMRON_SCHEMA));
    assert_eq!(attr_map.get("schemaVersion"), Some(&"1"));
    assert_eq!(attr_map.get("xmlns"), Some(&"www.iec.ch/public/TC65SC65BWG7TF10"));
}

#[test]
fn test_omron_template_has_four_children() {
    let template = get_omron_template();
    // FileHeader, ContentHeader, Types, Instances
    assert_eq!(template.children.len(), 4);
}

#[test]
fn test_omron_template_children_names() {
    let template = get_omron_template();
    let child_names: Vec<&str> = template.children.iter().map(|c| c.name.as_str()).collect();
    assert!(child_names.contains(&FILE_HEADER));
    assert!(child_names.contains(&CONTENT_HEADER));
    assert!(child_names.contains(&TYPES));
    assert!(child_names.contains(&INSTANCES));
}

#[test]
fn test_omron_template_types_has_global_namespace() {
    let template = get_omron_template();
    let types_node =
        template.children.iter().find(|c| c.name == TYPES).expect("Types node should exist");
    assert_eq!(types_node.children.len(), 1);
    assert_eq!(types_node.children[0].name, GLOBAL_NAMESPACE);
}

#[test]
fn test_omron_template_file_header_attributes() {
    let template = get_omron_template();
    let file_header = template
        .children
        .iter()
        .find(|c| c.name == FILE_HEADER)
        .expect("FileHeader node should exist");

    let attr_map: HashMap<&str, &str> =
        file_header.attributes.iter().map(|(k, v)| (k.as_str(), v.as_str())).collect();

    assert_eq!(attr_map.get("companyName"), Some(&"OMRON Corporation"));
    assert_eq!(attr_map.get("productName"), Some(&"Sysmac Studio"));
    assert_eq!(attr_map.get("productVersion"), Some(&"1.30.0.0"));
}

#[test]
fn test_omron_template_content_header_has_name() {
    let template = get_omron_template();
    let content_header = template
        .children
        .iter()
        .find(|c| c.name == CONTENT_HEADER)
        .expect("ContentHeader node should exist");

    let attr_map: HashMap<&str, &str> =
        content_header.attributes.iter().map(|(k, v)| (k.as_str(), v.as_str())).collect();

    assert_eq!(attr_map.get("name"), Some(&"Sample"));
    assert!(attr_map.contains_key("creationDateTime"));
}

#[test]
fn test_omron_schema_constant() {
    assert_eq!(OMRON_SCHEMA, "https://www.ia.omron.com/Smc IEC61131_10_Ed1_0_SmcExt1_0_Spc1_0.xsd");
}

#[test]
fn test_omron_template_timestamp_not_empty() {
    let template = get_omron_template();
    let content_header = template
        .children
        .iter()
        .find(|c| c.name == CONTENT_HEADER)
        .expect("ContentHeader node should exist");
    let ts = content_header
        .attributes
        .iter()
        .find(|(k, _)| k == "creationDateTime")
        .map(|(_, v)| v.clone())
        .expect("timestamp attribute");
    assert!(!ts.is_empty());
}

#[test]
fn test_template_text_names_anchors() {
    let text = plc_xmlgen::template::get_omron_template();
    assert!(text.contains("Project"));
    assert!(text.contains(GLOBAL_NAMESPACE));
    assert!(text.contains(INSTANCES));
    assert!(!text.contains(CONFIGURATION));
    assert!(!text.contains(RESOURCE));
}
