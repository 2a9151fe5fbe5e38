use plc_xmlgen::elements::SAction;
use plc_xmlgen::elements::SBlock;
use plc_xmlgen::elements::SBody;
use plc_xmlgen::elements::SConnector;
use plc_xmlgen::elements::SContinuation;
use plc_xmlgen::elements::SContent;
use plc_xmlgen::elements::SExpression;
use plc_xmlgen::elements::SInOutVariable;
use plc_xmlgen::elements::SInVariable;
use plc_xmlgen::elements::SInputVariables;
use plc_xmlgen::elements::SJump;
use plc_xmlgen::elements::SLabel;
use plc_xmlgen::elements::SOmronVariable;
use plc_xmlgen::elements::SOutVariable;
use plc_xmlgen::elements::SOutputVariables;
use plc_xmlgen::elements::SReturn;
use plc_xmlgen::elements::SVariable;
use plc_xmlgen::elements::SMember;
use plc_xmlgen::elements::SPou;
use plc_xmlgen::elements::SType;
use plc_xmlgen::elements::STypeName;
use plc_xmlgen::node::IntoNode;
use plc_xmlgen::node::Node;
use plc_xmlgen::order::OrderTracker;
use plc_xmlgen::writer::write_xml_document;
use plc_xmlgen::GenError;

fn document_text(node: &Node) -> String {
    String::from_utf8(write_xml_document(node).unwrap()).unwrap()
}

#[test]
fn test_write_xml_file_creates_file() {
    let node = Node::new_str("TestRoot").attribute_str("version", "1.0");

    let result = write_xml_document(&node);
    assert!(result.is_ok());
    let contents = String::from_utf8(result.unwrap()).unwrap();
    assert!(contents.contains("TestRoot"));
    assert!(contents.contains("version=\"1.0\""));
}

#[test]
fn test_write_xml_file_with_children() {
    let child1 = STypeName::new().content(String::from("INT"));
    let child2 = STypeName::new().content(String::from("BOOL"));

    let node = Node::new_str("Root").child(&child1).child(&child2);

    let contents = document_text(&node);
    assert!(contents.contains("Root"));
    assert!(contents.contains("INT"));
    assert!(contents.contains("BOOL"));
}

#[test]
fn test_write_xml_file_with_attributes() {
    let node = Node::new_str("Element").attribute_str("key1", "value1").attribute_str(
        "key2", "value2",
    );

    let contents = document_text(&node);
    assert!(contents.contains("key1=\"value1\""));
    assert!(contents.contains("key2=\"value2\""));
}

#[test]
fn test_write_xml_file_full_template() {
    let template = plc_xmlgen::xml_gen::get_omron_template();
    let contents = document_text(&template);
    assert!(contents.contains("Project"));
    assert!(contents.contains(plc_xmlgen::xml_gen::FILE_HEADER));
    assert!(contents.contains(plc_xmlgen::xml_gen::CONTENT_HEADER));
    assert!(contents.contains(plc_xmlgen::xml_gen::TYPES));
    assert!(contents.contains(plc_xmlgen::xml_gen::INSTANCES));
    assert!(contents.contains(plc_xmlgen::xml_gen::GLOBAL_NAMESPACE));
}

#[test]
fn test_write_xml_nested_structure() {
    let inner_child = STypeName::new().content(String::from("DINT"));
    let type_node = SType::new().child(&inner_child);
    let member = SMember::new().attribute_str("name", "field1").child(&type_node);
    let root = Node::new_str("DataType").child(&member);

    let contents = document_text(&root);
    assert!(contents.contains("DataType"));
    assert!(contents.contains("Member"));
    assert!(contents.contains("field1"));
    assert!(contents.contains("DINT"));
}

#[test]
fn test_write_xml_file_produces_valid_xml_header() {
    let node = Node::new_str("Root");
    let contents = document_text(&node);
    assert!(contents.starts_with("<?xml version=\"1.0\" encoding=\"UTF-8\"?>"));
}

#[test]
fn test_write_xml_empty_node() {
    let node = Node::new_str("Empty");
    let contents = document_text(&node);
    assert!(contents.contains("Empty"));
}

#[test]
fn test_write_xml_cdata_content() {
    let node = Node::new_str("Code");
    let node_with_content = node.content_borrowed(String::from("x := 1 + 2;"));

    let contents = document_text(&node_with_content);
    assert!(contents.contains("x := 1 + 2;"));
}

#[test]
fn test_serialize_closed_node_has_no_closing_tag() {
    let node = Node::new_str("position").attribute_str("x", "1").close();
    let text = node.serialize(0);
    assert_eq!(text, "<position x=\"1\"/>\n");
    assert!(!text.contains("</position>"));
}

#[test]
fn test_serialize_content_node_single_line() {
    let node = Node::new_str("expression").content_borrowed(String::from("a + b"));
    let text = node.serialize(0);
    assert_eq!(text, "<expression>a + b</expression>\n");
}

#[test]
fn test_serialize_content_node_renders_attributes() {
    let node = Node::new_str("expression")
        .attribute_str("kind", "sum")
        .content_borrowed(String::from("a + b"));
    let text = node.serialize(0);
    assert_eq!(text, "<expression kind=\"sum\">a + b</expression>\n");
}

#[test]
fn test_serialize_content_wins_over_children() {
    let child = Node::new_str("nested");
    let node =
        Node::new_str("leaf").child(&child).content_borrowed(String::from("payload"));
    let text = node.serialize(0);
    assert_eq!(text, "<leaf>payload</leaf>\n");
    assert!(!text.contains("nested"));
}

#[test]
fn test_serialize_indents_children() {
    let inner = Node::new_str("inner").close();
    let node = Node::new_str("outer").child(&inner);
    let text = node.serialize(0);
    assert_eq!(text, "<outer >\n    <inner />\n</outer>\n");
}

#[test]
fn test_attribute_overwrites_existing_key() {
    let node = Node::new_str("position").attribute_str("x", "1").attribute_str("x", "2");
    assert_eq!(node.attributes.len(), 1);
    assert_eq!(node.attributes[0], (String::from("x"), String::from("2")));
}

#[test]
fn test_child_snapshots_current_state() {
    let mut child = Node::new_str("leaf");
    let parent = Node::new_str("root").child(&child);
    child.closed = true;
    assert!(!parent.children[0].closed);
}

#[test]
fn test_in_variable_connect_emits_reference() {
    let v = SInVariable::new().connect(7);
    let text = v.inner().serialize(0);
    assert!(text.contains("connectionPointIn"));
    assert!(text.contains("refLocalId=\"7\""));
    assert!(text.contains("negated=\"false\""));
}

#[test]
fn test_pou_init_wraps_declaration() {
    let pou = SPou::init(
        String::from("prog"),
        String::from("program"),
        String::from("VAR x : INT; END_VAR"),
    );
    let text = pou.inner().serialize(0);
    assert!(text.contains("pouType=\"program\""));
    assert!(text.contains("textDeclaration"));
    assert!(text.contains("<content>VAR x : INT; END_VAR</content>"));
}

#[test]
fn test_order_tracker_sequential_and_collision() {
    let mut tracker = OrderTracker::new();
    let unit = String::from("MainProg");
    assert_eq!(tracker.claim(&unit, 0), Ok(0));
    assert_eq!(tracker.claim(&unit, 1), Ok(1));
    assert_eq!(tracker.claim(&unit, 2), Ok(2));
    // a later claim that collides with an existing order probes upward
    assert_eq!(tracker.claim(&unit, 1), Ok(3));
    // another unit's numbering is independent
    let other = String::from("OtherProg");
    assert_eq!(tracker.claim(&other, 0), Ok(0));
}

#[test]
fn test_gen_error_variants_compare() {
    assert_eq!(GenError::AnchorNotFound, GenError::AnchorNotFound);
    assert_ne!(GenError::AnchorNotFound, GenError::ValueExhausted);
}

#[test]
fn test_out_variable_connect_name_closes_connection() {
    let v = SOutVariable::new().connect_name(4, String::from("EN"));
    let text = v.inner().serialize(0);
    assert!(text.contains("refLocalId=\"4\""));
    assert!(text.contains("formalParameter=\"EN\""));
    assert!(text.contains("/>"));
}

#[test]
fn test_out_variable_connect_str_forms() {
    let a = SOutVariable::new().connect_name_str(4, "EN").inner().serialize(0);
    let b = SOutVariable::new().connect_name(4, String::from("EN")).inner().serialize(0);
    assert_eq!(a, b);
    let c = SOutVariable::new().with_expression_str("a + b").inner().serialize(0);
    let d = SOutVariable::new().with_expression(String::from("a + b")).inner().serialize(0);
    assert_eq!(c, d);
}

#[test]
fn test_inout_variable_expression() {
    let v = SInOutVariable::new().with_expression(String::from("x"));
    let text = v.inner().serialize(0);
    assert!(text.contains("inOutVariable"));
    assert!(text.contains("<expression>x</expression>"));
}

#[test]
fn test_return_init_connect_negate() {
    let r = SReturn::init(3, 9).connect(2).negate(true);
    let text = r.inner().serialize(0);
    assert!(text.contains("localId=\"3\""));
    assert!(text.contains("executionOrderId=\"9\""));
    assert!(text.contains("refLocalId=\"2\""));
    assert!(text.contains("negated value=\"true\""));
}

#[test]
fn test_block_init_and_variable_lists() {
    let var = SVariable::new().with_name(String::from("IN1")).connect(5);
    let block = SBlock::init(String::from("ADD"), 1, 2).with_input(vec![var.inner()]);
    let text = block.inner().serialize(0);
    assert!(text.contains("typeName=\"ADD\""));
    assert!(text.contains("localId=\"1\""));
    assert!(text.contains("executionOrderId=\"2\""));
    assert!(text.contains("inputVariables"));
    assert!(text.contains("formalParameter=\"IN1\""));
}

#[test]
fn test_block_str_forms_match() {
    let a = SBlock::init_str("ADD", 1, 2).with_name_str("SUB").inner().serialize(0);
    let b = SBlock::init(String::from("ADD"), 1, 2).with_name(String::from("SUB")).inner()
        .serialize(0);
    assert_eq!(a, b);
}

#[test]
fn test_variable_connect_out() {
    let v = SVariable::new().connect_out(8);
    let text = v.inner().serialize(0);
    assert!(text.contains("connectionPointOut"));
    assert!(text.contains("refLocalId=\"8\""));
}

#[test]
fn test_connector_continuation_label_jump() {
    let c = SConnector::new().with_name(String::from("c1")).connect(1);
    assert!(c.inner().serialize(0).contains("name=\"c1\""));
    let k = SContinuation::new().with_name_str("c1").connect_out(2);
    let kt = k.inner().serialize(0);
    assert!(kt.contains("continuation"));
    assert!(kt.contains("connectionPointOut"));
    let l = SLabel::new().with_name(String::from("again"));
    assert!(l.inner().serialize(0).contains("label=\"again\""));
    let j = SJump::new().with_name_str("again").connect(3).negate();
    let jt = j.inner().serialize(0);
    assert!(jt.contains("label=\"again\""));
    assert!(jt.contains("negated value=\"true\""));
}

#[test]
fn test_action_with_fbd_wraps_body() {
    let e = SExpression::expression_str("x");
    let a = SAction::name_str("doIt").with_fbd(vec![e.inner()]);
    let text = a.inner().serialize(0);
    assert!(text.contains("action"));
    assert!(text.contains("name=\"doIt\""));
    assert!(text.contains("<body >"));
    assert!(text.contains("FBD"));
}

#[test]
fn test_body_and_variable_list_builders() {
    let v1 = SVariable::new().with_name_str("a");
    let inputs = SInputVariables::with_variables(vec![v1.inner()]);
    assert!(inputs.inner().serialize(0).contains("inputVariables"));
    let outputs = SOutputVariables::with_variables(vec![]);
    assert!(outputs.inner().serialize(0).contains("outputVariables"));
    let body = SBody::new().with_fbd(vec![]);
    let bt = body.inner().serialize(0);
    assert!(bt.contains("body"));
    assert!(bt.contains("FBD"));
}

#[test]
fn test_content_declaration_and_omron_variable() {
    let c = SContent::new().with_declaration(String::from("VAR END_VAR"));
    assert_eq!(c.inner().serialize(0), "<content>VAR END_VAR</content>\n");
    let v = SOmronVariable::new().with_name(String::from("gVar"));
    let vt = v.inner().serialize(0);
    assert!(vt.contains("Variable"));
    assert!(vt.contains("name=\"gVar\""));
}

#[test]
fn test_indent_is_four_spaces_per_level() {
    assert_eq!(plc_xmlgen::node::Node::indent(0), "");
    assert_eq!(plc_xmlgen::node::Node::indent(2), "        ");
}
