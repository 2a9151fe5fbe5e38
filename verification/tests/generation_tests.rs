use plc_xmlgen::model::CompilationUnit;
use plc_xmlgen::model::Expr;
use plc_xmlgen::model::FileRef;
use plc_xmlgen::model::Implementation;
use plc_xmlgen::model::LinkageType;
use plc_xmlgen::model::PlcVariable;
use plc_xmlgen::model::Pou;
use plc_xmlgen::model::PouType;
use plc_xmlgen::model::SourceRef;
use plc_xmlgen::model::SourceSpan;
use plc_xmlgen::model::UserTypeData;
use plc_xmlgen::model::UserTypeDeclaration;
use plc_xmlgen::model::VarBlock;
use plc_xmlgen::model::VarBlockKind;
use plc_xmlgen::model::resolve_body_span;
use plc_xmlgen::node::Node;
use plc_xmlgen::order::OrderTracker;
use plc_xmlgen::resolver::NameAndInitialValue;
use plc_xmlgen::writer::write_xml_document;
use plc_xmlgen::xml_gen::generate_custom_types;
use plc_xmlgen::xml_gen::generate_globals;
use plc_xmlgen::xml_gen::generate_pous;
use plc_xmlgen::xml_gen::get_omron_template;
use plc_xmlgen::xml_gen::parse_enum_expression;
use plc_xmlgen::xml_gen::parse_project_into_nodetree;
use plc_xmlgen::xml_gen::GenerationParameters;
use plc_xmlgen::xml_gen::CONFIGURATION;
use plc_xmlgen::xml_gen::OMRON_SCHEMA;
use plc_xmlgen::xml_gen::RESOURCE;
use plc_xmlgen::GenError;

/// Helper: a variable with a given name and type, carrying a source
/// location so it is not skipped.
fn make_variable(name: &str, declared_type: &str) -> PlcVariable {
    PlcVariable {
        name: String::from(name),
        declared_type: Some(String::from(declared_type)),
        initial_value: None,
        address: None,
        has_location: true,
    }
}

fn make_unit(file_name: &str) -> CompilationUnit {
    CompilationUnit::new(file_name)
}

fn global_block(variables: Vec<PlcVariable>) -> VarBlock {
    VarBlock {
        kind: VarBlockKind::Global(String::from("DoNotPublish")),
        constant: false,
        retain: false,
        variables,
    }
}

/// Helper: an enum variant assignment `VariantName := IntegerValue`.
fn make_enum_assignment(variant_name: &str, value: i32) -> Expr {
    Expr::Assignment {
        left: Box::new(Expr::MemberReference(Box::new(Expr::Identifier(String::from(
            variant_name,
        ))))),
        right: Box::new(Expr::Literal(value.to_string())),
    }
}

fn document_text(node: &Node) -> String {
    String::from_utf8(write_xml_document(node).unwrap()).unwrap()
}

#[test]
fn test_generation_parameters_default() {
    let params = GenerationParameters::new();
    assert_eq!(params.output_xml_omron, false);
}

#[test]
fn test_generation_parameters_omron_flag() {
    let mut params = GenerationParameters::new();
    assert!(!params.output_xml_omron);

    params.output_xml_omron = true;
    assert!(params.output_xml_omron);
}

#[test]
fn test_parse_project_into_nodetree() {
    let template = get_omron_template();
    let params = GenerationParameters::new();

    // A unit with a global variable
    let mut unit = make_unit("myfile.st");
    unit.global_vars.push(global_block(vec![make_variable("gCounter", "INT")]));

    // A struct user type
    unit.user_types.push(UserTypeDeclaration {
        data_type: UserTypeData::Struct {
            name: Some(String::from("MyStruct")),
            variables: vec![make_variable("field1", "DINT")],
        },
        has_location: true,
    });

    let units: Vec<CompilationUnit> = vec![unit];
    let result = parse_project_into_nodetree(&params, &units, OMRON_SCHEMA, template);
    assert!(result.is_ok());

    let contents = String::from_utf8(result.unwrap()).unwrap();
    // Globals should produce a Configuration/Resource with the variable
    assert!(contents.contains(CONFIGURATION));
    assert!(contents.contains(RESOURCE));
    assert!(contents.contains("gCounter"));
    // Custom types should produce DataTypeDecl
    assert!(contents.contains("MyStruct"));
    assert!(contents.contains("field1"));
}

#[test]
fn test_parse_project_empty_units() {
    let template = get_omron_template();
    let params = GenerationParameters::new();
    let units: Vec<CompilationUnit> = vec![];

    let result = parse_project_into_nodetree(&params, &units, OMRON_SCHEMA, template);
    assert!(result.is_ok());
}

#[test]
fn test_parse_project_skips_non_source_units() {
    let template = get_omron_template();
    let params = GenerationParameters::new();

    let mut unit = make_unit("generated.bin");
    unit.global_vars.push(global_block(vec![make_variable("hiddenVar", "INT")]));

    let units: Vec<CompilationUnit> = vec![unit];
    let contents =
        String::from_utf8(parse_project_into_nodetree(&params, &units, OMRON_SCHEMA, template).unwrap())
            .unwrap();
    assert!(!contents.contains("hiddenVar"));
    assert!(!contents.contains(CONFIGURATION));
}

#[test]
fn test_generate_globals() {
    let params = GenerationParameters::new();
    let mut template = get_omron_template();
    let mut order = OrderTracker::new();

    // Unit with one normal global, one constant global, one retain global
    let mut unit = make_unit("globals.st");

    // Normal global block
    unit.global_vars.push(global_block(vec![make_variable("normalVar", "INT")]));

    // Constant global block
    let mut const_block = global_block(vec![make_variable("constVar", "REAL")]);
    const_block.constant = true;
    unit.global_vars.push(const_block);

    // Retain global block
    let mut retain_block = global_block(vec![make_variable("retainVar", "BOOL")]);
    retain_block.retain = true;
    unit.global_vars.push(retain_block);

    let result =
        generate_globals(&params, &unit, "globals.st", OMRON_SCHEMA, &mut order, &mut template);
    assert!(result.is_ok());

    let contents = document_text(&template);
    assert!(contents.contains(CONFIGURATION));
    assert!(contents.contains(RESOURCE));
    assert!(contents.contains("GlobalVars"));
    assert!(contents.contains("normalVar"));
    assert!(contents.contains("constVar"));
    assert!(contents.contains("retainVar"));
    // Check Configuration name follows the pattern "unitname_Configuration"
    assert!(contents.contains("globals.st_Configuration"));
    assert!(contents.contains("globals.st_Resource"));
}

#[test]
fn test_generate_globals_missing_anchor() {
    let params = GenerationParameters::new();
    let mut bare_root = Node::new_str("Project");
    let mut order = OrderTracker::new();
    let unit = make_unit("globals.st");

    let result =
        generate_globals(&params, &unit, "globals.st", OMRON_SCHEMA, &mut order, &mut bare_root);
    assert_eq!(result, Err(GenError::AnchorNotFound));
    assert_eq!(bare_root.children.len(), 0);
}

#[test]
fn test_generate_globals_skips_unresolved_type() {
    let params = GenerationParameters::new();
    let mut template = get_omron_template();
    let mut order = OrderTracker::new();

    let mut unit = make_unit("globals.st");
    let untyped = PlcVariable {
        name: String::from("ghostVar"),
        declared_type: None,
        initial_value: None,
        address: None,
        has_location: true,
    };
    unit.global_vars.push(global_block(vec![untyped, make_variable("realVar", "INT")]));

    generate_globals(&params, &unit, "globals.st", OMRON_SCHEMA, &mut order, &mut template)
        .unwrap();
    let contents = document_text(&template);
    assert!(!contents.contains("ghostVar"));
    assert!(contents.contains("realVar"));
}

#[test]
fn test_generate_globals_omron_string_quirk() {
    let mut params = GenerationParameters::new();
    params.output_xml_omron = true;
    let mut template = get_omron_template();
    let mut order = OrderTracker::new();

    let mut unit = make_unit("globals.st");
    unit.global_vars.push(global_block(vec![make_variable("msg", "__global_testString")]));

    generate_globals(&params, &unit, "globals.st", OMRON_SCHEMA, &mut order, &mut template)
        .unwrap();
    let contents = document_text(&template);
    assert!(contents.contains("String[1986]"));
    assert!(!contents.contains("__global_testString"));
}

#[test]
fn test_generate_custom_types() {
    let params = GenerationParameters::new();
    let mut template = get_omron_template();

    let mut unit = make_unit("types.st");

    // Add a struct type
    unit.user_types.push(UserTypeDeclaration {
        data_type: UserTypeData::Struct {
            name: Some(String::from("Motor")),
            variables: vec![make_variable("speed", "INT"), make_variable("running", "BOOL")],
        },
        has_location: true,
    });

    // Add an enum type with a list of assignments
    let enum_elements = Expr::ExpressionList(vec![
        make_enum_assignment("RED", 0),
        make_enum_assignment("GREEN", 1),
        make_enum_assignment("BLUE", 2),
    ]);

    unit.user_types.push(UserTypeDeclaration {
        data_type: UserTypeData::Enum {
            name: Some(String::from("Color")),
            numeric_type: String::from("INT"),
            elements: enum_elements,
        },
        has_location: true,
    });

    let result = generate_custom_types(&params, &unit, &mut template);
    assert!(result.is_ok());

    let contents = document_text(&template);
    // Struct
    assert!(contents.contains("Motor"));
    assert!(contents.contains("speed"));
    assert!(contents.contains("running"));
    assert!(contents.contains("StructTypeSpec"));

    // Enum
    assert!(contents.contains("Color"));
    assert!(contents.contains("RED"));
    assert!(contents.contains("GREEN"));
    assert!(contents.contains("BLUE"));
    assert!(contents.contains("EnumTypeWithNamedValueSpec"));
    assert!(contents.contains("BaseType"));
}

#[test]
fn test_generate_custom_types_drops_struct_without_members() {
    let params = GenerationParameters::new();
    let mut template = get_omron_template();

    let mut unit = make_unit("types.st");
    let untyped = PlcVariable {
        name: String::from("field1"),
        declared_type: None,
        initial_value: None,
        address: None,
        has_location: true,
    };
    unit.user_types.push(UserTypeDeclaration {
        data_type: UserTypeData::Struct {
            name: Some(String::from("Hollow")),
            variables: vec![untyped],
        },
        has_location: true,
    });

    generate_custom_types(&params, &unit, &mut template).unwrap();
    let contents = document_text(&template);
    assert!(!contents.contains("DataTypeDecl"));
    assert!(!contents.contains("Hollow"));
}

#[test]
fn test_generate_custom_types_base_type_comes_last() {
    let params = GenerationParameters::new();
    let mut template = get_omron_template();

    let mut unit = make_unit("types.st");
    unit.user_types.push(UserTypeDeclaration {
        data_type: UserTypeData::Enum {
            name: Some(String::from("Color")),
            numeric_type: String::from("INT"),
            elements: Expr::ExpressionList(vec![
                make_enum_assignment("RED", 0),
                make_enum_assignment("GREEN", 1),
            ]),
        },
        has_location: true,
    });

    generate_custom_types(&params, &unit, &mut template).unwrap();
    let contents = document_text(&template);
    let last_enumerator = contents.rfind("Enumerator").unwrap();
    let base_type = contents.find("BaseType").unwrap();
    assert!(base_type > last_enumerator);
}

#[test]
fn test_parse_enum_expression_forms() {
    let direct = make_enum_assignment("RED", 3);
    let got = parse_enum_expression(&direct);
    assert_eq!(got.name, "RED");
    assert_eq!(got.initial_value, "3");

    // an assignment whose right side is a binary expression ending in a
    // literal, as a unary-minus form parses
    let via_binary = Expr::Assignment {
        left: Box::new(Expr::MemberReference(Box::new(Expr::Identifier(String::from("NEG"))))),
        right: Box::new(Expr::BinaryExpression {
            right: Box::new(Expr::Literal(String::from("-1"))),
        }),
    };
    let got = parse_enum_expression(&via_binary);
    assert_eq!(got.name, "NEG");
    assert_eq!(got.initial_value, "-1");
}

#[test]
fn test_generate_pous() {
    let params = GenerationParameters::new();
    let mut template = get_omron_template();
    let mut order = OrderTracker::new();

    let program_body = "x := 1 + 2;";

    let mut unit = make_unit("test_pou_source.st");

    // A program's declared metadata
    unit.pous.push(Pou {
        name: String::from("MainProg"),
        variable_blocks: vec![VarBlock {
            kind: VarBlockKind::Local,
            constant: false,
            retain: false,
            variables: vec![make_variable("localX", "INT")],
        }],
        return_type_name: None,
    });

    // Matching implementation, its body text already read
    unit.implementations.push(Implementation {
        name: String::from("MainProg"),
        pou_type: PouType::Program,
        linkage: LinkageType::Internal,
        body: Some(String::from(program_body)),
    });

    let result = generate_pous(&params, &unit, OMRON_SCHEMA, &mut order, &mut template);
    assert!(result.is_ok());

    let contents = document_text(&template);
    assert!(contents.contains("Program"));
    assert!(contents.contains("MainProg"));
    assert!(contents.contains("localX"));
    assert!(contents.contains("x := 1 + 2;"));
    assert!(contents.contains("MainBody"));
}

#[test]
fn test_generate_pous_orders_parameters_sequentially() {
    let params = GenerationParameters::new();
    let mut template = get_omron_template();
    let mut order = OrderTracker::new();

    let mut unit = make_unit("fun.st");
    unit.pous.push(Pou {
        name: String::from("Calc"),
        variable_blocks: vec![VarBlock {
            kind: VarBlockKind::Input,
            constant: false,
            retain: false,
            variables: vec![
                make_variable("a", "INT"),
                make_variable("b", "INT"),
                make_variable("c", "INT"),
            ],
        }],
        return_type_name: Some(String::from("INT")),
    });
    unit.implementations.push(Implementation {
        name: String::from("Calc"),
        pou_type: PouType::Function,
        linkage: LinkageType::Internal,
        body: Some(String::from("Calc := a + b + c;")),
    });

    generate_pous(&params, &unit, OMRON_SCHEMA, &mut order, &mut template).unwrap();
    let contents = document_text(&template);
    assert!(contents.contains("Function"));
    assert!(contents.contains("orderWithinParamSet=\"0\""));
    assert!(contents.contains("orderWithinParamSet=\"1\""));
    assert!(contents.contains("orderWithinParamSet=\"2\""));
    assert!(contents.contains("ResultType"));
    assert!(contents.contains("InputVars"));
}

#[test]
fn test_generate_pous_skips_external_and_unsupported() {
    let params = GenerationParameters::new();
    let mut template = get_omron_template();
    let mut order = OrderTracker::new();

    let mut unit = make_unit("mixed.st");
    unit.pous.push(Pou {
        name: String::from("Ext"),
        variable_blocks: vec![],
        return_type_name: None,
    });
    unit.pous.push(Pou {
        name: String::from("NoBody"),
        variable_blocks: vec![],
        return_type_name: None,
    });
    unit.implementations.push(Implementation {
        name: String::from("Ext"),
        pou_type: PouType::Program,
        linkage: LinkageType::External,
        body: Some(String::from("x := 1;")),
    });
    unit.implementations.push(Implementation {
        name: String::from("NoBody"),
        pou_type: PouType::Program,
        linkage: LinkageType::Internal,
        body: None,
    });

    generate_pous(&params, &unit, OMRON_SCHEMA, &mut order, &mut template).unwrap();
    let contents = document_text(&template);
    assert!(!contents.contains("name=\"Ext\""));
    assert!(!contents.contains("NoBody"));
}

#[test]
fn test_resolve_body_span_forms() {
    let ok = SourceRef {
        span: SourceSpan::Range { start: 4, end: 10 },
        file: FileRef::File(String::from("prog.st")),
    };
    let got = resolve_body_span(&ok).unwrap();
    assert_eq!(got.path, "prog.st");
    assert_eq!(got.start, 4);
    assert_eq!(got.len, 6);

    let negative = SourceRef {
        span: SourceSpan::Range { start: 10, end: 4 },
        file: FileRef::File(String::from("prog.st")),
    };
    assert!(resolve_body_span(&negative).is_none());

    let missing = SourceRef { span: SourceSpan::Missing, file: FileRef::File(String::from("p")) };
    assert!(resolve_body_span(&missing).is_none());

    let not_a_file = SourceRef {
        span: SourceSpan::Range { start: 0, end: 4 },
        file: FileRef::Other,
    };
    assert!(resolve_body_span(&not_a_file).is_none());
}

#[test]
fn test_generate_variable_element_emits_initial_value() {
    let params = GenerationParameters::new();
    let mut order = OrderTracker::new();
    let variable = PlcVariable {
        name: String::from("counter"),
        declared_type: Some(String::from("INT")),
        initial_value: Some(String::from("7")),
        address: Some(String::from("%MW0")),
        has_location: true,
    };
    let node = plc_xmlgen::xml_gen::generate_variable_element(
        &variable,
        &params,
        &String::from("unit"),
        OMRON_SCHEMA,
        &String::from("DoNotPublish"),
        &mut order,
        0,
        false,
    )
    .unwrap()
    .unwrap();
    let text = node.serialize(0);
    assert!(text.contains("InitialValue"));
    assert!(text.contains("value=\"7\""));
    assert!(text.contains("address=\"%MW0\""));
    assert!(text.contains("networkPublish=\"DoNotPublish\""));
    assert!(text.contains("<TypeName>INT</TypeName>"));
}

#[test]
fn test_enum_variants_flow_into_document() {
    // a resolver scenario carried through the whole types pass
    let params = GenerationParameters::new();
    let mut template = get_omron_template();
    let mut unit = make_unit("types.st");
    unit.user_types.push(UserTypeDeclaration {
        data_type: UserTypeData::Enum {
            name: Some(String::from("Tri")),
            numeric_type: String::from("INT"),
            elements: Expr::ExpressionList(vec![
                make_enum_assignment("X", 5),
                make_enum_assignment("Y", 5),
                make_enum_assignment("Z", 5),
            ]),
        },
        has_location: true,
    });
    generate_custom_types(&params, &unit, &mut template).unwrap();
    let contents = document_text(&template);
    assert!(contents.contains("value=\"5\""));
    assert!(contents.contains("value=\"6\""));
    assert!(contents.contains("value=\"7\""));
}

#[test]
fn test_name_and_initial_value_fields() {
    let v = NameAndInitialValue { name: String::from("A"), initial_value: String::from("0") };
    assert_eq!(v.name, "A");
    assert_eq!(v.initial_value, "0");
}
