use holyrig::name_map::NameMap;
use holyrig::parser::DataType;
use holyrig::parser_errors::{ErrorLevel, ParseErrorType, SourcePosition};
use holyrig::rig_parser::parse_rig_file;
use holyrig::schema_parser::{SchemaFile, SchemaParameter};
use holyrig::semantic_analyzer::{
    parse_and_validate_with_schema, semantic_errors_to_parse_errors, SemanticAnalyzer, SemanticError,
    SemanticErrorType,
};

fn create_test_schema() -> SchemaFile {
    let mut enums = NameMap::new();
    enums.insert("Vfo".to_string(), vec!["A".to_string(), "B".to_string()]);
    let mut commands = NameMap::new();
    commands.insert(
        "set_freq".to_string(),
        vec![
            SchemaParameter {
                param_type: DataType::Int,
                name: "freq".to_string(),
            },
            SchemaParameter {
                param_type: DataType::Enum("Vfo".to_string()),
                name: "target".to_string(),
            },
        ],
    );
    SchemaFile {
        version: 1,
        name: "transceiver".to_string(),
        enums,
        commands,
        status: NameMap::new(),
    }
}

#[test]
fn test_undefined_variable() {
    let schema = create_test_schema();
    let analyzer = SemanticAnalyzer::new(schema);

    let rig_file_source = r#"
            impl Transceiver for TestRig {
                fn test_cmd(int param) {
                    undefined_var = 42;
                }
            }
        "#;

    let rig_file = parse_rig_file(rig_file_source).unwrap();
    let result = analyzer.analyze(&rig_file);

    assert!(result.is_err());
    let errors = result.unwrap_err();
    assert!(errors.iter().any(|e| matches!(
        &e.error_type,
        SemanticErrorType::UndefinedVariable { name } if name == "undefined_var"
    )));
}

#[test]
fn test_undefined_function() {
    let schema = create_test_schema();
    let analyzer = SemanticAnalyzer::new(schema);

    let rig_file_source = r#"
            impl Transceiver for TestRig {
                fn test_cmd(int param) {
                    unknown_function();
                }
            }
        "#;

    let rig_file = parse_rig_file(rig_file_source).unwrap();
    let result = analyzer.analyze(&rig_file);

    assert!(result.is_err());
    let errors = result.unwrap_err();
    assert!(errors.iter().any(|e| matches!(
        &e.error_type,
        SemanticErrorType::UndefinedFunction { name } if name == "unknown_function"
    )));
}

#[test]
fn test_command_not_in_schema() {
    let schema = create_test_schema();
    let analyzer = SemanticAnalyzer::new(schema);

    let rig_file_source = r#"
            impl Transceiver for TestRig {
                fn unknown_command(int param) {
                    write("test");
                }
            }
        "#;

    let rig_file = parse_rig_file(rig_file_source).unwrap();
    let result = analyzer.analyze(&rig_file);

    assert!(result.is_err());
    let errors = result.unwrap_err();
    assert!(errors.iter().any(|e| matches!(
        &e.error_type,
        SemanticErrorType::CommandNotInSchema { command_name } if command_name == "unknown_command"
    )));
}

#[test]
fn test_valid_rig_file() {
    let schema = create_test_schema();
    let analyzer = SemanticAnalyzer::new(schema);

    let rig_file_source = r#"
            impl Transceiver for TestRig {
                enum Vfo {
                    A = 0,
                    B = 1,
                }

                fn set_freq(int freq, Vfo target) {
                    write("test{freq:4}{target:1}");
                }
            }
        "#;

    let rig_file = parse_rig_file(rig_file_source).unwrap();
    let result = analyzer.analyze(&rig_file);

    assert!(result.is_ok());
}

#[test]
fn matching_rig_file_has_no_problems() {
    let analyzer = SemanticAnalyzer::new(create_test_schema());
    let rig_file_source = r#"
            impl transceiver for TestRig {
                enum Vfo {
                    A = 0,
                    B = 1,
                }

                fn set_freq(int freq, Vfo target) {
                    write("FE{freq:4}{target:1}");
                }
            }
        "#;
    let rig_file = parse_rig_file(rig_file_source).unwrap();
    assert!(analyzer.analyze(&rig_file).is_ok());
    assert!(analyzer.analyze_with_advanced_checks(&rig_file).is_ok());
}

#[test]
fn schema_name_must_match() {
    let analyzer = SemanticAnalyzer::new(create_test_schema());
    let rig_file = parse_rig_file("impl Receiver for R { }").unwrap();
    let errors = analyzer.analyze(&rig_file).unwrap_err();
    assert_eq!(
        errors[0].message(),
        "Schema type mismatch: rig has 'Receiver', schema expects 'transceiver'"
    );
}

#[test]
fn messages_of_semantic_errors() {
    let e = SemanticError {
        position: None,
        error_type: SemanticErrorType::TypeMismatch {
            expected: DataType::Enum("Vfo".to_string()),
            found: DataType::Int,
            context: "assignment".to_string(),
        },
    };
    assert_eq!(
        e.message(),
        "Type mismatch in assignment: expected Enum(\"Vfo\"), found Int"
    );
    let e = SemanticError {
        position: None,
        error_type: SemanticErrorType::InvalidFunctionArguments {
            function_name: "write".to_string(),
            expected: 1,
            found: 12,
        },
    };
    assert_eq!(e.message(), "Function 'write' expects 1 arguments, got 12");
    let e = SemanticError {
        position: None,
        error_type: SemanticErrorType::InvalidEnumVariantValue {
            enum_name: "Mode".to_string(),
            variant_name: "USB".to_string(),
            value: 300,
        },
    };
    assert_eq!(
        e.message(),
        "Invalid value '300' for enum variant 'USB' in enum 'Mode'"
    );
}

#[test]
fn semantic_errors_become_parse_errors() {
    let errors = vec![
        SemanticError {
            position: None,
            error_type: SemanticErrorType::UndefinedEnum {
                name: "Band".to_string(),
            },
        },
        SemanticError {
            position: Some(SourcePosition::new(3, 4, 20)),
            error_type: SemanticErrorType::EmptyCommand {
                command_name: "noop".to_string(),
            },
        },
    ];
    let parse_errors = semantic_errors_to_parse_errors(errors, "src");
    assert_eq!(parse_errors.len(), 2);
    assert_eq!(parse_errors[0].position, SourcePosition::new(1, 1, 0));
    assert_eq!(parse_errors[1].position, SourcePosition::new(3, 4, 20));
    assert_eq!(parse_errors[0].source, "src");
    assert_eq!(parse_errors[0].level, ErrorLevel::Normal);
    match parse_errors[0].error_type.as_ref() {
        ParseErrorType::Semantic {
            message,
            suggestion,
            context,
        } => {
            assert_eq!(message, "Undefined enum 'Band'");
            assert!(suggestion.is_none());
            assert_eq!(context, "Semantic analysis");
        }
        _ => panic!("expected a semantic error"),
    }
}

#[test]
fn parse_and_validate_reports_each_stage() {
    let schema = "version = 1; schema Radio { fn tune(int freq); }";
    let good = "impl Radio for R { fn tune(int freq) { write(\"FE{freq:4}\"); } }";
    assert!(parse_and_validate_with_schema(good, schema).is_ok());

    let errors = parse_and_validate_with_schema("impl Radio for R {", schema).unwrap_err();
    assert_eq!(errors.len(), 1);
    assert!(matches!(errors[0].error_type.as_ref(), ParseErrorType::Syntax { .. }));

    let errors = parse_and_validate_with_schema(good, "schema").unwrap_err();
    assert_eq!(errors.len(), 1);

    let bad = "impl Radio for R { fn tune(int freq) { write(missing); } }";
    let errors = parse_and_validate_with_schema(bad, schema).unwrap_err();
    assert_eq!(errors.len(), 1);
    match errors[0].error_type.as_ref() {
        ParseErrorType::Semantic { message, .. } => assert_eq!(message, "Undefined variable 'missing'"),
        _ => panic!("expected a semantic error"),
    }
}

#[test]
fn analysis_errors_point_at_no_place() {
    let analyzer = SemanticAnalyzer::new(create_test_schema());
    let rig = parse_rig_file(
        r#"
            version = 1;
            impl transceiver for IC7300 {
                fn set_freq(int freq, Vfo target) {
                    missing(1);
                    write(1, 2);
                }
            }
        "#,
    )
    .unwrap();
    let errors = analyzer.analyze(&rig).unwrap_err();
    assert!(errors.len() >= 2);
    assert!(errors.iter().all(|e| e.position.is_none()));
    assert!(errors
        .iter()
        .any(|e| matches!(&e.error_type, SemanticErrorType::UndefinedFunction { name } if name == "missing")));
    assert!(errors.iter().any(|e| matches!(
        &e.error_type,
        SemanticErrorType::InvalidFunctionArguments { function_name, expected: 1, found: 2 } if function_name == "write"
    )));
}
