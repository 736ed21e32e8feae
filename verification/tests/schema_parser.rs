use holyrig::parser::DataType;
use holyrig::parser_errors::{ErrorLevel, ParseErrorType};
use holyrig::schema_parser::{parse_schema, parse_schema_with_level};

#[test]
fn test_parse_basic_schema() {
    let schema_source = r#"
        version = 1;

        schema Transceiver {
            enum Vfo {
                A,
                B,
                Unknown,
            }

            fn set_freq(int freq, Vfo target);
            fn clear_rit();

            status {
                int freq_a;
                bool transmit;
                Vfo vfo;
            }
        }
        "#;

    let schema = parse_schema(schema_source).unwrap();

    assert_eq!(schema.version, 1);
    assert_eq!(schema.name, "Transceiver");

    assert!(schema.enums.contains_key("Vfo"));
    let vfo_enum = schema.enums.get("Vfo").unwrap();
    assert_eq!(
        vfo_enum.iter().map(|x| x.as_str()).collect::<Vec<_>>(),
        &["A", "B", "Unknown"]
    );

    assert!(schema.commands.contains_key("set_freq"));
    let set_freq_cmd = schema.commands.get("set_freq").unwrap();
    assert_eq!(set_freq_cmd.len(), 2);
    assert_eq!(set_freq_cmd[0].name, "freq");
    assert!(matches!(set_freq_cmd[0].param_type, DataType::Int));

    assert!(schema.status.contains_key("freq_a"));
    assert!(matches!(schema.status.get("freq_a").unwrap(), DataType::Int));
}

#[test]
fn test_parse_enum_only() {
    let schema_source = r#"
        version = 1;

        schema Test {
            enum Mode {
                USB,
                LSB,
            }
        }
        "#;

    let result = parse_schema(schema_source);
    assert!(result.is_ok());

    let schema = result.unwrap();
    assert!(schema.enums.contains_key("Mode"));
    assert_eq!(*schema.enums.get("Mode").unwrap(), vec!["USB", "LSB"]);
}

#[test]
fn test_parse_command_without_params() {
    let schema_source = r#"
        version = 1;

        schema Test {
            fn simple_command();
        }
        "#;

    let result = parse_schema(schema_source);
    assert!(result.is_ok());

    let schema = result.unwrap();
    assert!(schema.commands.contains_key("simple_command"));
    assert!(schema.commands.get("simple_command").unwrap().is_empty());
}

#[test]
fn later_declarations_replace_earlier_ones() {
    let source = "version = 2; schema S { enum E { A } fn f(int x); enum E { B, C } fn f(); \
                  status { int a; bool b; } status { Mode a; } }";
    let schema = parse_schema(source).unwrap();
    assert_eq!(schema.version, 2);
    assert_eq!(schema.enums.len(), 1);
    assert_eq!(*schema.enums.get("E").unwrap(), vec!["B", "C"]);
    assert_eq!(schema.commands.len(), 1);
    assert!(schema.commands.get("f").unwrap().is_empty());
    assert_eq!(schema.status.len(), 2);
    assert_eq!(*schema.status.get("a").unwrap(), DataType::Enum("Mode".to_string()));
    assert_eq!(*schema.status.get("b").unwrap(), DataType::Bool);
    assert_eq!(schema.status.entries[0].0, "a");
    assert_eq!(schema.status.entries[1].0, "b");
}

#[test]
fn schema_command_parameters_keep_their_order() {
    let source = "version = 7;\nschema R {\n fn tune(int hz, bool fast, Band band);\n}\n";
    let schema = parse_schema(source).unwrap();
    let params = schema.commands.get("tune").unwrap();
    let names: Vec<&str> = params.iter().map(|p| p.name.as_str()).collect();
    assert_eq!(names, vec!["hz", "fast", "band"]);
    assert_eq!(params[2].param_type, DataType::Enum("Band".to_string()));
}

#[test]
fn schema_wrong_keyword_is_a_syntax_error() {
    let source = "edition = 1; schema S { }";
    let err = parse_schema(source).unwrap_err();
    assert_eq!(err.level, ErrorLevel::Normal);
    match *err.error_type {
        ParseErrorType::Syntax { expected, found, .. } => {
            assert_eq!(expected, vec!["Expected 'version' keyword".to_string()]);
            assert_eq!(found, Some("Schema".to_string()));
        }
        _ => panic!("expected a syntax error"),
    }
    assert_eq!(err.position.line, 1);
    assert_eq!(err.position.column, 14);
}

#[test]
fn schema_missing_semicolon_reports_what_was_expected() {
    let source = "version = 1;\nschema S {\n  fn f(int x)\n}\n";
    let err = parse_schema_with_level(source, ErrorLevel::Detailed).unwrap_err();
    assert_eq!(err.level, ErrorLevel::Detailed);
    assert_eq!(err.position.line, 4);
    assert_eq!(err.position.column, 1);
    match *err.error_type {
        ParseErrorType::Syntax { expected, found, peg_error, .. } => {
            assert_eq!(expected, vec!["[Token::Semicolon]".to_string()]);
            assert_eq!(found, Some("BraceClose".to_string()));
            assert!(peg_error.is_none());
        }
        _ => panic!("expected a syntax error"),
    }
}

#[test]
fn schema_trailing_tokens_expect_end() {
    let source = "version = 1; schema S { } x";
    let err = parse_schema(source).unwrap_err();
    match *err.error_type {
        ParseErrorType::Syntax { expected, found, .. } => {
            assert_eq!(expected, vec!["EOF".to_string()]);
            assert_eq!(found, Some("Id(\"x\")".to_string()));
        }
        _ => panic!("expected a syntax error"),
    }
}

#[test]
fn schema_version_must_fit_u32() {
    let source = "version = 4294967296; schema S { }";
    let err = parse_schema(source).unwrap_err();
    match *err.error_type {
        ParseErrorType::Syntax { expected, .. } => {
            assert_eq!(expected, vec!["Invalid integer".to_string()]);
        }
        _ => panic!("expected a syntax error"),
    }
    assert_eq!(parse_schema("version = 4294967295; schema S { }").unwrap().version, u32::MAX);
}

#[test]
fn schema_bad_character_is_a_tokenization_error() {
    let err = parse_schema("version = 1; $").unwrap_err();
    assert_eq!(err.position.offset, 13);
    match *err.error_type {
        ParseErrorType::Tokenization { message, context } => {
            assert_eq!(message, "Unable to tokenize input at position 13");
            assert_eq!(context, "Invalid character or token");
        }
        _ => panic!("expected a tokenization error"),
    }
}
