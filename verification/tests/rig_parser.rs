use holyrig::parser::{BinaryOp, DataType, Expr, InterpolationPart, Statement};
use holyrig::parser_errors::{ErrorLevel, ParseError, ParseErrorType};
use holyrig::rig_parser::{create_semantic_error, parse, parse_atomic_expr, parse_with_level};


#[test]
fn test_parse_simple_dsl() {
    let dsl_source = r#"
        version = 1;
        impl TestSchema for TestRig {
            init {}
            fn test_command() {}
            status {}
        }
    "#;

    let result = parse(dsl_source);
    assert!(result.is_ok());

    let rig_file = result.unwrap();
    assert_eq!(rig_file.impl_block.schema, "TestSchema");
    assert_eq!(rig_file.impl_block.name, "TestRig");
    assert!(rig_file.impl_block.init.is_some());
    assert!(rig_file.impl_block.status.is_some());
    assert_eq!(rig_file.impl_block.commands.len(), 1);
    assert_eq!(rig_file.impl_block.enums.len(), 0);
    assert_eq!(rig_file.settings.settings.len(), 1);
}

#[test]
fn test_parse_complex_dsl() {
    let dsl_source = r#"
        version = 2;
        baudrate = 9600;
        impl Transceiver for IC7300 {
            enum TestEnum {
                A = 0,
                B = 1,
            }
            init {}
            fn command1() {}
            fn command2() {}
            status {}
        }
    "#;

    let result = parse(dsl_source);
    assert!(result.is_ok());

    let rig_file = result.unwrap();
    assert_eq!(rig_file.impl_block.schema, "Transceiver");
    assert_eq!(rig_file.impl_block.name, "IC7300");
    assert!(rig_file.impl_block.init.is_some());
    assert!(rig_file.impl_block.status.is_some());
    assert_eq!(rig_file.impl_block.commands.len(), 2);
    assert_eq!(rig_file.impl_block.enums.len(), 1);
    assert_eq!(rig_file.impl_block.enums[0].name, "TestEnum");
    assert_eq!(rig_file.impl_block.enums[0].variants.len(), 2);
    assert_eq!(rig_file.settings.settings.len(), 2);
}

#[test]
fn test_parse_function_with_parameters() {
    let dsl_source = r#"
        impl Test for Rig {
            fn set_freq(int freq, bool enabled) {
                write("test");
                read("response");
                command = "test_command";
            }
        }
    "#;

    let result = parse(dsl_source);
    assert!(result.is_ok());

    let rig_file = result.unwrap();
    assert_eq!(rig_file.impl_block.commands.len(), 1);
    let cmd = &rig_file.impl_block.commands.get("set_freq").unwrap();
    assert_eq!(cmd.name, "set_freq");
    assert_eq!(cmd.parameters.len(), 2);
    assert_eq!(cmd.parameters[0].param_type, DataType::Int);
    assert_eq!(cmd.parameters[0].name, "freq");
    assert_eq!(cmd.parameters[1].param_type, DataType::Bool);
    assert_eq!(cmd.parameters[1].name, "enabled");
    assert_eq!(cmd.statements.len(), 3);
}

#[test]
fn test_parse_ic7300_subset() -> Result<(), ParseError> {
    let dsl_source = r#"
        version = 1;
        impl Transceiver for IC7300 {
            enum Vfo {
                A = 0,
                B = 1,
            }
            enum Mode {
                LSB = 0,
                USB = 1,
                AM = 2,
            }
            init {
                write("FEFE94E0.1A050071.00.FD");
                read("FEFE94E01A05007100FD.FEFEE094FBFD");
            }
            fn set_freq(int freq, Vfo target) {
                command = "FEFE94E0.25.{target:1}.{freq:4}.FD";
                write(command);
            }
            status {}
        }
    "#;

    let rig_file = parse(dsl_source)?;

    assert_eq!(rig_file.impl_block.schema, "Transceiver");
    assert_eq!(rig_file.impl_block.name, "IC7300");
    assert_eq!(rig_file.impl_block.enums.len(), 2);
    assert_eq!(rig_file.impl_block.commands.len(), 1);

    let vfo_enum = &rig_file.impl_block.enums[0];
    assert_eq!(vfo_enum.name, "Vfo");
    assert_eq!(vfo_enum.variants.len(), 2);
    assert_eq!(vfo_enum.variants.get("A"), Some(&0));
    assert_eq!(vfo_enum.variants.get("B"), Some(&1));

    let cmd = &rig_file.impl_block.commands.get("set_freq").unwrap();
    assert_eq!(cmd.name, "set_freq");
    assert_eq!(cmd.parameters.len(), 2);
    assert_eq!(
        cmd.parameters[1].param_type,
        DataType::Enum("Vfo".to_string())
    );
    Ok(())
}

#[test]
fn test_parse_invalid_dsl() {
    let invalid_dsl = "invalid syntax here";
    let result = parse(invalid_dsl);
    assert!(result.is_err());
    let error = result.unwrap_err();
    assert!(matches!(
        error.error_type.as_ref(),
        ParseErrorType::Syntax { .. }
    ));
    let error_msg = error.message();
    assert!(error_msg.contains("Syntax error"));
    assert!(error_msg.contains("line 1"));
}

#[test]
fn test_parse_empty_string() {
    let result = parse("");
    assert!(result.is_err());
    let error = result.unwrap_err();
    assert!(matches!(
        error.error_type.as_ref(),
        ParseErrorType::Syntax { .. }
    ));
}

#[test]
fn test_tokenization_error_messages() {
    let invalid_chars = "impl Test for Rig { \x00 }";
    let result = parse(invalid_chars);
    assert!(result.is_err());
    let error = result.unwrap_err();
    if let ParseErrorType::Tokenization { message, .. } = error.error_type.as_ref() {
        assert_eq!(error.position.line, 1);
        assert!(message.contains("Unable to tokenize"));
    } else {
        panic!("Expected tokenization error");
    }
}

#[test]
fn test_syntax_error_messages() {
    let missing_brace = "impl Test for Rig {";
    let result = parse(missing_brace);
    assert!(result.is_err());
    let error = result.unwrap_err();
    if let ParseErrorType::Syntax { .. } = error.error_type.as_ref() {
        assert_eq!(error.position.line, 1);
    } else {
        panic!("Expected syntax error");
    }
}

#[test]
fn test_semantic_error_creation() {
    let source = "test source";
    let error = create_semantic_error(
        source,
        5,
        10,
        "Test semantic error",
        Some("Try using 'int' instead"),
    );

    if let ParseErrorType::Semantic {
        message,
        suggestion,
        ..
    } = error.error_type.as_ref()
    {
        assert_eq!(error.position.line, 5);
        assert_eq!(error.position.column, 10);
        assert_eq!(message, "Test semantic error");
        assert_eq!(suggestion, &Some("Try using 'int' instead".to_string()));
    } else {
        panic!("Expected semantic error");
    }
}

#[test]
fn test_parse_minimal_structure() {
    let dsl_source = r#"
        impl Test for Minimal {
        }
    "#;

    let result = parse(dsl_source);
    assert!(result.is_ok());

    let rig_file = result.unwrap();
    assert_eq!(rig_file.impl_block.schema, "Test");
    assert_eq!(rig_file.impl_block.name, "Minimal");
    assert!(rig_file.impl_block.init.is_none());
    assert!(rig_file.impl_block.status.is_none());
    assert_eq!(rig_file.impl_block.commands.len(), 0);
    assert_eq!(rig_file.impl_block.enums.len(), 0);
    assert_eq!(rig_file.settings.settings.len(), 0);
}

#[test]
fn test_parse_only_commands() {
    let dsl_source = r#"
        impl Test for Commands {
            fn cmd1() {}
            fn cmd2() {}
            fn cmd3() {}
        }
    "#;

    let result = parse(dsl_source);
    assert!(result.is_ok());

    let rig_file = result.unwrap();
    assert_eq!(rig_file.impl_block.schema, "Test");
    assert_eq!(rig_file.impl_block.name, "Commands");
    assert!(rig_file.impl_block.init.is_none());
    assert!(rig_file.impl_block.status.is_none());
    assert_eq!(rig_file.impl_block.commands.len(), 3);
    assert_eq!(rig_file.impl_block.enums.len(), 0);
}

#[test]
fn test_identifiers_not_tokens() {
    let dsl_source = r#"
        impl Test for Rig {
            fn test_func() {
                write("test");
                read("response");
                command = "test_command";
            }
        }
    "#;

    let result = parse(dsl_source);
    assert!(result.is_ok());

    let rig_file = result.unwrap();
    assert_eq!(rig_file.impl_block.commands.len(), 1);
    let cmd = &rig_file.impl_block.commands.get("test_func").unwrap();
    assert_eq!(cmd.name, "test_func");
    assert_eq!(cmd.statements.len(), 3);

    match &cmd.statements[0] {
        Statement::FunctionCall { name, args } => {
            assert_eq!(name, "write");
            assert_eq!(args.len(), 1);
            match &args[0] {
                Expr::String(s) => assert_eq!(s, "test"),
                _ => panic!("Expected string for write"),
            }
        }
        _ => panic!("Expected function call for write"),
    }

    match &cmd.statements[1] {
        Statement::FunctionCall { name, args } => {
            assert_eq!(name, "read");
            assert_eq!(args.len(), 1);
            match &args[0] {
                Expr::String(s) => assert_eq!(s, "response"),
                _ => panic!("Expected string for read"),
            }
        }
        _ => panic!("Expected function call for read"),
    }

    match &cmd.statements[2] {
        Statement::Assign(var, _) => {
            assert_eq!(var.0, "command");
        }
        _ => panic!("Expected variable assignment"),
    }
}

#[test]
fn test_simple_expressions() {
    let dsl_source = r#"
        impl Test for Rig {
            fn test() {
                x = 42;
                y = "hello";
                z = identifier;
                w = a + b;
            }
        }
    "#;

    let result = parse(dsl_source);
    assert!(result.is_ok());

    let rig_file = result.unwrap();
    let cmd = &rig_file.impl_block.commands.get("test").unwrap();
    assert_eq!(cmd.statements.len(), 4);

    match &cmd.statements[0] {
        Statement::Assign(var, expr) => {
            assert_eq!(var.0, "x");
            match expr {
                Expr::Integer(n) => assert_eq!(*n, 42),
                _ => panic!("Expected integer"),
            }
        }
        _ => panic!("Expected assignment"),
    }

    match &cmd.statements[1] {
        Statement::Assign(var, expr) => {
            assert_eq!(var.0, "y");
            match expr {
                Expr::String(s) => assert_eq!(s, "hello"),
                _ => panic!("Expected string"),
            }
        }
        _ => panic!("Expected assignment"),
    }

    match &cmd.statements[2] {
        Statement::Assign(var, expr) => {
            assert_eq!(var.0, "z");
            match expr {
                Expr::Identifier(id) => assert_eq!(id.0, "identifier"),
                _ => panic!("Expected identifier"),
            }
        }
        _ => panic!("Expected assignment"),
    }

    match &cmd.statements[3] {
        Statement::Assign(var, expr) => {
            assert_eq!(var.0, "w");
            match expr {
                Expr::BinaryOp {
                    op: BinaryOp::Add, ..
                } => {
                    // This is expected
                }
                _ => panic!("Expected binary operation"),
            }
        }
        _ => panic!("Expected assignment"),
    }
}

#[test]
fn test_integer_and_float_parsing() {
    let dsl_source = r#"
        impl Test for Rig {
            fn test_numbers() {
                int_var = 42;
                float_var = 3.5;
                hex_var = 0xFF;
                result = int_var + float_var;
            }
        }
    "#;

    let result = parse(dsl_source);
    assert!(result.is_ok());

    let rig_file = result.unwrap();
    let cmd = &rig_file.impl_block.commands.get("test_numbers").unwrap();
    assert_eq!(cmd.statements.len(), 4);

    match &cmd.statements[0] {
        Statement::Assign(var, expr) => {
            assert_eq!(var.0, "int_var");
            match expr {
                Expr::Integer(n) => assert_eq!(*n, 42),
                _ => panic!("Expected integer, got {expr:?}"),
            }
        }
        _ => panic!("Expected assignment"),
    }

    match &cmd.statements[1] {
        Statement::Assign(var, expr) => {
            assert_eq!(var.0, "float_var");
            match expr {
                Expr::Float(n) => assert_eq!(n.parse::<f64>().unwrap(), 3.5),
                _ => panic!("Expected float, got {expr:?}"),
            }
        }
        _ => panic!("Expected assignment"),
    }

    match &cmd.statements[2] {
        Statement::Assign(var, expr) => {
            assert_eq!(var.0, "hex_var");
            match expr {
                Expr::Integer(n) => assert_eq!(*n, 255),
                _ => panic!("Expected hex integer, got {expr:?}"),
            }
        }
        _ => panic!("Expected assignment"),
    }

    match &cmd.statements[3] {
        Statement::Assign(var, expr) => {
            assert_eq!(var.0, "result");
            match expr {
                Expr::BinaryOp {
                    op: BinaryOp::Add, ..
                } => {}
                _ => panic!("Expected binary operation, got {expr:?}"),
            }
        }
        _ => panic!("Expected assignment"),
    }
}

#[test]
fn test_binary_operations() {
    let dsl_source = r#"
        impl Test for Rig {
            fn test_arithmetic() {
                x = (pitch - 127.5) * 0.425;
                y = a + b;
                z = c / d;
                result = (a + b) * (c - d);
            }
            fn test_comparisons() {
                if a == b {
                    write("equal");
                } else if a > b {
                    write("greater");
                } else if a <= b {
                    write("less or equal");
                }
            }
            fn test_logical() {
                if a && b || c {
                    write("logical");
                }
            }
        }
    "#;

    let result = parse(dsl_source);
    assert!(result.is_ok());

    let rig_file = result.unwrap();
    assert_eq!(rig_file.impl_block.commands.len(), 3);

    let arithmetic_cmd = &rig_file.impl_block.commands.get("test_arithmetic").unwrap();
    assert_eq!(arithmetic_cmd.name, "test_arithmetic");
    assert_eq!(arithmetic_cmd.statements.len(), 4);

    match &arithmetic_cmd.statements[0] {
        Statement::Assign(var, expr) => {
            assert_eq!(var.0, "x");
            match expr {
                Expr::BinaryOp {
                    op: BinaryOp::Multiply,
                    ..
                } => {}
                _ => panic!("Expected binary operation (multiplication)"),
            }
        }
        _ => panic!("Expected assignment statement"),
    }

    let comparison_cmd = &rig_file.impl_block.commands.get("test_comparisons").unwrap();
    assert_eq!(comparison_cmd.name, "test_comparisons");
    assert_eq!(comparison_cmd.statements.len(), 1);

    match &comparison_cmd.statements[0] {
        Statement::If { condition, .. } => match condition {
            Expr::BinaryOp {
                op: BinaryOp::Equal,
                ..
            } => {}
            _ => panic!("Expected equality comparison"),
        },
        _ => panic!("Expected if statement"),
    }
}

#[test]
fn test_string_interpolation_parsing() -> Result<(), ParseError> {
    let dsl_source = r#"
        impl Test for Rig {
            fn test_interpolation() {
                command = "FEFE94E0.25.{vfo:1}.{freq:int_lu:4}.FD";
                write(command);
            }
        }
    "#;

    let rig_file = parse(dsl_source)?;
    let cmd = &rig_file.impl_block.commands.get("test_interpolation").unwrap();
    assert_eq!(cmd.statements.len(), 2);

    match &cmd.statements[0] {
        Statement::Assign(var, expr) => {
            assert_eq!(var.as_str(), "command");
            match expr {
                Expr::StringInterpolation { parts } => {
                    assert_eq!(parts.len(), 4);

                    match &parts[0] {
                        InterpolationPart::Literal(bytes) => {
                            assert_eq!(bytes, &[0xFE, 0xFE, 0x94, 0xE0, 0x25]);
                        }
                        _ => panic!("Expected literal part"),
                    }

                    match &parts[1] {
                        InterpolationPart::Variable {
                            name,
                            format,
                            length,
                        } => {
                            assert_eq!(name, "vfo");
                            assert_eq!(format, &None);
                            assert_eq!(*length, 1);
                        }
                        _ => panic!("Expected variable part"),
                    }

                    match &parts[2] {
                        InterpolationPart::Variable {
                            name,
                            format,
                            length,
                        } => {
                            assert_eq!(name, "freq");
                            assert_eq!(format, &Some("int_lu".to_string()));
                            assert_eq!(*length, 4);
                        }
                        _ => panic!("Expected variable part"),
                    }

                    match &parts[3] {
                        InterpolationPart::Literal(bytes) => {
                            assert_eq!(bytes, &[0xFD]);
                        }
                        _ => panic!("Expected literal part"),
                    }
                }
                _ => panic!("Expected string interpolation"),
            }
        }
        _ => panic!("Expected assignment"),
    }
    Ok(())
}

#[test]
fn test_generic_function_calls() {
    let dsl_source = r#"
        impl Test for Rig {
            fn test_func() {
                write("data");
                read("response");
                send_command("AT", "OK");
                delay(100);
                custom_func();
            }
        }
    "#;

    let result = parse(dsl_source);
    assert!(result.is_ok());

    let rig_file = result.unwrap();
    let cmd = &rig_file.impl_block.commands.get("test_func").unwrap();
    assert_eq!(cmd.statements.len(), 5);

    match &cmd.statements[0] {
        Statement::FunctionCall { name, args } => {
            assert_eq!(name, "write");
            assert_eq!(args.len(), 1);
        }
        _ => panic!("Expected function call"),
    }

    match &cmd.statements[1] {
        Statement::FunctionCall { name, args } => {
            assert_eq!(name, "read");
            assert_eq!(args.len(), 1);
        }
        _ => panic!("Expected function call"),
    }

    match &cmd.statements[2] {
        Statement::FunctionCall { name, args } => {
            assert_eq!(name, "send_command");
            assert_eq!(args.len(), 2);
        }
        _ => panic!("Expected function call"),
    }

    match &cmd.statements[3] {
        Statement::FunctionCall { name, args } => {
            assert_eq!(name, "delay");
            assert_eq!(args.len(), 1);
            match &args[0] {
                Expr::Integer(n) => assert_eq!(*n, 100),
                _ => panic!("Expected integer"),
            }
        }
        _ => panic!("Expected function call"),
    }

    match &cmd.statements[4] {
        Statement::FunctionCall { name, args } => {
            assert_eq!(name, "custom_func");
            assert_eq!(args.len(), 0);
        }
        _ => panic!("Expected function call"),
    }
}

#[test]
fn test_missing_semicolon_error() {
    let dsl_source = r#"
        impl Test for Rig {
            fn test() {
                x = 42  // Missing semicolon
            }
        }
    "#;

    let result = parse(dsl_source);
    assert!(result.is_err());
    let error = result.unwrap_err();
    println!("Error:\n{}", error.message());
    assert!(error.message().contains("semicolon") || error.message().contains("Semicolon"));
}

#[test]
fn test_invalid_enum_syntax() {
    let dsl_source = r#"
        impl Test for Rig {
            enum TestEnum {
                A = "invalid",  // Should be integer
                B = 1,
            }
        }
    "#;

    let result = parse(dsl_source);
    assert!(result.is_err());
    let error = result.unwrap_err();
    println!("Error:\n{}", error.message());
}

#[test]
fn test_malformed_string_interpolation() {
    let dsl_source = r#"
         impl Test for Rig {
             fn test() {
                 command = "FEFE{var:}FD";  // Malformed - missing length
             }
         }
     "#;

    let result = parse(dsl_source);
    assert!(result.is_err());
    let error = result.unwrap_err();
    println!("Error:\n{}", error.message());
}

#[test]
fn test_invalid_parameter_types() {
    let dsl_source = r#"
         impl Test for Rig {
             fn test(123invalid param) {  // Invalid - starts with number
             }
         }
     "#;

    let result = parse(dsl_source);
    assert!(result.is_err());
    let error = result.unwrap_err();
    println!("Error:\n{}", error.message());
}

#[test]
fn test_missing_impl_block() {
    let dsl_source = r#"
        version = 1;
        // Missing impl block
    "#;

    let result = parse(dsl_source);
    assert!(result.is_err());
    let error = result.unwrap_err();
    println!("Error:\n{}", error.message());
}

#[test]
fn test_empty_functions_and_blocks() -> Result<(), ParseError> {
    let dsl_source = r#"
        impl Test for Rig {
            enum EmptyEnum {
            }
            init {
            }
            fn empty_function() {
            }
            status {
            }
        }
    "#;

    let rig_file = parse(dsl_source)?;
    assert_eq!(rig_file.impl_block.enums.len(), 1);
    assert_eq!(rig_file.impl_block.enums[0].variants.len(), 0);
    assert!(rig_file.impl_block.init.is_some());
    assert_eq!(
        rig_file.impl_block.init.as_ref().unwrap().statements.len(),
        0
    );
    assert_eq!(rig_file.impl_block.commands.len(), 1);
    assert_eq!(
        rig_file.impl_block.commands.get("empty_function").unwrap()
            .statements
            .len(),
        0
    );
    Ok(())
}

#[test]
fn test_hex_number_parsing() -> Result<(), ParseError> {
    let dsl_source = r#"
        version = 0xFF;
        baudrate = 0x2580;
        impl Test for Rig {
            fn test() {
                x = 0xABCD;
                y = 0x1;
            }
        }
    "#;

    let rig_file = parse(dsl_source)?;
    assert_eq!(rig_file.settings.settings.len(), 2);

    let cmd = &rig_file.impl_block.commands.get("test").unwrap();
    assert_eq!(cmd.statements.len(), 2);

    match &cmd.statements[0] {
        Statement::Assign(var, expr) => {
            assert_eq!(var.as_str(), "x");
            match expr {
                Expr::Integer(n) => assert_eq!(*n, 0xABCD),
                _ => panic!("Expected hex integer"),
            }
        }
        _ => panic!("Expected assignment"),
    }
    Ok(())
}

#[test]
fn test_float_parsing() -> Result<(), ParseError> {
    let dsl_source = r#"
        impl Test for Rig {
            fn test() {
                x = 4.14159;
                y = 0.5;
                z = 123.456;
            }
        }
    "#;

    let rig_file = parse(dsl_source)?;
    let cmd = &rig_file.impl_block.commands.get("test").unwrap();
    assert_eq!(cmd.statements.len(), 3);

    match &cmd.statements[0] {
        Statement::Assign(_, expr) => match expr {
            Expr::Float(f) => assert!((f.parse::<f64>().unwrap() - 4.14159).abs() < 1e-6),
            _ => panic!("Expected float"),
        },
        _ => panic!("Expected assignment"),
    }
    Ok(())
}

#[test]
fn test_very_long_identifier() -> Result<(), ParseError> {
    let long_id = "a".repeat(100);
    let dsl_source = format!(
        r#"
        impl Test for Rig {{
            fn test() {{
                {} = 42;
            }}
        }}
    "#,
        long_id
    );

    let rig_file = parse(&dsl_source)?;
    let cmd = &rig_file.impl_block.commands.get("test").unwrap();
    match &cmd.statements[0] {
        Statement::Assign(var, _) => {
            assert_eq!(var.as_str(), long_id);
        }
        _ => panic!("Expected assignment"),
    }
    Ok(())
}

#[test]
fn test_comments_in_various_positions() -> Result<(), ParseError> {
    let dsl_source = r#"
        // Top level comment
        version = 1; // Inline comment
        impl Test for Rig { // Comment after brace
            // Comment in impl block
            enum TestEnum {
                A = 0, // Comment after enum variant
                B = 1,
            }
            fn test() { // Comment in function
                // Comment before statement
                x = 42; // Comment after statement
            }
        }
    "#;

    let rig_file = parse(dsl_source)?;
    assert_eq!(rig_file.impl_block.enums.len(), 1);
    assert_eq!(rig_file.impl_block.commands.len(), 1);
    Ok(())
}

#[test]
fn test_string_interpolation_zero_length() {
    let dsl_source = r#"
        impl Test for Rig {
            fn test() {
                command = "FEFE{var:int_lu:0}FD";
            }
        }
    "#;

    let result = parse(dsl_source);
    assert!(result.is_ok());
}

#[test]
fn test_string_interpolation_large_length() -> Result<(), ParseError> {
    let dsl_source = r#"
        impl Test for Rig {
            fn test() {
                command = "FEFE{var:int_lu:1000}FD";
            }
        }
    "#;

    let rig_file = parse(dsl_source)?;
    let cmd = &rig_file.impl_block.commands.get("test").unwrap();
    match &cmd.statements[0] {
        Statement::Assign(_, expr) => match expr {
            Expr::StringInterpolation { parts } => match &parts[1] {
                InterpolationPart::Variable { length, .. } => {
                    assert_eq!(*length, 1000);
                }
                _ => panic!("Expected variable part"),
            },
            _ => panic!("Expected string interpolation"),
        },
        _ => panic!("Expected assignment"),
    }
    Ok(())
}

#[test]
fn test_mixed_hex_patterns() -> Result<(), ParseError> {
    let dsl_source = r#"
        impl Test for Rig {
            fn test() {
                command = "FEFE{var:2}94E0{freq:int_lu:4}FD";
            }
        }
    "#;

    let rig_file = parse(dsl_source)?;
    let cmd = &rig_file.impl_block.commands.get("test").unwrap();
    match &cmd.statements[0] {
        Statement::Assign(_, expr) => match expr {
            Expr::StringInterpolation { parts } => {
                assert_eq!(parts.len(), 5);
                match &parts[0] {
                    InterpolationPart::Literal(bytes) => {
                        assert_eq!(bytes, &[0xFE, 0xFE]);
                    }
                    _ => panic!("Expected literal part"),
                }
                match &parts[1] {
                    InterpolationPart::Variable { name, length, .. } => {
                        assert_eq!(name, "var");
                        assert_eq!(*length, 2);
                    }
                    _ => panic!("Expected variable part"),
                }
            }
            _ => panic!("Expected string interpolation"),
        },
        _ => panic!("Expected assignment"),
    }
    Ok(())
}

#[test]
fn test_deeply_nested_expressions() -> Result<(), ParseError> {
    let dsl_source = r#"
        impl Test for Rig {
            fn test() {
                result = ((a + b) * (c - d)) / ((e + f) - (g * h));
            }
        }
    "#;

    let rig_file = parse(dsl_source)?;
    let cmd = &rig_file.impl_block.commands.get("test").unwrap();
    match &cmd.statements[0] {
        Statement::Assign(_, expr) => match expr {
            Expr::BinaryOp {
                op: BinaryOp::Divide,
                ..
            } => {}
            _ => panic!("Expected deeply nested binary operation"),
        },
        _ => panic!("Expected assignment"),
    }
    Ok(())
}

#[test]
fn test_qualified_identifier_parsing() -> Result<(), ParseError> {
    let dsl_source = r#"
        impl Test for Rig {
            enum TestEnum {
                A = 0,
                B = 1,
            }
            fn test() {
                x = TestEnum::A;
                y = SomeOther::Value;
            }
        }
    "#;

    let rig_file = parse(dsl_source)?;
    let cmd = &rig_file.impl_block.commands.get("test").unwrap();
    assert_eq!(cmd.statements.len(), 2);

    match &cmd.statements[0] {
        Statement::Assign(_, expr) => match expr {
            Expr::QualifiedIdentifier(scope, id) => {
                assert_eq!(scope.as_str(), "TestEnum");
                assert_eq!(id.as_str(), "A");
            }
            _ => panic!("Expected qualified identifier"),
        },
        _ => panic!("Expected assignment"),
    }
    Ok(())
}

#[test]
fn test_mixed_expression_types() -> Result<(), ParseError> {
    let dsl_source = r#"
        impl Test for Rig {
            fn test() {
                result = 42 + 3.14 + identifier;
            }
        }
    "#;

    let rig_file = parse(dsl_source)?;
    let cmd = &rig_file.impl_block.commands.get("test").unwrap();
    match &cmd.statements[0] {
        Statement::Assign(_, expr) => match expr {
            Expr::BinaryOp { .. } => {}
            _ => panic!("Expected binary operation with mixed types"),
        },
        _ => panic!("Expected assignment"),
    }
    Ok(())
}


#[test]
fn atomic_expressions() {
    match parse_atomic_expr("42").unwrap() {
        Expr::Integer(n) => assert_eq!(n, 42),
        other => panic!("unexpected {other:?}"),
    }
    match parse_atomic_expr("0x1F").unwrap() {
        Expr::Integer(n) => assert_eq!(n, 31),
        other => panic!("unexpected {other:?}"),
    }
    match parse_atomic_expr("Mode::USB").unwrap() {
        Expr::QualifiedIdentifier(a, b) => {
            assert_eq!(a.as_str(), "Mode");
            assert_eq!(b.as_str(), "USB");
        }
        other => panic!("unexpected {other:?}"),
    }
    assert_eq!(parse_atomic_expr("1 + 2").unwrap_err(), "Parsing atomic expr failed");
    assert_eq!(parse_atomic_expr("x // note").unwrap_err(), "Parsing atomic expr failed");
    assert_eq!(parse_atomic_expr("\u{0}").unwrap_err(), "Lexer failed");
}

#[test]
fn syntax_error_report_has_place_and_excerpt() {
    let source = "impl Test for Rig {\n    fn f( {\n}\n";
    let error = parse(source).unwrap_err();
    let text = error.message();
    assert!(text.starts_with("Syntax error at line 2, column"));
    assert!(text.contains(" → 2 |     fn f( {\n"));
    assert!(text.contains("^\n"));
}

#[test]
fn tokenization_error_report() {
    let error = parse("impl \u{1} Rig").unwrap_err();
    assert_eq!(
        error.message(),
        "Invalid character at line 1, column 6\n → 1 | impl \u{1} Rig\n     |      ^\n\n"
    );
}

#[test]
fn error_level_changes_only_the_report() {
    for source in ["impl t for r { fn a() { x = ; } }", "impl t for r { fn a() {} }", "impl t for r { fn a() { $ } }"] {
        let results: Vec<_> = [ErrorLevel::Normal, ErrorLevel::Detailed, ErrorLevel::Verbose]
            .into_iter()
            .map(|level| (level, parse_with_level(source, level)))
            .collect();
        let ok = results[0].1.is_ok();
        for (level, r) in &results {
            assert_eq!(r.is_ok(), ok);
            if let Err(e) = r {
                assert_eq!(e.level, *level);
                assert_eq!(e.source, source);
                if e.can_report() {
                    let text = e.message();
                    let place = format!("line {}, column {}", e.position.line, e.position.column);
                    assert!(text.contains(&place), "{text}");
                }
            }
        }
    }
}
