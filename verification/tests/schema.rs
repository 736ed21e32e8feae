use holyrig::name_map::NameMap;
use holyrig::schema::{Command, Enum, General, Schema, SchemaError, ValueType};

fn schema(rig_type: &str, version: u32) -> Schema {
    Schema {
        general: General {
            rig_type: rig_type.to_string(),
            version,
        },
        enums: NameMap::new(),
        commands: NameMap::new(),
    }
}

fn members(names: &[&str]) -> Enum {
    Enum {
        members: names.iter().map(|n| n.to_string()).collect(),
    }
}

fn set_freq(params: &[(&str, ValueType)]) -> Command {
    Command {
        params: params
            .iter()
            .map(|(n, t)| (n.to_string(), t.clone()))
            .collect(),
        results: vec![],
    }
}

#[test]
fn test_valid_schema() {
    let mut schema = schema("transceiver", 1);
    schema
        .enums
        .insert("vfo".to_string(), members(&["A", "B", "current"]));
    schema.commands.insert(
        "set_freq".to_string(),
        set_freq(&[
            ("freq", ValueType::Int),
            ("target", ValueType::Enum("vfo".to_string())),
        ]),
    );
    assert!(schema.validate().is_ok());
}

#[test]
fn test_invalid_rig_type() {
    let mut schema = schema("invalid", 1);
    schema.commands.insert(
        "set_freq".to_string(),
        set_freq(&[
            ("freq", ValueType::Int),
            ("target", ValueType::Enum("vfo".to_string())),
        ]),
    );
    match schema.validate() {
        Err(SchemaError::InvalidRigType(ty)) => assert_eq!(ty, "invalid"),
        other => panic!("Expected InvalidRigType error, got {other:?}"),
    }
}

#[test]
fn test_invalid_version() {
    let mut schema = schema("transceiver", 2);
    schema.commands.insert(
        "set_freq".to_string(),
        set_freq(&[
            ("freq", ValueType::Int),
            ("target", ValueType::Enum("vfo".to_string())),
        ]),
    );
    match schema.validate() {
        Err(SchemaError::InvalidVersion(ver)) => assert_eq!(ver, 2),
        other => panic!("Expected InvalidVersion error, got {other:?}"),
    }
}

#[test]
fn test_duplicate_enum_member() {
    let mut schema = schema("transceiver", 1);
    schema
        .enums
        .insert("vfo".to_string(), members(&["A", "A", "B"]));
    schema.commands.insert(
        "set_freq".to_string(),
        set_freq(&[
            ("freq", ValueType::Int),
            ("target", ValueType::Enum("vfo".to_string())),
        ]),
    );
    match schema.validate() {
        Err(SchemaError::DuplicateEnumMember { enum_name, member }) => {
            assert_eq!(enum_name, "vfo");
            assert_eq!(member, "A");
        }
        other => panic!("Expected DuplicateEnumMember error, got {other:?}"),
    }
}

#[test]
fn test_undefined_enum_type() {
    let mut schema = schema("transceiver", 1);
    schema.commands.insert(
        "set_freq".to_string(),
        set_freq(&[("target", ValueType::Enum("undefined_enum".to_string()))]),
    );
    match schema.validate() {
        Err(SchemaError::UndefinedType {
            command,
            param,
            undefined_type,
        }) => {
            assert_eq!(command, "set_freq");
            assert_eq!(param, "target");
            assert_eq!(undefined_type, "undefined_enum");
        }
        other => panic!("Expected UndefinedType error, got {other:?}"),
    }
}

#[test]
fn test_duplicate_param_name() {
    let mut schema = schema("transceiver", 1);
    schema.commands.insert(
        "set_freq".to_string(),
        set_freq(&[("freq", ValueType::Int), ("freq", ValueType::Int)]),
    );
    match schema.validate() {
        Err(SchemaError::DuplicateParameter { command, param }) => {
            assert_eq!(command, "set_freq");
            assert_eq!(param, "freq");
        }
        other => panic!("Expected DuplicateParameter error, got {other:?}"),
    }
}

#[test]
fn test_schema_with_valid_enums() {
    let mut schema = schema("transceiver", 1);
    schema
        .enums
        .insert("Mode".to_string(), members(&["LSB", "USB", "CW"]));
    let cmd = Command {
        params: vec![("mode".to_string(), ValueType::Enum("Mode".to_string()))],
        results: vec![],
    };
    schema.commands.insert("set_mode".to_string(), cmd);
    assert!(schema.validate().is_ok());
}

#[test]
fn test_schema_with_invalid_enum_reference() {
    let mut schema = schema("transceiver", 1);
    let cmd = Command {
        params: vec![(
            "mode".to_string(),
            ValueType::Enum("NonExistentEnum".to_string()),
        )],
        results: vec![],
    };
    schema.commands.insert("set_mode".to_string(), cmd);
    assert!(schema.validate().is_err());
}

#[test]
fn test_schema_with_empty_enum() {
    let mut schema = schema("transceiver", 1);
    schema.enums.insert("EmptyEnum".to_string(), Enum { members: vec![] });
    let cmd = Command {
        params: vec![(
            "param".to_string(),
            ValueType::Enum("EmptyEnum".to_string()),
        )],
        results: vec![],
    };
    schema.commands.insert("test_cmd".to_string(), cmd);
    assert!(schema.validate().is_err());
}

#[test]
fn test_duplicate_return_value() {
    let mut schema = schema("transceiver", 1);
    let cmd = Command {
        params: vec![("param".to_string(), ValueType::Int)],
        results: vec![
            ("result".to_string(), ValueType::Int),
            ("result".to_string(), ValueType::Int),
        ],
    };
    schema.commands.insert("test_cmd".to_string(), cmd);
    assert!(schema.validate().is_err());
}

#[test]
fn schema_error_messages() {
    assert_eq!(
        SchemaError::InvalidVersion(7).message(),
        "Invalid version: 7"
    );
    assert_eq!(
        SchemaError::UndefinedType {
            command: "set_mode".to_string(),
            param: "mode".to_string(),
            undefined_type: "Band".to_string(),
        }
        .message(),
        "Command set_mode parameter mode has undefined type Band"
    );
    assert_eq!(
        SchemaError::EmptyEnum("Vfo".to_string()).message(),
        "Enum Vfo has no members"
    );
}
