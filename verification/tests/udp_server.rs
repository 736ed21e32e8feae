use holyrig::commands::Value;
use holyrig::name_map::NameMap;
use holyrig::schema::{Command, General, Schema, ValueType};
use holyrig::udp_server::{
    command_result_reply, connection_reply, invalid_command_reply, parse_command, UdpCommandError,
};

fn schema() -> Schema {
    let mut commands = NameMap::new();
    commands.insert(
        "set_freq".to_string(),
        Command {
            params: vec![
                ("freq".to_string(), ValueType::Int),
                ("vfo".to_string(), ValueType::Enum("Vfo".to_string())),
            ],
            results: vec![],
        },
    );
    commands.insert(
        "transmit".to_string(),
        Command { params: vec![("tx".to_string(), ValueType::Bool)], results: vec![] },
    );
    Schema {
        general: General { rig_type: "transceiver".to_string(), version: 1 },
        enums: NameMap::new(),
        commands,
    }
}

fn error_of(line: &str) -> UdpCommandError {
    match parse_command(line, &schema()) {
        Err(e) => e,
        Ok(c) => panic!("{c:?}"),
    }
}

#[test]
fn reads_a_command_with_typed_parameters() {
    let (device, name, params) = parse_command("0 set_freq freq=14074000 vfo=A\n", &schema()).unwrap();
    assert_eq!(device, 0);
    assert_eq!(name, "set_freq");
    assert_eq!(
        params,
        vec![
            ("freq".to_string(), Value::Int(14074000)),
            ("vfo".to_string(), Value::Enum("A".to_string()))
        ]
    );
    let (device, _, params) = parse_command("  12\ttransmit tx=true=ignored  ", &schema()).unwrap();
    assert_eq!(device, 12);
    assert_eq!(params, vec![("tx".to_string(), Value::Bool(true))]);
}

#[test]
fn a_command_without_parameters_is_not_looked_up() {
    let (device, name, params) = parse_command("3 no_such_command", &schema()).unwrap();
    assert_eq!((device, name.as_str(), params.len()), (3, "no_such_command", 0));
}

#[test]
fn explains_refused_lines() {
    assert_eq!(error_of(""), UdpCommandError::MissingDeviceId);
    assert_eq!(error_of(" \n"), UdpCommandError::MissingDeviceId);
    assert_eq!(error_of("x set_freq"), UdpCommandError::InvalidDeviceId("x".to_string()));
    assert_eq!(error_of("-1 set_freq").message(), "invalid digit found in string");
    assert_eq!(error_of("99999999999999999999 a").message(), "number too large to fit in target type");
    assert_eq!(error_of("0"), UdpCommandError::MissingCommandName);
    assert_eq!(error_of("0 set_freq freq"), UdpCommandError::InvalidParameterFormat);
    assert_eq!(error_of("0 tune freq=1"), UdpCommandError::UnknownCommand);
    assert_eq!(error_of("0 set_freq mode=1"), UdpCommandError::UnknownParam);
    assert_eq!(error_of("0 set_freq freq=fast").message(), "invalid digit found in string");
    assert_eq!(error_of("0 transmit tx=1").message(), "provided string was not `true` or `false`");
    assert_eq!(error_of("0 set_freq freq").message(), "Invalid parameter format");
    assert_eq!(
        invalid_command_reply(&error_of("0 tune freq=1")),
        "ERROR: Invalid command format - Unknown command\n"
    );
}

#[test]
fn builds_values_of_each_type() {
    assert_eq!(ValueType::Int.build_value("-9223372036854775808"), Ok(Value::Int(i64::MIN)));
    assert_eq!(ValueType::Int.build_value("+7"), Ok(Value::Int(7)));
    assert_eq!(
        ValueType::Int.build_value("9223372036854775808"),
        Err("number too large to fit in target type".to_string())
    );
    assert_eq!(ValueType::Int.build_value(""), Err("cannot parse integer from empty string".to_string()));
    assert_eq!(ValueType::Bool.build_value("false"), Ok(Value::Bool(false)));
    assert_eq!(
        ValueType::Bool.build_value("True"),
        Err("provided string was not `true` or `false`".to_string())
    );
    assert_eq!(ValueType::Enum("Mode".to_string()).build_value("USB"), Ok(Value::Enum("USB".to_string())));
}

#[test]
fn tells_the_sender_what_happened() {
    assert_eq!(command_result_reply(2, "set_freq", None), "Executed command set_freq on device 2\n");
    assert_eq!(
        command_result_reply(0, "transmit", Some("timeout")),
        "Failed executing command transmit on device 0: timeout\n"
    );
    assert_eq!(connection_reply(7, true), "Device 7 connected");
    assert_eq!(connection_reply(7, false), "Device 7 disconnected");
}

#[test]
fn a_parameter_given_twice_keeps_its_last_value() {
    let (_, _, params) = parse_command("1 set_freq freq=7 vfo=A freq=14", &schema()).unwrap();
    assert_eq!(
        params,
        vec![("freq".to_string(), Value::Int(14)), ("vfo".to_string(), Value::Enum("A".to_string()))]
    );
}
