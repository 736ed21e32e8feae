use holyrig::rigctld::{
    parse_rigctl_command, respond, ArgumentKind, ClientAction, DeviceStatus, RigctlCommand,
    RigctlError, StatusValue, DUMP_STATE,
};

fn reply_of(action: ClientAction) -> String {
    match action {
        ClientAction::Reply(text) => text,
        other => panic!("expected a reply, got {other:?}"),
    }
}

#[test]
fn reads_queries_with_their_line_end() {
    match parse_rigctl_command("f VFOA\n") {
        Ok(RigctlCommand::GetFreq(vfo)) => assert_eq!(vfo, "VFOA\n"),
        other => panic!("{other:?}"),
    }
    assert!(matches!(parse_rigctl_command("v\n"), Ok(RigctlCommand::GetVfo)));
    assert!(matches!(parse_rigctl_command("t\n"), Ok(RigctlCommand::GetPtt)));
    assert!(matches!(parse_rigctl_command("q\n"), Ok(RigctlCommand::Quit)));
    assert!(matches!(parse_rigctl_command("j"), Ok(RigctlCommand::GetRit)));
    assert!(matches!(parse_rigctl_command("z"), Ok(RigctlCommand::GetXit)));
}

#[test]
fn reads_settings() {
    match parse_rigctl_command("F 14074000 VFOA\n") {
        Ok(RigctlCommand::SetFreq(f)) => assert_eq!(f, "14074000"),
        other => panic!("{other:?}"),
    }
    match parse_rigctl_command("M USB 0") {
        Ok(RigctlCommand::SetMode(m)) => assert_eq!(m, "USB"),
        other => panic!("{other:?}"),
    }
    assert!(matches!(parse_rigctl_command("T true"), Ok(RigctlCommand::SetPtt(true))));
    assert!(matches!(parse_rigctl_command("S false"), Ok(RigctlCommand::SetSplit(false))));
    assert!(matches!(parse_rigctl_command("J -100"), Ok(RigctlCommand::SetRit(-100))));
    assert!(matches!(parse_rigctl_command("Z +25 x"), Ok(RigctlCommand::SetXit(25))));
    assert!(matches!(parse_rigctl_command("J -2147483648"), Ok(RigctlCommand::SetRit(i32::MIN))));
}

#[test]
fn reads_long_commands_after_a_backslash() {
    assert!(matches!(parse_rigctl_command("\\dump_state\n"), Ok(RigctlCommand::DumpState)));
    assert!(matches!(parse_rigctl_command("\\ chk_vfo \r\n"), Ok(RigctlCommand::CheckVfo)));
    assert!(matches!(parse_rigctl_command("\\get_powerstat"), Ok(RigctlCommand::GetPowerstat)));
    match parse_rigctl_command("\\get_level\n") {
        Err(e) => assert_eq!(e.message(), "Unknown command: \\get_level\n"),
        other => panic!("{other:?}"),
    }
}

#[test]
fn explains_lines_it_cannot_read() {
    let message = |line: &str| match parse_rigctl_command(line) {
        Err(e) => e.message(),
        Ok(c) => panic!("{c:?}"),
    };
    assert_eq!(message(""), "Empty command");
    assert_eq!(message(" f VFOA"), "Empty command");
    assert_eq!(message("F"), "Missing freq");
    assert_eq!(message("f\n"), "Missing VFO");
    assert_eq!(message("T"), "Missing PTT");
    assert_eq!(message("T 1\n"), "provided string was not `true` or `false`");
    assert_eq!(message("J 12a"), "invalid digit found in string");
    assert_eq!(message("J -"), "invalid digit found in string");
    assert_eq!(message("J 99999999999x"), "number too large to fit in target type");
    assert_eq!(message("Z -2147483649"), "number too small to fit in target type");
    assert_eq!(message("J 5\n"), "invalid digit found in string");
    assert_eq!(message("x 1"), "Unknown command: x");
    assert!(matches!(
        parse_rigctl_command("M"),
        Err(RigctlError::MissingArgument(ArgumentKind::Mode))
    ));
    assert_eq!(RigctlError::InvalidFrequency(String::new()).message(), "cannot parse float from empty string");
    assert_eq!(RigctlError::InvalidFrequency("1e".to_string()).message(), "invalid float literal");
}

#[test]
fn answers_queries_from_the_status() {
    let mut status = DeviceStatus::new();
    assert_eq!(reply_of(respond(&status, parse_rigctl_command("f VFOA\n"))), "0\n");
    assert_eq!(reply_of(respond(&status, parse_rigctl_command("m VFOA\n"))), "USB 0\n");
    assert_eq!(reply_of(respond(&status, parse_rigctl_command("v\n"))), "VFOA\n");

    status.update("freq_a", StatusValue::Integer(14_074_000));
    status.update("freq_b", StatusValue::Integer(-7));
    status.update("mode", StatusValue::Text("CW".to_string()));
    status.update("vfo", StatusValue::Text("B".to_string()));
    status.update("transmit", StatusValue::Boolean(true));
    status.update("rit", StatusValue::Boolean(true));
    status.update("freq_a", StatusValue::Boolean(false));
    status.update("power", StatusValue::Integer(5));
    status.update("xit", StatusValue::Other);

    assert_eq!(reply_of(respond(&status, parse_rigctl_command("f VFOA\n"))), "14074000\n");
    assert_eq!(reply_of(respond(&status, parse_rigctl_command("f VFOB\n"))), "-7\n");
    assert_eq!(reply_of(respond(&status, parse_rigctl_command("m VFOA\n"))), "CW 0\n");
    assert_eq!(reply_of(respond(&status, parse_rigctl_command("v\n"))), "VFOB\n");
    assert_eq!(reply_of(respond(&status, parse_rigctl_command("t\n"))), "1\n");
    assert_eq!(reply_of(respond(&status, parse_rigctl_command("j\n"))), "1\n");
    assert_eq!(reply_of(respond(&status, parse_rigctl_command("z\n"))), "0\n");
    assert_eq!(reply_of(respond(&status, parse_rigctl_command("s VFOA\n"))), "0\nVFOB\n");
}

#[test]
fn fixed_answers() {
    let status = DeviceStatus::new();
    assert_eq!(reply_of(respond(&status, parse_rigctl_command("\\get_powerstat\n"))), "1\n");
    assert_eq!(reply_of(respond(&status, parse_rigctl_command("\\chk_vfo\n"))), "1\n");
    assert_eq!(reply_of(respond(&status, parse_rigctl_command("J -5"))), "RPRT -1\n");
    assert_eq!(reply_of(respond(&status, parse_rigctl_command("Z 5"))), "RPRT -1\n");
    assert_eq!(reply_of(respond(&status, parse_rigctl_command("nonsense"))), "RPRT 1\n");
    let dump = reply_of(respond(&status, parse_rigctl_command("\\dump_state\n")));
    assert_eq!(dump, DUMP_STATE);
    assert!(dump.starts_with("1\n0\n7073\n"));
    assert!(dump.contains("1 2\n 20\n 0xfc00c90133fe\n"));
    assert!(dump.ends_with("done\n"));
    assert!(matches!(respond(&status, parse_rigctl_command("q\n")), ClientAction::Close));
}

#[test]
fn unknown_vfo_ends_the_session() {
    let status = DeviceStatus::new();
    match respond(&status, parse_rigctl_command("f VFOC\n")) {
        ClientAction::Fail(m) => assert_eq!(m, "Unknown vfo: VFOC\n"),
        other => panic!("{other:?}"),
    }
}

#[test]
fn settings_become_rig_commands() {
    let status = DeviceStatus::new();
    let execute = |line: &str| match respond(&status, parse_rigctl_command(line)) {
        ClientAction::Execute { command_name, params, reply } => {
            assert_eq!(reply, "RPRT 0\n");
            (command_name, params)
        }
        other => panic!("{other:?}"),
    };
    let pairs = |v: &[(&str, &str)]| -> Vec<(String, String)> {
        v.iter().map(|(a, b)| (a.to_string(), b.to_string())).collect()
    };
    assert_eq!(
        execute("F 7000000 x"),
        ("set_freq".to_string(), pairs(&[("freq", "7000000"), ("target", "Current")]))
    );
    assert_eq!(execute("M LSB 0"), ("set_mode".to_string(), pairs(&[("mode", "LSB")])));
    assert_eq!(
        execute("V VFOB\n"),
        ("set_vfo".to_string(), pairs(&[("rx", "VFOB\n"), ("tx", "VFOB\n")]))
    );
    assert_eq!(execute("T true 1"), ("transmit".to_string(), pairs(&[("tx", "true")])));
    assert_eq!(execute("S false x"), ("set_split".to_string(), pairs(&[("split", "false")])));
}
