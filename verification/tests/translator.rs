use holyrig::data_format::DataFormat;
use holyrig::omnirig_parser::{Command, EndOfData, RigDescription};
use holyrig::translator::{
    convert_command, determine_command_name, extract_mode_params, extract_toggle_params,
    find_mode_param_location, find_param_location, find_toggle_param_location, mode_from_uppercase,
    translate_omnirig_to_rig, TranslateError,
};

fn command(name: &str, text: &str) -> Command {
    Command {
        name: name.to_string(),
        command: text.to_string(),
        end_of_data: EndOfData::Length(0),
        validate: None,
        value: None,
        values: vec![],
        flags: vec![],
    }
}

#[test]
fn test_toggle_params_extraction() {
    let test_cases = vec![
        (
            "Split",
            vec![
                ("pmSplitOn", Some(true)),
                ("pmSplitOff", Some(false)),
                ("pmFreq", None),
            ],
        ),
        (
            "Rit",
            vec![
                ("pmRitOn", Some(true)),
                ("pmRitOff", Some(false)),
                ("pmFreq", None),
            ],
        ),
        (
            "Xit",
            vec![
                ("pmXitOn", Some(true)),
                ("pmXitOff", Some(false)),
                ("pmFreq", None),
            ],
        ),
    ];

    for (cmd_type, cases) in test_cases {
        for (input, expected) in cases {
            assert_eq!(
                extract_toggle_params(input, cmd_type),
                expected,
                "Failed for {cmd_type} with input {input}"
            );
        }
    }
}

#[test]
fn test_command_name_mapping() {
    let test_cases = vec![
        ("pmFreq", "set_freq"),
        ("pmFreqA", "set_freq"),
        ("pmFreqB", "set_freq"),
        ("pmPitch", "cw_pitch"),
        ("pmRitOffset", "rit_offset"),
        ("pmRit0", "clear_rit"),
        ("pmRitOn", "set_rit"),
        ("pmRitOff", "set_rit"),
        ("pmVfoAA", "set_vfo"),
        ("pmVfoAB", "set_vfo"),
        ("pmVfoBA", "set_vfo"),
        ("pmVfoBB", "set_vfo"),
        ("pmVfoA", "set_vfo"),
        ("pmVfoB", "set_vfo"),
        ("pmVfoEqual", "vfo_equal"),
        ("pmVfoSwap", "vfo_swap"),
        ("pmSplitOn", "set_split"),
        ("pmSplitOff", "set_split"),
        ("pmXitOn", "set_xit"),
        ("pmXitOff", "set_xit"),
        ("pmCW_U", "set_mode"),
        ("pmCW_L", "set_mode"),
        ("pmSSB_U", "set_mode"),
        ("pmSSB_L", "set_mode"),
        ("pmDIG_U", "set_mode"),
        ("pmDIG_L", "set_mode"),
        ("pmAM", "set_mode"),
        ("pmFM", "set_mode"),
    ];

    for (input, expected) in test_cases {
        let cmd = command(input, "test");
        assert_eq!(determine_command_name(&cmd).unwrap().name, expected);
    }
}

#[test]
fn toggle_names_ignore_case() {
    assert_eq!(extract_toggle_params("pmspliton", "split"), Some(true));
    assert_eq!(extract_toggle_params("PMSPLITOFF", "Split"), Some(false));
    assert_eq!(extract_toggle_params("pmsplit", "split"), None);
    assert_eq!(extract_toggle_params("pmsplitonx", "split"), None);
}

#[test]
fn mode_params_from_names() {
    assert_eq!(
        extract_mode_params("pmCW_U"),
        Some(("CW".to_string(), Some("Upper".to_string())))
    );
    assert_eq!(
        extract_mode_params("pmssb_l"),
        Some(("SSB".to_string(), Some("Lower".to_string())))
    );
    assert_eq!(extract_mode_params("pmAM"), Some(("AM".to_string(), None)));
    assert_eq!(extract_mode_params("pmfm"), Some(("FM".to_string(), None)));
    assert_eq!(extract_mode_params("PMAM"), None);
    assert_eq!(extract_mode_params("pmFreq"), None);
    assert_eq!(extract_mode_params("p"), None);
    assert_eq!(
        mode_from_uppercase("DIG_U"),
        Some(("DIG".to_string(), Some("Upper".to_string())))
    );
    assert_eq!(mode_from_uppercase("dig_u"), None);
}

#[test]
fn unknown_command_is_refused() {
    let cmd = command("pmBogus", "FE");
    match determine_command_name(&cmd) {
        Err(TranslateError::UnknownCommand(name)) => assert_eq!(name, "pmBogus"),
        other => panic!("unexpected {other:?}"),
    }
}

#[test]
fn toggle_translation_carries_its_value() {
    let t = determine_command_name(&command("pmRitOff", "x")).unwrap();
    assert_eq!(t.name, "set_rit");
    assert_eq!(t.toggle_param, Some(("rit".to_string(), false)));
    assert!(t.mode_params.is_none());
    let m = determine_command_name(&command("pmDIG_L", "x")).unwrap();
    assert_eq!(
        m.mode_params,
        Some(("DIG".to_string(), Some("Lower".to_string())))
    );
}

#[test]
fn param_location_between_shared_ends() {
    let commands = vec![
        command("pmCW_U", "FEFE94E01201FD"),
        command("pmCW_L", "FEFE94E01202FD"),
    ];
    let loc = find_param_location(&commands).unwrap();
    assert_eq!(loc.offset, 11);
    assert_eq!(loc.length, 1);
    let loc = find_mode_param_location(&commands).unwrap();
    assert_eq!(loc.offset, 11);
    assert_eq!(loc.length, 1);

    let three = vec![
        command("a", "AB123CD"),
        command("b", "AB456CD"),
        command("c", "AB1X9CD"),
    ];
    let loc = find_param_location(&three).unwrap();
    assert_eq!(loc.offset, 2);
    assert_eq!(loc.length, 3);

    assert!(find_param_location(&commands[..1]).is_none());
    assert!(find_param_location(&[]).is_none());
}

#[test]
fn toggle_location_uses_only_its_family() {
    let commands = vec![
        command("pmSplitOn", "FEFE94E00F01FD"),
        command("pmFreq", "FEFE94E005FD"),
        command("pmSplitOff", "FEFE94E00F00FD"),
    ];
    let loc = find_toggle_param_location(&commands, "split").unwrap();
    assert_eq!(loc.offset, 11);
    assert_eq!(loc.length, 1);
    assert!(find_toggle_param_location(&commands, "rit").is_none());
}

#[test]
fn convert_reads_the_value_field() {
    let mut cmd = command("pmFreq", "FEFE94E005..........FD");
    cmd.value = Some("5|5|vfBcdLU|1|0".to_string());
    cmd.validate = Some("FEFEE094FBFD".to_string());
    let rc = convert_command(&cmd);
    assert_eq!(rc.command, "FEFE94E005..........FD");
    assert_eq!(rc.response.as_deref(), Some("FEFEE094FBFD"));
    assert_eq!(rc.reply_length, Some(0));
    assert_eq!(rc.reply_end, None);
    let p = rc.params.get("value").unwrap();
    assert_eq!(p.index, 5);
    assert_eq!(p.length, 5);
    assert_eq!(p.format, DataFormat::BcdLu);
    assert_eq!(p.multiply.as_deref(), Some("1"));
    assert_eq!(p.add.as_deref(), Some("0"));
    assert!(rc.returns.is_empty());

    let mut short = command("pmPitch", "FE");
    short.value = Some("+7|x|vfWeird".to_string());
    short.end_of_data = EndOfData::String("FD".to_string());
    let rc = convert_command(&short);
    let p = rc.params.get("value").unwrap();
    assert_eq!(p.index, 7);
    assert_eq!(p.length, 0);
    assert_eq!(p.format, DataFormat::Text);
    assert_eq!(p.multiply, None);
    assert_eq!(rc.reply_length, None);
    assert_eq!(rc.reply_end.as_deref(), Some("FD"));

    let mut two = command("pmPitch", "FE");
    two.value = Some("1|2".to_string());
    assert!(convert_command(&two).params.is_empty());
}

#[test]
fn translate_whole_description() {
    let mut desc = RigDescription::new();
    desc.init_commands.push(command("init1", "FEFE94E0FD"));
    desc.param_commands.push(command("pmCW_U", "FEFE94E00603FD"));
    desc.param_commands.push(command("pmAM", "FEFE94E00602FD"));
    desc.param_commands.push(command("pmRitOn", "FEFE94E02101FD"));
    desc.param_commands.push(command("pmRitOff", "FEFE94E02100FD"));
    desc.param_commands.push(command("pmFreqA", "AAAA"));
    desc.param_commands.push(command("pmFreqB", "BBBB"));
    desc.status_commands.push(command("status1", "FEFE94E003FD"));

    let rig = translate_omnirig_to_rig(desc).unwrap();
    assert_eq!(rig.general.rig_type, "transceiver");
    assert_eq!(rig.general.version, 1);
    assert_eq!(rig.init.len(), 1);
    assert_eq!(rig.status.len(), 1);
    assert_eq!(rig.commands.len(), 3);

    let mode = rig.commands.get("set_mode").unwrap();
    assert_eq!(mode.command, "FEFE94E00602FD");
    let mp = mode.params.get("mode").unwrap();
    assert_eq!((mp.index, mp.length, mp.format), (11, 1, DataFormat::Text));

    let rit = rig.commands.get("set_rit").unwrap();
    assert_eq!(rit.command, "FEFE94E02100FD");
    let rp = rit.params.get("rit").unwrap();
    assert_eq!((rp.index, rp.length, rp.format), (11, 1, DataFormat::IntLu));

    assert_eq!(rig.commands.get("set_freq").unwrap().command, "BBBB");
}

#[test]
fn translate_stops_at_unknown_command() {
    let mut desc = RigDescription::new();
    desc.param_commands.push(command("pmFreq", "AA"));
    desc.param_commands.push(command("pmMystery", "BB"));
    desc.param_commands.push(command("pmOther", "CC"));
    match translate_omnirig_to_rig(desc) {
        Err(TranslateError::UnknownCommand(name)) => assert_eq!(name, "pmMystery"),
        Ok(_) => panic!("translation should fail"),
    }
}
