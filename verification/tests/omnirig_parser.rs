use holyrig::omnirig_parser::{
    describe_rig, kind_from_uppercase, parse_ini_data, read_omnirig_description, EndOfData, IniSection,
    OmniRigError, SectionKind,
};

const RIG: &str = "\
[INIT1]
Command=FEFE94E0.1A0500.FD
ReplyLength=14

[pmFreq]
Command=FEFE94E0.05.0000000000.FD
Value=5|5|vfBcdLU|1|0
ReplyLength=11
Validate=FEFEE094FBFD

[STATUS1]
Command=FEFE94E0.03.FD
ReplyEnd=FD
Value2=11|5|vfBcdLU|1|0|pmFreqB
Value10=11|5|vfBcdLU|1|0|pmPitch
Value1=11|5|vfBcdLU|1|0|pmFreqA
Flag1=..............00..|pmRitOff
Flag0=..............01..|pmRitOn
";

#[test]
fn ini_sections_become_commands() {
    let d = parse_ini_data(RIG.to_string()).unwrap();
    assert_eq!(d.init_commands.len(), 1);
    assert_eq!(d.param_commands.len(), 1);
    assert_eq!(d.status_commands.len(), 1);

    let init = &d.init_commands[0];
    assert_eq!(init.name, "init1");
    assert_eq!(init.command, "FEFE94E0.1A0500.FD");
    assert!(matches!(init.end_of_data, EndOfData::Length(14)));

    let freq = &d.param_commands[0];
    assert_eq!(freq.name, "pmfreq");
    assert_eq!(freq.value.as_deref(), Some("5|5|vfBcdLU|1|0"));
    assert_eq!(freq.validate.as_deref(), Some("FEFEE094FBFD"));

    let status = &d.status_commands[0];
    assert!(matches!(&status.end_of_data, EndOfData::String(s) if s == "FD"));
    assert_eq!(
        status.values,
        vec![
            "11|5|vfBcdLU|1|0|pmFreqA".to_string(),
            "11|5|vfBcdLU|1|0|pmFreqB".to_string(),
            "11|5|vfBcdLU|1|0|pmPitch".to_string(),
        ]
    );
    assert_eq!(
        status.flags,
        vec![
            "..............01..|pmRitOn".to_string(),
            "..............00..|pmRitOff".to_string(),
        ]
    );
}

#[test]
fn reply_fields_are_checked() {
    let both = "[pmA]\nCommand=FE\nReplyEnd=FD\nReplyLength=3\n";
    let e = parse_ini_data(both.to_string()).unwrap_err();
    assert_eq!(
        e.message(),
        "Cannot have both ReplyEnd and replyLength fields in section pma"
    );

    let none = "[pmB]\nCommand=FE\n";
    let e = parse_ini_data(none.to_string()).unwrap_err();
    assert_eq!(
        e.message(),
        "Missing ReplyEnd or replyLength fields in section pmb"
    );

    let bad = "[pmC]\nCommand=FE\nReplyLength=x1\n";
    let e = parse_ini_data(bad.to_string()).unwrap_err();
    assert!(matches!(&e, OmniRigError::ReplyLength { value, .. } if value == "x1"));
    assert_eq!(e.message(), "invalid digit found in string");
}

#[test]
fn sections_without_command_are_skipped() {
    let text = "[General]\nName=IC-7300\n\n[pmTx]\nCommand=FEFE94E01C0001FD\nReplyLength=0\n";
    let d = parse_ini_data(text.to_string()).unwrap();
    assert_eq!(d.param_commands.len(), 1);
    assert!(d.init_commands.is_empty() && d.status_commands.is_empty());
}

#[test]
fn unreadable_ini_gives_none() {
    assert!(read_omnirig_description("[broken\nCommand=FE\n".to_string()).is_none());
    assert!(read_omnirig_description("[ok]\nCommand=FE\nReplyLength=+5\n".to_string())
        .unwrap()
        .is_ok());
}

#[test]
fn describe_given_sections_in_order() {
    let sections = vec![
        IniSection {
            name: "pmb".to_string(),
            entries: vec![
                ("command".to_string(), Some("BB".to_string())),
                ("replylength".to_string(), Some("2".to_string())),
            ],
        },
        IniSection {
            name: "pma".to_string(),
            entries: vec![
                ("replyend".to_string(), Some("FD".to_string())),
                ("command".to_string(), Some("AA".to_string())),
            ],
        },
        IniSection {
            name: "pmc".to_string(),
            entries: vec![("command".to_string(), Some("CC".to_string()))],
        },
    ];
    match describe_rig(sections) {
        Err(OmniRigError::MissingReplyFields { section }) => assert_eq!(section, "pmc"),
        other => panic!("unexpected {other:?}"),
    }

    let sections = vec![
        IniSection {
            name: "pmb".to_string(),
            entries: vec![
                ("command".to_string(), Some("BB".to_string())),
                ("replylength".to_string(), Some("99999999999".to_string())),
            ],
        },
    ];
    let e = describe_rig(sections).unwrap_err();
    assert_eq!(e.message(), "number too large to fit in target type");
}

#[test]
fn section_groups_follow_the_upper_case_name() {
    assert_eq!(kind_from_uppercase("INIT1"), SectionKind::Init);
    assert_eq!(kind_from_uppercase("STATUS3"), SectionKind::Status);
    assert_eq!(kind_from_uppercase("PMFREQ"), SectionKind::Param);
    assert_eq!(kind_from_uppercase("init1"), SectionKind::Param);
}

#[test]
fn one_failing_section_fails_the_whole_in_any_order() {
    let text = "[pmA]\nCommand=FE\nReplyLength=1\n[pmB]\nCommand=FE\n[pmC]\nCommand=FE\nReplyEnd=FD\n";
    for _ in 0..5 {
        let e = parse_ini_data(text.to_string()).unwrap_err();
        assert_eq!(e.message(), "Missing ReplyEnd or replyLength fields in section pmb");
    }
    let fixed = "[pmA]\nCommand=FE\nReplyLength=1\n[pmC]\nCommand=FE\nReplyEnd=FD\n";
    let d = parse_ini_data(fixed.to_string()).unwrap();
    let mut names: Vec<_> = d.param_commands.iter().map(|c| c.name.clone()).collect();
    names.sort();
    assert_eq!(names, vec!["pma".to_string(), "pmc".to_string()]);
}
