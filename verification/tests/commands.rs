use holyrig::commands::{validate_command, BinMask, CommandError};

#[test]
fn test_basic_mask() -> Result<(), CommandError> {
    let mask = BinMask::try_from("FEFE94E025??FD")?;
    assert_eq!(mask.data, vec![0xFE, 0xFE, 0x94, 0xE0, 0x25, 0x00, 0xFD]);
    assert_eq!(mask.masks, vec![(5, 1)]);
    Ok(())
}

#[test]
fn test_valid_params() {
    let mask = BinMask::try_from("1122??44??66").unwrap();
    // param1 and param2, in name order
    let params = [(2u32, 1u32), (4, 1)];
    assert!(mask.validate_params(&params).is_ok());
}

#[test]
fn test_valid_subsequent_params() {
    let mask = BinMask::try_from("11????????66").unwrap();
    let params = [(1u32, 2u32), (3, 2)];
    assert!(mask.validate_params(&params).is_ok());
}

#[test]
fn test_overlapping_params() {
    let mask = BinMask::try_from("11????44").unwrap();
    let params = [(1u32, 2u32), (2, 1)];
    assert!(matches!(
        mask.validate_params(&params),
        Err(CommandError::OverlappingParams)
    ));
}

#[test]
fn test_uncovered_mask() {
    let mask = BinMask::try_from("11????44??").unwrap();
    let params = [(1u32, 2u32)];
    assert!(matches!(
        mask.validate_params(&params),
        Err(CommandError::UncoveredMask)
    ));
}

#[test]
fn test_gap_between_params() {
    let mask = BinMask::try_from("11????????66").unwrap();
    let params = [(2u32, 1u32), (4, 1)];
    assert!(matches!(
        mask.validate_params(&params),
        Err(CommandError::UncoveredMask)
    ));
}

#[test]
fn mask_with_dots_and_lowercase() {
    let mask = BinMask::try_from("fe.FE.??.??.0a").unwrap();
    assert_eq!(mask.data, vec![0xFE, 0xFE, 0x00, 0x00, 0x0A]);
    assert_eq!(mask.masks, vec![(2, 2)]);
}

#[test]
fn mask_errors() {
    assert!(matches!(BinMask::try_from("FEG0"), Err(CommandError::InvalidMask)));
    assert!(matches!(BinMask::try_from("FE?"), Err(CommandError::OddPlaceholdersLength)));
    assert!(matches!(BinMask::try_from("F??"), Err(CommandError::OddMaskLength)));
    assert!(matches!(BinMask::try_from("FÉ"), Err(CommandError::InvalidMask)));
}

#[test]
fn param_outside_placeholders() {
    let mask = BinMask::try_from("11??22").unwrap();
    assert!(matches!(
        mask.validate_params(&[(2, 1)]),
        Err(CommandError::UncoveredParam)
    ));
    assert!(mask.validate_params(&[]).is_ok());
}

#[test]
fn data_and_value_extraction() {
    let mask = BinMask::try_from("11??22").unwrap();
    assert!(mask.validate_data(&[1, 2, 3]).is_ok());
    assert!(matches!(mask.validate_data(&[1, 2]), Err(CommandError::InvalidMask)));
    let data = [1u8, 2, 3];
    assert_eq!(mask.extract_value(&data, 1, 2).unwrap(), &[2, 3]);
    assert!(matches!(mask.extract_value(&data, 2, 2), Err(CommandError::InvalidMask)));
}

#[test]
fn masks_are_written_back_in_upper_case_with_dots() {
    let mask = BinMask::try_from("FEFE94E025??FD").unwrap();
    assert_eq!(mask.to_text(), "FE.FE.94.E0.25??.FD");
    let again = BinMask::try_from(mask.to_text().as_str()).unwrap();
    assert_eq!(again, mask);
    assert_eq!(BinMask::try_from("0a.b0").unwrap().to_text(), "0A.B0");
    assert_eq!(BinMask::try_from("????").unwrap().to_text(), "????.00");
    assert_eq!(BinMask { data: vec![], masks: vec![] }.to_text(), "");
}

#[test]
fn parsed_masks_have_the_shape_of_their_text() {
    let mask = BinMask::try_from("11??22.????33").unwrap();
    assert_eq!(mask.data.len() * 2, "11??22????33".len());
    assert_eq!(mask.masks, vec![(1, 1), (3, 2)]);
    assert!(mask.masks.windows(2).all(|w| w[0].0 + w[0].1 < w[1].0));
    for &(start, len) in &mask.masks {
        assert!(len >= 1 && start + len <= mask.data.len());
        assert!(mask.data[start..start + len].iter().all(|b| *b == 0));
    }
    assert_eq!(mask.data, vec![0x11, 0, 0x22, 0, 0, 0x33]);
}

#[test]
fn commands_are_checked_against_their_masks() {
    let command = BinMask::try_from("FE.????.FD").unwrap();
    let response = Some(BinMask::try_from("FE.??.FD").unwrap());
    assert!(validate_command(&command, &[(1, 2)], &response, &[(1, 1)]).is_ok());
    assert!(matches!(
        validate_command(&command, &[(1, 2)], &None, &[(1, 1)]),
        Err(CommandError::ReturnValuesWithoutResponse)
    ));
    assert!(validate_command(&command, &[(1, 2)], &None, &[]).is_ok());
    assert!(matches!(
        validate_command(&command, &[(1, 1)], &response, &[(1, 1)]),
        Err(CommandError::UncoveredMask)
    ));
    assert!(matches!(
        validate_command(&command, &[(1, 2)], &response, &[(0, 1)]),
        Err(CommandError::UncoveredParam)
    ));
}
