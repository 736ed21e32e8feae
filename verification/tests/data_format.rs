use holyrig::data_format::{DataFormat, DataFormatError};

#[test]
fn test_bcd_formats() -> Result<(), DataFormatError> {
    let expected_bcd_b = vec![0x00, 0x00, 0x04, 0x18];
    assert_eq!(DataFormat::BcdBs.encode(418, 4)?, expected_bcd_b);
    assert_eq!(DataFormat::BcdBu.encode(418, 4)?, expected_bcd_b);

    let expected_bcd_l = vec![0x18, 0x04, 0x00, 0x00];
    assert_eq!(DataFormat::BcdLs.encode(418, 4)?, expected_bcd_l);
    assert_eq!(DataFormat::BcdLu.encode(418, 4)?, expected_bcd_l);

    let expected_bcd_bs_neg = vec![0xFF, 0x00, 0x04, 0x18];
    assert_eq!(DataFormat::BcdBs.encode(-418, 4)?, expected_bcd_bs_neg);

    let expected_bcd_ls_neg = vec![0x18, 0x04, 0x00, 0xFF];
    assert_eq!(DataFormat::BcdLs.encode(-418, 4)?, expected_bcd_ls_neg);
    Ok(())
}

#[test]
fn test_int_formats() -> Result<(), DataFormatError> {
    let expected_int_b = vec![0x00, 0x00, 0x01, 0xA2];
    assert_eq!(DataFormat::IntBs.encode(418, 4)?, expected_int_b);
    assert_eq!(DataFormat::IntBu.encode(418, 4)?, expected_int_b);

    let expected_int_l = vec![0xA2, 0x01, 0x00, 0x00];
    assert_eq!(DataFormat::IntLs.encode(418, 4)?, expected_int_l);
    assert_eq!(DataFormat::IntLu.encode(418, 4)?, expected_int_l);

    let expected_int_bs_neg = vec![0xFF, 0xFF, 0xFE, 0x5E];
    assert_eq!(DataFormat::IntBs.encode(-418, 4)?, expected_int_bs_neg);

    let expected_int_ls_neg = vec![0x5E, 0xFE, 0xFF, 0xFF];
    assert_eq!(DataFormat::IntLs.encode(-418, 4)?, expected_int_ls_neg);
    Ok(())
}

#[test]
fn test_text_format() -> Result<(), DataFormatError> {
    assert_eq!(DataFormat::Text.encode(5, 4)?, vec![0x30, 0x30, 0x30, 0x35]);
    assert_eq!(DataFormat::Text.encode(0, 4)?, vec![0x30, 0x30, 0x30, 0x30]);
    assert_eq!(DataFormat::Text.encode(7, 1)?, vec![0x37]);
    assert_eq!(
        DataFormat::Text.encode(42, 8)?,
        vec![0x30, 0x30, 0x30, 0x30, 0x30, 0x30, 0x34, 0x32]
    );
    Ok(())
}

#[test]
fn test_text_format_overflow() {
    assert!(matches!(
        DataFormat::Text.encode(12345, 4),
        Err(DataFormatError::NumberTooLong {
            value: 12345,
            length: 4
        })
    ));
}

#[test]
fn test_text_format_negative_overflow() {
    assert!(matches!(
        DataFormat::Text.encode(-12345, 4),
        Err(DataFormatError::NumberTooLong {
            value: -12345,
            length: 4
        })
    ));
}

#[test]
fn test_unsigned_negative() {
    assert!(matches!(
        DataFormat::BcdBu.encode(-418, 4),
        Err(DataFormatError::NegativeNotSupported {
            value: -418,
            format: DataFormat::BcdBu
        })
    ));
    assert!(matches!(
        DataFormat::BcdLu.encode(-418, 4),
        Err(DataFormatError::NegativeNotSupported {
            value: -418,
            format: DataFormat::BcdLu
        })
    ));
}

#[test]
fn test_decode_bcd() -> Result<(), DataFormatError> {
    assert_eq!(DataFormat::BcdBs.decode(&[0x00, 0x00, 0x04, 0x18])?, 418);
    assert_eq!(DataFormat::BcdBu.decode(&[0x00, 0x00, 0x04, 0x18])?, 418);
    assert_eq!(DataFormat::BcdLs.decode(&[0x18, 0x04, 0x00, 0x00])?, 418);
    assert_eq!(DataFormat::BcdLu.decode(&[0x18, 0x04, 0x00, 0x00])?, 418);
    assert_eq!(DataFormat::BcdBs.decode(&[0xFF, 0x00, 0x04, 0x18])?, -418);
    assert_eq!(DataFormat::BcdLs.decode(&[0x18, 0x04, 0x00, 0xFF])?, -418);
    Ok(())
}

#[test]
fn test_decode_int() -> Result<(), DataFormatError> {
    assert_eq!(DataFormat::IntBs.decode(&[0x00, 0x00, 0x01, 0xA2])?, 418);
    assert_eq!(DataFormat::IntBu.decode(&[0x00, 0x00, 0x01, 0xA2])?, 418);
    assert_eq!(DataFormat::IntLs.decode(&[0xA2, 0x01, 0x00, 0x00])?, 418);
    assert_eq!(DataFormat::IntLu.decode(&[0xA2, 0x01, 0x00, 0x00])?, 418);
    assert_eq!(DataFormat::IntBs.decode(&[0xFF, 0xFF, 0xFE, 0x5E])?, -418);
    assert_eq!(DataFormat::IntLs.decode(&[0x5E, 0xFE, 0xFF, 0xFF])?, -418);
    Ok(())
}

#[test]
fn test_decode_text() -> Result<(), DataFormatError> {
    assert_eq!(DataFormat::Text.decode(b"0418")?, 418);
    assert_eq!(DataFormat::Text.decode(b"-418")?, -418);
    assert_eq!(DataFormat::Text.decode(b"0005")?, 5);
    assert_eq!(DataFormat::Text.decode(b"0000")?, 0);
    assert_eq!(DataFormat::Text.decode(b"7")?, 7);
    assert_eq!(DataFormat::Text.decode(b"00000042")?, 42);
    Ok(())
}

#[test]
fn test_decode_invalid_bcd() {
    println!(
        "Ze: {:?}",
        DataFormat::BcdBs.decode(&[0x00, 0x00, 0x0A, 0x18])
    );
    assert!(matches!(
        DataFormat::BcdBs.decode(&[0x00, 0x00, 0x0A, 0x18]),
        Err(DataFormatError::InvalidBcdDigit {
            byte: 10,
            position: 5
        })
    ));
}

#[test]
fn test_decode_invalid_text() {
    assert!(matches!(
        DataFormat::Text.decode(b"12A4"),
        Err(DataFormatError::InvalidTextFormat {
            byte: b'A',
            position: 2
        })
    ));
}

#[test]
fn test_decode_empty() {
    assert!(matches!(
        DataFormat::BcdBs.decode(&[]),
        Err(DataFormatError::EmptyInput)
    ));
}

#[test]
fn test_decode_unsigned_negative() {
    assert!(matches!(
        DataFormat::BcdBu.decode(&[0xFF, 0x00, 0x04, 0x18]),
        Err(DataFormatError::NegativeNotSupported {
            value: -418,
            format: DataFormat::BcdBu
        })
    ));
}

#[test]
fn test_roundtrip() -> Result<(), DataFormatError> {
    let test_values = [-418, -1, 0, 1, 418];
    let formats = [
        DataFormat::BcdBs,
        DataFormat::IntBs,
        DataFormat::IntLs,
        DataFormat::Text,
    ];

    for &value in &test_values {
        for format in &formats {
            let encoded = format.encode(value, 4)?;
            let decoded = format.decode(&encoded)?;
            assert_eq!(
                decoded,
                value,
                "Round-trip failed for {value} with format {}",
                format.name()
            );
        }
    }
    Ok(())
}

#[test]
fn test_decode_bcd_edge_cases() -> Result<(), DataFormatError> {
    assert_eq!(DataFormat::BcdBs.decode(&[0x00, 0x00, 0x00, 0x05])?, 5);
    assert_eq!(DataFormat::BcdBs.decode(&[0x00, 0x00, 0x00, 0x42])?, 42);
    assert_eq!(DataFormat::BcdBs.decode(&[0x00, 0x00, 0x00, 0x00])?, 0);
    assert_eq!(
        DataFormat::BcdBs.decode(&[0x21, 0x47, 0x48, 0x36])?,
        21474836
    );
    assert_eq!(DataFormat::BcdBs.decode(&[0xFF, 0x00, 0x00, 0x00])?, 0);
    assert_eq!(DataFormat::BcdBs.decode(&[0x42])?, 42);
    Ok(())
}

#[test]
fn test_decode_int_edge_cases() -> Result<(), DataFormatError> {
    assert_eq!(DataFormat::IntBs.decode(&[0x42])?, 66);
    assert_eq!(DataFormat::IntLs.decode(&[0x42])?, 66);
    assert_eq!(DataFormat::IntBs.decode(&[0xFF])?, -1);
    assert_eq!(DataFormat::IntLs.decode(&[0xFF])?, -1);
    assert_eq!(DataFormat::IntBs.decode(&[0xFF, 0xFE])?, -2);
    assert_eq!(DataFormat::IntLs.decode(&[0xFE, 0xFF])?, -2);
    assert_eq!(
        DataFormat::IntBs.decode(&[0x7F, 0xFF, 0xFF, 0xFF])?,
        i32::MAX
    );
    assert_eq!(
        DataFormat::IntLs.decode(&[0xFF, 0xFF, 0xFF, 0x7F])?,
        i32::MAX
    );
    assert_eq!(
        DataFormat::IntBs.decode(&[0x80, 0x00, 0x00, 0x00])?,
        i32::MIN
    );
    assert_eq!(
        DataFormat::IntLs.decode(&[0x00, 0x00, 0x00, 0x80])?,
        i32::MIN
    );

    Ok(())
}

#[test]
fn test_decode_text_edge_cases() -> Result<(), DataFormatError> {
    assert!(matches!(
        DataFormat::Text.decode(b"-"),
        Err(DataFormatError::NumberOutOfRange { value: 0 })
    ));

    assert!(matches!(
        DataFormat::Text.decode(b"--123"),
        Err(DataFormatError::InvalidTextFormat {
            byte: b'-',
            position: 1
        })
    ));

    assert!(matches!(
        DataFormat::Text.decode(b"12-3"),
        Err(DataFormatError::InvalidTextFormat {
            byte: b'-',
            position: 2
        })
    ));

    assert_eq!(DataFormat::Text.decode(b"2147483647")?, i32::MAX);
    assert_eq!(DataFormat::Text.decode(b"-2147483648")?, i32::MIN);
    assert_eq!(DataFormat::Text.decode(b"-0042")?, -42);

    Ok(())
}

#[test]
fn test_decode_bcd_invalid_cases() {
    assert!(matches!(
        DataFormat::BcdBs.decode(&[0x00, 0xA0, 0x00, 0x00]),
        Err(DataFormatError::InvalidBcdDigit {
            byte: 10,
            position: 2
        })
    ));

    assert!(matches!(
        DataFormat::BcdBs.decode(&[0x00, 0x0A, 0x00, 0x00]),
        Err(DataFormatError::InvalidBcdDigit {
            byte: 10,
            position: 3
        })
    ));

    assert!(matches!(
        DataFormat::BcdBs.decode(&[0x22, 0x47, 0x48, 0x36, 0x48]),
        Err(DataFormatError::NumberOutOfRange { value: 2247483648 })
    ));
}

#[test]
fn test_decode_int_invalid_cases() {
    assert!(matches!(
        DataFormat::IntBu.decode(&[0xFF, 0xFF, 0xFF, 0xFF]),
        Err(DataFormatError::NumberOutOfRange { value: 4294967295 })
    ));
    assert!(matches!(
        DataFormat::IntLu.decode(&[0xFF, 0xFF, 0xFF, 0xFF]),
        Err(DataFormatError::NumberOutOfRange { value: 4294967295 })
    ));
}

#[test]
fn test_encode_int_variable_length() -> Result<(), DataFormatError> {
    assert_eq!(DataFormat::IntBs.encode(0x12, 1)?, vec![0x12]);
    assert_eq!(DataFormat::IntBs.encode(-0x12, 1)?, vec![0xEE]);
    assert_eq!(DataFormat::IntBs.encode(0x1234, 2)?, vec![0x12, 0x34]);
    assert_eq!(DataFormat::IntBs.encode(-0x1234, 2)?, vec![0xED, 0xCC]);
    assert_eq!(DataFormat::IntBs.encode(0x12, 2)?, vec![0x00, 0x12]);
    assert_eq!(DataFormat::IntBs.encode(-0x12, 2)?, vec![0xFF, 0xEE]);
    assert_eq!(
        DataFormat::IntBs.encode(0x123456, 4)?,
        vec![0x00, 0x12, 0x34, 0x56]
    );
    assert_eq!(
        DataFormat::IntBs.encode(-0x123456, 4)?,
        vec![0xFF, 0xED, 0xCB, 0xAA]
    );

    assert_eq!(DataFormat::IntBu.encode(0x12, 1)?, vec![0x12]);
    assert_eq!(DataFormat::IntBu.encode(0xFF, 1)?, vec![0xFF]);
    assert_eq!(DataFormat::IntBu.encode(0x1234, 2)?, vec![0x12, 0x34]);
    assert_eq!(DataFormat::IntBu.encode(0x12, 2)?, vec![0x00, 0x12]);
    assert_eq!(
        DataFormat::IntBu.encode(0x123456, 3)?,
        vec![0x12, 0x34, 0x56]
    );

    assert_eq!(DataFormat::IntLs.encode(0x12, 1)?, vec![0x12]);
    assert_eq!(DataFormat::IntLs.encode(-0x12, 1)?, vec![0xEE]);
    assert_eq!(DataFormat::IntLs.encode(0x1234, 2)?, vec![0x34, 0x12]);
    assert_eq!(DataFormat::IntLs.encode(-0x1234, 2)?, vec![0xCC, 0xED]);
    assert_eq!(DataFormat::IntLs.encode(0x12, 2)?, vec![0x12, 0x00]);
    assert_eq!(DataFormat::IntLs.encode(-0x12, 2)?, vec![0xEE, 0xFF]);
    assert_eq!(
        DataFormat::IntLs.encode(0x123456, 4)?,
        vec![0x56, 0x34, 0x12, 0x00]
    );
    assert_eq!(
        DataFormat::IntLs.encode(-0x123456, 4)?,
        vec![0xAA, 0xCB, 0xED, 0xFF]
    );

    assert_eq!(DataFormat::IntLu.encode(0x12, 1)?, vec![0x12]);
    assert_eq!(DataFormat::IntLu.encode(0xFF, 1)?, vec![0xFF]);
    assert_eq!(DataFormat::IntLu.encode(0x1234, 2)?, vec![0x34, 0x12]);
    assert_eq!(DataFormat::IntLu.encode(0x12, 2)?, vec![0x12, 0x00]);
    assert_eq!(
        DataFormat::IntLu.encode(0x123456, 3)?,
        vec![0x56, 0x34, 0x12]
    );

    for format in [
        DataFormat::IntBs,
        DataFormat::IntBu,
        DataFormat::IntLs,
        DataFormat::IntLu,
    ] {
        assert!(matches!(
            format.encode(0x100, 1),
            Err(DataFormatError::NumberTooLong {
                value: 256,
                length: 1
            })
        ));

        assert!(matches!(
            format.encode(0x10000, 2),
            Err(DataFormatError::NumberTooLong {
                value: 65536,
                length: 2
            })
        ));
    }

    Ok(())
}

#[test]
fn test_decode_variable_length() -> Result<(), DataFormatError> {
    assert_eq!(
        DataFormat::IntBs.decode(&[0xFF, 0xFF, 0xFF, 0xFF, 0xFE, 0x5E])?,
        -418
    );
    assert_eq!(
        DataFormat::IntLs.decode(&[0x5E, 0xFE, 0xFF, 0xFF, 0xFF, 0xFF])?,
        -418
    );

    assert_eq!(
        DataFormat::IntBu.decode(&[0x00, 0x00, 0x00, 0x00, 0x01, 0xA2])?,
        418
    );
    assert_eq!(
        DataFormat::IntLu.decode(&[0xA2, 0x01, 0x00, 0x00, 0x00, 0x00])?,
        418
    );

    Ok(())
}

#[test]
fn test_decode_short_length() -> Result<(), DataFormatError> {
    assert_eq!(DataFormat::IntBs.decode(&[0xFF, 0xFE])?, -2);
    assert_eq!(DataFormat::IntLs.decode(&[0xFE, 0xFF])?, -2);
    Ok(())
}

#[test]
fn little_endian_is_big_endian_reversed() {
    for &(big, little) in &[
        (DataFormat::IntBs, DataFormat::IntLs),
        (DataFormat::IntBu, DataFormat::IntLu),
        (DataFormat::BcdBs, DataFormat::BcdLs),
        (DataFormat::BcdBu, DataFormat::BcdLu),
    ] {
        for &value in &[0, 7, 418, 65535] {
            let mut b = big.encode(value, 4).unwrap();
            let l = little.encode(value, 4).unwrap();
            b.reverse();
            assert_eq!(b, l);
            let mut r = l.clone();
            r.reverse();
            assert_eq!(little.decode(&l).unwrap(), big.decode(&r).unwrap());
        }
    }
}

#[test]
fn round_trip_edges_of_the_law() {
    // one spare byte lets a negative BCD value carry its sign
    let e = DataFormat::BcdBs.encode(-5, 2).unwrap();
    assert_eq!(DataFormat::BcdBs.decode(&e).unwrap(), -5);
    // values that fill the signed bytes read back
    let e = DataFormat::IntBs.encode(-128, 1).unwrap();
    assert_eq!(DataFormat::IntBs.decode(&e).unwrap(), -128);
    let e = DataFormat::IntLs.encode(i32::MIN, 4).unwrap();
    assert_eq!(DataFormat::IntLs.decode(&e).unwrap(), i32::MIN);
    // outside the law: 128 in one signed byte reads back as -128
    let e = DataFormat::IntBs.encode(128, 1).unwrap();
    assert_eq!(DataFormat::IntBs.decode(&e).unwrap(), -128);
    // text keeps its sign behind padding zeros
    let e = DataFormat::Text.encode(-7, 5).unwrap();
    assert_eq!(e, b"000-7".to_vec());
    assert_eq!(DataFormat::Text.decode(&e).unwrap(), -7);
}
