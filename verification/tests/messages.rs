use holyrig::commands::CommandError;
use holyrig::data_format::{DataFormat, DataFormatError};
use holyrig::rig_api::{CommandType, RigApiError};

#[test]
fn data_format_error_messages() {
    assert_eq!(
        DataFormatError::InvalidBcdDigit {
            byte: 0x1A,
            position: 3
        }
        .message(),
        "Invalid BCD digit 0x1A at position 3"
    );
    assert_eq!(
        DataFormatError::InvalidTextFormat {
            byte: 0,
            position: 0
        }
        .message(),
        "Invalid text format byte 0x0 at position 0"
    );
    assert_eq!(
        DataFormatError::NumberTooLong {
            value: -300,
            length: 1
        }
        .message(),
        "Number -300 is too long to fit in 1 bytes"
    );
    assert_eq!(
        DataFormatError::NegativeNotSupported {
            value: -1,
            format: DataFormat::BcdLu
        }
        .message(),
        "Negative number -1 is not supported by format bcd_lu"
    );
    assert_eq!(
        DataFormatError::NumberOutOfRange { value: 4294967295 }.message(),
        "Number 4294967295 is out of i32 range"
    );
    assert_eq!(DataFormatError::EmptyInput.message(), "Input data is empty");
}

#[test]
fn command_error_messages() {
    assert_eq!(
        CommandError::DataFormat(DataFormatError::EmptyInput).message(),
        "Data format error: Input data is empty"
    );
    assert_eq!(
        CommandError::MissingArgument("freq".to_string()).message(),
        "Missing argument for parameter freq"
    );
    assert_eq!(CommandError::OverlappingParams.message(), "Parameters overlap");
}

#[test]
fn rig_api_error_messages() {
    assert_eq!(
        RigApiError::CommandNotFound(CommandType::Named("set_freq".to_string())).message(),
        "command 'set_freq' not found"
    );
    assert_eq!(
        RigApiError::CommandNotFound(CommandType::Status(2)).message(),
        "status command at index 2 not found"
    );
    assert_eq!(
        RigApiError::ConflictingStatusReturns {
            index1: 1,
            index2: 0,
            return_name: "freq".to_string()
        }
        .message(),
        "Status command at index 1 has return value 'freq' that conflicts with command at index 0"
    );
    assert_eq!(
        RigApiError::InvalidEnumValue {
            enum_name: "Vfo".to_string(),
            value: -5
        }
        .message(),
        "Invalid enum value -5 of enum 'Vfo'"
    );
    assert_eq!(
        RigApiError::Command(CommandError::InvalidMask).message(),
        "Command error: Invalid mask format"
    );
    assert_eq!(
        CommandType::Init(0).message(),
        "init command at index 0"
    );
}
