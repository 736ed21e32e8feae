//! The texts shown for the errors of data formats, command masks, schemas
//! and the rig command interface.
use vstd::prelude::*;

use crate::commands::CommandError;
use crate::data_format::{format_name, DataFormat, DataFormatError};
use crate::rig_api::{CommandType, RigApiError};
use crate::schema::SchemaError;
use crate::text::{decimal_chars, int_chars, push_decimal, push_int, push_str, string_from_chars};

verus! {

// ---------------------------------------------------------------------------
// Numbers
// ---------------------------------------------------------------------------

/// An upper-case hexadecimal digit.
pub open spec fn hex_digit(d: nat) -> char {
    if d < 10 {
        (48 + d) as char
    } else {
        (55 + d) as char
    }
}

/// Upper-case hexadecimal digits of `n`, most significant first.
pub open spec fn hex_chars(n: nat) -> Seq<char>
    decreases n,
{
    if n < 16 {
        seq![hex_digit(n)]
    } else {
        hex_chars(n / 16).push(hex_digit(n % 16))
    }
}

/// How `{:#X}` writes a byte: `0x` and upper-case hexadecimal digits.
pub open spec fn byte_hex(b: u8) -> Seq<char> {
    "0x"@ + hex_chars(b as nat)
}

fn push_hex(out: &mut Vec<char>, n: u8)
    ensures
        final(out)@ == old(out)@ + hex_chars(n as nat),
    decreases n,
{
    if n >= 16 {
        push_hex(out, n / 16);
    }
    let d = n % 16;
    let c: char = if d < 10 {
        (48 + d) as char
    } else {
        (55 + d) as char
    };
    out.push(c);
    proof {
        if n >= 16 {
            assert(old(out)@ + hex_chars(n as nat) =~= old(out)@ + hex_chars((n / 16) as nat) + seq![
                hex_digit((n % 16) as nat),
            ]);
        }
    }
}

// ---------------------------------------------------------------------------
// Data formats and command masks
// ---------------------------------------------------------------------------

/// The text shown for a data format error.
pub open spec fn data_format_message(e: DataFormatError) -> Seq<char> {
    match e {
        DataFormatError::InvalidName(name) => "Invalid format name: "@ + name@,
        DataFormatError::NumberTooLong { value, length } => "Number "@ + int_chars(value as int)
            + " is too long to fit in "@ + decimal_chars(length as nat) + " bytes"@,
        DataFormatError::NegativeNotSupported { value, format } => "Negative number "@ + int_chars(value as int)
            + " is not supported by format "@ + format_name(format),
        DataFormatError::InvalidBcdDigit { byte, position } => "Invalid BCD digit "@ + byte_hex(byte)
            + " at position "@ + decimal_chars(position as nat),
        DataFormatError::EmptyInput => "Input data is empty"@,
        DataFormatError::InvalidTextFormat { byte, position } => "Invalid text format byte "@ + byte_hex(byte)
            + " at position "@ + decimal_chars(position as nat),
        DataFormatError::NumberOutOfRange { value } => "Number "@ + int_chars(value as int)
            + " is out of i32 range"@,
    }
}

fn push_data_format_message(out: &mut Vec<char>, e: &DataFormatError)
    ensures
        final(out)@ == old(out)@ + data_format_message(*e),
{
    match e {
        DataFormatError::InvalidName(name) => {
            push_str(out, "Invalid format name: ");
            push_str(out, name.as_str());
        },
        DataFormatError::NumberTooLong { value, length } => {
            push_str(out, "Number ");
            push_int(out, *value as i64);
            push_str(out, " is too long to fit in ");
            push_decimal(out, *length as u128);
            push_str(out, " bytes");
        },
        DataFormatError::NegativeNotSupported { value, format } => {
            push_str(out, "Negative number ");
            push_int(out, *value as i64);
            push_str(out, " is not supported by format ");
            push_str(out, format.name());
        },
        DataFormatError::InvalidBcdDigit { byte, position } => {
            push_str(out, "Invalid BCD digit 0x");
            push_hex(out, *byte);
            push_str(out, " at position ");
            push_decimal(out, *position as u128);
        },
        DataFormatError::EmptyInput => {
            push_str(out, "Input data is empty");
        },
        DataFormatError::InvalidTextFormat { byte, position } => {
            push_str(out, "Invalid text format byte 0x");
            push_hex(out, *byte);
            push_str(out, " at position ");
            push_decimal(out, *position as u128);
        },
        DataFormatError::NumberOutOfRange { value } => {
            push_str(out, "Number ");
            push_int(out, *value);
            push_str(out, " is out of i32 range");
        },
    }
    proof {
        reveal_strlit("Invalid BCD digit 0x");
        reveal_strlit("Invalid BCD digit ");
        reveal_strlit("Invalid text format byte 0x");
        reveal_strlit("Invalid text format byte ");
        reveal_strlit("0x");
    }
    assert(final(out)@ =~= old(out)@ + data_format_message(*e));
}

impl DataFormatError {
    /// The text shown for this error.
    pub fn message(&self) -> (s: String)
        ensures
            s@ == data_format_message(*self),
    {
        let mut out: Vec<char> = Vec::new();
        push_data_format_message(&mut out, self);
        string_from_chars(out.as_slice())
    }
}

/// The text shown for a command error.
pub open spec fn command_message(e: CommandError) -> Seq<char> {
    match e {
        CommandError::InvalidMask => "Invalid mask format"@,
        CommandError::OddMaskLength => "Mask length must be even"@,
        CommandError::OddPlaceholdersLength => "Placeholder length must be even"@,
        CommandError::UncoveredMask => "Mask region not covered by parameters"@,
        CommandError::UncoveredParam => "Parameter is not covered by mask region"@,
        CommandError::OverlappingParams => "Parameters overlap"@,
        CommandError::DataFormat(d) => "Data format error: "@ + data_format_message(d),
        CommandError::MissingArgument(p) => "Missing argument for parameter "@ + p@,
        CommandError::UnexpectedArgument(p) => "Unexpected argument for parameter "@ + p@,
        CommandError::InvalidArgumentValue(m) => "Invalid argument value: "@ + m@,
        CommandError::ReturnValuesWithoutResponse => "Return values without response"@,
        CommandError::MultipleValidators => "Multiple validators"@,
    }
}

fn push_command_message(out: &mut Vec<char>, e: &CommandError)
    ensures
        final(out)@ == old(out)@ + command_message(*e),
{
    match e {
        CommandError::InvalidMask => push_str(out, "Invalid mask format"),
        CommandError::OddMaskLength => push_str(out, "Mask length must be even"),
        CommandError::OddPlaceholdersLength => push_str(out, "Placeholder length must be even"),
        CommandError::UncoveredMask => push_str(out, "Mask region not covered by parameters"),
        CommandError::UncoveredParam => push_str(out, "Parameter is not covered by mask region"),
        CommandError::OverlappingParams => push_str(out, "Parameters overlap"),
        CommandError::DataFormat(d) => {
            push_str(out, "Data format error: ");
            push_data_format_message(out, d);
        },
        CommandError::MissingArgument(p) => {
            push_str(out, "Missing argument for parameter ");
            push_str(out, p.as_str());
        },
        CommandError::UnexpectedArgument(p) => {
            push_str(out, "Unexpected argument for parameter ");
            push_str(out, p.as_str());
        },
        CommandError::InvalidArgumentValue(m) => {
            push_str(out, "Invalid argument value: ");
            push_str(out, m.as_str());
        },
        CommandError::ReturnValuesWithoutResponse => push_str(out, "Return values without response"),
        CommandError::MultipleValidators => push_str(out, "Multiple validators"),
    }
    assert(final(out)@ =~= old(out)@ + command_message(*e));
}

impl CommandError {
    /// The text shown for this error.
    pub fn message(&self) -> (s: String)
        ensures
            s@ == command_message(*self),
    {
        let mut out: Vec<char> = Vec::new();
        push_command_message(&mut out, self);
        string_from_chars(out.as_slice())
    }
}

// ---------------------------------------------------------------------------
// Schemas
// ---------------------------------------------------------------------------

/// The text shown for a schema error.
pub open spec fn schema_message(e: SchemaError) -> Seq<char> {
    match e {
        SchemaError::Io(m) => "IO error: "@ + m@,
        SchemaError::Toml(m) => "TOML parsing error: "@ + m@,
        SchemaError::InvalidRigType(t) => "Invalid rig_type: "@ + t@,
        SchemaError::InvalidVersion(v) => "Invalid version: "@ + decimal_chars(v as nat),
        SchemaError::EmptyEnum(n) => "Enum "@ + n@ + " has no members"@,
        SchemaError::DuplicateEnumMember { enum_name, member } => "Duplicate member "@ + member@ + " in enum "@
            + enum_name@,
        SchemaError::UndefinedType { command, param, undefined_type } => "Command "@ + command@ + " parameter "@
            + param@ + " has undefined type "@ + undefined_type@,
        SchemaError::DuplicateParameter { command, param } => "Duplicate parameter name "@ + param@
            + " in command "@ + command@,
        SchemaError::DuplicateReturn { command, return_name } => "Duplicate return value "@ + return_name@
            + " in command "@ + command@,
    }
}

impl SchemaError {
    /// The text shown for this error.
    pub fn message(&self) -> (s: String)
        ensures
            s@ == schema_message(*self),
    {
        let mut out: Vec<char> = Vec::new();
        match self {
            SchemaError::Io(m) => {
                push_str(&mut out, "IO error: ");
                push_str(&mut out, m.as_str());
            },
            SchemaError::Toml(m) => {
                push_str(&mut out, "TOML parsing error: ");
                push_str(&mut out, m.as_str());
            },
            SchemaError::InvalidRigType(t) => {
                push_str(&mut out, "Invalid rig_type: ");
                push_str(&mut out, t.as_str());
            },
            SchemaError::InvalidVersion(v) => {
                push_str(&mut out, "Invalid version: ");
                push_decimal(&mut out, *v as u128);
            },
            SchemaError::EmptyEnum(n) => {
                push_str(&mut out, "Enum ");
                push_str(&mut out, n.as_str());
                push_str(&mut out, " has no members");
            },
            SchemaError::DuplicateEnumMember { enum_name, member } => {
                push_str(&mut out, "Duplicate member ");
                push_str(&mut out, member.as_str());
                push_str(&mut out, " in enum ");
                push_str(&mut out, enum_name.as_str());
            },
            SchemaError::UndefinedType { command, param, undefined_type } => {
                push_str(&mut out, "Command ");
                push_str(&mut out, command.as_str());
                push_str(&mut out, " parameter ");
                push_str(&mut out, param.as_str());
                push_str(&mut out, " has undefined type ");
                push_str(&mut out, undefined_type.as_str());
            },
            SchemaError::DuplicateParameter { command, param } => {
                push_str(&mut out, "Duplicate parameter name ");
                push_str(&mut out, param.as_str());
                push_str(&mut out, " in command ");
                push_str(&mut out, command.as_str());
            },
            SchemaError::DuplicateReturn { command, return_name } => {
                push_str(&mut out, "Duplicate return value ");
                push_str(&mut out, return_name.as_str());
                push_str(&mut out, " in command ");
                push_str(&mut out, command.as_str());
            },
        }
        assert(out@ =~= schema_message(*self));
        string_from_chars(out.as_slice())
    }
}

// ---------------------------------------------------------------------------
// The rig command interface
// ---------------------------------------------------------------------------

/// How a command that was looked for is named.
pub open spec fn command_type_text(t: CommandType) -> Seq<char> {
    match t {
        CommandType::Named(n) => "command '"@ + n@ + "'"@,
        CommandType::Init(i) => "init command at index "@ + decimal_chars(i as nat),
        CommandType::Status(i) => "status command at index "@ + decimal_chars(i as nat),
    }
}

fn push_command_type(out: &mut Vec<char>, t: &CommandType)
    ensures
        final(out)@ == old(out)@ + command_type_text(*t),
{
    match t {
        CommandType::Named(n) => {
            push_str(out, "command '");
            push_str(out, n.as_str());
            push_str(out, "'");
        },
        CommandType::Init(i) => {
            push_str(out, "init command at index ");
            push_decimal(out, *i as u128);
        },
        CommandType::Status(i) => {
            push_str(out, "status command at index ");
            push_decimal(out, *i as u128);
        },
    }
    assert(final(out)@ =~= old(out)@ + command_type_text(*t));
}

impl CommandType {
    /// How this command is named in messages.
    pub fn message(&self) -> (s: String)
        ensures
            s@ == command_type_text(*self),
    {
        let mut out: Vec<char> = Vec::new();
        push_command_type(&mut out, self);
        string_from_chars(out.as_slice())
    }
}

/// The text shown for an error of the rig command interface.
pub open spec fn rig_api_message(e: RigApiError) -> Seq<char> {
    match e {
        RigApiError::Command(c) => "Command error: "@ + command_message(c),
        RigApiError::CommandNotFound(t) => command_type_text(t) + " not found"@,
        RigApiError::InvalidInit { command_index, reason } => "Invalid init command at index "@ + decimal_chars(
            command_index as nat,
        ) + ": "@ + reason@,
        RigApiError::InvalidStatus { command_index, reason } => "Invalid status command at index "@
            + decimal_chars(command_index as nat) + ": "@ + reason@,
        RigApiError::ConflictingStatusReturns { index1, index2, return_name } => "Status command at index "@
            + decimal_chars(index1 as nat) + " has return value '"@ + return_name@
            + "' that conflicts with command at index "@ + decimal_chars(index2 as nat),
        RigApiError::InvalidEnumValue { enum_name, value } => "Invalid enum value "@ + int_chars(value as int)
            + " of enum '"@ + enum_name@ + "'"@,
        RigApiError::UnknownParam { command_name, param_name } => "Unknown param "@ + param_name@
            + " in command "@ + command_name@,
        RigApiError::BuildValueFailed { error } => "Failed to build value: "@ + error@,
    }
}

impl RigApiError {
    /// The text shown for this error.
    pub fn message(&self) -> (s: String)
        ensures
            s@ == rig_api_message(*self),
    {
        let mut out: Vec<char> = Vec::new();
        match self {
            RigApiError::Command(c) => {
                push_str(&mut out, "Command error: ");
                push_command_message(&mut out, c);
            },
            RigApiError::CommandNotFound(t) => {
                push_command_type(&mut out, t);
                push_str(&mut out, " not found");
            },
            RigApiError::InvalidInit { command_index, reason } => {
                push_str(&mut out, "Invalid init command at index ");
                push_decimal(&mut out, *command_index as u128);
                push_str(&mut out, ": ");
                push_str(&mut out, reason.as_str());
            },
            RigApiError::InvalidStatus { command_index, reason } => {
                push_str(&mut out, "Invalid status command at index ");
                push_decimal(&mut out, *command_index as u128);
                push_str(&mut out, ": ");
                push_str(&mut out, reason.as_str());
            },
            RigApiError::ConflictingStatusReturns { index1, index2, return_name } => {
                push_str(&mut out, "Status command at index ");
                push_decimal(&mut out, *index1 as u128);
                push_str(&mut out, " has return value '");
                push_str(&mut out, return_name.as_str());
                push_str(&mut out, "' that conflicts with command at index ");
                push_decimal(&mut out, *index2 as u128);
            },
            RigApiError::InvalidEnumValue { enum_name, value } => {
                push_str(&mut out, "Invalid enum value ");
                push_int(&mut out, *value);
                push_str(&mut out, " of enum '");
                push_str(&mut out, enum_name.as_str());
                push_str(&mut out, "'");
            },
            RigApiError::UnknownParam { command_name, param_name } => {
                push_str(&mut out, "Unknown param ");
                push_str(&mut out, param_name.as_str());
                push_str(&mut out, " in command ");
                push_str(&mut out, command_name.as_str());
            },
            RigApiError::BuildValueFailed { error } => {
                push_str(&mut out, "Failed to build value: ");
                push_str(&mut out, error.as_str());
            },
        }
        assert(out@ =~= rig_api_message(*self));
        string_from_chars(out.as_slice())
    }
}

} // verus!
