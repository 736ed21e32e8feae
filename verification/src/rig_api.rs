//! Errors of the rig command interface.
use vstd::prelude::*;

use crate::commands::CommandError;

verus! {

/// Which command was looked for.
#[derive(Debug, Clone, PartialEq, Eq)]
pub enum CommandType {
    Named(String),
    Init(usize),
    Status(usize),
}

/// Why a rig interface could not be built or used.
#[derive(Debug)]
pub enum RigApiError {
    Command(CommandError),
    CommandNotFound(CommandType),
    InvalidInit { command_index: usize, reason: String },
    InvalidStatus { command_index: usize, reason: String },
    ConflictingStatusReturns { index1: usize, index2: usize, return_name: String },
    InvalidEnumValue { enum_name: String, value: i64 },
    UnknownParam { command_name: String, param_name: String },
    BuildValueFailed { error: String },
}

} // verus!
