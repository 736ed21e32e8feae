//! Schemas in their first configuration-file form: a rig type, enums and
//! commands with typed parameters.
use vstd::prelude::*;

use crate::name_map::NameMap;

verus! {

/// The kind of rig the schema is for.
#[derive(Debug, Clone)]
pub struct General {
    pub rig_type: String,
}

/// The members of an enum, in order.
#[derive(Debug, Clone)]
pub struct Enum {
    pub members: Vec<String>,
}

/// The parameters of a command: names with type names, in order.
#[derive(Debug, Clone)]
pub struct Command {
    pub params: Vec<(String, String)>,
}

/// A whole schema file.
#[derive(Debug, Clone)]
pub struct Config {
    pub general: General,
    pub enums: NameMap<Enum>,
    pub commands: NameMap<Command>,
}

} // verus!
