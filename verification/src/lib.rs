use vstd::prelude::*;

pub mod com;
pub mod commands;
pub mod data_format;
pub mod fields;
pub mod format_laws;
pub mod grammar;
pub mod interpolation;
pub mod interpreter;
pub mod jsonrpc;
pub mod lexer;
pub mod mask_laws;
pub mod messages;
pub mod messaging;
pub mod name_map;
pub mod numbers;
pub mod omnirig;
pub mod omnirig_parser;
pub mod parser;
pub mod parser_errors;
pub mod registry;
pub mod report;
pub mod rig;
pub mod rig_api;
pub mod rig_file;
pub mod rig_parser;
pub mod rigctld;
pub mod schema;
pub mod semantic_analyzer;
pub mod schema_parser;
pub mod schema_toml;
pub mod text;
pub mod translator;
pub mod location_laws;
pub mod udp_server;

verus! {
}
