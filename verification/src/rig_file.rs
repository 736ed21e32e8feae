//! Rig description files: how each command of a rig is written on the wire
//! and where its parameters and results sit.
use vstd::prelude::*;

use crate::data_format::DataFormat;
use crate::name_map::{entries_view, NameMap};

verus! {

/// What kind of rig a description file is for, and its format version.
#[derive(Debug, Clone)]
pub struct General {
    /// The rig type (the file's `type` key).
    pub rig_type: String,
    pub version: u8,
}

/// Where a value sits in a command or reply. The scale factor and offset
/// are decimal fractions; they are kept as written, `None` standing for the
/// defaults (a factor of 1 and an offset of 0).
#[derive(Debug)]
pub struct RigBinaryParam {
    pub index: u32,
    pub length: u32,
    pub format: DataFormat,
    pub add: Option<String>,
    pub multiply: Option<String>,
}

/// One command of a rig: its bytes, the reply it expects and its values.
#[derive(Debug)]
pub struct RigCommand {
    pub command: String,
    pub response: Option<String>,
    pub reply_length: Option<usize>,
    pub reply_end: Option<String>,
    pub params: NameMap<RigBinaryParam>,
    pub returns: NameMap<RigBinaryParam>,
}

/// A whole rig description.
#[derive(Debug)]
pub struct RigFile {
    pub general: General,
    pub init: Vec<RigCommand>,
    pub commands: NameMap<RigCommand>,
    pub status: Vec<RigCommand>,
}

/// A parameter's place with its texts as characters.
pub struct ParamView {
    pub index: u32,
    pub length: u32,
    pub format: DataFormat,
    pub add: Option<Seq<char>>,
    pub multiply: Option<Seq<char>>,
}

pub open spec fn opt_chars(o: Option<String>) -> Option<Seq<char>> {
    match o {
        Some(s) => Some(s@),
        None => None,
    }
}

pub open spec fn param_view(p: RigBinaryParam) -> ParamView {
    ParamView {
        index: p.index,
        length: p.length,
        format: p.format,
        add: opt_chars(p.add),
        multiply: opt_chars(p.multiply),
    }
}

/// A command with its texts as characters and its maps as entries.
pub struct RigCommandView {
    pub command: Seq<char>,
    pub response: Option<Seq<char>>,
    pub reply_length: Option<usize>,
    pub reply_end: Option<Seq<char>>,
    pub params: Seq<(Seq<char>, ParamView)>,
    pub returns: Seq<(Seq<char>, ParamView)>,
}

pub open spec fn rig_command_view(c: RigCommand) -> RigCommandView {
    RigCommandView {
        command: c.command@,
        response: opt_chars(c.response),
        reply_length: c.reply_length,
        reply_end: opt_chars(c.reply_end),
        params: entries_view(c.params.entries@, |p: RigBinaryParam| param_view(p)),
        returns: entries_view(c.returns.entries@, |p: RigBinaryParam| param_view(p)),
    }
}

/// A rig description seen through the views of its parts.
pub struct RigFileView {
    pub rig_type: Seq<char>,
    pub version: u8,
    pub init: Seq<RigCommandView>,
    pub commands: Seq<(Seq<char>, RigCommandView)>,
    pub status: Seq<RigCommandView>,
}

pub open spec fn rig_file_view(f: RigFile) -> RigFileView {
    RigFileView {
        rig_type: f.general.rig_type@,
        version: f.general.version,
        init: f.init@.map_values(|c: RigCommand| rig_command_view(c)),
        commands: entries_view(f.commands.entries@, |c: RigCommand| rig_command_view(c)),
        status: f.status@.map_values(|c: RigCommand| rig_command_view(c)),
    }
}

/// The well-formedness of a description: its maps are sorted by name.
pub open spec fn rig_file_wf(f: RigFile) -> bool {
    f.commands.wf() && (forall|i: int| 0 <= i < f.commands.entries@.len() ==> command_wf(
        #[trigger] f.commands.entries@[i].1,
    )) && (forall|i: int| 0 <= i < f.init@.len() ==> command_wf(#[trigger] f.init@[i])) && (forall|i: int|
        0 <= i < f.status@.len() ==> command_wf(#[trigger] f.status@[i]))
}

pub open spec fn command_wf(c: RigCommand) -> bool {
    c.params.wf() && c.returns.wf()
}

impl RigFile {
    /// An empty description of a transceiver, format version 1.
    pub fn new() -> (r: Self)
        ensures
            rig_file_view(r).rig_type == "transceiver"@,
            rig_file_view(r).version == 1,
            rig_file_view(r).init.len() == 0,
            rig_file_view(r).commands.len() == 0,
            rig_file_view(r).status.len() == 0,
            rig_file_wf(r),
    {
        RigFile {
            general: General { rig_type: "transceiver".to_owned(), version: 1 },
            init: Vec::new(),
            commands: NameMap::new(),
            status: Vec::new(),
        }
    }
}

impl Default for RigFile {
    fn default() -> (r: Self)
        ensures
            rig_file_view(r).rig_type == "transceiver"@,
            rig_file_view(r).version == 1,
            rig_file_view(r).init.len() == 0,
            rig_file_view(r).commands.len() == 0,
            rig_file_view(r).status.len() == 0,
            rig_file_wf(r),
    {
        RigFile::new()
    }
}

} // verus!
