//! The rigctld network protocol: reading a client's command line and
//! deciding the answer from the rig's last known status. Reading lines,
//! writing answers and forwarding rig commands are the server's part.
use vstd::prelude::*;

use crate::fields::{after_sep, before_sep, bool_text, field, parse_bool, trim_from, trimmed, BOOL_ERROR};
use crate::numbers::{int_error, int_error_text, read_int, std_int};
use crate::text::{chars_of, int_chars, push_int, push_str, string_from_chars};

verus! {

/// A command of the rigctld protocol.
#[derive(Debug, Clone)]
pub enum RigctlCommand {
    GetPowerstat,
    CheckVfo,
    DumpState,
    /// The frequency as written by the client.
    SetFreq(String),
    GetFreq(String),
    SetMode(String),
    GetMode(String),
    SetVfo(String),
    GetVfo,
    SetPtt(bool),
    GetPtt,
    SetSplit(bool),
    GetSplit(String),
    SetRit(i32),
    GetRit,
    SetXit(i32),
    GetXit,
    Quit,
}

/// A rigctld command with its texts as character sequences.
pub enum CommandView {
    GetPowerstat,
    CheckVfo,
    DumpState,
    SetFreq(Seq<char>),
    GetFreq(Seq<char>),
    SetMode(Seq<char>),
    GetMode(Seq<char>),
    SetVfo(Seq<char>),
    GetVfo,
    SetPtt(bool),
    GetPtt,
    SetSplit(bool),
    GetSplit(Seq<char>),
    SetRit(i32),
    GetRit,
    SetXit(i32),
    GetXit,
    Quit,
}

impl View for RigctlCommand {
    type V = CommandView;

    open spec fn view(&self) -> CommandView {
        match self {
            RigctlCommand::GetPowerstat => CommandView::GetPowerstat,
            RigctlCommand::CheckVfo => CommandView::CheckVfo,
            RigctlCommand::DumpState => CommandView::DumpState,
            RigctlCommand::SetFreq(f) => CommandView::SetFreq(f@),
            RigctlCommand::GetFreq(v) => CommandView::GetFreq(v@),
            RigctlCommand::SetMode(m) => CommandView::SetMode(m@),
            RigctlCommand::GetMode(v) => CommandView::GetMode(v@),
            RigctlCommand::SetVfo(v) => CommandView::SetVfo(v@),
            RigctlCommand::GetVfo => CommandView::GetVfo,
            RigctlCommand::SetPtt(b) => CommandView::SetPtt(*b),
            RigctlCommand::GetPtt => CommandView::GetPtt,
            RigctlCommand::SetSplit(b) => CommandView::SetSplit(*b),
            RigctlCommand::GetSplit(v) => CommandView::GetSplit(v@),
            RigctlCommand::SetRit(o) => CommandView::SetRit(*o),
            RigctlCommand::GetRit => CommandView::GetRit,
            RigctlCommand::SetXit(o) => CommandView::SetXit(*o),
            RigctlCommand::GetXit => CommandView::GetXit,
            RigctlCommand::Quit => CommandView::Quit,
        }
    }
}

/// The argument a command line lacks.
#[derive(Debug, Clone, Copy, PartialEq, Eq, Structural)]
pub enum ArgumentKind {
    Freq,
    Vfo,
    Mode,
    Ptt,
    Split,
    Rit,
    Xit,
}

/// Why a command line was not understood.
#[derive(Debug, Clone)]
pub enum RigctlError {
    EmptyCommand,
    MissingArgument(ArgumentKind),
    InvalidBool(String),
    InvalidInteger(String),
    /// A frequency that is not a number, found by the caller.
    InvalidFrequency(String),
    UnknownCommand(String),
}

/// A rigctld error with its texts as character sequences.
pub enum ErrorView {
    EmptyCommand,
    MissingArgument(ArgumentKind),
    InvalidBool(Seq<char>),
    InvalidInteger(Seq<char>),
    InvalidFrequency(Seq<char>),
    UnknownCommand(Seq<char>),
}

impl View for RigctlError {
    type V = ErrorView;

    open spec fn view(&self) -> ErrorView {
        match self {
            RigctlError::EmptyCommand => ErrorView::EmptyCommand,
            RigctlError::MissingArgument(k) => ErrorView::MissingArgument(*k),
            RigctlError::InvalidBool(t) => ErrorView::InvalidBool(t@),
            RigctlError::InvalidInteger(t) => ErrorView::InvalidInteger(t@),
            RigctlError::InvalidFrequency(t) => ErrorView::InvalidFrequency(t@),
            RigctlError::UnknownCommand(t) => ErrorView::UnknownCommand(t@),
        }
    }
}

/// The outcome of reading a command line, as character sequences.
pub open spec fn read_view(r: Result<RigctlCommand, RigctlError>) -> Result<CommandView, ErrorView> {
    match r {
        Ok(c) => Ok(c@),
        Err(e) => Err(e@),
    }
}

// ---------------------------------------------------------------------
// Fields

/// The second field of a line split at each space.
pub open spec fn first_argument(line: Seq<char>) -> Option<Seq<char>> {
    match after_sep(line, ' ') {
        Some(rest) => Some(before_sep(rest, ' ')),
        None => None,
    }
}

// ---------------------------------------------------------------------
// Arguments

/// The `i32` that `str::parse` reads from `t`.
pub open spec fn std_i32(t: Seq<char>) -> Option<i32> {
    match std_int(t, true, 0x8000_0000, 0x7FFF_FFFF) {
        Some(v) => Some(v as i32),
        None => None,
    }
}

// ---------------------------------------------------------------------
// Reading a command line

/// The argument's name in the error for a missing argument.
pub open spec fn argument_word(k: ArgumentKind) -> Seq<char> {
    match k {
        ArgumentKind::Freq => "freq"@,
        ArgumentKind::Vfo => "VFO"@,
        ArgumentKind::Mode => "mode"@,
        ArgumentKind::Ptt => "PTT"@,
        ArgumentKind::Split => "split"@,
        ArgumentKind::Rit => "rit"@,
        ArgumentKind::Xit => "xit"@,
    }
}

/// The command a line with a backslash names.
pub open spec fn long_command(line: Seq<char>) -> Result<CommandView, ErrorView> {
    let name = trimmed(line.drop_first());
    if name == "get_powerstat"@ {
        Ok(CommandView::GetPowerstat)
    } else if name == "chk_vfo"@ {
        Ok(CommandView::CheckVfo)
    } else if name == "dump_state"@ {
        Ok(CommandView::DumpState)
    } else {
        Err(ErrorView::UnknownCommand(line))
    }
}

/// A command that takes its argument as text.
pub open spec fn text_command(arg: Option<Seq<char>>, k: ArgumentKind, c: spec_fn(Seq<char>) -> CommandView) -> Result<CommandView, ErrorView> {
    match arg {
        Some(a) => Ok(c(a)),
        None => Err(ErrorView::MissingArgument(k)),
    }
}

/// A command that takes a `bool` argument.
pub open spec fn bool_command(arg: Option<Seq<char>>, k: ArgumentKind, c: spec_fn(bool) -> CommandView) -> Result<CommandView, ErrorView> {
    match arg {
        Some(a) => match bool_text(a) {
            Some(b) => Ok(c(b)),
            None => Err(ErrorView::InvalidBool(a)),
        },
        None => Err(ErrorView::MissingArgument(k)),
    }
}

/// A command that takes an `i32` argument.
pub open spec fn offset_command(arg: Option<Seq<char>>, k: ArgumentKind, c: spec_fn(i32) -> CommandView) -> Result<CommandView, ErrorView> {
    match arg {
        Some(a) => match std_i32(a) {
            Some(v) => Ok(c(v)),
            None => Err(ErrorView::InvalidInteger(a)),
        },
        None => Err(ErrorView::MissingArgument(k)),
    }
}

/// What a command line says: its first field names the command by its first
/// character, its second field is the argument.
pub open spec fn read_command(line: Seq<char>) -> Result<CommandView, ErrorView> {
    let name = before_sep(line, ' ');
    let arg = first_argument(line);
    if name.len() == 0 {
        Err(ErrorView::EmptyCommand)
    } else {
        let c = name[0];
        if c == 'F' {
            text_command(arg, ArgumentKind::Freq, |a: Seq<char>| CommandView::SetFreq(a))
        } else if c == 'f' {
            text_command(arg, ArgumentKind::Vfo, |a: Seq<char>| CommandView::GetFreq(a))
        } else if c == 'M' {
            text_command(arg, ArgumentKind::Mode, |a: Seq<char>| CommandView::SetMode(a))
        } else if c == 'm' {
            text_command(arg, ArgumentKind::Vfo, |a: Seq<char>| CommandView::GetMode(a))
        } else if c == 'V' {
            text_command(arg, ArgumentKind::Vfo, |a: Seq<char>| CommandView::SetVfo(a))
        } else if c == 'v' {
            Ok(CommandView::GetVfo)
        } else if c == 'T' {
            bool_command(arg, ArgumentKind::Ptt, |b: bool| CommandView::SetPtt(b))
        } else if c == 't' {
            Ok(CommandView::GetPtt)
        } else if c == 'S' {
            bool_command(arg, ArgumentKind::Split, |b: bool| CommandView::SetSplit(b))
        } else if c == 's' {
            text_command(arg, ArgumentKind::Vfo, |a: Seq<char>| CommandView::GetSplit(a))
        } else if c == 'J' {
            offset_command(arg, ArgumentKind::Rit, |v: i32| CommandView::SetRit(v))
        } else if c == 'j' {
            Ok(CommandView::GetRit)
        } else if c == 'Z' {
            offset_command(arg, ArgumentKind::Xit, |v: i32| CommandView::SetXit(v))
        } else if c == 'z' {
            Ok(CommandView::GetXit)
        } else if c == 'q' {
            Ok(CommandView::Quit)
        } else if c == '\\' {
            long_command(line)
        } else {
            Err(ErrorView::UnknownCommand(name))
        }
    }
}

fn argument_text(arg: &Option<Vec<char>>, k: ArgumentKind) -> (r: Result<String, RigctlError>)
    ensures
        match (arg, r) {
            (Some(a), Ok(t)) => t@ == a@,
            (None, Err(e)) => e@ == ErrorView::MissingArgument(k),
            _ => false,
        },
{
    match arg {
        Some(a) => Ok(string_from_chars(a.as_slice())),
        None => Err(RigctlError::MissingArgument(k)),
    }
}

fn argument_bool(arg: &Option<Vec<char>>, k: ArgumentKind) -> (r: Result<bool, RigctlError>)
    ensures
        match (arg, r) {
            (Some(a), Ok(b)) => bool_text(a@) == Some(b),
            (Some(a), Err(e)) => bool_text(a@) is None && e@ == ErrorView::InvalidBool(a@),
            (None, Err(e)) => e@ == ErrorView::MissingArgument(k),
            _ => false,
        },
{
    match arg {
        Some(a) => match parse_bool(a) {
            Some(b) => Ok(b),
            None => Err(RigctlError::InvalidBool(string_from_chars(a.as_slice()))),
        },
        None => Err(RigctlError::MissingArgument(k)),
    }
}

fn argument_i32(arg: &Option<Vec<char>>, k: ArgumentKind) -> (r: Result<i32, RigctlError>)
    ensures
        match (arg, r) {
            (Some(a), Ok(v)) => std_i32(a@) == Some(v),
            (Some(a), Err(e)) => std_i32(a@) is None && e@ == ErrorView::InvalidInteger(a@),
            (None, Err(e)) => e@ == ErrorView::MissingArgument(k),
            _ => false,
        },
{
    match arg {
        Some(a) => match read_int(a, true, 0x8000_0000, 0x7FFF_FFFF) {
            Ok(v) => Ok(v as i32),
            Err(_) => Err(RigctlError::InvalidInteger(string_from_chars(a.as_slice()))),
        },
        None => Err(RigctlError::MissingArgument(k)),
    }
}

/// Read a command line as a client sent it, line end included. A frequency
/// stays as written.
pub fn parse_rigctl_command(line: &str) -> (r: Result<RigctlCommand, RigctlError>)
    ensures
        read_view(r) == read_command(line@),
{
    let cs = chars_of(line);
    let (name, rest) = field(&cs, 0, ' ');
    assert(cs@.skip(0) =~= cs@);
    let arg: Option<Vec<char>> = match rest {
        Some(k) => Some(field(&cs, k, ' ').0),
        None => None,
    };
    assert(arg matches Some(a) ==> first_argument(line@) == Some(a@));
    assert(arg is None ==> first_argument(line@) is None);
    if name.len() == 0 {
        return Err(RigctlError::EmptyCommand);
    }
    let c = name[0];
    let r = if c == 'F' {
        match argument_text(&arg, ArgumentKind::Freq) {
            Ok(t) => Ok(RigctlCommand::SetFreq(t)),
            Err(e) => Err(e),
        }
    } else if c == 'f' {
        match argument_text(&arg, ArgumentKind::Vfo) {
            Ok(t) => Ok(RigctlCommand::GetFreq(t)),
            Err(e) => Err(e),
        }
    } else if c == 'M' {
        match argument_text(&arg, ArgumentKind::Mode) {
            Ok(t) => Ok(RigctlCommand::SetMode(t)),
            Err(e) => Err(e),
        }
    } else if c == 'm' {
        match argument_text(&arg, ArgumentKind::Vfo) {
            Ok(t) => Ok(RigctlCommand::GetMode(t)),
            Err(e) => Err(e),
        }
    } else if c == 'V' {
        match argument_text(&arg, ArgumentKind::Vfo) {
            Ok(t) => Ok(RigctlCommand::SetVfo(t)),
            Err(e) => Err(e),
        }
    } else if c == 'v' {
        Ok(RigctlCommand::GetVfo)
    } else if c == 'T' {
        match argument_bool(&arg, ArgumentKind::Ptt) {
            Ok(b) => Ok(RigctlCommand::SetPtt(b)),
            Err(e) => Err(e),
        }
    } else if c == 't' {
        Ok(RigctlCommand::GetPtt)
    } else if c == 'S' {
        match argument_bool(&arg, ArgumentKind::Split) {
            Ok(b) => Ok(RigctlCommand::SetSplit(b)),
            Err(e) => Err(e),
        }
    } else if c == 's' {
        match argument_text(&arg, ArgumentKind::Vfo) {
            Ok(t) => Ok(RigctlCommand::GetSplit(t)),
            Err(e) => Err(e),
        }
    } else if c == 'J' {
        match argument_i32(&arg, ArgumentKind::Rit) {
            Ok(v) => Ok(RigctlCommand::SetRit(v)),
            Err(e) => Err(e),
        }
    } else if c == 'j' {
        Ok(RigctlCommand::GetRit)
    } else if c == 'Z' {
        match argument_i32(&arg, ArgumentKind::Xit) {
            Ok(v) => Ok(RigctlCommand::SetXit(v)),
            Err(e) => Err(e),
        }
    } else if c == 'z' {
        Ok(RigctlCommand::GetXit)
    } else if c == 'q' {
        Ok(RigctlCommand::Quit)
    } else if c == '\\' {
        read_long_command(&cs, line)
    } else {
        Err(RigctlError::UnknownCommand(string_from_chars(name.as_slice())))
    };
    r
}

fn read_long_command(cs: &Vec<char>, line: &str) -> (r: Result<RigctlCommand, RigctlError>)
    requires
        cs@ == line@,
        cs.len() > 0,
    ensures
        read_view(r) == long_command(line@),
{
    let name = trim_from(cs, 1);
    assert(cs@.skip(1) =~= line@.drop_first());
    let text = string_from_chars(name.as_slice());
    if crate::text::str_eq(text.as_str(), "get_powerstat") {
        Ok(RigctlCommand::GetPowerstat)
    } else if crate::text::str_eq(text.as_str(), "chk_vfo") {
        Ok(RigctlCommand::CheckVfo)
    } else if crate::text::str_eq(text.as_str(), "dump_state") {
        Ok(RigctlCommand::DumpState)
    } else {
        Err(RigctlError::UnknownCommand(line.to_owned()))
    }
}

// ---------------------------------------------------------------------
// Answering

/// The rig's last known status, as the server answers from it.
#[derive(Debug, Clone)]
pub struct DeviceStatus {
    pub freq_a: i64,
    pub freq_b: i64,
    pub vfo: String,
    pub mode: String,
    pub transmit: bool,
    pub rit: bool,
    pub xit: bool,
}

/// A status value the rig reported.
#[derive(Debug, Clone)]
pub enum StatusValue {
    Integer(i64),
    Text(String),
    Boolean(bool),
    /// A value of another kind, which the server does not keep.
    Other,
}

impl DeviceStatus {
    /// The status before the rig has reported anything: VFO A in USB, both
    /// frequencies 0, nothing switched on.
    pub fn new() -> (r: Self)
        ensures
            r.freq_a == 0 && r.freq_b == 0,
            r.vfo@ == "A"@,
            r.mode@ == "USB"@,
            !r.transmit && !r.rit && !r.xit,
    {
        DeviceStatus {
            freq_a: 0,
            freq_b: 0,
            vfo: "A".to_owned(),
            mode: "USB".to_owned(),
            transmit: false,
            rit: false,
            xit: false,
        }
    }

    /// Take in one value the rig reported; a name the server does not keep,
    /// or a value of the wrong kind, changes nothing.
    pub fn update(&mut self, name: &str, value: StatusValue)
        ensures
            *final(self) == status_after(*old(self), name@, value),
    {
        let n = chars_of(name);
        let is = |p: &str| -> (b: bool)
            ensures
                b == (n@ == p@),
        {
            let pv = chars_of(p);
            same_text(&n, &pv)
        };
        proof {
            reveal_strlit("freq_a");
            reveal_strlit("freq_b");
            reveal_strlit("vfo");
            reveal_strlit("mode");
            reveal_strlit("transmit");
            reveal_strlit("rit");
            reveal_strlit("xit");
        }
        match value {
            StatusValue::Integer(f) => {
                if is("freq_a") {
                    self.freq_a = f;
                } else if is("freq_b") {
                    self.freq_b = f;
                }
            },
            StatusValue::Text(t) => {
                if is("vfo") {
                    self.vfo = t;
                } else if is("mode") {
                    self.mode = t;
                }
            },
            StatusValue::Boolean(b) => {
                if is("transmit") {
                    self.transmit = b;
                } else if is("rit") {
                    self.rit = b;
                } else if is("xit") {
                    self.xit = b;
                }
            },
            StatusValue::Other => {},
        }
    }
}

fn same_text(a: &Vec<char>, b: &Vec<char>) -> (r: bool)
    ensures
        r == (a@ == b@),
{
    if a.len() != b.len() {
        return false;
    }
    let mut i: usize = 0;
    while i < a.len()
        invariant
            a.len() == b.len(),
            i <= a.len(),
            forall|k: int| 0 <= k < i ==> a@[k] == b@[k],
        decreases a.len() - i,
    {
        if a[i] != b[i] {
            return false;
        }
        i = i + 1;
    }
    assert(a@ =~= b@);
    true
}

/// The status after the rig reported `value` under `name`.
pub open spec fn status_after(st: DeviceStatus, name: Seq<char>, value: StatusValue) -> DeviceStatus {
    match value {
        StatusValue::Integer(f) => if name == "freq_a"@ {
            DeviceStatus { freq_a: f, ..st }
        } else if name == "freq_b"@ {
            DeviceStatus { freq_b: f, ..st }
        } else {
            st
        },
        StatusValue::Text(t) => if name == "vfo"@ {
            DeviceStatus { vfo: t, ..st }
        } else if name == "mode"@ {
            DeviceStatus { mode: t, ..st }
        } else {
            st
        },
        StatusValue::Boolean(b) => if name == "transmit"@ {
            DeviceStatus { transmit: b, ..st }
        } else if name == "rit"@ {
            DeviceStatus { rit: b, ..st }
        } else if name == "xit"@ {
            DeviceStatus { xit: b, ..st }
        } else {
            st
        },
        StatusValue::Other => st,
    }
}

/// What the server does with one command line.
#[derive(Debug, Clone)]
pub enum ClientAction {
    /// Stop serving this client.
    Close,
    /// Write this answer and read the next line.
    Reply(String),
    /// Have the rig run a command; once it is handed on, write `reply`.
    Execute { command_name: String, params: Vec<(String, String)>, reply: String },
    /// Stop serving this client for this reason.
    Fail(String),
}

/// A server action with its texts as character sequences.
pub enum ActionView {
    Close,
    Reply(Seq<char>),
    Execute(Seq<char>, Seq<(Seq<char>, Seq<char>)>, Seq<char>),
    Fail(Seq<char>),
}

pub open spec fn params_view(ps: Seq<(String, String)>) -> Seq<(Seq<char>, Seq<char>)> {
    ps.map_values(|p: (String, String)| (p.0@, p.1@))
}

pub open spec fn action_view(a: ClientAction) -> ActionView {
    match a {
        ClientAction::Close => ActionView::Close,
        ClientAction::Reply(t) => ActionView::Reply(t@),
        ClientAction::Execute { command_name, params, reply } => ActionView::Execute(command_name@, params_view(params@), reply@),
        ClientAction::Fail(m) => ActionView::Fail(m@),
    }
}

/// `1` for a switch that is on, `0` for one that is off, on a line.
pub open spec fn flag_line(b: bool) -> Seq<char> {
    if b {
        "1\n"@
    } else {
        "0\n"@
    }
}

/// How `bool` is written.
pub open spec fn bool_word(b: bool) -> Seq<char> {
    if b {
        "true"@
    } else {
        "false"@
    }
}

/// What the server answers to the capability query.
pub const DUMP_STATE: &'static str = "1\n0\n7073\n0 0 0 0 0 0 0\n0 0 0 0 0 0 0\n0 0\n0 0\n9999\n9999\n0\n0\n1 2\n 20\n 0xfc00c90133fe\n0xfc00c90133fe\n0xc7fff74677f3f\n0xc7f7000677f3f\n0x35\n0x35\nvfo_ops=0x81f\nptt_type=0x1\ntargetable_vfo=0x3\nhas_set_vfo=1\nhas_get_vfo=0\nhas_set_freq=1\nhas_get_freq=1\nhas_set_conf=1\nhas_get_conf=1\nhas_power2mW=1\nhas_mW2power=1\ntimeout=1000\nrig_model=3073\nrigctld_version=Hamlib 4.5.5 Apr 05 11:43:08Z 2023 SHA=6eecd3\nagc_levels=0=OFF 1=FAST 2=MEDIUM 3=SLOW\nctcss_list= 60.0 67.0 69.3 71.9 74.4 77.0 79.7 82.5 85.4 88.5 91.5 94.8 97.4 100.0 103.5 107.2 110.9 114.8 118.8 120.0 123.0 127.3 131.8 136.5 141.3 146.2 151.4 156.7 159.8 162.2 165.5 167.9 171.3 173.8 177.3 179.9 183.5 186.2 189.9 192.8 196.6 199.5 203.5 206.5 210.7 218.1 225.7 229.1 233.6 241.8 250.3 254.1\ndone\n";

/// What the server does with a command line it read as `p`, given the rig's
/// status `st`.
pub open spec fn response(st: DeviceStatus, p: Result<CommandView, ErrorView>) -> ActionView {
    match p {
        Err(_) => ActionView::Reply("RPRT 1\n"@),
        Ok(c) => match c {
            CommandView::Quit => ActionView::Close,
            CommandView::SetFreq(f) => ActionView::Execute("set_freq"@, seq![("freq"@, f), ("target"@, "Current"@)], "RPRT 0\n"@),
            CommandView::GetFreq(v) => if trimmed(v) == "VFOA"@ {
                ActionView::Reply(int_chars(st.freq_a as int) + "\n"@)
            } else if trimmed(v) == "VFOB"@ {
                ActionView::Reply(int_chars(st.freq_b as int) + "\n"@)
            } else {
                ActionView::Fail("Unknown vfo: "@ + v)
            },
            CommandView::SetMode(m) => ActionView::Execute("set_mode"@, seq![("mode"@, m)], "RPRT 0\n"@),
            CommandView::GetMode(_) => ActionView::Reply(st.mode@ + " 0\n"@),
            CommandView::SetVfo(v) => ActionView::Execute("set_vfo"@, seq![("rx"@, v), ("tx"@, v)], "RPRT 0\n"@),
            CommandView::GetVfo => ActionView::Reply("VFO"@ + st.vfo@ + "\n"@),
            CommandView::SetPtt(b) => ActionView::Execute("transmit"@, seq![("tx"@, bool_word(b))], "RPRT 0\n"@),
            CommandView::GetPtt => ActionView::Reply(flag_line(st.transmit)),
            CommandView::SetSplit(b) => ActionView::Execute("set_split"@, seq![("split"@, bool_word(b))], "RPRT 0\n"@),
            CommandView::GetSplit(_) => ActionView::Reply("0\nVFO"@ + st.vfo@ + "\n"@),
            CommandView::SetRit(_) => ActionView::Reply("RPRT -1\n"@),
            CommandView::GetRit => ActionView::Reply(flag_line(st.rit)),
            CommandView::SetXit(_) => ActionView::Reply("RPRT -1\n"@),
            CommandView::GetXit => ActionView::Reply(flag_line(st.xit)),
            CommandView::GetPowerstat => ActionView::Reply("1\n"@),
            CommandView::CheckVfo => ActionView::Reply("1\n"@),
            CommandView::DumpState => ActionView::Reply(DUMP_STATE@),
        },
    }
}

fn text(s: &str) -> (r: String)
    ensures
        r@ == s@,
{
    s.to_owned()
}

fn flag_reply(b: bool) -> (r: String)
    ensures
        r@ == flag_line(b),
{
    if b {
        text("1\n")
    } else {
        text("0\n")
    }
}

fn bool_string(b: bool) -> (r: String)
    ensures
        r@ == bool_word(b),
{
    if b {
        text("true")
    } else {
        text("false")
    }
}

fn execute(command_name: &str, params: Vec<(String, String)>) -> (r: ClientAction)
    ensures
        r matches ClientAction::Execute { command_name: n, params: ps, reply } && n@ == command_name@ && ps == params
            && reply@ == "RPRT 0\n"@,
{
    ClientAction::Execute { command_name: text(command_name), params, reply: text("RPRT 0\n") }
}

fn pair(a: &str, b: String) -> (r: (String, String))
    ensures
        r.0@ == a@,
        r.1 == b,
{
    (text(a), b)
}

/// Answer a frequency query for the VFO named `vfo`.
fn frequency_reply(st: &DeviceStatus, vfo: &String) -> (r: ClientAction)
    ensures
        action_view(r) == response(*st, Ok(CommandView::GetFreq(vfo@))),
{
    let cs = chars_of(vfo.as_str());
    let name = trim_from(&cs, 0);
    assert(cs@.skip(0) =~= vfo@);
    let t = string_from_chars(name.as_slice());
    let freq = if crate::text::str_eq(t.as_str(), "VFOA") {
        st.freq_a
    } else if crate::text::str_eq(t.as_str(), "VFOB") {
        st.freq_b
    } else {
        let mut out: Vec<char> = Vec::new();
        push_str(&mut out, "Unknown vfo: ");
        push_str(&mut out, vfo.as_str());
        return ClientAction::Fail(string_from_chars(out.as_slice()));
    };
    let mut out: Vec<char> = Vec::new();
    push_int(&mut out, freq);
    push_str(&mut out, "\n");
    ClientAction::Reply(string_from_chars(out.as_slice()))
}

/// Decide what to do with a command line the client sent, given how it was
/// read and the rig's last known status.
pub fn respond(st: &DeviceStatus, parsed: Result<RigctlCommand, RigctlError>) -> (r: ClientAction)
    ensures
        action_view(r) == response(*st, read_view(parsed)),
{
    match parsed {
        Err(_) => ClientAction::Reply(text("RPRT 1\n")),
        Ok(c) => match c {
            RigctlCommand::Quit => ClientAction::Close,
            RigctlCommand::SetFreq(f) => {
                let ps = vec![pair("freq", f), pair("target", text("Current"))];
                let r = execute("set_freq", ps);
                assert(params_view(ps@) =~= seq![("freq"@, ps@[0].1@), ("target"@, "Current"@)]);
                r
            },
            RigctlCommand::GetFreq(v) => frequency_reply(st, &v),
            RigctlCommand::SetMode(m) => {
                let ps = vec![pair("mode", m)];
                let r = execute("set_mode", ps);
                assert(params_view(ps@) =~= seq![("mode"@, ps@[0].1@)]);
                r
            },
            RigctlCommand::GetMode(_) => {
                let mut out: Vec<char> = Vec::new();
                push_str(&mut out, st.mode.as_str());
                push_str(&mut out, " 0\n");
                ClientAction::Reply(string_from_chars(out.as_slice()))
            },
            RigctlCommand::SetVfo(v) => {
                let ps = vec![pair("rx", v.clone()), pair("tx", v)];
                let r = execute("set_vfo", ps);
                assert(params_view(ps@) =~= seq![("rx"@, ps@[1].1@), ("tx"@, ps@[1].1@)]);
                r
            },
            RigctlCommand::GetVfo => {
                let mut out: Vec<char> = Vec::new();
                push_str(&mut out, "VFO");
                push_str(&mut out, st.vfo.as_str());
                push_str(&mut out, "\n");
                ClientAction::Reply(string_from_chars(out.as_slice()))
            },
            RigctlCommand::SetPtt(b) => {
                let ps = vec![pair("tx", bool_string(b))];
                let r = execute("transmit", ps);
                assert(params_view(ps@) =~= seq![("tx"@, bool_word(b))]);
                r
            },
            RigctlCommand::GetPtt => ClientAction::Reply(flag_reply(st.transmit)),
            RigctlCommand::SetSplit(b) => {
                let ps = vec![pair("split", bool_string(b))];
                let r = execute("set_split", ps);
                assert(params_view(ps@) =~= seq![("split"@, bool_word(b))]);
                r
            },
            RigctlCommand::GetSplit(_) => {
                let mut out: Vec<char> = Vec::new();
                push_str(&mut out, "0\nVFO");
                push_str(&mut out, st.vfo.as_str());
                push_str(&mut out, "\n");
                ClientAction::Reply(string_from_chars(out.as_slice()))
            },
            RigctlCommand::SetRit(_) => ClientAction::Reply(text("RPRT -1\n")),
            RigctlCommand::GetRit => ClientAction::Reply(flag_reply(st.rit)),
            RigctlCommand::SetXit(_) => ClientAction::Reply(text("RPRT -1\n")),
            RigctlCommand::GetXit => ClientAction::Reply(flag_reply(st.xit)),
            RigctlCommand::GetPowerstat => ClientAction::Reply(text("1\n")),
            RigctlCommand::CheckVfo => ClientAction::Reply(text("1\n")),
            RigctlCommand::DumpState => ClientAction::Reply(text(DUMP_STATE)),
        },
    }
}

// ---------------------------------------------------------------------
// Error texts

/// The text shown for a rigctld error.
pub open spec fn rigctl_message(e: ErrorView) -> Seq<char> {
    match e {
        ErrorView::EmptyCommand => "Empty command"@,
        ErrorView::MissingArgument(k) => "Missing "@ + argument_word(k),
        ErrorView::InvalidBool(_) => BOOL_ERROR@,
        ErrorView::InvalidInteger(t) => int_error_text(t, true, 0x8000_0000, 0x7FFF_FFFF),
        ErrorView::InvalidFrequency(t) => if t.len() == 0 {
            "cannot parse float from empty string"@
        } else {
            "invalid float literal"@
        },
        ErrorView::UnknownCommand(t) => "Unknown command: "@ + t,
    }
}

impl RigctlError {
    /// The text shown for this error.
    pub fn message(&self) -> (s: String)
        ensures
            s@ == rigctl_message(self@),
    {
        let mut out: Vec<char> = Vec::new();
        match self {
            RigctlError::EmptyCommand => push_str(&mut out, "Empty command"),
            RigctlError::MissingArgument(k) => {
                push_str(&mut out, "Missing ");
                push_str(&mut out, match k {
                    ArgumentKind::Freq => "freq",
                    ArgumentKind::Vfo => "VFO",
                    ArgumentKind::Mode => "mode",
                    ArgumentKind::Ptt => "PTT",
                    ArgumentKind::Split => "split",
                    ArgumentKind::Rit => "rit",
                    ArgumentKind::Xit => "xit",
                });
            },
            RigctlError::InvalidBool(_) => push_str(&mut out, BOOL_ERROR),
            RigctlError::InvalidInteger(t) => {
                let cs = chars_of(t.as_str());
                push_str(&mut out, int_error(&cs, true, 0x8000_0000, 0x7FFF_FFFF));
            },
            RigctlError::InvalidFrequency(t) => {
                let cs = chars_of(t.as_str());
                if cs.len() == 0 {
                    push_str(&mut out, "cannot parse float from empty string");
                } else {
                    push_str(&mut out, "invalid float literal");
                }
            },
            RigctlError::UnknownCommand(t) => {
                push_str(&mut out, "Unknown command: ");
                push_str(&mut out, t.as_str());
            },
        }
        string_from_chars(out.as_slice())
    }
}

// ---------------------------------------------------------------------
// Laws

/// A value the rig reported is what the matching query answers: the
/// frequency of either VFO, the mode, the VFO in use, and the transmit,
/// RIT and XIT switches.
pub proof fn lemma_reported_status_is_answered(st: DeviceStatus, f: i64, t: String, b: bool, vfo: Seq<char>)
    ensures
        trimmed(vfo) == "VFOA"@ ==> response(status_after(st, "freq_a"@, StatusValue::Integer(f)), Ok(CommandView::GetFreq(vfo)))
            == ActionView::Reply(int_chars(f as int) + "\n"@),
        trimmed(vfo) == "VFOB"@ ==> response(status_after(st, "freq_b"@, StatusValue::Integer(f)), Ok(CommandView::GetFreq(vfo)))
            == ActionView::Reply(int_chars(f as int) + "\n"@),
        response(status_after(st, "mode"@, StatusValue::Text(t)), Ok(CommandView::GetMode(vfo)))
            == ActionView::Reply(t@ + " 0\n"@),
        response(status_after(st, "vfo"@, StatusValue::Text(t)), Ok(CommandView::GetVfo))
            == ActionView::Reply("VFO"@ + t@ + "\n"@),
        response(status_after(st, "transmit"@, StatusValue::Boolean(b)), Ok(CommandView::GetPtt))
            == ActionView::Reply(flag_line(b)),
        response(status_after(st, "rit"@, StatusValue::Boolean(b)), Ok(CommandView::GetRit))
            == ActionView::Reply(flag_line(b)),
        response(status_after(st, "xit"@, StatusValue::Boolean(b)), Ok(CommandView::GetXit))
            == ActionView::Reply(flag_line(b)),
{
    reveal_strlit("freq_a");
    reveal_strlit("freq_b");
    reveal_strlit("vfo");
    reveal_strlit("mode");
    reveal_strlit("transmit");
    reveal_strlit("rit");
    reveal_strlit("xit");
    reveal_strlit("VFOA");
    reveal_strlit("VFOB");
    assert("freq_b"@[5] != "freq_a"@[5]);
    assert("VFOB"@[3] != "VFOA"@[3]);
    assert("mode"@.len() != "vfo"@.len());
    assert("rit"@.len() != "transmit"@.len());
    assert("xit"@.len() != "transmit"@.len());
    assert("xit"@[0] != "rit"@[0]);
}

} // verus!
