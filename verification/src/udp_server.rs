//! The UDP debug interface: command lines of the form
//! `DEVICE_ID COMMAND_NAME PARAM=VALUE ...`, read against a schema, and the
//! texts sent back. Receiving and sending datagrams is the server's part.
use vstd::prelude::*;

use crate::commands::{value_view, Value, ValueView};
use crate::fields::{after_sep, before_sep, field, split_words, texts_of, words};
use crate::name_map::{key_index, lookup};
use crate::numbers::{int_error, int_error_text, lemma_digits_value_nonnegative, magnitude, read_int, std_int};
use crate::schema::{typed_value, Schema, ValueType};
use crate::text::{chars_of, push_decimal, push_str, string_from_chars, decimal_chars};

verus! {

/// Why a debug command line was refused.
#[derive(Debug, Clone, PartialEq, Eq)]
pub enum UdpCommandError {
    MissingDeviceId,
    /// The device id as written, which is not a number.
    InvalidDeviceId(String),
    MissingCommandName,
    InvalidParameterFormat,
    UnknownCommand,
    UnknownParam,
    /// Why the value could not be read.
    InvalidValue(String),
}

/// A debug command error with its texts as character sequences.
pub enum UdpErrorView {
    MissingDeviceId,
    InvalidDeviceId(Seq<char>),
    MissingCommandName,
    InvalidParameterFormat,
    UnknownCommand,
    UnknownParam,
    InvalidValue(Seq<char>),
}

pub open spec fn udp_error_view(e: UdpCommandError) -> UdpErrorView {
    match e {
        UdpCommandError::MissingDeviceId => UdpErrorView::MissingDeviceId,
        UdpCommandError::InvalidDeviceId(t) => UdpErrorView::InvalidDeviceId(t@),
        UdpCommandError::MissingCommandName => UdpErrorView::MissingCommandName,
        UdpCommandError::InvalidParameterFormat => UdpErrorView::InvalidParameterFormat,
        UdpCommandError::UnknownCommand => UdpErrorView::UnknownCommand,
        UdpCommandError::UnknownParam => UdpErrorView::UnknownParam,
        UdpCommandError::InvalidValue(m) => UdpErrorView::InvalidValue(m@),
    }
}

/// The type of the first parameter named `key`.
pub open spec fn param_type(params: Seq<(String, ValueType)>, key: Seq<char>) -> Option<ValueType>
    decreases params.len(),
{
    if params.len() == 0 {
        None
    } else if params[0].0@ == key {
        Some(params[0].1)
    } else {
        param_type(params.drop_first(), key)
    }
}

/// What one `PARAM=VALUE` word of a line for `command` gives: the name
/// before the first `=`, and the value up to the next `=` read as the
/// parameter's type.
pub open spec fn udp_param(word: Seq<char>, command: Seq<char>, schema: Schema) -> Result<(Seq<char>, ValueView), UdpErrorView> {
    match after_sep(word, '=') {
        None => Err(UdpErrorView::InvalidParameterFormat),
        Some(rest) => {
            let key = before_sep(word, '=');
            match lookup(schema.commands.entries@, command) {
                None => Err(UdpErrorView::UnknownCommand),
                Some(c) => match param_type(c.params@, key) {
                    None => Err(UdpErrorView::UnknownParam),
                    Some(ty) => match typed_value(ty, before_sep(rest, '=')) {
                        Ok(v) => Ok((key, v)),
                        Err(m) => Err(UdpErrorView::InvalidValue(m)),
                    },
                },
            }
        },
    }
}

/// Where the parameter named `k` is in `ps`, or the number of parameters.
pub open spec fn param_index(ps: Seq<(Seq<char>, ValueView)>, k: Seq<char>) -> nat
    decreases ps.len(),
{
    if ps.len() == 0 || ps[0].0 == k {
        0
    } else {
        1 + param_index(ps.drop_first(), k)
    }
}

/// `ps` with parameter `p` set: a parameter given before takes the new
/// value where it is, a new one is added last.
pub open spec fn put_param(ps: Seq<(Seq<char>, ValueView)>, p: (Seq<char>, ValueView)) -> Seq<(Seq<char>, ValueView)> {
    let i = param_index(ps, p.0);
    if i < ps.len() {
        ps.update(i as int, p)
    } else {
        ps.push(p)
    }
}

/// Each parameter name once.
pub open spec fn names_distinct(ps: Seq<(Seq<char>, ValueView)>) -> bool {
    forall|i: int, j: int| 0 <= i < j < ps.len() ==> (#[trigger] ps[i]).0 != (#[trigger] ps[j]).0
}

/// The parameters of a line for `command`, each name once with the last
/// value given for it; the first word that fails decides the error.
pub open spec fn udp_params(ws: Seq<Seq<char>>, command: Seq<char>, schema: Schema) -> Result<Seq<(Seq<char>, ValueView)>, UdpErrorView>
    decreases ws.len(),
{
    if ws.len() == 0 {
        Ok(Seq::empty())
    } else {
        match udp_params(ws.drop_last(), command, schema) {
            Err(e) => Err(e),
            Ok(ps) => match udp_param(ws.last(), command, schema) {
                Ok(p) => Ok(put_param(ps, p)),
                Err(e) => Err(e),
            },
        }
    }
}

proof fn lemma_param_index(ps: Seq<(Seq<char>, ValueView)>, k: Seq<char>)
    ensures
        param_index(ps, k) <= ps.len(),
        param_index(ps, k) < ps.len() ==> ps[param_index(ps, k) as int].0 == k,
        forall|j: int| 0 <= j < param_index(ps, k) ==> (#[trigger] ps[j]).0 != k,
    decreases ps.len(),
{
    if ps.len() > 0 && ps[0].0 != k {
        lemma_param_index(ps.drop_first(), k);
        assert forall|j: int| 0 <= j < param_index(ps, k) implies (#[trigger] ps[j]).0 != k by {
            if j > 0 {
                assert(ps[j] == ps.drop_first()[j - 1]);
            }
        }
    }
}

proof fn lemma_put_distinct(ps: Seq<(Seq<char>, ValueView)>, p: (Seq<char>, ValueView))
    requires
        names_distinct(ps),
    ensures
        names_distinct(put_param(ps, p)),
{
    lemma_param_index(ps, p.0);
    let r = put_param(ps, p);
    let i = param_index(ps, p.0);
    assert forall|a: int, b: int| 0 <= a < b < r.len() implies (#[trigger] r[a]).0 != (#[trigger] r[b]).0 by {
        if i < ps.len() {
            if a == i {
                assert(r[b] == ps[b]);
            } else if b == i {
                assert(r[a] == ps[a]);
            } else {
                assert(r[a] == ps[a] && r[b] == ps[b]);
            }
        } else {
            if b == ps.len() {
                assert(r[a] == ps[a]);
                assert(ps[a].0 != p.0);
            } else {
                assert(r[a] == ps[a] && r[b] == ps[b]);
            }
        }
    }
}

/// A failure among the first words is the failure of the whole.
proof fn lemma_params_failure(ws: Seq<Seq<char>>, n: int, command: Seq<char>, schema: Schema)
    requires
        0 <= n <= ws.len(),
        udp_params(ws.take(n), command, schema) is Err,
    ensures
        udp_params(ws, command, schema) == udp_params(ws.take(n), command, schema),
    decreases ws.len() - n,
{
    if n < ws.len() {
        assert(ws.take(n + 1).drop_last() =~= ws.take(n));
        lemma_params_failure(ws, n + 1, command, schema);
    } else {
        assert(ws.take(n) =~= ws);
    }
}

/// What a debug command line says: the device, the command, and its
/// parameters, split at white space.
pub open spec fn udp_command(cmd: Seq<char>, schema: Schema) -> Result<(usize, Seq<char>, Seq<(Seq<char>, ValueView)>), UdpErrorView> {
    let ws = words(cmd);
    if ws.len() == 0 {
        Err(UdpErrorView::MissingDeviceId)
    } else {
        match std_int(ws[0], false, 0, usize::MAX as int) {
            None => Err(UdpErrorView::InvalidDeviceId(ws[0])),
            Some(id) => if ws.len() < 2 {
                Err(UdpErrorView::MissingCommandName)
            } else {
                match udp_params(ws.skip(2), ws[1], schema) {
                    Ok(ps) => Ok((id as usize, ws[1], ps)),
                    Err(e) => Err(e),
                }
            },
        }
    }
}

pub open spec fn params_view(ps: Seq<(String, Value)>) -> Seq<(Seq<char>, ValueView)> {
    ps.map_values(|p: (String, Value)| (p.0@, value_view(p.1)))
}

pub open spec fn command_view(r: Result<(usize, String, Vec<(String, Value)>), UdpCommandError>) -> Result<(usize, Seq<char>, Seq<(Seq<char>, ValueView)>), UdpErrorView> {
    match r {
        Ok((id, name, ps)) => Ok((id, name@, params_view(ps@))),
        Err(e) => Err(udp_error_view(e)),
    }
}

fn find_param(params: &Vec<(String, ValueType)>, key: &str) -> (r: Option<usize>)
    ensures
        match r {
            Some(i) => i < params.len() && param_type(params@, key@) == Some(params@[i as int].1),
            None => param_type(params@, key@) is None,
        },
{
    let mut i: usize = 0;
    assert(params@.skip(0) =~= params@);
    while i < params.len()
        invariant
            i <= params.len(),
            param_type(params@, key@) == param_type(params@.skip(i as int), key@),
        decreases params.len() - i,
    {
        assert(params@.skip(i as int)[0] == params@[i as int]);
        assert(params@.skip(i as int).drop_first() =~= params@.skip(i + 1));
        if crate::text::str_eq(params[i].0.as_str(), key) {
            return Some(i);
        }
        i = i + 1;
    }
    None
}

fn read_param(word: &Vec<char>, command: &String, schema: &Schema) -> (r: Result<(String, Value), UdpCommandError>)
    ensures
        match r {
            Ok(p) => udp_param(word@, command@, *schema) == Ok::<(Seq<char>, ValueView), UdpErrorView>((p.0@, value_view(p.1))),
            Err(e) => udp_param(word@, command@, *schema) == Err::<(Seq<char>, ValueView), UdpErrorView>(udp_error_view(e)),
        },
{
    let (key, rest) = field(word, 0, '=');
    assert(word@.skip(0) =~= word@);
    let k = match rest {
        None => return Err(UdpCommandError::InvalidParameterFormat),
        Some(k) => k,
    };
    let (value, _) = field(word, k, '=');
    let c = match schema.commands.get(command.as_str()) {
        None => return Err(UdpCommandError::UnknownCommand),
        Some(c) => c,
    };
    let key_text = string_from_chars(key.as_slice());
    let at = match find_param(&c.params, key_text.as_str()) {
        None => return Err(UdpCommandError::UnknownParam),
        Some(at) => at,
    };
    let value_text = string_from_chars(value.as_slice());
    match c.params[at].1.build_value(value_text.as_str()) {
        Ok(v) => Ok((key_text, v)),
        Err(m) => Err(UdpCommandError::InvalidValue(m)),
    }
}

/// Read a debug command line `DEVICE_ID COMMAND_NAME PARAM=VALUE ...`: each
/// parameter must be one of the command's in `schema`, its value of the
/// parameter's type.
pub fn parse_command(cmd: &str, schema: &Schema) -> (r: Result<(usize, String, Vec<(String, Value)>), UdpCommandError>)
    ensures
        command_view(r) == udp_command(cmd@, *schema),
        r matches Ok((_, _, ps)) ==> names_distinct(params_view(ps@)),
{
    let cs = chars_of(cmd);
    let ws = split_words(&cs);
    let ghost wv = words(cmd@);
    assert(wv.len() == ws@.len());
    if ws.len() == 0 {
        return Err(UdpCommandError::MissingDeviceId);
    }
    assert(ws@[0]@ == wv[0]);
    let id = match read_int(&ws[0], false, 0, usize::MAX as u64) {
        Ok(v) => {
            proof {
                lemma_digits_value_nonnegative(magnitude(ws@[0]@, false));
            }
            v as usize
        },
        Err(_) => return Err(UdpCommandError::InvalidDeviceId(string_from_chars(ws[0].as_slice()))),
    };
    if ws.len() < 2 {
        return Err(UdpCommandError::MissingCommandName);
    }
    assert(ws@[1]@ == wv[1]);
    let name = string_from_chars(ws[1].as_slice());
    let ghost rest = wv.skip(2);
    let mut params: Vec<(String, Value)> = Vec::new();
    let mut i: usize = 2;
    assert(rest.take(0) =~= Seq::<Seq<char>>::empty());
    assert(params_view(params@) =~= Seq::<(Seq<char>, ValueView)>::empty());
    while i < ws.len()
        invariant
            2 <= i <= ws.len(),
            texts_of(ws@) == wv,
            wv == words(cmd@),
            rest == wv.skip(2),
            wv.len() == ws.len(),
            wv.len() >= 2,
            std_int(wv[0], false, 0, usize::MAX as int) == Some(id as int),
            name@ == wv[1],
            udp_params(rest.take(i - 2), wv[1], *schema) == Ok::<Seq<(Seq<char>, ValueView)>, UdpErrorView>(params_view(params@)),
            names_distinct(params_view(params@)),
        decreases ws.len() - i,
    {
        assert(rest.take(i - 1).drop_last() =~= rest.take(i - 2));
        assert(rest.take(i - 1).last() == ws@[i as int]@);
        match read_param(&ws[i], &name, schema) {
            Ok(p) => {
                let ghost pv = (p.0@, value_view(p.1));
                let ghost before = params_view(params@);
                proof {
                    lemma_param_index(before, pv.0);
                    lemma_put_distinct(before, pv);
                }
                let k = find_named(&params, &p.0);
                if k < params.len() {
                    params.set(k, p);
                    assert(params_view(params@) =~= before.update(k as int, pv));
                } else {
                    params.push(p);
                    assert(params_view(params@) =~= before.push(pv));
                }
            },
            Err(e) => {
                proof {
                    lemma_params_failure(rest, i - 1, wv[1], *schema);
                }
                return Err(e);
            },
        }
        i = i + 1;
    }
    assert(rest.take(i - 2) =~= rest);
    Ok((id, name, params))
}

/// Where the parameter named `key` is, or the number of parameters.
fn find_named(params: &Vec<(String, Value)>, key: &String) -> (r: usize)
    ensures
        r == param_index(params_view(params@), key@),
{
    let ghost pv = params_view(params@);
    let mut i: usize = 0;
    assert(pv.skip(0) =~= pv);
    while i < params.len()
        invariant
            i <= params.len(),
            pv == params_view(params@),
            param_index(pv, key@) == i + param_index(pv.skip(i as int), key@),
        decreases params.len() - i,
    {
        assert(pv.skip(i as int)[0] == pv[i as int]);
        assert(pv.skip(i as int).drop_first() =~= pv.skip(i + 1));
        if crate::text::str_eq(params[i].0.as_str(), key.as_str()) {
            return i;
        }
        i = i + 1;
    }
    i
}

/// The text shown for a debug command error.
pub open spec fn udp_error_message(e: UdpErrorView) -> Seq<char> {
    match e {
        UdpErrorView::MissingDeviceId => "Missing device ID"@,
        UdpErrorView::InvalidDeviceId(t) => int_error_text(t, false, 0, usize::MAX as int),
        UdpErrorView::MissingCommandName => "Missing command name"@,
        UdpErrorView::InvalidParameterFormat => "Invalid parameter format"@,
        UdpErrorView::UnknownCommand => "Unknown command"@,
        UdpErrorView::UnknownParam => "Unknown param"@,
        UdpErrorView::InvalidValue(m) => m,
    }
}

impl UdpCommandError {
    /// The text shown for this error.
    pub fn message(&self) -> (s: String)
        ensures
            s@ == udp_error_message(udp_error_view(*self)),
    {
        match self {
            UdpCommandError::MissingDeviceId => "Missing device ID".to_owned(),
            UdpCommandError::InvalidDeviceId(t) => int_error(&chars_of(t.as_str()), false, 0, usize::MAX as u64).to_owned(),
            UdpCommandError::MissingCommandName => "Missing command name".to_owned(),
            UdpCommandError::InvalidParameterFormat => "Invalid parameter format".to_owned(),
            UdpCommandError::UnknownCommand => "Unknown command".to_owned(),
            UdpCommandError::UnknownParam => "Unknown param".to_owned(),
            UdpCommandError::InvalidValue(m) => m.clone(),
        }
    }
}

/// The answer to a line that could not be read.
pub fn invalid_command_reply(e: &UdpCommandError) -> (s: String)
    ensures
        s@ == "ERROR: Invalid command format - "@ + udp_error_message(udp_error_view(*e)) + "\n"@,
{
    let mut out: Vec<char> = Vec::new();
    push_str(&mut out, "ERROR: Invalid command format - ");
    let m = e.message();
    push_str(&mut out, m.as_str());
    push_str(&mut out, "\n");
    string_from_chars(out.as_slice())
}

/// What the interface tells the sender of a command once the rig ran it, or
/// failed to with `error`.
pub fn command_result_reply(device_id: usize, command_name: &str, error: Option<&str>) -> (s: String)
    ensures
        s@ == match error {
            None => "Executed command "@ + command_name@ + " on device "@ + decimal_chars(device_id as nat) + "\n"@,
            Some(err) => "Failed executing command "@ + command_name@ + " on device "@ + decimal_chars(device_id as nat) + ": "@
                + err@ + "\n"@,
        },
{
    let mut out: Vec<char> = Vec::new();
    match error {
        None => {
            push_str(&mut out, "Executed command ");
            push_str(&mut out, command_name);
            push_str(&mut out, " on device ");
            push_decimal(&mut out, device_id as u128);
            push_str(&mut out, "\n");
        },
        Some(err) => {
            push_str(&mut out, "Failed executing command ");
            push_str(&mut out, command_name);
            push_str(&mut out, " on device ");
            push_decimal(&mut out, device_id as u128);
            push_str(&mut out, ": ");
            push_str(&mut out, err);
            push_str(&mut out, "\n");
        },
    }
    string_from_chars(out.as_slice())
}

/// What the interface tells the sender of a command when its device
/// connects or disconnects.
pub fn connection_reply(device_id: usize, connected: bool) -> (s: String)
    ensures
        s@ == "Device "@ + decimal_chars(device_id as nat) + (if connected { " connected"@ } else { " disconnected"@ }),
{
    let mut out: Vec<char> = Vec::new();
    push_str(&mut out, "Device ");
    push_decimal(&mut out, device_id as u128);
    if connected {
        push_str(&mut out, " connected");
    } else {
        push_str(&mut out, " disconnected");
    }
    string_from_chars(out.as_slice())
}

} // verus!
