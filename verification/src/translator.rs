//! Turning an OmniRig description into a rig description of this library:
//! each OmniRig parameter command is given the name of the command it
//! implements, and the bytes that change between commands of one family are
//! found and described as a parameter.
use vstd::prelude::*;

use crate::data_format::{
    as_unsigned, be_value, format_name, le_digits, le_value, lemma_sig_bytes_fits, pow256, spec_encode, DataFormat,
};
use crate::format_laws::{lemma_be_value_reverse, lemma_le_digits_len, lemma_le_value_digits};
use crate::grammar::{digits_u32, parse_u32_digits};
use crate::name_map::{entries_view, insert_view, lemma_insert_entry_values, lemma_insert_view, NameMap};
use crate::omnirig_parser::{Command, EndOfData, RigDescription};
use crate::rig_file::{
    command_wf, opt_chars, param_view, rig_command_view, rig_file_view, rig_file_wf, ParamView, RigBinaryParam,
    RigCommand, RigCommandView, RigFile, RigFileView,
};
use crate::text::{ascii_lower, chars_of, name_is, same_chars, same_name, str_eq, string_from_chars, to_uppercase, uppercase};

verus! {

// ---------------------------------------------------------------------------
// Names, compared without regard to ASCII case
// ---------------------------------------------------------------------------

// ---------------------------------------------------------------------------
// On/off commands
// ---------------------------------------------------------------------------

/// `Some(true)` for the command that switches `kind` on ("pm" + kind +
/// "on"), `Some(false)` for the one that switches it off, else `None`.
pub open spec fn toggle_value(name: Seq<char>, kind: Seq<char>) -> Option<bool> {
    if same_name(name, "pm"@ + kind + "on"@) {
        Some(true)
    } else if same_name(name, "pm"@ + kind + "off"@) {
        Some(false)
    } else {
        None
    }
}

fn toggle_name(kind: &str, suffix: &str) -> (r: Vec<char>)
    ensures
        r@ == "pm"@ + kind@ + suffix@,
{
    let mut v = chars_of("pm");
    let k = chars_of(kind);
    let s = chars_of(suffix);
    let mut i: usize = 0;
    let ghost start = v@;
    while i < k.len()
        invariant
            i <= k.len(),
            v@ == start + k@.take(i as int),
        decreases k.len() - i,
    {
        v.push(k[i]);
        assert(v@ =~= start + k@.take(i + 1));
        i = i + 1;
    }
    assert(k@.take(i as int) =~= k@);
    let ghost mid = v@;
    let mut j: usize = 0;
    while j < s.len()
        invariant
            j <= s.len(),
            v@ == mid + s@.take(j as int),
        decreases s.len() - j,
    {
        v.push(s[j]);
        assert(v@ =~= mid + s@.take(j + 1));
        j = j + 1;
    }
    assert(s@.take(j as int) =~= s@);
    v
}

/// Whether a command switches `command_type` on or off.
pub fn extract_toggle_params(cmd_name: &str, command_type: &str) -> (r: Option<bool>)
    ensures
        r == toggle_value(cmd_name@, command_type@),
{
    let name = chars_of(cmd_name);
    let on = toggle_name(command_type, "on");
    if same_chars(&name, &on) {
        return Some(true);
    }
    let off = toggle_name(command_type, "off");
    if same_chars(&name, &off) {
        Some(false)
    } else {
        None
    }
}

// ---------------------------------------------------------------------------
// Mode commands
// ---------------------------------------------------------------------------

/// A mode and its sideband, if it has one.
pub open spec fn mode_of(upper: Seq<char>) -> Option<(Seq<char>, Option<Seq<char>>)> {
    if upper == "CW_U"@ {
        Some(("CW"@, Some("Upper"@)))
    } else if upper == "CW_L"@ {
        Some(("CW"@, Some("Lower"@)))
    } else if upper == "SSB_U"@ {
        Some(("SSB"@, Some("Upper"@)))
    } else if upper == "SSB_L"@ {
        Some(("SSB"@, Some("Lower"@)))
    } else if upper == "DIG_U"@ {
        Some(("DIG"@, Some("Upper"@)))
    } else if upper == "DIG_L"@ {
        Some(("DIG"@, Some("Lower"@)))
    } else if upper == "AM"@ {
        Some(("AM"@, None))
    } else if upper == "FM"@ {
        Some(("FM"@, None))
    } else {
        None
    }
}

pub open spec fn mode_params_view(r: Option<(String, Option<String>)>) -> Option<(Seq<char>, Option<Seq<char>>)> {
    match r {
        Some((m, s)) => Some((m@, opt_chars(s))),
        None => None,
    }
}

fn mode_pair(mode: &str, side: Option<&str>) -> (r: Option<(String, Option<String>)>)
    ensures
        mode_params_view(r) == Some((
            mode@,
            match side {
                Some(s) => Some(s@),
                None => None,
            },
        )),
{
    let s = match side {
        Some(t) => Some(t.to_owned()),
        None => None,
    };
    Some((mode.to_owned(), s))
}

/// The mode named by an upper-case mode word.
pub fn mode_from_uppercase(upper: &str) -> (r: Option<(String, Option<String>)>)
    ensures
        mode_params_view(r) == mode_of(upper@),
{
    if str_eq(upper, "CW_U") {
        mode_pair("CW", Some("Upper"))
    } else if str_eq(upper, "CW_L") {
        mode_pair("CW", Some("Lower"))
    } else if str_eq(upper, "SSB_U") {
        mode_pair("SSB", Some("Upper"))
    } else if str_eq(upper, "SSB_L") {
        mode_pair("SSB", Some("Lower"))
    } else if str_eq(upper, "DIG_U") {
        mode_pair("DIG", Some("Upper"))
    } else if str_eq(upper, "DIG_L") {
        mode_pair("DIG", Some("Lower"))
    } else if str_eq(upper, "AM") {
        mode_pair("AM", None)
    } else if str_eq(upper, "FM") {
        mode_pair("FM", None)
    } else {
        None
    }
}

/// The mode a command sets: its name is "pm" and a mode word, in any case.
pub open spec fn mode_value(name: Seq<char>) -> Option<(Seq<char>, Option<Seq<char>>)> {
    if name.len() >= 2 && name[0] == 'p' && name[1] == 'm' {
        mode_of(uppercase(name.skip(2)))
    } else {
        None
    }
}

/// The mode a command sets, if it is a mode command.
pub fn extract_mode_params(cmd_name: &str) -> (r: Option<(String, Option<String>)>)
    ensures
        mode_params_view(r) == mode_value(cmd_name@),
{
    let cs = chars_of(cmd_name);
    if cs.len() < 2 || cs[0] != 'p' || cs[1] != 'm' {
        return None;
    }
    let mut rest: Vec<char> = Vec::new();
    let mut i: usize = 2;
    while i < cs.len()
        invariant
            2 <= i <= cs.len(),
            rest@ == cs@.subrange(2, i as int),
        decreases cs.len() - i,
    {
        rest.push(cs[i]);
        assert(rest@ =~= cs@.subrange(2, i + 1));
        i = i + 1;
    }
    assert(rest@ =~= cmd_name@.skip(2));
    let tail = string_from_chars(rest.as_slice());
    let upper = to_uppercase(tail.as_str());
    mode_from_uppercase(upper.as_str())
}

// ---------------------------------------------------------------------------
// Command names
// ---------------------------------------------------------------------------

/// The name of a command that takes no mode and no on/off value.
pub open spec fn plain_command(name: Seq<char>) -> Option<Seq<char>> {
    if same_name(name, "pmfreq"@) || same_name(name, "pmfreqa"@) || same_name(name, "pmfreqb"@) {
        Some("set_freq"@)
    } else if same_name(name, "pmpitch"@) {
        Some("cw_pitch"@)
    } else if same_name(name, "pmritoffset"@) {
        Some("rit_offset"@)
    } else if same_name(name, "pmrit0"@) {
        Some("clear_rit"@)
    } else if same_name(name, "pmvfoaa"@) || same_name(name, "pmvfoab"@) || same_name(name, "pmvfoba"@)
        || same_name(name, "pmvfobb"@) || same_name(name, "pmvfoa"@) || same_name(name, "pmvfob"@) {
        Some("set_vfo"@)
    } else if same_name(name, "pmvfoequal"@) {
        Some("vfo_equal"@)
    } else if same_name(name, "pmvfoswap"@) {
        Some("vfo_swap"@)
    } else if same_name(name, "pmrx"@) {
        Some("set_rx"@)
    } else if same_name(name, "pmtx"@) {
        Some("set_tx"@)
    } else {
        None
    }
}

fn plain_command_of(name: &str) -> (r: Option<&'static str>)
    ensures
        match plain_command(name@) {
            Some(n) => r matches Some(s) && s@ == n,
            None => r is None,
        },
{
    if name_is(name, "pmfreq") || name_is(name, "pmfreqa") || name_is(name, "pmfreqb") {
        Some("set_freq")
    } else if name_is(name, "pmpitch") {
        Some("cw_pitch")
    } else if name_is(name, "pmritoffset") {
        Some("rit_offset")
    } else if name_is(name, "pmrit0") {
        Some("clear_rit")
    } else if name_is(name, "pmvfoaa") || name_is(name, "pmvfoab") || name_is(name, "pmvfoba") || name_is(
        name,
        "pmvfobb",
    ) || name_is(name, "pmvfoa") || name_is(name, "pmvfob") {
        Some("set_vfo")
    } else if name_is(name, "pmvfoequal") {
        Some("vfo_equal")
    } else if name_is(name, "pmvfoswap") {
        Some("vfo_swap")
    } else if name_is(name, "pmrx") {
        Some("set_rx")
    } else if name_is(name, "pmtx") {
        Some("set_tx")
    } else {
        None
    }
}

/// What an OmniRig command becomes: the name of the command, and the mode
/// or the on/off value it sets.
#[derive(Debug)]
pub struct CommandTranslation {
    pub name: String,
    pub mode_params: Option<(String, Option<String>)>,
    pub toggle_param: Option<(String, bool)>,
}

pub struct TranslationView {
    pub name: Seq<char>,
    pub mode_params: Option<(Seq<char>, Option<Seq<char>>)>,
    pub toggle_param: Option<(Seq<char>, bool)>,
}

pub open spec fn translation_view(t: CommandTranslation) -> TranslationView {
    TranslationView {
        name: t.name@,
        mode_params: mode_params_view(t.mode_params),
        toggle_param: match t.toggle_param {
            Some((k, v)) => Some((k@, v)),
            None => None,
        },
    }
}

pub open spec fn toggled(name: Seq<char>, kind: Seq<char>, schema_name: Seq<char>) -> TranslationView {
    TranslationView { name: schema_name, mode_params: None, toggle_param: Some((kind, toggle_value(name, kind)->0)) }
}

/// The translation of the command named `name`: a mode command first, then
/// the split, RIT and XIT switches, then the plain commands.
pub open spec fn translation_of(name: Seq<char>) -> Option<TranslationView> {
    if mode_value(name) is Some {
        Some(TranslationView { name: "set_mode"@, mode_params: mode_value(name), toggle_param: None })
    } else if toggle_value(name, "split"@) is Some {
        Some(toggled(name, "split"@, "set_split"@))
    } else if toggle_value(name, "rit"@) is Some {
        Some(toggled(name, "rit"@, "set_rit"@))
    } else if toggle_value(name, "xit"@) is Some {
        Some(toggled(name, "xit"@, "set_xit"@))
    } else {
        match plain_command(name) {
            Some(n) => Some(TranslationView { name: n, mode_params: None, toggle_param: None }),
            None => None,
        }
    }
}

/// Why a translation failed.
#[derive(Debug)]
pub enum TranslateError {
    /// A parameter command whose name is not known.
    UnknownCommand(String),
}

fn toggle_translation(kind: &str, schema_name: &str, value: bool) -> (r: CommandTranslation)
    ensures
        translation_view(r) == (TranslationView {
            name: schema_name@,
            mode_params: None,
            toggle_param: Some((kind@, value)),
        }),
{
    CommandTranslation { name: schema_name.to_owned(), mode_params: None, toggle_param: Some((kind.to_owned(), value)) }
}

/// The command an OmniRig command implements, or an error naming it when it
/// is not known.
pub fn determine_command_name(cmd: &Command) -> (r: Result<CommandTranslation, TranslateError>)
    ensures
        match translation_of(cmd.name@) {
            Some(t) => r matches Ok(x) && translation_view(x) == t,
            None => r matches Err(TranslateError::UnknownCommand(n)) && n@ == cmd.name@,
        },
{
    let name = cmd.name.as_str();
    let mode = extract_mode_params(name);
    if mode.is_some() {
        return Ok(CommandTranslation { name: "set_mode".to_owned(), mode_params: mode, toggle_param: None });
    }
    if let Some(v) = extract_toggle_params(name, "split") {
        return Ok(toggle_translation("split", "set_split", v));
    }
    if let Some(v) = extract_toggle_params(name, "rit") {
        return Ok(toggle_translation("rit", "set_rit", v));
    }
    if let Some(v) = extract_toggle_params(name, "xit") {
        return Ok(toggle_translation("xit", "set_xit", v));
    }
    match plain_command_of(name) {
        Some(n) => Ok(CommandTranslation { name: n.to_owned(), mode_params: None, toggle_param: None }),
        None => Err(TranslateError::UnknownCommand(string_from_chars(chars_of(name).as_slice()))),
    }
}

// ---------------------------------------------------------------------------
// Where the commands of one family differ
// ---------------------------------------------------------------------------

/// The stretch of a command that differs between commands of one family.
#[derive(Debug, Clone, Copy, PartialEq, Eq, Structural)]
pub struct BinaryParamLocation {
    pub offset: usize,
    pub length: usize,
}

/// How many leading characters `a` and `b` share.
pub open spec fn common_prefix(a: Seq<char>, b: Seq<char>) -> nat
    decreases a.len(),
{
    if a.len() == 0 || b.len() == 0 || a[0] != b[0] {
        0
    } else {
        1 + common_prefix(a.drop_first(), b.drop_first())
    }
}

/// How many trailing characters `a` and `b` share.
pub open spec fn common_suffix(a: Seq<char>, b: Seq<char>) -> nat
    decreases a.len(),
{
    if a.len() == 0 || b.len() == 0 || a.last() != b.last() {
        0
    } else {
        1 + common_suffix(a.drop_last(), b.drop_last())
    }
}

/// The UTF-8 length of `s`.
pub open spec fn byte_len(s: Seq<char>) -> nat {
    vstd::utf8::encode_utf8(s).len()
}

/// The smallest prefix that `first` shares with any of `rest`, starting
/// from `init`.
pub open spec fn min_prefix(first: Seq<char>, rest: Seq<Seq<char>>, init: nat) -> nat
    decreases rest.len(),
{
    if rest.len() == 0 {
        init
    } else {
        let m = min_prefix(first, rest.drop_last(), init);
        let p = common_prefix(first, rest.last());
        if p < m {
            p
        } else {
            m
        }
    }
}

/// The largest suffix that `first` shares with any of `rest`.
pub open spec fn max_suffix(first: Seq<char>, rest: Seq<Seq<char>>) -> nat
    decreases rest.len(),
{
    if rest.len() == 0 {
        0
    } else {
        let m = max_suffix(first, rest.drop_last());
        let s = common_suffix(first, rest.last());
        if s > m {
            s
        } else {
            m
        }
    }
}

/// The prefix shared by the first command with all the others.
pub open spec fn shared_prefix(texts: Seq<Seq<char>>) -> nat {
    min_prefix(texts[0], texts.drop_first(), byte_len(texts[0]))
}

/// The longest suffix the first command shares with another.
pub open spec fn shared_suffix(texts: Seq<Seq<char>>) -> nat {
    max_suffix(texts[0], texts.drop_first())
}

/// The shared prefix and suffix leave room in the first command.
pub open spec fn location_fits(texts: Seq<Seq<char>>) -> bool {
    texts.len() < 2 || shared_prefix(texts) + shared_suffix(texts) <= byte_len(texts[0])
}

/// Offset and length of the stretch between the shared prefix and suffix,
/// for two commands or more.
pub open spec fn location_of(texts: Seq<Seq<char>>) -> Option<(nat, nat)> {
    if texts.len() < 2 {
        None
    } else {
        Some((shared_prefix(texts), (byte_len(texts[0]) - shared_prefix(texts) - shared_suffix(texts)) as nat))
    }
}

pub open spec fn location_view(r: Option<BinaryParamLocation>) -> Option<(nat, nat)> {
    match r {
        Some(l) => Some((l.offset as nat, l.length as nat)),
        None => None,
    }
}

fn common_prefix_len(a: &Vec<char>, b: &Vec<char>) -> (r: usize)
    ensures
        r == common_prefix(a@, b@),
{
    let mut i: usize = 0;
    assert(a@.skip(0) =~= a@);
    assert(b@.skip(0) =~= b@);
    while i < a.len() && i < b.len() && a[i] == b[i]
        invariant
            i <= a.len(),
            i <= b.len(),
            common_prefix(a@, b@) == i + common_prefix(a@.skip(i as int), b@.skip(i as int)),
        decreases a.len() - i,
    {
        assert(a@.skip(i as int).drop_first() =~= a@.skip(i + 1));
        assert(b@.skip(i as int).drop_first() =~= b@.skip(i + 1));
        i = i + 1;
    }
    i
}

fn common_suffix_len(a: &Vec<char>, b: &Vec<char>) -> (r: usize)
    ensures
        r == common_suffix(a@, b@),
{
    let mut j: usize = 0;
    assert(a@.take(a@.len() as int) =~= a@);
    assert(b@.take(b@.len() as int) =~= b@);
    while j < a.len() && j < b.len() && a[a.len() - 1 - j] == b[b.len() - 1 - j]
        invariant
            j <= a.len(),
            j <= b.len(),
            common_suffix(a@, b@) == j + common_suffix(
                a@.take(a@.len() - j),
                b@.take(b@.len() - j),
            ),
        decreases a.len() - j,
    {
        assert(a@.take(a@.len() - j).drop_last() =~= a@.take(a@.len() - (j + 1)));
        assert(b@.take(b@.len() - j).drop_last() =~= b@.take(b@.len() - (j + 1)));
        j = j + 1;
    }
    j
}

pub open spec fn refs_view(v: Seq<&String>) -> Seq<Seq<char>> {
    v.map_values(|s: &String| s@)
}

/// Where the commands `texts` differ.
fn location_in(texts: &Vec<&String>) -> (r: Option<BinaryParamLocation>)
    requires
        location_fits(refs_view(texts@)),
    ensures
        location_view(r) == location_of(refs_view(texts@)),
{
    let ghost tv = refs_view(texts@);
    if texts.len() < 2 {
        return None;
    }
    let first_text: &String = texts[0];
    let first = chars_of(first_text.as_str());
    let first_len = first_text.as_str().as_bytes().len();
    let ghost rest = tv.drop_first();
    let mut start_diff: usize = first_len;
    let mut end_diff: usize = 0;
    let mut k: usize = 1;
    assert(rest.take(0) =~= Seq::<Seq<char>>::empty());
    while k < texts.len()
        invariant
            1 <= k <= texts@.len(),
            tv == refs_view(texts@),
            rest == tv.drop_first(),
            first@ == tv[0],
            first_len == byte_len(tv[0]),
            start_diff == min_prefix(tv[0], rest.take(k - 1), byte_len(tv[0])),
            end_diff == max_suffix(tv[0], rest.take(k - 1)),
            end_diff <= first@.len(),
        decreases texts@.len() - k,
    {
        assert(rest.take(k as int).drop_last() =~= rest.take(k - 1));
        assert(rest.take(k as int).last() == tv[k as int]);
        let other = chars_of(texts[k].as_str());
        let p = common_prefix_len(&first, &other);
        let s = common_suffix_len(&first, &other);
        proof {
            lemma_common_suffix_bound(first@, other@);
        }
        if p < start_diff {
            start_diff = p;
        }
        if s > end_diff {
            end_diff = s;
        }
        k = k + 1;
    }
    assert(rest.take(k - 1) =~= rest);
    let length = first_len - start_diff - end_diff;
    Some(BinaryParamLocation { offset: start_diff, length })
}

proof fn lemma_common_suffix_bound(a: Seq<char>, b: Seq<char>)
    ensures
        common_suffix(a, b) <= a.len(),
    decreases a.len(),
{
    if a.len() > 0 && b.len() > 0 && a.last() == b.last() {
        lemma_common_suffix_bound(a.drop_last(), b.drop_last());
    }
}

/// Whether the shared prefix and suffix of the commands `texts` leave room
/// in the first of them.
fn location_fits_in(texts: &Vec<&String>) -> (r: bool)
    ensures
        r == location_fits(refs_view(texts@)),
{
    let ghost tv = refs_view(texts@);
    if texts.len() < 2 {
        return true;
    }
    let first_text: &String = texts[0];
    let first = chars_of(first_text.as_str());
    let first_len = first_text.as_str().as_bytes().len();
    let ghost rest = tv.drop_first();
    let mut start_diff: usize = first_len;
    let mut end_diff: usize = 0;
    let mut k: usize = 1;
    assert(rest.take(0) =~= Seq::<Seq<char>>::empty());
    while k < texts.len()
        invariant
            1 <= k <= texts@.len(),
            tv == refs_view(texts@),
            rest == tv.drop_first(),
            first@ == tv[0],
            first_len == byte_len(tv[0]),
            start_diff == min_prefix(tv[0], rest.take(k - 1), byte_len(tv[0])),
            end_diff == max_suffix(tv[0], rest.take(k - 1)),
            end_diff <= first@.len(),
        decreases texts@.len() - k,
    {
        assert(rest.take(k as int).drop_last() =~= rest.take(k - 1));
        assert(rest.take(k as int).last() == tv[k as int]);
        let other = chars_of(texts[k].as_str());
        let p = common_prefix_len(&first, &other);
        let s = common_suffix_len(&first, &other);
        proof {
            lemma_common_suffix_bound(first@, other@);
        }
        if p < start_diff {
            start_diff = p;
        }
        if s > end_diff {
            end_diff = s;
        }
        k = k + 1;
    }
    assert(rest.take(k - 1) =~= rest);
    start_diff as u128 + end_diff as u128 <= first_len as u128
}

fn mode_texts_of(commands: &[Command]) -> (r: Vec<&String>)
    ensures
        refs_view(r@) == mode_command_texts(commands@),
{
    let mut texts: Vec<&String> = Vec::new();
    let mut i: usize = 0;
    while i < commands.len()
        invariant
            i <= commands@.len(),
            refs_view(texts@) == mode_command_texts(commands@.take(i as int)),
        decreases commands@.len() - i,
    {
        assert(commands@.take(i + 1).drop_last() =~= commands@.take(i as int));
        let m = extract_mode_params(commands[i].name.as_str());
        if m.is_some() {
            texts.push(&commands[i].command);
            assert(refs_view(texts@) =~= mode_command_texts(commands@.take(i as int)).push(
                commands@[i as int].command@,
            ));
        }
        i = i + 1;
    }
    assert(commands@.take(i as int) =~= commands@);
    texts
}

fn toggle_texts_of<'a>(commands: &'a [Command], command_type: &str) -> (r: Vec<&'a String>)
    ensures
        refs_view(r@) == toggle_command_texts(commands@, command_type@),
{
    let mut texts: Vec<&String> = Vec::new();
    let mut i: usize = 0;
    while i < commands.len()
        invariant
            i <= commands@.len(),
            refs_view(texts@) == toggle_command_texts(commands@.take(i as int), command_type@),
        decreases commands@.len() - i,
    {
        assert(commands@.take(i + 1).drop_last() =~= commands@.take(i as int));
        if extract_toggle_params(commands[i].name.as_str(), command_type).is_some() {
            texts.push(&commands[i].command);
            assert(refs_view(texts@) =~= toggle_command_texts(commands@.take(i as int), command_type@).push(
                commands@[i as int].command@,
            ));
        }
        i = i + 1;
    }
    assert(commands@.take(i as int) =~= commands@);
    texts
}

/// Whether the places of the mode, split, RIT and XIT families can be found
/// in the parameter commands of a description.
pub fn can_translate(omnirig: &RigDescription) -> (r: bool)
    ensures
        r == translation_fits(omnirig.param_commands@),
{
    let cs = omnirig.param_commands.as_slice();
    let m = mode_texts_of(cs);
    let s = toggle_texts_of(cs, "split");
    let r = toggle_texts_of(cs, "rit");
    let x = toggle_texts_of(cs, "xit");
    location_fits_in(&m) && location_fits_in(&s) && location_fits_in(&r) && location_fits_in(&x)
}

pub open spec fn command_texts(cs: Seq<Command>) -> Seq<Seq<char>> {
    cs.map_values(|c: Command| c.command@)
}

/// Where the commands differ: after the prefix the first shares with all
/// the others and before the longest suffix it shares with one of them.
/// `None` for fewer than two commands.
pub fn find_param_location(commands: &[Command]) -> (r: Option<BinaryParamLocation>)
    requires
        location_fits(command_texts(commands@)),
    ensures
        location_view(r) == location_of(command_texts(commands@)),
{
    let mut texts: Vec<&String> = Vec::new();
    let mut i: usize = 0;
    while i < commands.len()
        invariant
            i <= commands@.len(),
            refs_view(texts@) == command_texts(commands@).take(i as int),
        decreases commands@.len() - i,
    {
        let ghost before = refs_view(texts@);
        texts.push(&commands[i].command);
        assert(refs_view(texts@) =~= before.push(commands@[i as int].command@));
        assert(command_texts(commands@).take(i + 1) =~= command_texts(commands@).take(i as int).push(
            commands@[i as int].command@,
        ));
        i = i + 1;
    }
    assert(command_texts(commands@).take(i as int) =~= command_texts(commands@));
    location_in(&texts)
}

/// The texts of the mode commands, in order.
pub open spec fn mode_command_texts(cs: Seq<Command>) -> Seq<Seq<char>>
    decreases cs.len(),
{
    if cs.len() == 0 {
        Seq::empty()
    } else if mode_value(cs.last().name@) is Some {
        mode_command_texts(cs.drop_last()).push(cs.last().command@)
    } else {
        mode_command_texts(cs.drop_last())
    }
}

/// The texts of the commands that switch `kind` on or off, in order.
pub open spec fn toggle_command_texts(cs: Seq<Command>, kind: Seq<char>) -> Seq<Seq<char>>
    decreases cs.len(),
{
    if cs.len() == 0 {
        Seq::empty()
    } else if toggle_value(cs.last().name@, kind) is Some {
        toggle_command_texts(cs.drop_last(), kind).push(cs.last().command@)
    } else {
        toggle_command_texts(cs.drop_last(), kind)
    }
}

/// Where the mode commands differ.
pub fn find_mode_param_location(commands: &[Command]) -> (r: Option<BinaryParamLocation>)
    requires
        location_fits(mode_command_texts(commands@)),
    ensures
        location_view(r) == location_of(mode_command_texts(commands@)),
{
    let mut texts: Vec<&String> = Vec::new();
    let mut i: usize = 0;
    while i < commands.len()
        invariant
            i <= commands@.len(),
            refs_view(texts@) == mode_command_texts(commands@.take(i as int)),
        decreases commands@.len() - i,
    {
        assert(commands@.take(i + 1).drop_last() =~= commands@.take(i as int));
        let m = extract_mode_params(commands[i].name.as_str());
        if m.is_some() {
            texts.push(&commands[i].command);
            assert(refs_view(texts@) =~= mode_command_texts(commands@.take(i as int)).push(
                commands@[i as int].command@,
            ));
        }
        i = i + 1;
    }
    assert(commands@.take(i as int) =~= commands@);
    location_in(&texts)
}

/// Where the commands that switch `command_type` on or off differ.
pub fn find_toggle_param_location(commands: &[Command], command_type: &str) -> (r: Option<BinaryParamLocation>)
    requires
        location_fits(toggle_command_texts(commands@, command_type@)),
    ensures
        location_view(r) == location_of(toggle_command_texts(commands@, command_type@)),
{
    let mut texts: Vec<&String> = Vec::new();
    let mut i: usize = 0;
    while i < commands.len()
        invariant
            i <= commands@.len(),
            refs_view(texts@) == toggle_command_texts(commands@.take(i as int), command_type@),
        decreases commands@.len() - i,
    {
        assert(commands@.take(i + 1).drop_last() =~= commands@.take(i as int));
        if extract_toggle_params(commands[i].name.as_str(), command_type).is_some() {
            texts.push(&commands[i].command);
            assert(refs_view(texts@) =~= toggle_command_texts(commands@.take(i as int), command_type@).push(
                commands@[i as int].command@,
            ));
        }
        i = i + 1;
    }
    assert(commands@.take(i as int) =~= commands@);
    location_in(&texts)
}


// ---------------------------------------------------------------------------
// One command
// ---------------------------------------------------------------------------

/// The fields of `cs` between `'|'` separators; there is always one more
/// field than separators.
pub open spec fn split_bars(cs: Seq<char>) -> Seq<Seq<char>>
    decreases cs.len(),
{
    if cs.len() == 0 {
        seq![Seq::empty()]
    } else {
        let r = split_bars(cs.drop_last());
        if cs.last() == '|' {
            r.push(Seq::empty())
        } else {
            r.update(r.len() - 1, r.last().push(cs.last()))
        }
    }
}

pub proof fn lemma_split_bars_len(cs: Seq<char>)
    ensures
        split_bars(cs).len() >= 1,
    decreases cs.len(),
{
    if cs.len() > 0 {
        lemma_split_bars_len(cs.drop_last());
    }
}

pub open spec fn parts_view(v: Seq<Vec<char>>) -> Seq<Seq<char>> {
    v.map_values(|p: Vec<char>| p@)
}

fn split_value(cs: &Vec<char>) -> (r: Vec<Vec<char>>)
    ensures
        parts_view(r@) == split_bars(cs@),
{
    let mut done: Vec<Vec<char>> = Vec::new();
    let mut cur: Vec<char> = Vec::new();
    let mut i: usize = 0;
    assert(cs@.take(0) =~= Seq::<char>::empty());
    assert(parts_view(done@).push(cur@) =~= split_bars(cs@.take(0)));
    while i < cs.len()
        invariant
            i <= cs.len(),
            parts_view(done@).push(cur@) == split_bars(cs@.take(i as int)),
        decreases cs.len() - i,
    {
        assert(cs@.take(i + 1).drop_last() =~= cs@.take(i as int));
        proof {
            lemma_split_bars_len(cs@.take(i as int));
        }
        let ghost before = parts_view(done@).push(cur@);
        if cs[i] == '|' {
            let finished = cur;
            done.push(finished);
            cur = Vec::new();
            assert(parts_view(done@).push(cur@) =~= before.push(Seq::empty()));
        } else {
            cur.push(cs[i]);
            assert(parts_view(done@).push(cur@) =~= before.update(before.len() - 1, before.last().push(cs@[i as int])));
        }
        i = i + 1;
    }
    assert(cs@.take(i as int) =~= cs@);
    let ghost d = parts_view(done@);
    done.push(cur);
    assert(parts_view(done@) =~= d.push(cur@));
    done
}

/// A `u32` as `str::parse` reads it: decimal digits with an optional `+`.
pub open spec fn std_u32(cs: Seq<char>) -> Option<u32> {
    if cs.len() > 0 && cs[0] == '+' {
        digits_u32(cs.drop_first())
    } else {
        digits_u32(cs)
    }
}

/// The `u32` in `cs`, or 0 when it does not hold one.
pub open spec fn u32_or_zero(cs: Seq<char>) -> u32 {
    match std_u32(cs) {
        Some(v) => v,
        None => 0,
    }
}

pub(crate) fn parse_u32_text(cs: &Vec<char>) -> (r: Option<u32>)
    ensures
        r == std_u32(cs@),
{
    let mut digits: Vec<char> = Vec::new();
    let mut i: usize = if cs.len() > 0 && cs[0] == '+' { 1 } else { 0 };
    let start = i;
    while i < cs.len()
        invariant
            start <= i <= cs.len(),
            start == (if cs@.len() > 0 && cs@[0] == '+' { 1int } else { 0int }),
            digits@ == cs@.subrange(start as int, i as int),
        decreases cs.len() - i,
    {
        digits.push(cs[i]);
        assert(digits@ =~= cs@.subrange(start as int, i + 1));
        i = i + 1;
    }
    if start == 1 {
        assert(digits@ =~= cs@.drop_first());
    } else {
        assert(digits@ =~= cs@);
    }
    let text = string_from_chars(digits.as_slice());
    parse_u32_digits(text.as_str())
}

/// The data format an OmniRig format name stands for; text when unknown.
pub open spec fn format_code(t: Seq<char>) -> DataFormat {
    if t == "vfBcdLU"@ {
        DataFormat::BcdLu
    } else if t == "vfBcdLS"@ {
        DataFormat::BcdLs
    } else if t == "vfBinL"@ {
        DataFormat::IntLu
    } else if t == "vfBinB"@ {
        DataFormat::IntBu
    } else {
        DataFormat::Text
    }
}

fn format_of(cs: &Vec<char>) -> (r: DataFormat)
    ensures
        r == format_code(cs@),
{
    let t = string_from_chars(cs.as_slice());
    let s = t.as_str();
    if str_eq(s, "vfBcdLU") {
        DataFormat::BcdLu
    } else if str_eq(s, "vfBcdLS") {
        DataFormat::BcdLs
    } else if str_eq(s, "vfBinL") {
        DataFormat::IntLu
    } else if str_eq(s, "vfBinB") {
        DataFormat::IntBu
    } else {
        DataFormat::Text
    }
}

/// Bytes written in a format with fixed-width unsigned integers, read back
/// least significant first (`little`) or most significant first.
proof fn lemma_unsigned_bytes(f: DataFormat, x: i32, len: nat)
    requires
        f == DataFormat::IntLu || f == DataFormat::IntBu,
        spec_encode(f, x, len) is Ok,
    ensures
        f == DataFormat::IntLu ==> le_value(spec_encode(f, x, len)->Ok_0) == as_unsigned(x),
        f == DataFormat::IntBu ==> be_value(spec_encode(f, x, len)->Ok_0) == as_unsigned(x),
        spec_encode(f, x, len)->Ok_0.len() == len,
{
    let n = as_unsigned(x);
    lemma_sig_bytes_fits(n as nat, len);
    lemma_le_value_digits(n, len);
    lemma_le_digits_len(n, len);
    vstd::arithmetic::div_mod::lemma_small_mod(n as nat, pow256(len) as nat);
    lemma_be_value_reverse(le_digits(n, len));
}

/// The formats of OmniRig value fields: `vfBinL` is an unsigned integer
/// written least significant byte first (reading the bytes back that way
/// gives the value) and `vfBinB` one written most significant byte first;
/// `vfBcdLU` and `vfBcdLS` are the unsigned and signed little-endian BCD
/// formats, and any other name is text.
pub proof fn lemma_value_formats(v: Seq<char>)
    requires
        split_bars(v).len() >= 3,
    ensures
        value_param(Some(v)) is Some,
        split_bars(v)[2] == "vfBinL"@ ==> format_name(value_param(Some(v))->0.format) == "int_lu"@,
        split_bars(v)[2] == "vfBinL"@ ==> forall|x: i32, len: nat| #[trigger]
            spec_encode(value_param(Some(v))->0.format, x, len) is Ok ==> le_value(
                spec_encode(value_param(Some(v))->0.format, x, len)->Ok_0,
            ) == as_unsigned(x),
        split_bars(v)[2] == "vfBinB"@ ==> format_name(value_param(Some(v))->0.format) == "int_bu"@,
        split_bars(v)[2] == "vfBinB"@ ==> forall|x: i32, len: nat| #[trigger]
            spec_encode(value_param(Some(v))->0.format, x, len) is Ok ==> be_value(
                spec_encode(value_param(Some(v))->0.format, x, len)->Ok_0,
            ) == as_unsigned(x),
        split_bars(v)[2] == "vfBcdLU"@ ==> format_name(value_param(Some(v))->0.format) == "bcd_lu"@,
        split_bars(v)[2] == "vfBcdLS"@ ==> format_name(value_param(Some(v))->0.format) == "bcd_ls"@,
        split_bars(v)[2] != "vfBinL"@ && split_bars(v)[2] != "vfBinB"@ && split_bars(v)[2] != "vfBcdLU"@
            && split_bars(v)[2] != "vfBcdLS"@ ==> format_name(value_param(Some(v))->0.format) == "text"@,
{
    let f = value_param(Some(v))->0.format;
    if split_bars(v)[2] == "vfBinL"@ || split_bars(v)[2] == "vfBinB"@ {
        assert forall|x: i32, len: nat| #[trigger] spec_encode(f, x, len) is Ok implies (f == DataFormat::IntLu
            ==> le_value(spec_encode(f, x, len)->Ok_0) == as_unsigned(x)) && (f == DataFormat::IntBu ==> be_value(
            spec_encode(f, x, len)->Ok_0,
        ) == as_unsigned(x)) by {
            reveal_strlit("vfBinL");
            reveal_strlit("vfBinB");
            reveal_strlit("vfBcdLU");
            reveal_strlit("vfBcdLS");
            if f == DataFormat::IntLu || f == DataFormat::IntBu {
                lemma_unsigned_bytes(f, x, len);
            }
        }
    }
    reveal_strlit("vfBinL");
    reveal_strlit("vfBinB");
    reveal_strlit("vfBcdLU");
    reveal_strlit("vfBcdLS");
    assert("vfBinL"@ != "vfBcdLU"@ && "vfBinL"@ != "vfBcdLS"@) by {
        assert("vfBinL"@[3] != "vfBcdLU"@[3]);
    }
    assert("vfBinB"@ != "vfBcdLU"@ && "vfBinB"@ != "vfBcdLS"@ && "vfBinB"@ != "vfBinL"@) by {
        assert("vfBinB"@[3] != "vfBcdLU"@[3]);
        assert("vfBinB"@[5] != "vfBinL"@[5]);
    }
    assert("vfBcdLS"@ != "vfBcdLU"@) by {
        assert("vfBcdLS"@[6] != "vfBcdLU"@[6]);
    }
}

/// The parameter an OmniRig value field ("start|length|format|scale|offset")
/// describes; it needs at least its first three fields.
pub open spec fn value_param(value: Option<Seq<char>>) -> Option<ParamView> {
    match value {
        None => None,
        Some(v) => {
            let parts = split_bars(v);
            if parts.len() >= 3 {
                Some(
                    ParamView {
                        index: u32_or_zero(parts[0]),
                        length: u32_or_zero(parts[1]),
                        format: format_code(parts[2]),
                        multiply: if parts.len() > 3 {
                            Some(parts[3])
                        } else {
                            None
                        },
                        add: if parts.len() > 4 {
                            Some(parts[4])
                        } else {
                            None
                        },
                    },
                )
            } else {
                None
            }
        },
    }
}

/// An OmniRig command as a rig command: its text and validation mask, how
/// its reply ends, and its value field as the parameter `value`.
pub open spec fn converted(c: Command) -> RigCommandView {
    RigCommandView {
        command: c.command@,
        response: opt_chars(c.validate),
        reply_length: match c.end_of_data {
            EndOfData::Length(n) => Some(n as usize),
            EndOfData::String(_) => None,
        },
        reply_end: match c.end_of_data {
            EndOfData::String(s) => Some(s@),
            EndOfData::Length(_) => None,
        },
        params: match value_param(opt_chars(c.value)) {
            Some(p) => seq![("value"@, p)],
            None => Seq::empty(),
        },
        returns: Seq::empty(),
    }
}

pub(crate) fn copy_string(s: &String) -> (r: String)
    ensures
        r@ == s@,
{
    s.as_str().to_owned()
}

pub(crate) fn copy_opt(s: &Option<String>) -> (r: Option<String>)
    ensures
        opt_chars(r) == opt_chars(*s),
{
    match s {
        Some(t) => Some(copy_string(t)),
        None => None,
    }
}

fn value_param_of(value: &Option<String>) -> (r: Option<RigBinaryParam>)
    ensures
        match value_param(opt_chars(*value)) {
            Some(p) => r matches Some(q) && param_view(q) == p,
            None => r is None,
        },
{
    match value {
        None => None,
        Some(v) => {
            let cs = chars_of(v.as_str());
            let parts = split_value(&cs);
            let ghost pv = parts_view(parts@);
            if parts.len() < 3 {
                return None;
            }
            assert(parts[0]@ == pv[0] && parts[1]@ == pv[1] && parts[2]@ == pv[2]);
            let index = match parse_u32_text(&parts[0]) {
                Some(n) => n,
                None => 0,
            };
            let length = match parse_u32_text(&parts[1]) {
                Some(n) => n,
                None => 0,
            };
            let format = format_of(&parts[2]);
            let multiply = if parts.len() > 3 {
                assert(parts[3]@ == pv[3]);
                Some(string_from_chars(parts[3].as_slice()))
            } else {
                None
            };
            let add = if parts.len() > 4 {
                assert(parts[4]@ == pv[4]);
                Some(string_from_chars(parts[4].as_slice()))
            } else {
                None
            };
            Some(RigBinaryParam { index, length, format, add, multiply })
        },
    }
}

/// An OmniRig command as a rig command.
pub fn convert_command(cmd: &Command) -> (r: RigCommand)
    ensures
        rig_command_view(r) == converted(*cmd),
        command_wf(r),
{
    let mut params: NameMap<RigBinaryParam> = NameMap::new();
    match value_param_of(&cmd.value) {
        Some(p) => {
            let key = "value".to_owned();
            proof {
                lemma_insert_view(params.entries@, key, p, |q: RigBinaryParam| param_view(q));
            }
            params.insert(key, p);
        },
        None => {},
    }
    let (reply_length, reply_end) = match &cmd.end_of_data {
        EndOfData::Length(n) => (Some(*n as usize), None),
        EndOfData::String(s) => (None, Some(copy_string(s))),
    };
    let r = RigCommand {
        command: copy_string(&cmd.command),
        response: copy_opt(&cmd.validate),
        reply_length,
        reply_end,
        params,
        returns: NameMap::new(),
    };
    assert(rig_command_view(r).params =~= converted(*cmd).params);
    assert(rig_command_view(r).returns =~= converted(*cmd).returns);
    r
}

// ---------------------------------------------------------------------------
// A whole description
// ---------------------------------------------------------------------------

/// Where the mode, split, RIT and XIT commands differ.
pub struct Locations {
    pub mode: Option<(nat, nat)>,
    pub split: Option<(nat, nat)>,
    pub rit: Option<(nat, nat)>,
    pub xit: Option<(nat, nat)>,
}

pub open spec fn locations_of(cs: Seq<Command>) -> Locations {
    Locations {
        mode: location_of(mode_command_texts(cs)),
        split: location_of(toggle_command_texts(cs, "split"@)),
        rit: location_of(toggle_command_texts(cs, "rit"@)),
        xit: location_of(toggle_command_texts(cs, "xit"@)),
    }
}

/// The places of all four families fit their first commands.
pub open spec fn translation_fits(cs: Seq<Command>) -> bool {
    &&& location_fits(mode_command_texts(cs))
    &&& location_fits(toggle_command_texts(cs, "split"@))
    &&& location_fits(toggle_command_texts(cs, "rit"@))
    &&& location_fits(toggle_command_texts(cs, "xit"@))
}

pub open spec fn toggle_location(l: Locations, kind: Seq<char>) -> Option<(nat, nat)> {
    if kind == "split"@ {
        l.split
    } else if kind == "rit"@ {
        l.rit
    } else if kind == "xit"@ {
        l.xit
    } else {
        None
    }
}

/// A parameter at a found place, with the default scale and offset.
pub open spec fn located(loc: (nat, nat), format: DataFormat) -> ParamView {
    ParamView { index: loc.0 as u32, length: loc.1 as u32, format, add: None, multiply: None }
}

pub open spec fn with_param(c: RigCommandView, name: Seq<char>, p: ParamView) -> RigCommandView {
    RigCommandView {
        command: c.command,
        response: c.response,
        reply_length: c.reply_length,
        reply_end: c.reply_end,
        params: insert_view(c.params, name, p),
        returns: c.returns,
    }
}

/// A parameter command translated as `t`: a mode command gains the text
/// parameter `mode`, an on/off command an integer parameter named by what
/// it switches, where the family's commands differ.
pub open spec fn param_command(c: Command, t: TranslationView, l: Locations) -> RigCommandView {
    let base = converted(c);
    let with_mode = if t.mode_params is Some && l.mode is Some {
        with_param(base, "mode"@, located(l.mode->0, DataFormat::Text))
    } else {
        base
    };
    match t.toggle_param {
        Some((k, _)) => match toggle_location(l, k) {
            Some(loc) => with_param(with_mode, k, located(loc, DataFormat::IntLu)),
            None => with_mode,
        },
        None => with_mode,
    }
}

/// The name of the first parameter command with no known translation.
pub open spec fn unknown_command(cs: Seq<Command>) -> Option<Seq<char>>
    decreases cs.len(),
{
    if cs.len() == 0 {
        None
    } else {
        match unknown_command(cs.drop_last()) {
            Some(n) => Some(n),
            None => if translation_of(cs.last().name@) is None {
                Some(cs.last().name@)
            } else {
                None
            },
        }
    }
}

/// The commands by name, each later command of a name replacing an earlier.
pub open spec fn command_entries(cs: Seq<Command>, l: Locations) -> Seq<(Seq<char>, RigCommandView)>
    decreases cs.len(),
{
    if cs.len() == 0 {
        Seq::empty()
    } else {
        let prev = command_entries(cs.drop_last(), l);
        match translation_of(cs.last().name@) {
            Some(t) => insert_view(prev, t.name, param_command(cs.last(), t, l)),
            None => prev,
        }
    }
}

pub open spec fn converted_all(cs: Seq<Command>) -> Seq<RigCommandView> {
    cs.map_values(|c: Command| converted(c))
}

/// The rig description an OmniRig description becomes.
pub open spec fn translated(d: RigDescription) -> RigFileView {
    RigFileView {
        rig_type: "transceiver"@,
        version: 1,
        init: converted_all(d.init_commands@),
        commands: command_entries(d.param_commands@, locations_of(d.param_commands@)),
        status: converted_all(d.status_commands@),
    }
}

fn located_param(loc: &BinaryParamLocation, format: DataFormat) -> (r: RigBinaryParam)
    ensures
        param_view(r) == located((loc.offset as nat, loc.length as nat), format),
{
    RigBinaryParam { index: loc.offset as u32, length: loc.length as u32, format, add: None, multiply: None }
}

/// Add a parameter named `name` to a command.
fn add_param(c: &mut RigCommand, name: String, p: RigBinaryParam)
    requires
        command_wf(*old(c)),
    ensures
        command_wf(*final(c)),
        rig_command_view(*final(c)) == with_param(rig_command_view(*old(c)), name@, param_view(p)),
{
    proof {
        lemma_insert_view(c.params.entries@, name, p, |q: RigBinaryParam| param_view(q));
    }
    c.params.insert(name, p);
    assert(rig_command_view(*c).params =~= with_param(rig_command_view(*old(c)), name@, param_view(p)).params);
}

fn pick_location<'a>(
    kind: &String,
    split: &'a Option<BinaryParamLocation>,
    rit: &'a Option<BinaryParamLocation>,
    xit: &'a Option<BinaryParamLocation>,
) -> (r: &'a Option<BinaryParamLocation>)
    ensures
        kind@ == "split"@ ==> r == split,
        kind@ != "split"@ && kind@ == "rit"@ ==> r == rit,
        kind@ != "split"@ && kind@ != "rit"@ && kind@ == "xit"@ ==> r == xit,
        kind@ != "split"@ && kind@ != "rit"@ && kind@ != "xit"@ ==> r is None,
{
    if str_eq(kind.as_str(), "split") {
        split
    } else if str_eq(kind.as_str(), "rit") {
        rit
    } else if str_eq(kind.as_str(), "xit") {
        xit
    } else {
        &None
    }
}

fn convert_all(cs: &Vec<Command>, out: &mut Vec<RigCommand>)
    requires
        old(out)@.len() == 0,
    ensures
        final(out)@.map_values(|c: RigCommand| rig_command_view(c)) == converted_all(cs@),
        forall|i: int| 0 <= i < final(out)@.len() ==> command_wf(#[trigger] final(out)@[i]),
{
    let mut i: usize = 0;
    while i < cs.len()
        invariant
            i <= cs.len(),
            out@.len() == i,
            forall|k: int| 0 <= k < i ==> rig_command_view(#[trigger] out@[k]) == converted(cs@[k]),
            forall|k: int| 0 <= k < out@.len() ==> command_wf(#[trigger] out@[k]),
        decreases cs.len() - i,
    {
        let c = convert_command(&cs[i]);
        out.push(c);
        i = i + 1;
    }
    assert(out@.map_values(|c: RigCommand| rig_command_view(c)) =~= converted_all(cs@));
}

/// Translate an OmniRig description. The first parameter command whose name
/// is not known makes it fail, naming it.
pub fn translate_omnirig_to_rig(omnirig: RigDescription) -> (r: Result<RigFile, TranslateError>)
    requires
        translation_fits(omnirig.param_commands@),
    ensures
        match unknown_command(omnirig.param_commands@) {
            Some(n) => r matches Err(TranslateError::UnknownCommand(m)) && m@ == n,
            None => r matches Ok(f) && rig_file_wf(f) && rig_file_view(f) == translated(omnirig),
        },
{
    let ghost pcs = omnirig.param_commands@;
    let ghost l = locations_of(pcs);
    let mode_loc = find_mode_param_location(omnirig.param_commands.as_slice());
    let split_loc = find_toggle_param_location(omnirig.param_commands.as_slice(), "split");
    let rit_loc = find_toggle_param_location(omnirig.param_commands.as_slice(), "rit");
    let xit_loc = find_toggle_param_location(omnirig.param_commands.as_slice(), "xit");
    let mut rig_file = RigFile::new();
    convert_all(&omnirig.init_commands, &mut rig_file.init);
    let mut i: usize = 0;
    assert(pcs.take(0) =~= Seq::<Command>::empty());
    while i < omnirig.param_commands.len()
        invariant
            i <= pcs.len(),
            pcs == omnirig.param_commands@,
            l == locations_of(pcs),
            location_view(mode_loc) == l.mode,
            location_view(split_loc) == l.split,
            location_view(rit_loc) == l.rit,
            location_view(xit_loc) == l.xit,
            unknown_command(pcs.take(i as int)) is None,
            rig_file_wf(rig_file),
            rig_file_view(rig_file).rig_type == "transceiver"@,
            rig_file_view(rig_file).version == 1,
            rig_file_view(rig_file).init == converted_all(omnirig.init_commands@),
            rig_file_view(rig_file).commands == command_entries(pcs.take(i as int), l),
            rig_file_view(rig_file).status.len() == 0,
        decreases pcs.len() - i,
    {
        assert(pcs.take(i + 1).drop_last() =~= pcs.take(i as int));
        let cmd = &omnirig.param_commands[i];
        let translation = match determine_command_name(cmd) {
            Ok(t) => t,
            Err(e) => {
                assert(unknown_command(pcs.take(i + 1)) == Some(cmd.name@));
                proof {
                    lemma_unknown_prefix(pcs, i + 1);
                }
                return Err(e);
            },
        };
        let ghost t = translation_view(translation);
        let mut command_format = convert_command(cmd);
        if translation.mode_params.is_some() {
            if let Some(loc) = &mode_loc {
                add_param(&mut command_format, "mode".to_owned(), located_param(loc, DataFormat::Text));
            }
        }
        let ghost with_mode = rig_command_view(command_format);
        assert(with_mode == (if t.mode_params is Some && l.mode is Some {
            with_param(converted(*cmd), "mode"@, located(l.mode->0, DataFormat::Text))
        } else {
            converted(*cmd)
        }));
        if let Some((param_type, _value)) = &translation.toggle_param {
            let loc = pick_location(param_type, &split_loc, &rit_loc, &xit_loc);
            if let Some(loc) = loc {
                add_param(&mut command_format, copy_string(param_type), located_param(loc, DataFormat::IntLu));
            }
        }
        assert(rig_command_view(command_format) == param_command(*cmd, t, l));
        proof {
            lemma_insert_view(
                rig_file.commands.entries@,
                translation.name,
                command_format,
                |c: RigCommand| rig_command_view(c),
            );
            lemma_insert_entry_values(
                rig_file.commands.entries@,
                translation.name,
                command_format,
                |c: RigCommand| command_wf(c),
            );
        }
        rig_file.commands.insert(translation.name, command_format);
        i = i + 1;
    }
    assert(pcs.take(i as int) =~= pcs);
    convert_all(&omnirig.status_commands, &mut rig_file.status);
    assert(rig_file_view(rig_file) =~= translated(omnirig));
    Ok(rig_file)
}

/// An unknown command in a prefix is the first unknown command of the whole.
proof fn lemma_unknown_prefix(cs: Seq<Command>, n: int)
    requires
        0 <= n <= cs.len(),
        unknown_command(cs.take(n)) is Some,
    ensures
        unknown_command(cs) == unknown_command(cs.take(n)),
    decreases cs.len() - n,
{
    if n < cs.len() {
        assert(cs.take(n + 1).drop_last() =~= cs.take(n));
        lemma_unknown_prefix(cs, n + 1);
    } else {
        assert(cs.take(n) =~= cs);
    }
}

} // verus!
