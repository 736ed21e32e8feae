//! OmniRig rig descriptions: the commands of an INI file, grouped into the
//! initialisation, parameter-setting and status-polling sections.
use vstd::prelude::*;

use crate::name_map::{key_before, lemma_key_before_total, lemma_key_before_transitive, str_before};
use crate::rig_file::opt_chars;
use crate::text::{chars_of, push_str, str_eq, string_from_chars, to_uppercase, uppercase};
use crate::numbers::{int_error, int_error_text};
use crate::translator::{copy_opt, copy_string, parse_u32_text, std_u32};

verus! {

/// How the end of a reply is found: by its length, or by the text it ends
/// with.
#[derive(Debug)]
pub enum EndOfData {
    Length(u32),
    String(String),
}

/// One command section of an OmniRig file.
#[derive(Debug)]
pub struct Command {
    /// The section's name.
    pub name: String,
    pub command: String,
    pub end_of_data: EndOfData,
    pub validate: Option<String>,
    pub value: Option<String>,
    pub values: Vec<String>,
    pub flags: Vec<String>,
}

/// The commands of an OmniRig file, by section kind, in the order the sections
/// are given to `describe_rig` (for an INI text, the reader's order).
#[derive(Debug)]
pub struct RigDescription {
    pub init_commands: Vec<Command>,
    pub param_commands: Vec<Command>,
    pub status_commands: Vec<Command>,
}

/// How a reply ends, with its text as characters.
pub enum EndView {
    Length(u32),
    Text(Seq<char>),
}

/// A command with its texts as characters.
pub struct CommandView {
    pub name: Seq<char>,
    pub command: Seq<char>,
    pub end_of_data: EndView,
    pub validate: Option<Seq<char>>,
    pub value: Option<Seq<char>>,
    pub values: Seq<Seq<char>>,
    pub flags: Seq<Seq<char>>,
}

pub open spec fn end_view(e: EndOfData) -> EndView {
    match e {
        EndOfData::Length(n) => EndView::Length(n),
        EndOfData::String(s) => EndView::Text(s@),
    }
}

pub open spec fn texts_view(v: Seq<String>) -> Seq<Seq<char>> {
    v.map_values(|s: String| s@)
}

pub open spec fn command_view(c: Command) -> CommandView {
    CommandView {
        name: c.name@,
        command: c.command@,
        end_of_data: end_view(c.end_of_data),
        validate: match c.validate {
            Some(s) => Some(s@),
            None => None,
        },
        value: match c.value {
            Some(s) => Some(s@),
            None => None,
        },
        values: texts_view(c.values@),
        flags: texts_view(c.flags@),
    }
}

pub open spec fn commands_view(v: Seq<Command>) -> Seq<CommandView> {
    v.map_values(|c: Command| command_view(c))
}

impl RigDescription {
    /// A description with no commands.
    pub fn new() -> (r: Self)
        ensures
            r.init_commands@.len() == 0,
            r.param_commands@.len() == 0,
            r.status_commands@.len() == 0,
    {
        RigDescription { init_commands: Vec::new(), param_commands: Vec::new(), status_commands: Vec::new() }
    }
}


// ---------------------------------------------------------------------------
// Reading the INI text
// ---------------------------------------------------------------------------

/// A section of an INI file: its name and its keys, each with its value if
/// it has one.
#[derive(Debug)]
pub struct IniSection {
    pub name: String,
    pub entries: Vec<(String, Option<String>)>,
}

/// What the INI reader reads from `text`: each section by name, with its
/// keys, each with its value if it has one; `None` when it refuses the text.
pub uninterp spec fn ini_sections(text: Seq<char>) -> Option<Map<Seq<char>, Map<Seq<char>, Option<Seq<char>>>>>;

/// Whether the INI reader accepts `text`.
pub open spec fn ini_accepts(text: Seq<char>) -> bool {
    ini_sections(text) is Some
}

/// `configparser::ini::Ini::read` with the default settings, which fold
/// section names and keys to lower case. It fails on some texts (a section
/// header without `]`, a key that is empty); whether it does, and the map of
/// sections to keys and values it reads, depend on the text alone. Its
/// sections and keys come in the order of the hash maps that hold them, each
/// name once; that order is not stated.
#[verifier::external_body]
fn read_ini(text: String) -> (r: Result<Vec<IniSection>, String>)
    ensures
        r is Ok <==> ini_accepts(text@),
        r matches Ok(v) ==> sections_distinct(sections_view(v@)) && content_of(sections_view(v@))
            == ini_sections(text@)->0,
{
    let mut ini = configparser::ini::Ini::new();
    match ini.read(text) {
        Ok(map) => {
            let mut sections = Vec::new();
            for (name, props) in map {
                sections.push(IniSection { name, entries: props.into_iter().collect() });
            }
            Ok(sections)
        },
        Err(e) => Err(e),
    }
}

/// A section with its texts as characters.
pub struct SectionView {
    pub name: Seq<char>,
    pub entries: Seq<(Seq<char>, Option<Seq<char>>)>,
}

pub open spec fn section_view(s: IniSection) -> SectionView {
    SectionView { name: s.name@, entries: entries_of(s.entries@) }
}

pub open spec fn sections_view(v: Seq<IniSection>) -> Seq<SectionView> {
    v.map_values(|s: IniSection| section_view(s))
}

/// The entries as a map from key to value; the first entry with a key
/// decides its value.
pub open spec fn entries_map(es: Seq<(Seq<char>, Option<Seq<char>>)>) -> Map<Seq<char>, Option<Seq<char>>>
    decreases es.len(),
{
    if es.len() == 0 {
        Map::empty()
    } else {
        entries_map(es.drop_first()).insert(es[0].0, es[0].1)
    }
}

/// Each section name once, and in each section each key once.
pub open spec fn sections_distinct(ss: Seq<SectionView>) -> bool {
    &&& forall|i: int, j: int| 0 <= i < j < ss.len() ==> (#[trigger] ss[i]).name != (#[trigger] ss[j]).name
    &&& forall|i: int, a: int, b: int| 0 <= i < ss.len() && 0 <= a < b < ss[i].entries.len()
        ==> (#[trigger] ss[i].entries[a]).0 != (#[trigger] ss[i].entries[b]).0
}

/// The sections as a map from name to their entries.
pub open spec fn content_of(ss: Seq<SectionView>) -> Map<Seq<char>, Map<Seq<char>, Option<Seq<char>>>>
    decreases ss.len(),
{
    if ss.len() == 0 {
        Map::empty()
    } else {
        content_of(ss.drop_first()).insert(ss[0].name, entries_map(ss[0].entries))
    }
}

/// The value under `key`, when there is one.
pub open spec fn prop_in(m: Map<Seq<char>, Option<Seq<char>>>, key: Seq<char>) -> Option<Seq<char>> {
    if m.contains_key(key) {
        m[key]
    } else {
        None
    }
}

/// How the reply of the command of section `name` with keys `m` ends.
pub open spec fn reply_end_in(name: Seq<char>, m: Map<Seq<char>, Option<Seq<char>>>) -> Result<EndView, OmniRigErrorView> {
    match (prop_in(m, "replyend"@), prop_in(m, "replylength"@)) {
        (None, Some(len)) => match std_u32(len) {
            Some(n) => Ok(EndView::Length(n)),
            None => Err(OmniRigErrorView::ReplyLength(name, len)),
        },
        (Some(t), None) => Ok(EndView::Text(t)),
        (Some(_), Some(_)) => Err(OmniRigErrorView::BothReplyFields(name)),
        (None, None) => Err(OmniRigErrorView::MissingReplyFields(name)),
    }
}

/// Whether section `name` has a command whose reply ending is wrong.
pub open spec fn section_fails(name: Seq<char>, m: Map<Seq<char>, Option<Seq<char>>>) -> bool {
    prop_in(m, "command"@) is Some && reply_end_in(name, m) is Err
}

/// Whether no section of `c` has a command whose reply ending is wrong.
pub open spec fn ini_describable(c: Map<Seq<char>, Map<Seq<char>, Option<Seq<char>>>>) -> bool {
    forall|n: Seq<char>| c.contains_key(n) ==> !section_fails(n, #[trigger] c[n])
}

/// The value of the first entry named `key`, when there is one and it has
/// a value.
pub open spec fn prop(es: Seq<(Seq<char>, Option<Seq<char>>)>, key: Seq<char>) -> Option<Seq<char>>
    decreases es.len(),
{
    if es.len() == 0 {
        None
    } else if es[0].0 == key {
        es[0].1
    } else {
        prop(es.drop_first(), key)
    }
}

/// A `u8` as `str::parse` reads it.
pub open spec fn std_u8(cs: Seq<char>) -> Option<u8> {
    match std_u32(cs) {
        Some(v) => if v <= 255 {
            Some(v as u8)
        } else {
            None
        },
        None => None,
    }
}

/// The entries named `prefix` and a `u8`, with a value: the number and the
/// value, in entry order.
pub open spec fn numbered(es: Seq<(Seq<char>, Option<Seq<char>>)>, prefix: Seq<char>) -> Seq<(u8, Seq<char>)>
    decreases es.len(),
{
    if es.len() == 0 {
        Seq::empty()
    } else {
        let r = numbered(es.drop_last(), prefix);
        let k = es.last().0;
        let v = es.last().1;
        if v is Some && k.len() >= prefix.len() && k.take(prefix.len() as int) == prefix && std_u8(
            k.skip(prefix.len() as int),
        ) is Some {
            r.push((std_u8(k.skip(prefix.len() as int))->0, v->0))
        } else {
            r
        }
    }
}

/// Pairs by number, then by value.
pub open spec fn pair_le(a: (u8, Seq<char>), b: (u8, Seq<char>)) -> bool {
    a.0 < b.0 || (a.0 == b.0 && !key_before(b.1, a.1))
}

pub open spec fn pairs_sorted(s: Seq<(u8, Seq<char>)>) -> bool {
    forall|i: int, j: int| 0 <= i < j < s.len() ==> pair_le(#[trigger] s[i], #[trigger] s[j])
}

/// `values` are the values of `pairs` once the pairs are sorted.
pub open spec fn in_order(pairs: Seq<(u8, Seq<char>)>, values: Seq<Seq<char>>) -> bool {
    exists|s: Seq<(u8, Seq<char>)>|
        pairs_sorted(s) && s.to_multiset() == pairs.to_multiset() && values == s.map_values(
            |p: (u8, Seq<char>)| p.1,
        )
}

/// How the reply of a section's command ends: a length or an ending text,
/// exactly one of them.
pub open spec fn reply_end_of(s: SectionView) -> Result<EndView, OmniRigErrorView> {
    match (prop(s.entries, "replyend"@), prop(s.entries, "replylength"@)) {
        (None, Some(len)) => match std_u32(len) {
            Some(n) => Ok(EndView::Length(n)),
            None => Err(OmniRigErrorView::ReplyLength(s.name, len)),
        },
        (Some(t), None) => Ok(EndView::Text(t)),
        (Some(_), Some(_)) => Err(OmniRigErrorView::BothReplyFields(s.name)),
        (None, None) => Err(OmniRigErrorView::MissingReplyFields(s.name)),
    }
}

/// Which group a section belongs to, by the start of its upper-case name.
#[derive(Debug, Clone, Copy, PartialEq, Eq, Structural)]
pub enum SectionKind {
    Init,
    Param,
    Status,
}

/// Whether `s` begins with `p`.
pub open spec fn starts_with(s: Seq<char>, p: Seq<char>) -> bool {
    s.len() >= p.len() && s.take(p.len() as int) == p
}

/// The group of a section whose upper-case name is `u`.
pub open spec fn kind_of_upper(u: Seq<char>) -> SectionKind {
    if starts_with(u, "INIT"@) {
        SectionKind::Init
    } else if starts_with(u, "STATUS"@) {
        SectionKind::Status
    } else {
        SectionKind::Param
    }
}

/// The group of a section named `name`.
pub open spec fn kind_of(name: Seq<char>) -> SectionKind {
    kind_of_upper(uppercase(name))
}

/// `c` is the command section `s` describes.
pub open spec fn command_of(s: SectionView, c: CommandView) -> bool {
    &&& c.name == s.name
    &&& prop(s.entries, "command"@) == Some(c.command)
    &&& reply_end_of(s) == Ok::<EndView, OmniRigErrorView>(c.end_of_data)
    &&& c.validate == prop(s.entries, "validate"@)
    &&& c.value == prop(s.entries, "value"@)
    &&& in_order(numbered(s.entries, "value"@), c.values)
    &&& in_order(numbered(s.entries, "flag"@), c.flags)
}

/// The sections with a command, of kind `k`, in order.
pub open spec fn command_sections(ss: Seq<SectionView>, k: SectionKind) -> Seq<SectionView>
    decreases ss.len(),
{
    if ss.len() == 0 {
        Seq::empty()
    } else if prop(ss.last().entries, "command"@) is Some && kind_of(ss.last().name) == k {
        command_sections(ss.drop_last(), k).push(ss.last())
    } else {
        command_sections(ss.drop_last(), k)
    }
}

/// The first command section whose reply ending is wrong, and why.
pub open spec fn first_failure(ss: Seq<SectionView>) -> Option<OmniRigErrorView>
    decreases ss.len(),
{
    if ss.len() == 0 {
        None
    } else {
        match first_failure(ss.drop_last()) {
            Some(e) => Some(e),
            None => if prop(ss.last().entries, "command"@) is Some && reply_end_of(ss.last()) is Err {
                Some(reply_end_of(ss.last())->Err_0)
            } else {
                None
            },
        }
    }
}

/// `cs` are the commands of the sections `ss`, one for one.
pub open spec fn commands_of(cs: Seq<CommandView>, ss: Seq<SectionView>) -> bool {
    cs.len() == ss.len() && forall|i: int| 0 <= i < cs.len() ==> command_of(ss[i], #[trigger] cs[i])
}

/// Why an OmniRig description could not be read.
#[derive(Debug)]
pub enum OmniRigError {
    /// The text was not INI.
    Ini(String),
    /// A reply length that is not a number.
    ReplyLength { section: String, value: String },
    /// A command with both a reply ending and a reply length.
    BothReplyFields { section: String },
    /// A command with neither a reply ending nor a reply length.
    MissingReplyFields { section: String },
}

pub enum OmniRigErrorView {
    Ini(Seq<char>),
    ReplyLength(Seq<char>, Seq<char>),
    BothReplyFields(Seq<char>),
    MissingReplyFields(Seq<char>),
}

pub open spec fn omnirig_error_view(e: OmniRigError) -> OmniRigErrorView {
    match e {
        OmniRigError::Ini(m) => OmniRigErrorView::Ini(m@),
        OmniRigError::ReplyLength { section, value } => OmniRigErrorView::ReplyLength(section@, value@),
        OmniRigError::BothReplyFields { section } => OmniRigErrorView::BothReplyFields(section@),
        OmniRigError::MissingReplyFields { section } => OmniRigErrorView::MissingReplyFields(section@),
    }
}

/// What `sections` describe: the first command section with a wrong reply
/// ending fails the whole; else each command section, in order, in the
/// group its name starts.
pub open spec fn described(ss: Seq<SectionView>, r: Result<RigDescription, OmniRigError>) -> bool {
    match first_failure(ss) {
        Some(e) => r matches Err(x) && omnirig_error_view(x) == e,
        None => r matches Ok(d) && commands_of(commands_view(d.init_commands@), command_sections(ss, SectionKind::Init))
            && commands_of(commands_view(d.param_commands@), command_sections(ss, SectionKind::Param))
            && commands_of(commands_view(d.status_commands@), command_sections(ss, SectionKind::Status)),
    }
}

// ---------------------------------------------------------------------------
// Describing the sections
// ---------------------------------------------------------------------------

pub open spec fn entries_of(v: Seq<(String, Option<String>)>) -> Seq<(Seq<char>, Option<Seq<char>>)> {
    v.map_values(|e: (String, Option<String>)| (e.0@, opt_chars(e.1)))
}

fn prop_of(es: &Vec<(String, Option<String>)>, key: &str) -> (r: Option<String>)
    ensures
        opt_chars(r) == prop(entries_of(es@), key@),
{
    let ghost ev = entries_of(es@);
    let mut i: usize = 0;
    assert(ev.skip(0) =~= ev);
    while i < es.len()
        invariant
            i <= es.len(),
            ev == entries_of(es@),
            prop(ev, key@) == prop(ev.skip(i as int), key@),
        decreases es.len() - i,
    {
        assert(ev.skip(i as int).drop_first() =~= ev.skip(i + 1));
        if str_eq(es[i].0.as_str(), key) {
            return copy_opt(&es[i].1);
        }
        i = i + 1;
    }
    None
}

pub open spec fn pairs_view(v: Seq<(u8, String)>) -> Seq<(u8, Seq<char>)> {
    v.map_values(|p: (u8, String)| (p.0, p.1@))
}

proof fn lemma_pair_le(a: (u8, Seq<char>), b: (u8, Seq<char>), c: (u8, Seq<char>))
    ensures
        pair_le(a, b) || pair_le(b, a),
        pair_le(a, b) && pair_le(b, c) ==> pair_le(a, c),
{
    lemma_key_before_total(a.1, b.1);
    lemma_key_before_total(b.1, c.1);
    lemma_key_before_total(a.1, c.1);
    if pair_le(a, b) && pair_le(b, c) && a.0 == c.0 {
        if key_before(c.1, a.1) {
            if key_before(a.1, b.1) {
                lemma_key_before_transitive(c.1, a.1, b.1);
            }
            if key_before(b.1, c.1) {
                lemma_key_before_transitive(b.1, c.1, a.1);
            }
        }
    }
}

fn pair_le_exec(a: &(u8, String), b: &(u8, String)) -> (r: bool)
    ensures
        r == pair_le((a.0, a.1@), (b.0, b.1@)),
{
    a.0 < b.0 || (a.0 == b.0 && !str_before(b.1.as_str(), a.1.as_str()))
}

/// `v` with `x` put after every pair not above it.
fn insert_pair(v: &mut Vec<(u8, String)>, x: (u8, String))
    requires
        pairs_sorted(pairs_view(old(v)@)),
    ensures
        pairs_sorted(pairs_view(final(v)@)),
        pairs_view(final(v)@).to_multiset() == pairs_view(old(v)@).to_multiset().insert((x.0, x.1@)),
{
    let ghost xv = (x.0, x.1@);
    let ghost before = pairs_view(v@);
    let mut i: usize = 0;
    while i < v.len() && pair_le_exec(&v[i], &x)
        invariant
            i <= v.len(),
            before == pairs_view(v@),
            xv == (x.0, x.1@),
            pairs_sorted(before),
            forall|k: int| 0 <= k < i ==> pair_le(#[trigger] before[k], xv),
        decreases v.len() - i,
    {
        assert(before[i as int] == (v@[i as int].0, v@[i as int].1@));
        i = i + 1;
    }
    assert(i < v.len() ==> !pair_le(before[i as int], xv));
    v.insert(i, x);
    let ghost after = pairs_view(v@);
    assert(after =~= before.insert(i as int, xv));
    assert forall|a: int, b: int| 0 <= a < b < after.len() implies pair_le(#[trigger] after[a], #[trigger] after[b]) by {
        if b < i {
            assert(after[a] == before[a] && after[b] == before[b]);
            assert(pair_le(before[a], before[b]));
        } else if b == i {
            assert(after[a] == before[a] && after[b] == xv);
        } else if a == i {
            assert(after[a] == xv && after[b] == before[b - 1]);
            lemma_pair_le(before[i as int], xv, before[b - 1]);
            lemma_pair_le(xv, before[i as int], before[b - 1]);
            if i < b - 1 {
                assert(pair_le(before[i as int], before[b - 1]));
            }
        } else if a < i {
            assert(after[a] == before[a] && after[b] == before[b - 1]);
            assert(pair_le(before[a], before[b - 1]));
        } else {
            assert(after[a] == before[a - 1] && after[b] == before[b - 1]);
            assert(pair_le(before[a - 1], before[b - 1]));
        }
    }
    proof {
        vstd::seq_lib::to_multiset_insert(before, i as int, xv);
    }
}

/// The values of the entries named `prefix` and a `u8`, ordered by number
/// and then by value.
fn numbered_values(es: &Vec<(String, Option<String>)>, prefix: &str) -> (r: Vec<String>)
    ensures
        in_order(numbered(entries_of(es@), prefix@), texts_view(r@)),
{
    let ghost ev = entries_of(es@);
    let p = chars_of(prefix);
    let mut sorted: Vec<(u8, String)> = Vec::new();
    let mut i: usize = 0;
    assert(ev.take(0) =~= Seq::<(Seq<char>, Option<Seq<char>>)>::empty());
    assert(pairs_view(sorted@) =~= numbered(ev.take(0), prefix@));
    while i < es.len()
        invariant
            i <= es.len(),
            ev == entries_of(es@),
            p@ == prefix@,
            pairs_sorted(pairs_view(sorted@)),
            pairs_view(sorted@).to_multiset() == numbered(ev.take(i as int), prefix@).to_multiset(),
        decreases es.len() - i,
    {
        assert(ev.take(i + 1).drop_last() =~= ev.take(i as int));
        let key = chars_of(es[i].0.as_str());
        if let Some(v) = &es[i].1 {
            if key.len() >= p.len() {
                let mut head_matches = true;
                let mut j: usize = 0;
                assert(key@.take(0) =~= p@.take(0));
                while j < p.len()
                    invariant
                        j <= p.len() <= key.len(),
                        head_matches == (key@.take(j as int) == p@.take(j as int)),
                    decreases p.len() - j,
                {
                    if key[j] != p[j] {
                        if head_matches {
                            assert(key@.take(j + 1)[j as int] != p@.take(j + 1)[j as int]);
                        }
                        head_matches = false;
                    } else if head_matches {
                        assert(key@.take(j + 1) =~= key@.take(j as int).push(key@[j as int]));
                        assert(p@.take(j + 1) =~= p@.take(j as int).push(p@[j as int]));
                    }
                    if !head_matches {
                        assert(key@.take(j + 1) != p@.take(j + 1)) by {
                            if key@.take(j + 1) == p@.take(j + 1) {
                                if key[j as int] != p[j as int] {
                                    assert(key@.take(j + 1)[j as int] == p@.take(j + 1)[j as int]);
                                } else {
                                    assert(key@.take(j as int) =~= key@.take(j + 1).take(j as int));
                                    assert(p@.take(j as int) =~= p@.take(j + 1).take(j as int));
                                }
                            }
                        }
                    }
                    j = j + 1;
                }
                assert(p@.take(p@.len() as int) =~= p@);
                if head_matches {
                    let mut rest: Vec<char> = Vec::new();
                    let mut k: usize = p.len();
                    while k < key.len()
                        invariant
                            p.len() <= k <= key.len(),
                            rest@ == key@.subrange(p.len() as int, k as int),
                        decreases key.len() - k,
                    {
                        rest.push(key[k]);
                        assert(rest@ =~= key@.subrange(p.len() as int, k + 1));
                        k = k + 1;
                    }
                    assert(rest@ =~= key@.skip(p.len() as int));
                    match parse_u32_text(&rest) {
                        Some(n) => {
                            if n <= 255 {
                                let ghost prev = pairs_view(sorted@);
                                insert_pair(&mut sorted, (n as u8, copy_string(v)));
                                assert(numbered(ev.take(i + 1), prefix@) =~= numbered(ev.take(i as int), prefix@).push(
                                    (n as u8, v@),
                                ));
                                proof {
                                    vstd::seq_lib::to_multiset_build(numbered(ev.take(i as int), prefix@), (n as u8, v@));
                                }
                            }
                        },
                        None => {},
                    }
                }
            }
        }
        i = i + 1;
    }
    assert(ev.take(i as int) =~= ev);
    let ghost sv = pairs_view(sorted@);
    let mut values: Vec<String> = Vec::new();
    let mut k: usize = 0;
    while k < sorted.len()
        invariant
            k <= sorted.len(),
            sv == pairs_view(sorted@),
            texts_view(values@) == sv.take(k as int).map_values(|q: (u8, Seq<char>)| q.1),
        decreases sorted.len() - k,
    {
        let ghost prev = texts_view(values@);
        assert(sv[k as int].1 == sorted@[k as int].1@);
        values.push(copy_string(&sorted[k].1));
        assert(texts_view(values@) =~= prev.push(sv[k as int].1));
        assert(sv.take(k + 1).map_values(|q: (u8, Seq<char>)| q.1) =~= sv.take(k as int).map_values(
            |q: (u8, Seq<char>)| q.1,
        ).push(sv[k as int].1));
        k = k + 1;
    }
    assert(sv.take(k as int) =~= sv);
    values
}

fn starts_with_text(cs: &Vec<char>, p: &str) -> (r: bool)
    ensures
        r == starts_with(cs@, p@),
{
    let pv = chars_of(p);
    if pv.len() > cs.len() {
        return false;
    }
    let mut j: usize = 0;
    while j < pv.len()
        invariant
            j <= pv.len() <= cs.len(),
            pv@ == p@,
            forall|k: int| 0 <= k < j ==> cs@[k] == pv@[k],
        decreases pv.len() - j,
    {
        if cs[j] != pv[j] {
            assert(cs@.take(pv@.len() as int)[j as int] != p@[j as int]);
            return false;
        }
        j = j + 1;
    }
    assert(cs@.take(pv@.len() as int) =~= p@);
    true
}

fn section_kind(name: &String) -> (r: SectionKind)
    ensures
        r == kind_of(name@),
{
    let u = to_uppercase(name.as_str());
    kind_from_uppercase(u.as_str())
}

/// The group of a section whose name, in upper case, is `u`: init sections
/// start with `INIT`, status sections with `STATUS`, the rest set parameters.
pub fn kind_from_uppercase(u: &str) -> (r: SectionKind)
    ensures
        r == kind_of_upper(u@),
{
    let cs = chars_of(u);
    if starts_with_text(&cs, "INIT") {
        SectionKind::Init
    } else if starts_with_text(&cs, "STATUS") {
        SectionKind::Status
    } else {
        SectionKind::Param
    }
}

fn reply_end(sec: &IniSection) -> (r: Result<EndOfData, OmniRigError>)
    ensures
        match reply_end_of(section_view(*sec)) {
            Ok(e) => r matches Ok(x) && end_view(x) == e,
            Err(e) => r matches Err(x) && omnirig_error_view(x) == e,
        },
{
    let reply_end = prop_of(&sec.entries, "replyend");
    let reply_length = prop_of(&sec.entries, "replylength");
    match (reply_end, reply_length) {
        (None, Some(length)) => {
            let cs = chars_of(length.as_str());
            match parse_u32_text(&cs) {
                Some(n) => Ok(EndOfData::Length(n)),
                None => Err(OmniRigError::ReplyLength { section: copy_string(&sec.name), value: length }),
            }
        },
        (Some(text), None) => Ok(EndOfData::String(text)),
        (Some(_), Some(_)) => Err(OmniRigError::BothReplyFields { section: copy_string(&sec.name) }),
        (None, None) => Err(OmniRigError::MissingReplyFields { section: copy_string(&sec.name) }),
    }
}

/// The first entry with a key gives the value the map holds for it.
proof fn lemma_prop_in(es: Seq<(Seq<char>, Option<Seq<char>>)>, key: Seq<char>)
    ensures
        prop(es, key) == prop_in(entries_map(es), key),
    decreases es.len(),
{
    if es.len() > 0 {
        lemma_prop_in(es.drop_first(), key);
    }
}

/// A section's reply ending and command read the same from its map.
proof fn lemma_reply_end_in(s: SectionView)
    ensures
        reply_end_of(s) == reply_end_in(s.name, entries_map(s.entries)),
        prop(s.entries, "command"@) == prop_in(entries_map(s.entries), "command"@),
{
    lemma_prop_in(s.entries, "replyend"@);
    lemma_prop_in(s.entries, "replylength"@);
    lemma_prop_in(s.entries, "command"@);
}

/// Sections with distinct names are found in their map under their names,
/// and the map holds nothing else.
proof fn lemma_content(ss: Seq<SectionView>)
    requires
        sections_distinct(ss),
    ensures
        forall|i: int| 0 <= i < ss.len() ==> content_of(ss).contains_key(#[trigger] ss[i].name)
            && content_of(ss)[ss[i].name] == entries_map(ss[i].entries),
        forall|n: Seq<char>| #[trigger] content_of(ss).contains_key(n) ==> exists|i: int| 0 <= i < ss.len() && ss[i].name == n,
    decreases ss.len(),
{
    if ss.len() > 0 {
        let rest = ss.drop_first();
        assert forall|i: int, j: int| 0 <= i < j < rest.len() implies (#[trigger] rest[i]).name != (#[trigger] rest[j]).name by {
            assert(rest[i] == ss[i + 1] && rest[j] == ss[j + 1]);
        }
        assert forall|i: int, a: int, b: int| 0 <= i < rest.len() && 0 <= a < b < rest[i].entries.len()
            implies (#[trigger] rest[i].entries[a]).0 != (#[trigger] rest[i].entries[b]).0 by {
            assert(rest[i] == ss[i + 1]);
        }
        lemma_content(rest);
        assert forall|i: int| 0 <= i < ss.len() implies content_of(ss).contains_key(#[trigger] ss[i].name)
            && content_of(ss)[ss[i].name] == entries_map(ss[i].entries) by {
            if i > 0 {
                assert(rest[i - 1] == ss[i]);
                assert(ss[0].name != ss[i].name);
            }
        }
        assert forall|n: Seq<char>| #[trigger] content_of(ss).contains_key(n) implies exists|i: int| 0 <= i < ss.len() && ss[i].name == n by {
            if n != ss[0].name {
                assert(content_of(rest).contains_key(n));
                let j = choose|j: int| 0 <= j < rest.len() && rest[j].name == n;
                assert(ss[j + 1].name == n);
            }
        }
    }
}

/// No section fails exactly when no first failure is found.
proof fn lemma_first_failure(ss: Seq<SectionView>)
    ensures
        first_failure(ss) is None <==> forall|i: int| 0 <= i < ss.len()
            ==> !(prop((#[trigger] ss[i]).entries, "command"@) is Some && reply_end_of(ss[i]) is Err),
    decreases ss.len(),
{
    if ss.len() > 0 {
        let init = ss.drop_last();
        lemma_first_failure(init);
        assert(forall|i: int| 0 <= i < init.len() ==> init[i] == ss[i]);
    }
}

/// Sections with distinct names fail nowhere exactly when their map has no
/// failing section.
proof fn lemma_describable(ss: Seq<SectionView>)
    requires
        sections_distinct(ss),
    ensures
        (first_failure(ss) is None) == ini_describable(content_of(ss)),
{
    lemma_content(ss);
    lemma_first_failure(ss);
    let c = content_of(ss);
    if first_failure(ss) is None {
        assert forall|n: Seq<char>| c.contains_key(n) implies !section_fails(n, #[trigger] c[n]) by {
            let i = choose|i: int| 0 <= i < ss.len() && ss[i].name == n;
            lemma_reply_end_in(ss[i]);
        }
    } else {
        let i = choose|i: int| 0 <= i < ss.len()
            && (prop((#[trigger] ss[i]).entries, "command"@) is Some && reply_end_of(ss[i]) is Err);
        lemma_reply_end_in(ss[i]);
        assert(c.contains_key(ss[i].name));
        assert(section_fails(ss[i].name, c[ss[i].name]));
    }
}

/// A failure in some sections is the first failure of the whole.
proof fn lemma_failure_prefix(ss: Seq<SectionView>, n: int)
    requires
        0 <= n <= ss.len(),
        first_failure(ss.take(n)) is Some,
    ensures
        first_failure(ss) == first_failure(ss.take(n)),
    decreases ss.len() - n,
{
    if n < ss.len() {
        assert(ss.take(n + 1).drop_last() =~= ss.take(n));
        lemma_failure_prefix(ss, n + 1);
    } else {
        assert(ss.take(n) =~= ss);
    }
}

/// The OmniRig description that INI sections give, in the order given.
pub fn describe_rig(sections: Vec<IniSection>) -> (r: Result<RigDescription, OmniRigError>)
    ensures
        described(sections_view(sections@), r),
{
    let ghost ss = sections_view(sections@);
    let mut d = RigDescription::new();
    let mut i: usize = 0;
    assert(ss.take(0) =~= Seq::<SectionView>::empty());
    while i < sections.len()
        invariant
            i <= sections.len(),
            ss == sections_view(sections@),
            first_failure(ss.take(i as int)) is None,
            commands_of(commands_view(d.init_commands@), command_sections(ss.take(i as int), SectionKind::Init)),
            commands_of(commands_view(d.param_commands@), command_sections(ss.take(i as int), SectionKind::Param)),
            commands_of(
                commands_view(d.status_commands@),
                command_sections(ss.take(i as int), SectionKind::Status),
            ),
        decreases sections.len() - i,
    {
        assert(ss.take(i + 1).drop_last() =~= ss.take(i as int));
        let sec = &sections[i];
        assert(ss[i as int] == section_view(*sec));
        let command = match prop_of(&sec.entries, "command") {
            Some(c) => c,
            None => {
                i = i + 1;
                continue;
            },
        };
        let end = match reply_end(sec) {
            Ok(e) => e,
            Err(e) => {
                proof {
                    lemma_failure_prefix(ss, i + 1);
                }
                return Err(e);
            },
        };
        let validate = prop_of(&sec.entries, "validate");
        let value = prop_of(&sec.entries, "value");
        let values = numbered_values(&sec.entries, "value");
        let flags = numbered_values(&sec.entries, "flag");
        let cmd = Command { name: copy_string(&sec.name), command, end_of_data: end, validate, value, values, flags };
        assert(command_of(ss[i as int], command_view(cmd)));
        let ghost (i0, p0, s0) = (
            commands_view(d.init_commands@),
            commands_view(d.param_commands@),
            commands_view(d.status_commands@),
        );
        match section_kind(&sec.name) {
            SectionKind::Init => {
                d.init_commands.push(cmd);
                assert(commands_view(d.init_commands@) =~= i0.push(command_view(cmd)));
            },
            SectionKind::Param => {
                d.param_commands.push(cmd);
                assert(commands_view(d.param_commands@) =~= p0.push(command_view(cmd)));
            },
            SectionKind::Status => {
                d.status_commands.push(cmd);
                assert(commands_view(d.status_commands@) =~= s0.push(command_view(cmd)));
            },
        }
        i = i + 1;
    }
    assert(ss.take(i as int) =~= ss);
    Ok(d)
}

/// Read an OmniRig description from INI text the reader accepts. The reader
/// gives the sections in an order that is not known, so what is stated is
/// that the result is what the sections it read describe in some order; it
/// succeeds exactly when no command section has a wrong reply ending.
pub fn parse_ini_data(ini_data: String) -> (r: Result<RigDescription, OmniRigError>)
    requires
        ini_accepts(ini_data@),
    ensures
        exists|secs: Seq<SectionView>| sections_distinct(secs) && content_of(secs) == ini_sections(ini_data@)->0
            && #[trigger] described(secs, r),
        r is Ok <==> ini_describable(ini_sections(ini_data@)->0),
{
    let ghost text = ini_data@;
    match read_ini(ini_data) {
        Ok(sections) => {
            let ghost sv = sections_view(sections@);
            let r = describe_rig(sections);
            proof {
                lemma_describable(sv);
            }
            assert(sections_distinct(sv) && content_of(sv) == ini_sections(text)->0 && described(sv, r));
            r
        },
        Err(e) => Err(OmniRigError::Ini(e)),
    }
}

/// Read an OmniRig description from INI text: `None` when the reader does
/// not accept the text, else what `parse_ini_data` gives.
pub fn read_omnirig_description(ini_data: String) -> (r: Option<Result<RigDescription, OmniRigError>>)
    ensures
        r is None <==> !ini_accepts(ini_data@),
        r matches Some(x) ==> exists|secs: Seq<SectionView>| sections_distinct(secs) && content_of(secs)
            == ini_sections(ini_data@)->0 && #[trigger] described(secs, x),
        r matches Some(x) ==> (x is Ok <==> ini_describable(ini_sections(ini_data@)->0)),
{
    let probe = read_ini(ini_data.as_str().to_owned());
    if probe.is_err() {
        return None;
    }
    Some(parse_ini_data(ini_data))
}

/// The text shown for an OmniRig error.
pub open spec fn omnirig_error_message(e: OmniRigErrorView) -> Seq<char> {
    match e {
        OmniRigErrorView::Ini(m) => m,
        OmniRigErrorView::ReplyLength(_, v) => int_error_text(v, false, 0, 0xFFFF_FFFF),
        OmniRigErrorView::BothReplyFields(s) => "Cannot have both ReplyEnd and replyLength fields in section "@ + s,
        OmniRigErrorView::MissingReplyFields(s) => "Missing ReplyEnd or replyLength fields in section "@ + s,
    }
}

impl OmniRigError {
    /// The text shown for this error.
    pub fn message(&self) -> (s: String)
        ensures
            s@ == omnirig_error_message(omnirig_error_view(*self)),
    {
        match self {
            OmniRigError::Ini(m) => copy_string(m),
            OmniRigError::ReplyLength { section: _, value } => int_error(&chars_of(value.as_str()), false, 0, 0xFFFF_FFFF).to_owned(),
            OmniRigError::BothReplyFields { section } => {
                let mut out: Vec<char> = Vec::new();
                push_str(&mut out, "Cannot have both ReplyEnd and replyLength fields in section ");
                push_str(&mut out, section.as_str());
                string_from_chars(out.as_slice())
            },
            OmniRigError::MissingReplyFields { section } => {
                let mut out: Vec<char> = Vec::new();
                push_str(&mut out, "Missing ReplyEnd or replyLength fields in section ");
                push_str(&mut out, section.as_str());
                string_from_chars(out.as_slice())
            },
        }
    }
}

} // verus!
