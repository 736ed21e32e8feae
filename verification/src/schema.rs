//! Rig schemas read from configuration files: the enums and commands a kind
//! of rig offers, and the checks a schema must pass.
use vstd::prelude::*;

use crate::commands::{value_view, Value, ValueView};
use crate::fields::{bool_text, BOOL_ERROR};
use crate::name_map::{key_index, NameMap};
use crate::numbers::{int_error_text, read_int, std_int};
use crate::text::str_eq;

verus! {

/// What kind of rig the schema describes, and in which version.
#[derive(Debug, Clone)]
pub struct General {
    pub rig_type: String,
    pub version: u32,
}

/// The members of an enum, in order.
#[derive(Debug, Clone)]
pub struct Enum {
    pub members: Vec<String>,
}

/// Types of command parameters and return values.
#[derive(Debug, Clone, PartialEq, Eq)]
pub enum ValueType {
    Int,
    Bool,
    Enum(String),
}

/// The value that `ty` reads from `text`, or why it cannot: an integer as
/// `str::parse` reads an `i64`, a `bool` as it reads one, an enum member as
/// written.
pub open spec fn typed_value(ty: ValueType, text: Seq<char>) -> Result<ValueView, Seq<char>> {
    match ty {
        ValueType::Int => match std_int(text, true, 0x8000_0000_0000_0000, 0x7FFF_FFFF_FFFF_FFFF) {
            Some(v) => Ok(ValueView::Int(v as i64)),
            None => Err(int_error_text(text, true, 0x8000_0000_0000_0000, 0x7FFF_FFFF_FFFF_FFFF)),
        },
        ValueType::Bool => match bool_text(text) {
            Some(b) => Ok(ValueView::Bool(b)),
            None => Err(BOOL_ERROR@),
        },
        ValueType::Enum(_) => Ok(ValueView::Enum(text)),
    }
}

/// A built value, or the explanation why it could not be built.
pub open spec fn built_view(r: Result<Value, String>) -> Result<ValueView, Seq<char>> {
    match r {
        Ok(v) => Ok(value_view(v)),
        Err(e) => Err(e@),
    }
}

impl ValueType {
    /// Read `value` as a value of this type; on failure, the explanation.
    pub fn build_value(&self, value: &str) -> (r: Result<Value, String>)
        ensures
            built_view(r) == typed_value(*self, value@),
    {
        match self {
            ValueType::Int => {
                let cs = crate::text::chars_of(value);
                match read_int(&cs, true, 0x8000_0000_0000_0000, 0x7FFF_FFFF_FFFF_FFFF) {
                    Ok(v) => Ok(Value::Int(v as i64)),
                    Err(e) => Err(e.to_owned()),
                }
            },
            ValueType::Bool => {
                let cs = crate::text::chars_of(value);
                match crate::fields::parse_bool(&cs) {
                    Some(b) => Ok(Value::Bool(b)),
                    None => Err(BOOL_ERROR.to_owned()),
                }
            },
            ValueType::Enum(_) => Ok(Value::Enum(value.to_owned())),
        }
    }
}

/// Parameters and return values of a command, with their types.
#[derive(Debug, Clone)]
pub struct Command {
    pub params: Vec<(String, ValueType)>,
    pub results: Vec<(String, ValueType)>,
}

/// A schema: its general section, its enums and its commands, by name.
#[derive(Debug, Clone)]
pub struct Schema {
    pub general: General,
    pub enums: NameMap<Enum>,
    pub commands: NameMap<Command>,
}

/// Why a schema was refused.
#[derive(Debug, Clone, PartialEq, Eq)]
pub enum SchemaError {
    /// The file could not be read; the message says why.
    Io(String),
    /// The file is not a schema in TOML; the message says why.
    Toml(String),
    InvalidRigType(String),
    InvalidVersion(u32),
    EmptyEnum(String),
    DuplicateEnumMember { enum_name: String, member: String },
    UndefinedType { command: String, param: String, undefined_type: String },
    DuplicateParameter { command: String, param: String },
    DuplicateReturn { command: String, return_name: String },
}

/// A schema error with its names as characters.
pub enum SchemaErrorView {
    InvalidRigType(Seq<char>),
    InvalidVersion(u32),
    EmptyEnum(Seq<char>),
    DuplicateEnumMember(Seq<char>, Seq<char>),
    UndefinedType(Seq<char>, Seq<char>, Seq<char>),
    DuplicateParameter(Seq<char>, Seq<char>),
    DuplicateReturn(Seq<char>, Seq<char>),
}

pub open spec fn error_view(e: SchemaError) -> Option<SchemaErrorView> {
    match e {
        SchemaError::InvalidRigType(t) => Some(SchemaErrorView::InvalidRigType(t@)),
        SchemaError::InvalidVersion(v) => Some(SchemaErrorView::InvalidVersion(v)),
        SchemaError::EmptyEnum(n) => Some(SchemaErrorView::EmptyEnum(n@)),
        SchemaError::DuplicateEnumMember { enum_name, member } => Some(
            SchemaErrorView::DuplicateEnumMember(enum_name@, member@),
        ),
        SchemaError::UndefinedType { command, param, undefined_type } => Some(
            SchemaErrorView::UndefinedType(command@, param@, undefined_type@),
        ),
        SchemaError::DuplicateParameter { command, param } => Some(
            SchemaErrorView::DuplicateParameter(command@, param@),
        ),
        SchemaError::DuplicateReturn { command, return_name } => Some(
            SchemaErrorView::DuplicateReturn(command@, return_name@),
        ),
        _ => None,
    }
}

/// Index of the first name that repeats an earlier one, at or after `j`.
pub open spec fn first_repeat_from(names: Seq<Seq<char>>, j: int) -> Option<int>
    decreases names.len() - j,
{
    if j < 0 || j >= names.len() {
        None
    } else if names.take(j).contains(names[j]) {
        Some(j)
    } else {
        first_repeat_from(names, j + 1)
    }
}

pub open spec fn member_names(e: Enum) -> Seq<Seq<char>> {
    e.members@.map_values(|m: String| m@)
}

/// What is wrong with an enum, if anything: no members, or a repeated one.
pub open spec fn enum_problem(name: Seq<char>, e: Enum) -> Option<SchemaErrorView> {
    if e.members@.len() == 0 {
        Some(SchemaErrorView::EmptyEnum(name))
    } else {
        match first_repeat_from(member_names(e), 0) {
            Some(j) => Some(SchemaErrorView::DuplicateEnumMember(name, member_names(e)[j])),
            None => None,
        }
    }
}

/// The first problem among the enums at or after index `i`.
pub open spec fn enums_problem_from(es: Seq<(String, Enum)>, i: int) -> Option<SchemaErrorView>
    decreases es.len() - i,
{
    if i < 0 || i >= es.len() {
        None
    } else {
        match enum_problem(es[i].0@, es[i].1) {
            Some(p) => Some(p),
            None => enums_problem_from(es, i + 1),
        }
    }
}

pub open spec fn item_names(items: Seq<(String, ValueType)>) -> Seq<Seq<char>> {
    items.map_values(|it: (String, ValueType)| it.0@)
}

/// The first problem among typed items at or after `i`: a name seen before,
/// or an enum type the schema does not define.
pub open spec fn items_problem_from(
    enums: Seq<(String, Enum)>,
    command: Seq<char>,
    items: Seq<(String, ValueType)>,
    results: bool,
    i: int,
) -> Option<SchemaErrorView>
    decreases items.len() - i,
{
    if i < 0 || i >= items.len() {
        None
    } else if item_names(items).take(i).contains(items[i].0@) {
        if results {
            Some(SchemaErrorView::DuplicateReturn(command, items[i].0@))
        } else {
            Some(SchemaErrorView::DuplicateParameter(command, items[i].0@))
        }
    } else {
        match items[i].1 {
            ValueType::Enum(t) => if key_index(enums, t@) < 0 {
                Some(SchemaErrorView::UndefinedType(command, items[i].0@, t@))
            } else {
                items_problem_from(enums, command, items, results, i + 1)
            },
            _ => items_problem_from(enums, command, items, results, i + 1),
        }
    }
}

/// The first problem among the commands at or after index `i`: parameters first, then results.
pub open spec fn commands_problem_from(
    enums: Seq<(String, Enum)>,
    cs: Seq<(String, Command)>,
    i: int,
) -> Option<SchemaErrorView>
    decreases cs.len() - i,
{
    if i < 0 || i >= cs.len() {
        None
    } else {
        match items_problem_from(enums, cs[i].0@, cs[i].1.params@, false, 0) {
            Some(p) => Some(p),
            None => match items_problem_from(enums, cs[i].0@, cs[i].1.results@, true, 0) {
                Some(p) => Some(p),
                None => commands_problem_from(enums, cs, i + 1),
            },
        }
    }
}

/// The first problem of a schema, checked in order: the rig type, the
/// version, the enums, then the commands.
pub open spec fn schema_problem(s: Schema) -> Option<SchemaErrorView> {
    if s.general.rig_type@ != "transceiver"@ {
        Some(SchemaErrorView::InvalidRigType(s.general.rig_type@))
    } else if s.general.version != 1 {
        Some(SchemaErrorView::InvalidVersion(s.general.version))
    } else {
        match enums_problem_from(s.enums.entries@, 0) {
            Some(p) => Some(p),
            None => commands_problem_from(s.enums.entries@, s.commands.entries@, 0),
        }
    }
}

/// Whether `names[..j]` holds `names[j]`.
fn seen_before(names: &Vec<String>, j: usize) -> (r: bool)
    requires
        j < names@.len(),
    ensures
        r == names@.map_values(|m: String| m@).take(j as int).contains(names@[j as int]@),
{
    let ghost views = names@.map_values(|m: String| m@);
    let mut k: usize = 0;
    while k < j
        invariant
            j < names@.len(),
            views == names@.map_values(|m: String| m@),
            k <= j,
            forall|q: int| 0 <= q < k ==> views[q] != views[j as int],
        decreases j - k,
    {
        if str_eq(names[k].as_str(), names[j].as_str()) {
            assert(views.take(j as int)[k as int] == views[j as int]);
            return true;
        }
        k = k + 1;
    }
    assert(!views.take(j as int).contains(views[j as int])) by {
        if views.take(j as int).contains(views[j as int]) {
            let q = choose|q: int| 0 <= q < j && views.take(j as int)[q] == views[j as int];
            assert(views[q] == views[j as int]);
        }
    }
    false
}

fn check_enum(name: &String, e: &Enum) -> (r: Result<(), SchemaError>)
    ensures
        match enum_problem(name@, *e) {
            None => r is Ok,
            Some(p) => r matches Err(err) && error_view(err) == Some(p),
        },
{
    if e.members.len() == 0 {
        return Err(SchemaError::EmptyEnum(name.clone()));
    }
    let mut j: usize = 0;
    while j < e.members.len()
        invariant
            j <= e.members@.len(),
            e.members@.len() > 0,
            first_repeat_from(member_names(*e), 0) == first_repeat_from(member_names(*e), j as int),
        decreases e.members@.len() - j,
    {
        if seen_before(&e.members, j) {
            return Err(SchemaError::DuplicateEnumMember { enum_name: name.clone(), member: e.members[j].clone() });
        }
        j = j + 1;
    }
    Ok(())
}

fn check_items(
    enums: &NameMap<Enum>,
    command: &String,
    items: &Vec<(String, ValueType)>,
    results: bool,
) -> (r: Result<(), SchemaError>)
    ensures
        match items_problem_from(enums.entries@, command@, items@, results, 0) {
            None => r is Ok,
            Some(p) => r matches Err(err) && error_view(err) == Some(p),
        },
{
    let ghost names = item_names(items@);
    let mut i: usize = 0;
    while i < items.len()
        invariant
            i <= items@.len(),
            names == item_names(items@),
            items_problem_from(enums.entries@, command@, items@, results, 0)
                == items_problem_from(enums.entries@, command@, items@, results, i as int),
        decreases items@.len() - i,
    {
        let mut dup = false;
        let mut k: usize = 0;
        while k < i
            invariant
                i < items@.len(),
                names == item_names(items@),
                k <= i,
                dup == exists|q: int| 0 <= q < k && names[q] == items@[i as int].0@,
            decreases i - k,
        {
            assert(names[k as int] == items@[k as int].0@);
            if str_eq(items[k].0.as_str(), items[i].0.as_str()) {
                dup = true;
            }
            k = k + 1;
        }
        assert(dup == names.take(i as int).contains(items@[i as int].0@)) by {
            if names.take(i as int).contains(items@[i as int].0@) {
                let q = choose|q: int| 0 <= q < i && names.take(i as int)[q] == items@[i as int].0@;
                assert(names[q] == items@[i as int].0@);
            }
            if dup {
                let q = choose|q: int| 0 <= q < i && names[q] == items@[i as int].0@;
                assert(names.take(i as int)[q] == items@[i as int].0@);
            }
        }
        if dup {
            if results {
                return Err(SchemaError::DuplicateReturn { command: command.clone(), return_name: items[i].0.clone() });
            } else {
                return Err(SchemaError::DuplicateParameter { command: command.clone(), param: items[i].0.clone() });
            }
        }
        match &items[i].1 {
            ValueType::Enum(t) => {
                if !enums.contains_key(t.as_str()) {
                    return Err(
                        SchemaError::UndefinedType {
                            command: command.clone(),
                            param: items[i].0.clone(),
                            undefined_type: t.clone(),
                        },
                    );
                }
            },
            _ => {},
        }
        i = i + 1;
    }
    Ok(())
}

impl Schema {
    /// Accept the schema, or give its first problem (see `schema_problem`).
    pub fn validate(&self) -> (r: Result<(), SchemaError>)
        ensures
            match schema_problem(*self) {
                None => r is Ok,
                Some(p) => r matches Err(e) && error_view(e) == Some(p),
            },
    {
        if !str_eq(self.general.rig_type.as_str(), "transceiver") {
            return Err(SchemaError::InvalidRigType(self.general.rig_type.clone()));
        }
        if self.general.version != 1 {
            return Err(SchemaError::InvalidVersion(self.general.version));
        }
        let mut i: usize = 0;
        while i < self.enums.entries.len()
            invariant
                i <= self.enums.entries@.len(),
                self.general.rig_type@ == "transceiver"@,
                self.general.version == 1,
                enums_problem_from(self.enums.entries@, 0) == enums_problem_from(self.enums.entries@, i as int),
            decreases self.enums.entries@.len() - i,
        {
            let entry = &self.enums.entries[i];
            assert(enums_problem_from(self.enums.entries@, i as int) == match enum_problem(entry.0@, entry.1) {
                Some(p) => Some(p),
                None => enums_problem_from(self.enums.entries@, i + 1),
            });
            match check_enum(&entry.0, &entry.1) {
                Ok(()) => {},
                Err(e) => return Err(e),
            }
            i = i + 1;
        }
        let mut c: usize = 0;
        while c < self.commands.entries.len()
            invariant
                c <= self.commands.entries@.len(),
                self.general.rig_type@ == "transceiver"@,
                self.general.version == 1,
                enums_problem_from(self.enums.entries@, 0) is None,
                commands_problem_from(self.enums.entries@, self.commands.entries@, 0)
                    == commands_problem_from(self.enums.entries@, self.commands.entries@, c as int),
            decreases self.commands.entries@.len() - c,
        {
            let entry = &self.commands.entries[c];
            assert(commands_problem_from(self.enums.entries@, self.commands.entries@, c as int) == match items_problem_from(
                self.enums.entries@,
                entry.0@,
                entry.1.params@,
                false,
                0,
            ) {
                Some(p) => Some(p),
                None => match items_problem_from(self.enums.entries@, entry.0@, entry.1.results@, true, 0) {
                    Some(p) => Some(p),
                    None => commands_problem_from(self.enums.entries@, self.commands.entries@, c + 1),
                },
            });
            match check_items(&self.enums, &entry.0, &entry.1.params, false) {
                Ok(()) => {},
                Err(e) => return Err(e),
            }
            match check_items(&self.enums, &entry.0, &entry.1.results, true) {
                Ok(()) => {},
                Err(e) => return Err(e),
            }
            c = c + 1;
        }
        Ok(())
    }
}

/// A type is known to a schema with enums `enums`: an integer, a boolean,
/// or one of the enums.
pub open spec fn type_defined(enums: Seq<(String, Enum)>, ty: ValueType) -> bool {
    match ty {
        ValueType::Enum(t) => key_index(enums, t@) >= 0,
        _ => true,
    }
}

proof fn lemma_items_defined(
    enums: Seq<(String, Enum)>,
    command: Seq<char>,
    items: Seq<(String, ValueType)>,
    results: bool,
    i: int,
)
    requires
        0 <= i,
        items_problem_from(enums, command, items, results, i) is None,
    ensures
        forall|k: int| i <= k < items.len() ==> type_defined(enums, (#[trigger] items[k]).1),
    decreases items.len() - i,
{
    if i < items.len() {
        lemma_items_defined(enums, command, items, results, i + 1);
    }
}

proof fn lemma_commands_defined(enums: Seq<(String, Enum)>, cs: Seq<(String, Command)>, i: int)
    requires
        0 <= i,
        commands_problem_from(enums, cs, i) is None,
    ensures
        forall|c: int, k: int|
            i <= c < cs.len() && 0 <= k < cs[c].1.params@.len() ==> type_defined(
                enums,
                (#[trigger] cs[c].1.params@[k]).1,
            ),
        forall|c: int, k: int|
            i <= c < cs.len() && 0 <= k < cs[c].1.results@.len() ==> type_defined(
                enums,
                (#[trigger] cs[c].1.results@[k]).1,
            ),
    decreases cs.len() - i,
{
    if i < cs.len() {
        lemma_items_defined(enums, cs[i].0@, cs[i].1.params@, false, 0);
        lemma_items_defined(enums, cs[i].0@, cs[i].1.results@, true, 0);
        lemma_commands_defined(enums, cs, i + 1);
    }
}

/// A schema that `validate` accepts names only enum types it defines: the
/// type of every parameter, and of every return value, of every command is
/// an integer, a boolean or one of the schema's enums.
pub proof fn lemma_accepted_schema_defines_its_types(s: Schema)
    requires
        schema_problem(s) is None,
    ensures
        forall|c: int, k: int|
            0 <= c < s.commands.entries@.len() && 0 <= k < s.commands.entries@[c].1.params@.len()
                ==> type_defined(s.enums.entries@, (#[trigger] s.commands.entries@[c].1.params@[k]).1),
        forall|c: int, k: int|
            0 <= c < s.commands.entries@.len() && 0 <= k < s.commands.entries@[c].1.results@.len()
                ==> type_defined(s.enums.entries@, (#[trigger] s.commands.entries@[c].1.results@[k]).1),
{
    lemma_commands_defined(s.enums.entries@, s.commands.entries@, 0);
}

} // verus!
