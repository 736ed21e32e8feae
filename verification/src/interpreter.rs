//! Values and environments of the rig language, the argument checks of its
//! built-in functions, and interpolating a variable into bytes.
use vstd::prelude::*;
use vstd::string::{StrSliceExecFns, StringSliceAdditionalSpecFns};

use crate::data_format::{bytes_result_is, encode_defined, format_name, spec_encode, DataFormat, DataFormatError};
use crate::fields::{after_sep, before_sep, field};
use crate::lexer::{debug_quoted, debug_str};
use crate::messages::data_format_message;
use crate::name_map::{key_index, lemma_insert_lookup, lookup, NameMap};
use crate::numbers::{read_int, std_int};
use crate::text::{chars_of, decimal_chars, int_chars, push_decimal, push_int, push_str, string_from_chars};
use crate::commands::byte_digits;
use crate::interpolation::{part_view, PartView};
use crate::parser::{BinaryOp, Enum, InterpolationPart};
use crate::semantic_analyzer::{op_name, push_op_name};
use crate::translator::copy_string;

verus! {

/// The message for a built-in `name` that takes exactly one argument and got `count`.
pub open spec fn one_argument_message(name: Seq<char>, count: nat) -> Seq<char> {
    name + "() expects exactly 1 argument, got "@ + decimal_chars(count)
}

fn exactly_one(name: &str, count: usize) -> (r: Result<(), String>)
    ensures
        count == 1 ==> r is Ok,
        count != 1 ==> (r matches Err(m) && m@ == one_argument_message(name@, count as nat)),
{
    if count == 1 {
        Ok(())
    } else {
        let mut out: Vec<char> = Vec::new();
        push_str(&mut out, name);
        push_str(&mut out, "() expects exactly 1 argument, got ");
        push_decimal(&mut out, count as u128);
        Err(string_from_chars(out.as_slice()))
    }
}

/// `write(data)`: sends its one argument.
#[derive(Debug, Clone, Copy)]
pub struct WriteFunction;

/// `read(expected)`: reads what its one argument describes.
#[derive(Debug, Clone, Copy)]
pub struct ReadFunction;

/// `format(value, ...)`: formats its first argument.
#[derive(Debug, Clone, Copy)]
pub struct FormatFunction;

impl WriteFunction {
    /// Whether `count` arguments may be passed; else why not.
    pub fn check_arguments(&self, count: usize) -> (r: Result<(), String>)
        ensures
            count == 1 ==> r is Ok,
            count != 1 ==> (r matches Err(m) && m@ == one_argument_message("write"@, count as nat)),
    {
        exactly_one("write", count)
    }
}

impl ReadFunction {
    /// Whether `count` arguments may be passed; else why not.
    pub fn check_arguments(&self, count: usize) -> (r: Result<(), String>)
        ensures
            count == 1 ==> r is Ok,
            count != 1 ==> (r matches Err(m) && m@ == one_argument_message("read"@, count as nat)),
    {
        exactly_one("read", count)
    }
}

impl FormatFunction {
    /// Whether `count` arguments may be passed; else why not.
    pub fn check_arguments(&self, count: usize) -> (r: Result<(), String>)
        ensures
            count >= 1 ==> r is Ok,
            count == 0 ==> (r matches Err(m) && m@ == "format() expects at least 1 argument"@),
    {
        if count == 0 {
            Err("format() expects at least 1 argument".to_owned())
        } else {
            Ok(())
        }
    }
}

// ---------------------------------------------------------------------------
// Values and environments
// ---------------------------------------------------------------------------

/// A value of the rig language. A floating-point value is held as `{:?}`
/// writes it; arithmetic on it is not done in this library.
#[derive(Debug, Clone)]
pub enum Value {
    Integer(i64),
    Float(String),
    String(String),
    Boolean(bool),
    EnumVariant { enum_name: String, variant_name: String, value: u32 },
    Unit,
}

/// A value with its texts as characters.
pub enum ValueView {
    Integer(i64),
    Float(Seq<char>),
    Str(Seq<char>),
    Boolean(bool),
    EnumVariant(Seq<char>, Seq<char>, u32),
    Unit,
}

pub open spec fn value_view(v: Value) -> ValueView {
    match v {
        Value::Integer(i) => ValueView::Integer(i),
        Value::Float(t) => ValueView::Float(t@),
        Value::String(s) => ValueView::Str(s@),
        Value::Boolean(b) => ValueView::Boolean(b),
        Value::EnumVariant { enum_name, variant_name, value } => ValueView::EnumVariant(enum_name@, variant_name@, value),
        Value::Unit => ValueView::Unit,
    }
}

/// A copy of `v`.
pub fn copy_value(v: &Value) -> (r: Value)
    ensures
        value_view(r) == value_view(*v),
{
    match v {
        Value::Integer(i) => Value::Integer(*i),
        Value::Float(t) => Value::Float(copy_string(t)),
        Value::String(s) => Value::String(copy_string(s)),
        Value::Boolean(b) => Value::Boolean(*b),
        Value::EnumVariant { enum_name, variant_name, value } => Value::EnumVariant {
            enum_name: copy_string(enum_name),
            variant_name: copy_string(variant_name),
            value: *value,
        },
        Value::Unit => Value::Unit,
    }
}

/// Variables by name, inside the scope of a parent environment.
#[derive(Debug)]
pub struct Env {
    pub variables: NameMap<Value>,
    pub parent: Option<Box<Env>>,
}

/// The value of variable `k`: its own, else its parent's.
pub open spec fn env_get(e: Env, k: Seq<char>) -> Option<ValueView>
    decreases e,
{
    match lookup(e.variables.entries@, k) {
        Some(v) => Some(value_view(v)),
        None => match e.parent {
            Some(p) => env_get(*p, k),
            None => None,
        },
    }
}

/// Every scope keeps its names sorted.
pub open spec fn env_wf(e: Env) -> bool
    decreases e,
{
    e.variables.wf() && match e.parent {
        Some(p) => env_wf(*p),
        None => true,
    }
}

pub open spec fn opt_value_view(o: Option<Value>) -> Option<ValueView> {
    match o {
        Some(v) => Some(value_view(v)),
        None => None,
    }
}

impl Env {
    /// An environment with no variables.
    pub fn new() -> (r: Self)
        ensures
            env_wf(r),
            forall|k: Seq<char>| env_get(r, k) is None,
    {
        Env { variables: NameMap::new(), parent: None }
    }

    /// A new scope inside `parent`: it sees the parent's variables.
    pub fn with_parent(parent: Env) -> (r: Self)
        requires
            env_wf(parent),
        ensures
            env_wf(r),
            forall|k: Seq<char>| env_get(r, k) == env_get(parent, k),
    {
        Env { variables: NameMap::new(), parent: Some(Box::new(parent)) }
    }

    /// Set `name` in this scope.
    pub fn set(&mut self, name: String, value: Value)
        requires
            env_wf(*old(self)),
        ensures
            env_wf(*final(self)),
            forall|k: Seq<char>| env_get(*final(self), k) == if k == name@ {
                Some(value_view(value))
            } else {
                env_get(*old(self), k)
            },
    {
        let ghost es = self.variables.entries@;
        let ghost nv = name@;
        let ghost vv = value;
        self.variables.insert(name, value);
        proof {
            assert forall|k: Seq<char>| env_get(*self, k) == if k == nv {
                Some(value_view(vv))
            } else {
                env_get(*old(self), k)
            } by {
                lemma_insert_lookup(es, name, vv, k);
            }
        }
    }

    /// The value of `name`, from this scope or an enclosing one.
    pub fn get(&self, name: &str) -> (r: Option<Value>)
        requires
            env_wf(*self),
        ensures
            opt_value_view(r) == env_get(*self, name@),
        decreases self,
    {
        proof {
            crate::name_map::lemma_key_index(self.variables.entries@, name@);
        }
        match self.variables.get(name) {
            Some(v) => Some(copy_value(v)),
            None => match &self.parent {
                Some(p) => p.get(name),
                None => None,
            },
        }
    }
}

// ---------------------------------------------------------------------------
// The run-time context: variables, enums and output
// ---------------------------------------------------------------------------

/// Two entry lists with the same names and values, in the same order.
pub open spec fn same_entries(a: Seq<(String, u32)>, b: Seq<(String, u32)>) -> bool {
    &&& a.len() == b.len()
    &&& forall|i: int| 0 <= i < a.len() ==> (#[trigger] a[i]).0@ == b[i].0@ && a[i].1 == b[i].1
}

/// Lists with the same names and values find the same entry for every name.
proof fn lemma_same_entries_lookup(a: Seq<(String, u32)>, b: Seq<(String, u32)>, k: Seq<char>)
    requires
        same_entries(a, b),
    ensures
        key_index(a, k) == key_index(b, k),
        lookup(a, k) == lookup(b, k),
    decreases a.len(),
{
    if a.len() > 0 {
        assert(same_entries(a.drop_last(), b.drop_last())) by {
            assert forall|i: int| 0 <= i < a.len() - 1 implies (#[trigger] a.drop_last()[i]).0@
                == b.drop_last()[i].0@ && a.drop_last()[i].1 == b.drop_last()[i].1 by {
                assert(a.drop_last()[i] == a[i]);
                assert(b.drop_last()[i] == b[i]);
            }
        }
        lemma_same_entries_lookup(a.drop_last(), b.drop_last(), k);
        assert(a.last() == a[a.len() - 1]);
        assert(b.last() == b[b.len() - 1]);
    }
    crate::name_map::lemma_key_index(a, k);
    let i = key_index(a, k);
    if i >= 0 {
        assert(a[i].1 == b[i].1);
    }
}

fn copy_variants(m: &NameMap<u32>) -> (r: NameMap<u32>)
    requires
        m.wf(),
    ensures
        r.wf(),
        same_entries(r.entries@, m.entries@),
{
    let mut es: Vec<(String, u32)> = Vec::new();
    let mut i: usize = 0;
    while i < m.entries.len()
        invariant
            i <= m.entries@.len(),
            es@.len() == i,
            forall|j: int| 0 <= j < i ==> (#[trigger] es@[j]).0@ == m.entries@[j].0@ && es@[j].1 == m.entries@[j].1,
        decreases m.entries@.len() - i,
    {
        es.push((copy_string(&m.entries[i].0), m.entries[i].1));
        i = i + 1;
    }
    let r = NameMap { entries: es };
    assert forall|a: int, b: int| 0 <= a < b < r.entries@.len() implies crate::name_map::key_before(
        #[trigger] r.entries@[a].0@,
        #[trigger] r.entries@[b].0@,
    ) by {
        assert(crate::name_map::key_before(m.entries@[a].0@, m.entries@[b].0@));
    }
    r
}

/// What a program run has: its variables, the enums it knows, and the
/// lines it wrote.
#[derive(Debug)]
pub struct Context {
    pub environment: Env,
    pub enums: NameMap<NameMap<u32>>,
    pub output: Vec<String>,
}

/// The value of variant `v` of enum `e`, if both are known.
pub open spec fn enum_variant(c: Context, e: Seq<char>, v: Seq<char>) -> Option<u32> {
    match lookup(c.enums.entries@, e) {
        Some(m) => lookup(m.entries@, v),
        None => None,
    }
}

impl Context {
    /// A context with no variables, no enums and no output.
    pub fn new() -> (r: Self)
        ensures
            env_wf(r.environment),
            forall|k: Seq<char>| env_get(r.environment, k) is None,
            r.enums.wf(),
            forall|e: Seq<char>, v: Seq<char>| enum_variant(r, e, v) is None,
            r.output@.len() == 0,
    {
        Context { environment: Env::new(), enums: NameMap::new(), output: Vec::new() }
    }

    /// Make the variants of `enum_def` known under its name, in place of any
    /// enum known by that name before.
    pub fn register_enum(&mut self, enum_def: &Enum)
        requires
            old(self).enums.wf(),
            enum_def.variants.wf(),
        ensures
            final(self).enums.wf(),
            final(self).environment == old(self).environment,
            final(self).output == old(self).output,
            forall|e: Seq<char>, v: Seq<char>| #[trigger] enum_variant(*final(self), e, v) == if e == enum_def.name@ {
                lookup(enum_def.variants.entries@, v)
            } else {
                enum_variant(*old(self), e, v)
            },
    {
        let variants = copy_variants(&enum_def.variants);
        let ghost es = self.enums.entries@;
        let ghost vs = variants;
        let name = copy_string(&enum_def.name);
        let ghost nm = name;
        self.enums.insert(name, variants);
        proof {
            assert forall|e: Seq<char>, v: Seq<char>| #[trigger] enum_variant(*self, e, v) == if e
                == enum_def.name@ {
                lookup(enum_def.variants.entries@, v)
            } else {
                enum_variant(*old(self), e, v)
            } by {
                lemma_insert_lookup(es, nm, vs, e);
                lemma_same_entries_lookup(vs.entries@, enum_def.variants.entries@, v);
            }
        }
    }

    /// The value of variant `variant_name` of enum `enum_name`, if known.
    pub fn get_enum_variant(&self, enum_name: &str, variant_name: &str) -> (r: Option<u32>)
        ensures
            r == enum_variant(*self, enum_name@, variant_name@),
    {
        proof {
            crate::name_map::lemma_key_index(self.enums.entries@, enum_name@);
        }
        match self.enums.get(enum_name) {
            Some(m) => {
                proof {
                    crate::name_map::lemma_key_index(m.entries@, variant_name@);
                }
                match m.get(variant_name) {
                    Some(v) => Some(*v),
                    None => None,
                }
            },
            None => None,
        }
    }
}

// ---------------------------------------------------------------------------
// Interpolating a variable
// ---------------------------------------------------------------------------

/// Why a variable could not be interpolated.
#[derive(Debug)]
pub enum InterpolationError {
    InvalidSpecification(String),
    InvalidLength(String),
    InvalidFormat(String),
    UndefinedVariable(String),
    CannotInterpolate(Value),
    Format(DataFormatError),
}

pub enum InterpolationErrorView {
    InvalidSpecification(Seq<char>),
    InvalidLength(Seq<char>),
    InvalidFormat(Seq<char>),
    UndefinedVariable(Seq<char>),
    CannotInterpolate(ValueView),
    Format(DataFormatError),
}

pub open spec fn interpolation_error_view(e: InterpolationError) -> InterpolationErrorView {
    match e {
        InterpolationError::InvalidSpecification(s) => InterpolationErrorView::InvalidSpecification(s@),
        InterpolationError::InvalidLength(s) => InterpolationErrorView::InvalidLength(s@),
        InterpolationError::InvalidFormat(s) => InterpolationErrorView::InvalidFormat(s@),
        InterpolationError::UndefinedVariable(s) => InterpolationErrorView::UndefinedVariable(s@),
        InterpolationError::CannotInterpolate(v) => InterpolationErrorView::CannotInterpolate(value_view(v)),
        InterpolationError::Format(e) => InterpolationErrorView::Format(e),
    }
}

pub open spec fn interpolated_view(r: Result<Vec<u8>, InterpolationError>) -> Result<Seq<u8>, InterpolationErrorView> {
    match r {
        Ok(b) => Ok(b@),
        Err(e) => Err(interpolation_error_view(e)),
    }
}

/// `b` cut or padded with zero bytes to `n` bytes.
pub open spec fn fit(b: Seq<u8>, n: nat) -> Seq<u8> {
    if b.len() >= n {
        b.take(n as int)
    } else {
        b + Seq::new((n - b.len()) as nat, |_i: int| 0u8)
    }
}

/// An encoding, with its error wrapped.
pub open spec fn encoded(f: DataFormat, v: i32, len: nat) -> Result<Seq<u8>, InterpolationErrorView> {
    match spec_encode(f, v, len) {
        Ok(b) => Ok(b),
        Err(e) => Err(InterpolationErrorView::Format(e)),
    }
}

/// The `i32` that `str::parse` reads from `t`, or 0.
pub open spec fn i32_or_zero(t: Seq<char>) -> i32 {
    match std_int(t, true, 0x8000_0000, 0x7FFF_FFFF) {
        Some(v) => v as i32,
        None => 0,
    }
}

/// The data format named `t`, if any.
pub open spec fn format_named(t: Seq<char>) -> Option<DataFormat> {
    if exists|f: DataFormat| format_name(f) == t {
        Some(choose|f: DataFormat| format_name(f) == t)
    } else {
        None
    }
}

/// The bytes of value `v` in format `f` and `len` bytes, when a format was
/// named (`named`); text is then read as a number in the text format.
pub open spec fn value_bytes(v: ValueView, f: DataFormat, len: nat, named: bool) -> Result<Seq<u8>, InterpolationErrorView> {
    match v {
        ValueView::Integer(i) => encoded(f, i as i32, len),
        ValueView::Str(s) => if named && f == DataFormat::Text {
            encoded(f, i32_or_zero(s), len)
        } else {
            Ok(fit(vstd::utf8::encode_utf8(s), len))
        },
        ValueView::EnumVariant(_, _, n) => encoded(f, n as i32, len),
        _ => Err(InterpolationErrorView::CannotInterpolate(v)),
    }
}

/// A variable specification split at its colons: one to three parts, or
/// `None` for more.
pub open spec fn spec_parts(s: Seq<char>) -> Option<Seq<Seq<char>>> {
    match after_sep(s, ':') {
        None => Some(seq![s]),
        Some(r1) => match after_sep(r1, ':') {
            None => Some(seq![before_sep(s, ':'), r1]),
            Some(r2) => match after_sep(r2, ':') {
                None => Some(seq![before_sep(s, ':'), before_sep(r1, ':'), r2]),
                Some(_) => None,
            },
        },
    }
}

/// What interpolating `name`, `name:length` or `name:format:length` gives
/// in `env`: a number in the unsigned little-endian format (four bytes, or
/// one for an enum member, without a length), a text as its UTF-8 bytes.
pub open spec fn spec_interpolate(spec: Seq<char>, env: Env) -> Result<Seq<u8>, InterpolationErrorView> {
    match spec_parts(spec) {
        None => Err(InterpolationErrorView::InvalidSpecification(spec)),
        Some(parts) => if parts.len() == 1 {
            match env_get(env, parts[0]) {
                None => Err(InterpolationErrorView::UndefinedVariable(parts[0])),
                Some(v) => match v {
                    ValueView::Integer(i) => encoded(DataFormat::IntLu, i as i32, 4),
                    ValueView::Str(s) => Ok(vstd::utf8::encode_utf8(s)),
                    ValueView::EnumVariant(_, _, n) => encoded(DataFormat::IntLu, n as i32, 1),
                    _ => Err(InterpolationErrorView::CannotInterpolate(v)),
                },
            }
        } else if parts.len() == 2 {
            match std_int(parts[1], false, 0, usize::MAX as int) {
                None => Err(InterpolationErrorView::InvalidLength(parts[1])),
                Some(len) => match env_get(env, parts[0]) {
                    None => Err(InterpolationErrorView::UndefinedVariable(parts[0])),
                    Some(v) => value_bytes(v, DataFormat::IntLu, len as nat, false),
                },
            }
        } else {
            match std_int(parts[2], false, 0, usize::MAX as int) {
                None => Err(InterpolationErrorView::InvalidLength(parts[2])),
                Some(len) => match format_named(parts[1]) {
                    None => Err(InterpolationErrorView::InvalidFormat(parts[1])),
                    Some(f) => match env_get(env, parts[0]) {
                        None => Err(InterpolationErrorView::UndefinedVariable(parts[0])),
                        Some(v) => value_bytes(v, f, len as nat, true),
                    },
                },
            }
        }
    }
}

/// Every format writes exactly the number of bytes it is given.
proof fn lemma_encoded_len(f: DataFormat, v: i32, len: nat)
    requires
        spec_encode(f, v, len) is Ok,
    ensures
        spec_encode(f, v, len)->Ok_0.len() == len,
{
    crate::format_laws::lemma_integer_format_names(f, v, len);
    crate::format_laws::lemma_bcd_format_names(f, v, len);
    reveal_strlit("bcd_bs");
    reveal_strlit("bcd_bu");
    reveal_strlit("bcd_ls");
    reveal_strlit("bcd_lu");
    reveal_strlit("int_bs");
    reveal_strlit("int_bu");
    reveal_strlit("int_ls");
    reveal_strlit("int_lu");
}

/// A length field reads as a number that is not negative.
proof fn lemma_length_field(t: Seq<char>)
    ensures
        std_int(t, false, 0, usize::MAX as int) matches Some(n) ==> 0 <= n <= usize::MAX,
{
    let m = crate::numbers::magnitude(t, false);
    if std_int(t, false, 0, usize::MAX as int) is Some {
        crate::numbers::lemma_digits_value_nonnegative(m);
    }
}

/// Bytes cut to `n` or filled up with zero bytes to `n`.
proof fn lemma_fit(b: Seq<u8>, n: nat)
    ensures
        fit(b, n).len() == n,
        forall|k: int| 0 <= k < n ==> #[trigger] fit(b, n)[k] == if k < b.len() { b[k] } else { 0u8 },
{
}

/// What interpolating a variable gives: with a length (`name:length` or
/// `name:format:length`) exactly that many bytes; a number without a
/// format, or named alone, as an unsigned number least significant byte
/// first (four bytes when named alone); and a text without a format as its
/// UTF-8 bytes, cut to the length or filled up with zero bytes.
pub proof fn lemma_interpolated_bytes(spec: Seq<char>, env: Env)
    ensures
        spec_interpolate(spec, env) matches Ok(b) ==> (spec_parts(spec) matches Some(p) && (p.len() >= 2 ==> b.len()
            == std_int(p[p.len() - 1], false, 0, usize::MAX as int)->0)),
        spec_interpolate(spec, env) matches Ok(b) ==> (spec_parts(spec) matches Some(p) && (p.len() <= 2 ==> (env_get(
            env,
            p[0],
        ) matches Some(ValueView::Integer(i)) ==> crate::data_format::le_value(b) == crate::data_format::as_unsigned(
            i as i32,
        )))),
        spec_interpolate(spec, env) matches Ok(b) ==> (spec_parts(spec) matches Some(p) && (p.len() == 1 ==> (env_get(
            env,
            p[0],
        ) matches Some(ValueView::Integer(i)) ==> b.len() == 4))),
        spec_interpolate(spec, env) matches Ok(b) ==> (spec_parts(spec) matches Some(p) && (p.len() == 2 ==> (env_get(
            env,
            p[0],
        ) matches Some(ValueView::Str(t)) ==> forall|k: int| 0 <= k < b.len() ==> #[trigger] b[k] == if k
            < vstd::utf8::encode_utf8(t).len() {
            vstd::utf8::encode_utf8(t)[k]
        } else {
            0u8
        }))),
{
    if let Some(p) = spec_parts(spec) {
        if let Ok(b) = spec_interpolate(spec, env) {
            if let Some(v) = env_get(env, p[0]) {
                if p.len() == 1 {
                    if let ValueView::Integer(i) = v {
                        lemma_encoded_len(DataFormat::IntLu, i as i32, 4);
                        crate::format_laws::lemma_integer_format_names(DataFormat::IntLu, i as i32, 4);
                    }
                } else if p.len() == 2 {
                    lemma_length_field(p[1]);
                    let len = std_int(p[1], false, 0, usize::MAX as int)->0;
                    match v {
                        ValueView::Integer(i) => {
                            lemma_encoded_len(DataFormat::IntLu, i as i32, len as nat);
                            crate::format_laws::lemma_integer_format_names(DataFormat::IntLu, i as i32, len as nat);
                        },
                        ValueView::EnumVariant(_, _, n) => {
                            lemma_encoded_len(DataFormat::IntLu, n as i32, len as nat);
                        },
                        ValueView::Str(t) => {
                            lemma_fit(vstd::utf8::encode_utf8(t), len as nat);
                        },
                        _ => {},
                    }
                } else {
                    lemma_length_field(p[2]);
                    let len = std_int(p[2], false, 0, usize::MAX as int)->0;
                    let f = format_named(p[1])->0;
                    match v {
                        ValueView::Integer(i) => {
                            lemma_encoded_len(f, i as i32, len as nat);
                        },
                        ValueView::EnumVariant(_, _, n) => {
                            lemma_encoded_len(f, n as i32, len as nat);
                        },
                        ValueView::Str(t) => {
                            if f == DataFormat::Text {
                                lemma_encoded_len(f, i32_or_zero(t), len as nat);
                            } else {
                                lemma_fit(vstd::utf8::encode_utf8(t), len as nat);
                            }
                        },
                        _ => {},
                    }
                }
            }
        }
    }
}

/// Interpolating does not hit the one input `encode` panics on: `i32::MIN`
/// in a signed BCD format.
pub open spec fn interpolation_defined(spec: Seq<char>, env: Env) -> bool {
    match spec_parts(spec) {
        Some(parts) => parts.len() == 3 ==> match (std_int(parts[2], false, 0, usize::MAX as int), format_named(parts[1]), env_get(env, parts[0])) {
            (Some(_), Some(f), Some(ValueView::Integer(i))) => encode_defined(f, i as i32),
            (Some(_), Some(f), Some(ValueView::EnumVariant(_, _, n))) => encode_defined(f, n as i32),
            _ => true,
        },
        None => true,
    }
}

fn encode_wrapped(f: DataFormat, v: i32, len: usize) -> (r: Result<Vec<u8>, InterpolationError>)
    requires
        encode_defined(f, v),
    ensures
        interpolated_view(r) == encoded(f, v, len as nat),
{
    match f.encode(v, len) {
        Ok(b) => Ok(b),
        Err(e) => Err(InterpolationError::Format(e)),
    }
}

fn fit_bytes(s: &String, len: usize) -> (r: Vec<u8>)
    ensures
        r@ == fit(vstd::utf8::encode_utf8(s@), len as nat),
{
    let mut b = s.as_str().as_bytes_vec();
    let mut out: Vec<u8> = Vec::new();
    let mut i: usize = 0;
    while i < len
        invariant
            i <= len,
            b@ == vstd::utf8::encode_utf8(s@),
            out@ == fit(b@, len as nat).take(i as int),
        decreases len - i,
    {
        if i < b.len() {
            out.push(b[i]);
        } else {
            out.push(0u8);
        }
        assert(out@ =~= fit(b@, len as nat).take(i + 1));
        i = i + 1;
    }
    assert(out@ =~= fit(b@, len as nat));
    out
}

/// No two formats share a name.
proof fn lemma_format_name_injective(a: DataFormat, b: DataFormat)
    ensures
        format_name(a) == format_name(b) ==> a == b,
{
    reveal_strlit("bcd_bs");
    reveal_strlit("bcd_bu");
    reveal_strlit("bcd_ls");
    reveal_strlit("bcd_lu");
    reveal_strlit("int_bs");
    reveal_strlit("int_bu");
    reveal_strlit("int_ls");
    reveal_strlit("int_lu");
    reveal_strlit("text");
    if format_name(a) == format_name(b) {
        let x = format_name(a);
        let y = format_name(b);
        assert(x.len() == y.len());
        if x.len() == 6 {
            assert(x[0] == y[0] && x[4] == y[4] && x[5] == y[5]);
        }
    }
}

fn format_of(t: &Vec<char>) -> (r: Option<DataFormat>)
    ensures
        r == format_named(t@),
{
    let name = string_from_chars(t.as_slice());
    match DataFormat::from_name(name.as_str()) {
        Ok(f) => {
            proof {
                let g = choose|g: DataFormat| format_name(g) == t@;
                lemma_format_name_injective(f, g);
            }
            Some(f)
        },
        Err(_) => None,
    }
}

fn parse_length(t: &Vec<char>) -> (r: Option<usize>)
    ensures
        match std_int(t@, false, 0, usize::MAX as int) {
            Some(n) => r matches Some(x) && x as int == n,
            None => r is None,
        },
{
    match read_int(t, false, 0, usize::MAX as u64) {
        Ok(v) => {
            proof {
                crate::numbers::lemma_digits_value_nonnegative(crate::numbers::magnitude(t@, false));
            }
            Some(v as usize)
        },
        Err(_) => None,
    }
}

fn value_to_bytes(v: Value, f: DataFormat, len: usize, named: bool) -> (r: Result<Vec<u8>, InterpolationError>)
    requires
        match value_view(v) {
            ValueView::Integer(i) => encode_defined(f, i as i32),
            ValueView::EnumVariant(_, _, n) => encode_defined(f, n as i32),
            _ => true,
        },
    ensures
        interpolated_view(r) == value_bytes(value_view(v), f, len as nat, named),
{
    match v {
        Value::Integer(i) => encode_wrapped(f, i as i32, len),
        Value::String(s) => {
            if named && f == DataFormat::Text {
                let cs = chars_of(s.as_str());
                let n: i32 = match read_int(&cs, true, 0x8000_0000, 0x7FFF_FFFF) {
                    Ok(x) => x as i32,
                    Err(_) => 0,
                };
                encode_wrapped(f, n, len)
            } else {
                Ok(fit_bytes(&s, len))
            }
        },
        Value::EnumVariant { value, .. } => encode_wrapped(f, value as i32, len),
        other => Err(InterpolationError::CannotInterpolate(other)),
    }
}

/// Interpolate a variable as `name`, `name:length` or
/// `name:format:length` gives it: a number in the named format, or in the
/// unsigned little-endian one (four bytes, or one for an enum member,
/// without a length); a text as its UTF-8 bytes cut or padded to the
/// length, or read as a number when the text format is named.
pub fn interpolate_variable(spec: &str, env: &Env) -> (r: Result<Vec<u8>, InterpolationError>)
    requires
        env_wf(*env),
        interpolation_defined(spec@, *env),
    ensures
        interpolated_view(r) == spec_interpolate(spec@, *env),
{
    let cs = chars_of(spec);
    assert(cs@.skip(0) =~= cs@);
    let (p0, r1) = field(&cs, 0, ':');
    let k1 = match r1 {
        None => {
            let name = string_from_chars(cs.as_slice());
            assert(spec_parts(spec@) == Some(seq![spec@]));
            return match env.get(name.as_str()) {
                None => Err(InterpolationError::UndefinedVariable(name)),
                Some(v) => match v {
                    Value::Integer(i) => encode_wrapped(DataFormat::IntLu, i as i32, 4),
                    Value::String(s) => Ok(s.as_str().as_bytes_vec()),
                    Value::EnumVariant { value, .. } => encode_wrapped(DataFormat::IntLu, value as i32, 1),
                    other => Err(InterpolationError::CannotInterpolate(other)),
                },
            };
        },
        Some(k) => k,
    };
    let (p1, r2) = field(&cs, k1, ':');
    let k2 = match r2 {
        None => {
            let rest: Vec<char> = tail(&cs, k1);
            assert(spec_parts(spec@) == Some(seq![p0@, rest@]));
            let len = match parse_length(&rest) {
                None => return Err(InterpolationError::InvalidLength(string_from_chars(rest.as_slice()))),
                Some(n) => n,
            };
            let name = string_from_chars(p0.as_slice());
            return match env.get(name.as_str()) {
                None => Err(InterpolationError::UndefinedVariable(name)),
                Some(v) => value_to_bytes(v, DataFormat::IntLu, len, false),
            };
        },
        Some(k) => k,
    };
    let (_, r3) = field(&cs, k2, ':');
    if r3.is_some() {
        return Err(InterpolationError::InvalidSpecification(spec.to_owned()));
    }
    let last: Vec<char> = tail(&cs, k2);
    assert(after_sep(spec@, ':') == Some(cs@.skip(k1 as int)));
    assert(after_sep(cs@.skip(k1 as int), ':') == Some(cs@.skip(k2 as int)));
    assert(spec_parts(spec@) == Some(seq![p0@, p1@, last@]));
    let len = match parse_length(&last) {
        None => return Err(InterpolationError::InvalidLength(string_from_chars(last.as_slice()))),
        Some(n) => n,
    };
    let f = match format_of(&p1) {
        None => return Err(InterpolationError::InvalidFormat(string_from_chars(p1.as_slice()))),
        Some(f) => f,
    };
    let name = string_from_chars(p0.as_slice());
    match env.get(name.as_str()) {
        None => Err(InterpolationError::UndefinedVariable(name)),
        Some(v) => value_to_bytes(v, f, len, true),
    }
}

/// The characters of `cs` from `k` on.
fn tail(cs: &Vec<char>, k: usize) -> (r: Vec<char>)
    requires
        k <= cs.len(),
    ensures
        r@ == cs@.skip(k as int),
{
    let mut out: Vec<char> = Vec::new();
    let mut i: usize = k;
    while i < cs.len()
        invariant
            k <= i <= cs.len(),
            out@ == cs@.subrange(k as int, i as int),
        decreases cs.len() - i,
    {
        out.push(cs[i]);
        assert(out@ =~= cs@.subrange(k as int, i + 1));
        i = i + 1;
    }
    out
}

/// How `{:?}` writes a value.
pub open spec fn value_debug(v: ValueView) -> Seq<char> {
    match v {
        ValueView::Integer(i) => "Integer("@ + int_chars(i as int) + ")"@,
        ValueView::Float(t) => "Float("@ + t + ")"@,
        ValueView::Str(s) => "String("@ + debug_str(s) + ")"@,
        ValueView::Boolean(b) => if b {
            "Boolean(true)"@
        } else {
            "Boolean(false)"@
        },
        ValueView::EnumVariant(en, vn, n) => "EnumVariant { enum_name: "@ + debug_str(en) + ", variant_name: "@
            + debug_str(vn) + ", value: "@ + decimal_chars(n as nat) + " }"@,
        ValueView::Unit => "Unit"@,
    }
}

/// The text shown for an interpolation error.
pub open spec fn interpolation_message(e: InterpolationErrorView) -> Seq<char> {
    match e {
        InterpolationErrorView::InvalidSpecification(s) => "Invalid variable specification: "@ + s,
        InterpolationErrorView::InvalidLength(s) => "Invalid length: "@ + s,
        InterpolationErrorView::InvalidFormat(s) => "Invalid format: "@ + s,
        InterpolationErrorView::UndefinedVariable(s) => "Undefined variable: "@ + s,
        InterpolationErrorView::CannotInterpolate(v) => "Cannot interpolate value type: "@ + value_debug(v),
        InterpolationErrorView::Format(d) => data_format_message(d),
    }
}

fn push_value_debug(out: &mut Vec<char>, v: &Value)
    ensures
        final(out)@ == old(out)@ + value_debug(value_view(*v)),
{
    match v {
        Value::Integer(i) => {
            push_str(out, "Integer(");
            push_int(out, *i);
            push_str(out, ")");
        },
        Value::Float(t) => {
            push_str(out, "Float(");
            push_str(out, t.as_str());
            push_str(out, ")");
        },
        Value::String(s) => {
            push_str(out, "String(");
            let q = debug_quoted(s.as_str());
            push_str(out, q.as_str());
            push_str(out, ")");
        },
        Value::Boolean(b) => {
            if *b {
                push_str(out, "Boolean(true)");
            } else {
                push_str(out, "Boolean(false)");
            }
        },
        Value::EnumVariant { enum_name, variant_name, value } => {
            push_str(out, "EnumVariant { enum_name: ");
            let a = debug_quoted(enum_name.as_str());
            push_str(out, a.as_str());
            push_str(out, ", variant_name: ");
            let b = debug_quoted(variant_name.as_str());
            push_str(out, b.as_str());
            push_str(out, ", value: ");
            push_decimal(out, *value as u128);
            push_str(out, " }");
        },
        Value::Unit => push_str(out, "Unit"),
    }
    assert(final(out)@ =~= old(out)@ + value_debug(value_view(*v)));
}

impl InterpolationError {
    /// The text shown for this error.
    pub fn message(&self) -> (s: String)
        ensures
            s@ == interpolation_message(interpolation_error_view(*self)),
    {
        let mut out: Vec<char> = Vec::new();
        match self {
            InterpolationError::InvalidSpecification(t) => {
                push_str(&mut out, "Invalid variable specification: ");
                push_str(&mut out, t.as_str());
            },
            InterpolationError::InvalidLength(t) => {
                push_str(&mut out, "Invalid length: ");
                push_str(&mut out, t.as_str());
            },
            InterpolationError::InvalidFormat(t) => {
                push_str(&mut out, "Invalid format: ");
                push_str(&mut out, t.as_str());
            },
            InterpolationError::UndefinedVariable(t) => {
                push_str(&mut out, "Undefined variable: ");
                push_str(&mut out, t.as_str());
            },
            InterpolationError::CannotInterpolate(v) => {
                push_str(&mut out, "Cannot interpolate value type: ");
                push_value_debug(&mut out, v);
            },
            InterpolationError::Format(d) => {
                return d.message();
            },
        }
        string_from_chars(out.as_slice())
    }
}

} // verus!

verus! {

// ---------------------------------------------------------------------------
// Binary operations
// ---------------------------------------------------------------------------

/// Why a binary operation has no value.
#[derive(Debug)]
pub enum EvalError {
    DivisionByZero,
    ModuloByZero,
    InvalidStringOperation(BinaryOp),
    InvalidBooleanOperation(BinaryOp),
    TypeMismatch(Value, BinaryOp, Value),
}

pub enum EvalErrorView {
    DivisionByZero,
    ModuloByZero,
    InvalidStringOperation(BinaryOp),
    InvalidBooleanOperation(BinaryOp),
    TypeMismatch(ValueView, BinaryOp, ValueView),
}

pub open spec fn eval_error_view(e: EvalError) -> EvalErrorView {
    match e {
        EvalError::DivisionByZero => EvalErrorView::DivisionByZero,
        EvalError::ModuloByZero => EvalErrorView::ModuloByZero,
        EvalError::InvalidStringOperation(op) => EvalErrorView::InvalidStringOperation(op),
        EvalError::InvalidBooleanOperation(op) => EvalErrorView::InvalidBooleanOperation(op),
        EvalError::TypeMismatch(l, op, r) => EvalErrorView::TypeMismatch(value_view(l), op, value_view(r)),
    }
}

pub open spec fn evaluated_view(r: Result<Value, EvalError>) -> Result<ValueView, EvalErrorView> {
    match r {
        Ok(v) => Ok(value_view(v)),
        Err(e) => Err(eval_error_view(e)),
    }
}

pub open spec fn magnitude_of(x: int) -> nat {
    if x < 0 {
        (-x) as nat
    } else {
        x as nat
    }
}

/// Division rounding toward zero, as Rust's `/` on integers.
pub open spec fn trunc_div(a: int, b: int) -> int {
    if (a < 0) == (b < 0) {
        (magnitude_of(a) / magnitude_of(b)) as int
    } else {
        -((magnitude_of(a) / magnitude_of(b)) as int)
    }
}

/// The remainder with the sign of `a`, as Rust's `%` on integers.
pub open spec fn trunc_rem(a: int, b: int) -> int {
    if a < 0 {
        -((magnitude_of(a) % magnitude_of(b)) as int)
    } else {
        (magnitude_of(a) % magnitude_of(b)) as int
    }
}

pub open spec fn is_float(v: ValueView) -> bool {
    v is Float
}

pub open spec fn is_integer(v: ValueView) -> bool {
    v is Integer
}

/// The operation needs floating-point arithmetic, which is done outside
/// this library: a float with a float or an integer.
pub open spec fn needs_float(l: ValueView, r: ValueView) -> bool {
    (is_float(l) && (is_float(r) || is_integer(r))) || (is_integer(l) && is_float(r))
}

/// The operation stays in range: Rust panics on an `i64` overflow.
pub open spec fn binop_in_range(l: ValueView, op: BinaryOp, r: ValueView) -> bool {
    match (l, r) {
        (ValueView::Integer(a), ValueView::Integer(b)) => match op {
            BinaryOp::Add => i64::MIN <= a + b <= i64::MAX,
            BinaryOp::Subtract => i64::MIN <= a - b <= i64::MAX,
            BinaryOp::Multiply => i64::MIN <= a * b <= i64::MAX,
            BinaryOp::Divide | BinaryOp::Modulo => !(a == i64::MIN && b == -1),
            _ => true,
        },
        _ => true,
    }
}

/// What a binary operation gives on two values that need no floating-point
/// arithmetic.
pub open spec fn binop(l: ValueView, op: BinaryOp, r: ValueView) -> Result<ValueView, EvalErrorView> {
    match (l, r) {
        (ValueView::Integer(a), ValueView::Integer(b)) => match op {
            BinaryOp::Add => Ok(ValueView::Integer((a + b) as i64)),
            BinaryOp::Subtract => Ok(ValueView::Integer((a - b) as i64)),
            BinaryOp::Multiply => Ok(ValueView::Integer((a * b) as i64)),
            BinaryOp::Divide => if b == 0 {
                Err(EvalErrorView::DivisionByZero)
            } else {
                Ok(ValueView::Integer(trunc_div(a as int, b as int) as i64))
            },
            BinaryOp::Modulo => if b == 0 {
                Err(EvalErrorView::ModuloByZero)
            } else {
                Ok(ValueView::Integer(trunc_rem(a as int, b as int) as i64))
            },
            BinaryOp::Equal => Ok(ValueView::Boolean(a == b)),
            BinaryOp::NotEqual => Ok(ValueView::Boolean(a != b)),
            BinaryOp::Less => Ok(ValueView::Boolean(a < b)),
            BinaryOp::LessEqual => Ok(ValueView::Boolean(a <= b)),
            BinaryOp::Greater => Ok(ValueView::Boolean(a > b)),
            BinaryOp::GreaterEqual => Ok(ValueView::Boolean(a >= b)),
            BinaryOp::And => Ok(ValueView::Boolean(a != 0 && b != 0)),
            BinaryOp::Or => Ok(ValueView::Boolean(a != 0 || b != 0)),
        },
        (ValueView::Str(a), ValueView::Str(b)) => match op {
            BinaryOp::Add => Ok(ValueView::Str(a + b)),
            BinaryOp::Equal => Ok(ValueView::Boolean(a == b)),
            BinaryOp::NotEqual => Ok(ValueView::Boolean(a != b)),
            _ => Err(EvalErrorView::InvalidStringOperation(op)),
        },
        (ValueView::Boolean(a), ValueView::Boolean(b)) => match op {
            BinaryOp::Equal => Ok(ValueView::Boolean(a == b)),
            BinaryOp::NotEqual => Ok(ValueView::Boolean(a != b)),
            BinaryOp::And => Ok(ValueView::Boolean(a && b)),
            BinaryOp::Or => Ok(ValueView::Boolean(a || b)),
            _ => Err(EvalErrorView::InvalidBooleanOperation(op)),
        },
        _ => Err(EvalErrorView::TypeMismatch(l, op, r)),
    }
}

fn div_trunc(a: i64, b: i64) -> (r: i64)
    requires
        b != 0,
        !(a == i64::MIN && b == -1),
    ensures
        r as int == trunc_div(a as int, b as int),
{
    let ua: u64 = if a < 0 { (0 - (a as i128)) as u64 } else { a as u64 };
    let ub: u64 = if b < 0 { (0 - (b as i128)) as u64 } else { b as u64 };
    let q: u64 = ua / ub;
    assert(ua as nat == magnitude_of(a as int) && ub as nat == magnitude_of(b as int));
    assert(q <= ua) by (nonlinear_arith)
        requires
            q == ua / ub,
            ub >= 1,
    ;
    if (a < 0) == (b < 0) {
        assert(q <= i64::MAX) by {
            if a == i64::MIN {
                assert(ub >= 2);
                assert(q <= ua / 2) by (nonlinear_arith)
                    requires
                        q == ua / ub,
                        ub >= 2,
                ;
            }
        }
        q as i64
    } else {
        (0 - (q as i128)) as i64
    }
}

fn rem_trunc(a: i64, b: i64) -> (r: i64)
    requires
        b != 0,
    ensures
        r as int == trunc_rem(a as int, b as int),
{
    let ua: u64 = if a < 0 { (0 - (a as i128)) as u64 } else { a as u64 };
    let ub: u64 = if b < 0 { (0 - (b as i128)) as u64 } else { b as u64 };
    let m: u64 = ua % ub;
    assert(ua as nat == magnitude_of(a as int) && ub as nat == magnitude_of(b as int));
    assert(m < ub);
    assert(m <= ua) by (nonlinear_arith)
        requires
            m == ua % ub,
            ub >= 1,
    ;
    if a < 0 {
        (0 - (m as i128)) as i64
    } else {
        m as i64
    }
}

fn str_concat(a: &String, b: &String) -> (r: String)
    ensures
        r@ == a@ + b@,
{
    let mut out: Vec<char> = Vec::new();
    push_str(&mut out, a.as_str());
    push_str(&mut out, b.as_str());
    string_from_chars(out.as_slice())
}

/// Truncating division and its remainder put the dividend back together:
/// the remainder is smaller than the divisor and has the dividend's sign,
/// and the quotient is no larger than the dividend.
proof fn lemma_trunc_div_rem(a: int, b: int)
    requires
        b != 0,
    ensures
        trunc_div(a, b) * b + trunc_rem(a, b) == a,
        magnitude_of(trunc_rem(a, b)) < magnitude_of(b),
        trunc_rem(a, b) == 0 || (trunc_rem(a, b) < 0) == (a < 0),
        magnitude_of(trunc_div(a, b)) <= magnitude_of(a),
{
    let ma = magnitude_of(a) as int;
    let mb = magnitude_of(b) as int;
    let q = ma / mb;
    let r = ma % mb;
    assert(q * mb + r == ma && 0 <= r < mb && 0 <= q <= ma) by (nonlinear_arith)
        requires
            ma >= 0,
            mb >= 1,
            q == ma / mb,
            r == ma % mb,
    ;
    assert(q * (-mb) == -(q * mb)) by (nonlinear_arith);
    assert((-q) * (-mb) == q * mb) by (nonlinear_arith);
    assert((-q) * mb == -(q * mb)) by (nonlinear_arith);
}

/// Integer operations: sums, differences and products are exact where they
/// fit; the comparisons order integers as numbers (so `a >= b` holds exactly
/// when `a > b` or `a == b`); division rounds toward zero, and the quotient
/// times the divisor plus the remainder gives the dividend back, with a
/// remainder smaller than the divisor and of the dividend's sign; a zero
/// divisor is an error; `&&` and `||` treat every non-zero integer as true.
pub proof fn lemma_integer_operations(a: i64, b: i64)
    ensures
        binop(ValueView::Integer(a), BinaryOp::Less, ValueView::Integer(b)) == Ok::<ValueView, EvalErrorView>(
            ValueView::Boolean(a < b),
        ),
        binop(ValueView::Integer(a), BinaryOp::LessEqual, ValueView::Integer(b)) == Ok::<ValueView, EvalErrorView>(
            ValueView::Boolean(a < b || a == b),
        ),
        binop(ValueView::Integer(a), BinaryOp::Greater, ValueView::Integer(b)) == Ok::<ValueView, EvalErrorView>(
            ValueView::Boolean(b < a),
        ),
        binop(ValueView::Integer(a), BinaryOp::GreaterEqual, ValueView::Integer(b)) == Ok::<ValueView, EvalErrorView>(
            ValueView::Boolean(b < a || a == b),
        ),
        binop(ValueView::Integer(a), BinaryOp::Equal, ValueView::Integer(b)) == Ok::<ValueView, EvalErrorView>(
            ValueView::Boolean(a == b),
        ),
        binop(ValueView::Integer(a), BinaryOp::NotEqual, ValueView::Integer(b)) == Ok::<ValueView, EvalErrorView>(
            ValueView::Boolean(a != b),
        ),
        i64::MIN <= a + b <= i64::MAX ==> (binop(ValueView::Integer(a), BinaryOp::Add, ValueView::Integer(b))
            matches Ok(ValueView::Integer(s)) && s == a + b),
        i64::MIN <= a - b <= i64::MAX ==> (binop(ValueView::Integer(a), BinaryOp::Subtract, ValueView::Integer(b))
            matches Ok(ValueView::Integer(d)) && d == a - b),
        i64::MIN <= a * b <= i64::MAX ==> (binop(ValueView::Integer(a), BinaryOp::Multiply, ValueView::Integer(b))
            matches Ok(ValueView::Integer(p)) && p == a * b),
        b == 0 ==> binop(ValueView::Integer(a), BinaryOp::Divide, ValueView::Integer(b))
            == Err::<ValueView, EvalErrorView>(EvalErrorView::DivisionByZero),
        b == 0 ==> binop(ValueView::Integer(a), BinaryOp::Modulo, ValueView::Integer(b))
            == Err::<ValueView, EvalErrorView>(EvalErrorView::ModuloByZero),
        b != 0 && !(a == i64::MIN && b == -1) ==> ((
        binop(ValueView::Integer(a), BinaryOp::Divide, ValueView::Integer(b)),
        binop(ValueView::Integer(a), BinaryOp::Modulo, ValueView::Integer(b)),
        ) matches (Ok(ValueView::Integer(q)), Ok(ValueView::Integer(r))) && q * b + r == a && magnitude_of(r as int)
            < magnitude_of(b as int) && (r == 0 || (r < 0) == (a < 0))),
        binop(ValueView::Integer(a), BinaryOp::And, ValueView::Integer(b)) == Ok::<ValueView, EvalErrorView>(
            ValueView::Boolean(a != 0 && b != 0),
        ),
        binop(ValueView::Integer(a), BinaryOp::Or, ValueView::Integer(b)) == Ok::<ValueView, EvalErrorView>(
            ValueView::Boolean(a != 0 || b != 0),
        ),
{
    if b != 0 {
        lemma_trunc_div_rem(a as int, b as int);
        if !(a == i64::MIN && b == -1) {
            let q = trunc_div(a as int, b as int);
            let r = trunc_rem(a as int, b as int);
            assert(i64::MIN <= q <= i64::MAX) by {
                if a == i64::MIN {
                    assert(magnitude_of(b as int) >= 2 || b == 1);
                    if b != 1 {
                        let ma = magnitude_of(a as int) as int;
                        let mb = magnitude_of(b as int) as int;
                        assert(ma / mb <= ma / 2) by (nonlinear_arith)
                            requires
                                ma >= 0,
                                mb >= 2,
                        {
                            vstd::arithmetic::div_mod::lemma_div_is_ordered_by_denominator(ma, 2, mb);
                        }
                    }
                }
            }
        }
    }
}

/// Strings join with `+` and compare for equality, and nothing else;
/// booleans compare and combine with `&&` and `||`, and nothing else; an
/// integer and a string, or an integer and a boolean, do not combine.
pub proof fn lemma_string_and_boolean_operations(x: Seq<char>, y: Seq<char>, p: bool, q: bool, n: i64, op: BinaryOp)
    ensures
        binop(ValueView::Str(x), BinaryOp::Add, ValueView::Str(y)) == Ok::<ValueView, EvalErrorView>(
            ValueView::Str(x + y),
        ),
        binop(ValueView::Str(x), BinaryOp::Equal, ValueView::Str(y)) == Ok::<ValueView, EvalErrorView>(
            ValueView::Boolean(x == y),
        ),
        binop(ValueView::Str(x), BinaryOp::NotEqual, ValueView::Str(y)) == Ok::<ValueView, EvalErrorView>(
            ValueView::Boolean(x != y),
        ),
        op != BinaryOp::Add && op != BinaryOp::Equal && op != BinaryOp::NotEqual ==> binop(
            ValueView::Str(x),
            op,
            ValueView::Str(y),
        ) is Err,
        binop(ValueView::Boolean(p), BinaryOp::And, ValueView::Boolean(q)) == Ok::<ValueView, EvalErrorView>(
            ValueView::Boolean(p && q),
        ),
        binop(ValueView::Boolean(p), BinaryOp::Or, ValueView::Boolean(q)) == Ok::<ValueView, EvalErrorView>(
            ValueView::Boolean(p || q),
        ),
        binop(ValueView::Boolean(p), BinaryOp::Equal, ValueView::Boolean(q)) == Ok::<ValueView, EvalErrorView>(
            ValueView::Boolean(p == q),
        ),
        binop(ValueView::Boolean(p), BinaryOp::NotEqual, ValueView::Boolean(q)) == Ok::<ValueView, EvalErrorView>(
            ValueView::Boolean(p != q),
        ),
        op != BinaryOp::And && op != BinaryOp::Or && op != BinaryOp::Equal && op != BinaryOp::NotEqual ==> binop(
            ValueView::Boolean(p),
            op,
            ValueView::Boolean(q),
        ) is Err,
        binop(ValueView::Integer(n), op, ValueView::Str(y)) is Err,
        binop(ValueView::Str(x), op, ValueView::Integer(n)) is Err,
        binop(ValueView::Integer(n), op, ValueView::Boolean(q)) is Err,
        binop(ValueView::Boolean(p), op, ValueView::Integer(n)) is Err,
{
}

/// Apply a binary operation to two values, as the interpreter does for all
/// but floating-point arithmetic.
pub fn apply_binary_op(left: &Value, op: BinaryOp, right: &Value) -> (r: Result<Value, EvalError>)
    requires
        !needs_float(value_view(*left), value_view(*right)),
        binop_in_range(value_view(*left), op, value_view(*right)),
    ensures
        evaluated_view(r) == binop(value_view(*left), op, value_view(*right)),
{
    match (left, right) {
        (Value::Integer(a), Value::Integer(b)) => {
            let (a, b) = (*a, *b);
            match op {
                BinaryOp::Add => Ok(Value::Integer(a + b)),
                BinaryOp::Subtract => Ok(Value::Integer(a - b)),
                BinaryOp::Multiply => Ok(Value::Integer(a * b)),
                BinaryOp::Divide => if b == 0 {
                    Err(EvalError::DivisionByZero)
                } else {
                    Ok(Value::Integer(div_trunc(a, b)))
                },
                BinaryOp::Modulo => if b == 0 {
                    Err(EvalError::ModuloByZero)
                } else {
                    Ok(Value::Integer(rem_trunc(a, b)))
                },
                BinaryOp::Equal => Ok(Value::Boolean(a == b)),
                BinaryOp::NotEqual => Ok(Value::Boolean(a != b)),
                BinaryOp::Less => Ok(Value::Boolean(a < b)),
                BinaryOp::LessEqual => Ok(Value::Boolean(a <= b)),
                BinaryOp::Greater => Ok(Value::Boolean(a > b)),
                BinaryOp::GreaterEqual => Ok(Value::Boolean(a >= b)),
                BinaryOp::And => Ok(Value::Boolean(a != 0 && b != 0)),
                BinaryOp::Or => Ok(Value::Boolean(a != 0 || b != 0)),
            }
        },
        (Value::String(a), Value::String(b)) => match op {
            BinaryOp::Add => Ok(Value::String(str_concat(a, b))),
            BinaryOp::Equal => Ok(Value::Boolean(crate::text::str_eq(a.as_str(), b.as_str()))),
            BinaryOp::NotEqual => Ok(Value::Boolean(!crate::text::str_eq(a.as_str(), b.as_str()))),
            _ => Err(EvalError::InvalidStringOperation(op)),
        },
        (Value::Boolean(a), Value::Boolean(b)) => match op {
            BinaryOp::Equal => Ok(Value::Boolean(*a == *b)),
            BinaryOp::NotEqual => Ok(Value::Boolean(*a != *b)),
            BinaryOp::And => Ok(Value::Boolean(*a && *b)),
            BinaryOp::Or => Ok(Value::Boolean(*a || *b)),
            _ => Err(EvalError::InvalidBooleanOperation(op)),
        },
        _ => Err(EvalError::TypeMismatch(copy_value(left), op, copy_value(right))),
    }
}

/// The text shown for an evaluation error.
pub open spec fn eval_message(e: EvalErrorView) -> Seq<char> {
    match e {
        EvalErrorView::DivisionByZero => "Division by zero"@,
        EvalErrorView::ModuloByZero => "Modulo by zero"@,
        EvalErrorView::InvalidStringOperation(op) => "Invalid operation "@ + op_name(op) + " for strings"@,
        EvalErrorView::InvalidBooleanOperation(op) => "Invalid operation "@ + op_name(op) + " for booleans"@,
        EvalErrorView::TypeMismatch(l, op, r) => "Type mismatch in binary operation: "@ + value_debug(l) + " "@
            + op_name(op) + " "@ + value_debug(r),
    }
}

impl EvalError {
    /// The text shown for this error.
    pub fn message(&self) -> (s: String)
        ensures
            s@ == eval_message(eval_error_view(*self)),
    {
        let mut out: Vec<char> = Vec::new();
        match self {
            EvalError::DivisionByZero => push_str(&mut out, "Division by zero"),
            EvalError::ModuloByZero => push_str(&mut out, "Modulo by zero"),
            EvalError::InvalidStringOperation(op) => {
                push_str(&mut out, "Invalid operation ");
                push_op_name(&mut out, *op);
                push_str(&mut out, " for strings");
            },
            EvalError::InvalidBooleanOperation(op) => {
                push_str(&mut out, "Invalid operation ");
                push_op_name(&mut out, *op);
                push_str(&mut out, " for booleans");
            },
            EvalError::TypeMismatch(l, op, r) => {
                push_str(&mut out, "Type mismatch in binary operation: ");
                push_value_debug(&mut out, l);
                push_str(&mut out, " ");
                push_op_name(&mut out, *op);
                push_str(&mut out, " ");
                push_value_debug(&mut out, r);
            },
        }
        string_from_chars(out.as_slice())
    }
}

} // verus!

verus! {

// ---------------------------------------------------------------------------
// Interpolating parsed parts
// ---------------------------------------------------------------------------

/// What a variable part gives: the variable's value in the named format, or
/// in the unsigned little-endian one, `length` bytes long.
pub open spec fn part_bytes(name: Seq<char>, format: Option<Seq<char>>, length: nat, env: Env) -> Result<Seq<u8>, InterpolationErrorView> {
    match env_get(env, name) {
        None => Err(InterpolationErrorView::UndefinedVariable(name)),
        Some(v) => match format {
            None => value_bytes(v, DataFormat::IntLu, length, false),
            Some(fs) => match format_named(fs) {
                None => Err(InterpolationErrorView::InvalidFormat(fs)),
                Some(f) => value_bytes(v, f, length, true),
            },
        },
    }
}

/// The bytes of the parts in order; the first part that fails decides.
pub open spec fn parts_bytes(ps: Seq<PartView>, env: Env) -> Result<Seq<u8>, InterpolationErrorView>
    decreases ps.len(),
{
    if ps.len() == 0 {
        Ok(Seq::empty())
    } else {
        match parts_bytes(ps.drop_last(), env) {
            Err(e) => Err(e),
            Ok(b) => match ps.last() {
                PartView::Literal(l) => Ok(b + l),
                PartView::Variable(n, f, len) => match part_bytes(n, f, len, env) {
                    Ok(x) => Ok(b + x),
                    Err(e) => Err(e),
                },
            },
        }
    }
}

/// A part does not hit the one input `encode` panics on.
pub open spec fn part_defined(p: PartView, env: Env) -> bool {
    match p {
        PartView::Variable(n, Some(fs), _) => match (env_get(env, n), format_named(fs)) {
            (Some(ValueView::Integer(i)), Some(f)) => encode_defined(f, i as i32),
            (Some(ValueView::EnumVariant(_, _, v)), Some(f)) => encode_defined(f, v as i32),
            _ => true,
        },
        _ => true,
    }
}

/// Bytes as upper-case hexadecimal, two digits each.
pub open spec fn hex_text(b: Seq<u8>) -> Seq<char>
    decreases b.len(),
{
    if b.len() == 0 {
        Seq::empty()
    } else {
        hex_text(b.drop_last()) + byte_digits(b.last())
    }
}

pub open spec fn parts_view(ps: Seq<InterpolationPart>) -> Seq<PartView> {
    ps.map_values(|p: InterpolationPart| part_view(p))
}

fn interpolate_part(name: &String, format: &Option<String>, length: usize, env: &Env) -> (r: Result<Vec<u8>, InterpolationError>)
    requires
        env_wf(*env),
        part_defined(PartView::Variable(name@, match format { Some(f) => Some(f@), None => None }, length as nat), *env),
    ensures
        interpolated_view(r) == part_bytes(name@, match format { Some(f) => Some(f@), None => None }, length as nat, *env),
{
    let v = match env.get(name.as_str()) {
        None => return Err(InterpolationError::UndefinedVariable(copy_string(name))),
        Some(v) => v,
    };
    match format {
        None => value_to_bytes(v, DataFormat::IntLu, length, false),
        Some(fs) => {
            let cs = chars_of(fs.as_str());
            match format_of(&cs) {
                None => Err(InterpolationError::InvalidFormat(copy_string(fs))),
                Some(f) => value_to_bytes(v, f, length, true),
            }
        },
    }
}

proof fn lemma_parts_failure(ps: Seq<PartView>, n: int, env: Env)
    requires
        0 <= n <= ps.len(),
        parts_bytes(ps.take(n), env) is Err,
    ensures
        parts_bytes(ps, env) == parts_bytes(ps.take(n), env),
    decreases ps.len() - n,
{
    if n < ps.len() {
        assert(ps.take(n + 1).drop_last() =~= ps.take(n));
        lemma_parts_failure(ps, n + 1, env);
    } else {
        assert(ps.take(n) =~= ps);
    }
}

fn push_hex_bytes(out: &mut Vec<char>, b: &Vec<u8>)
    ensures
        final(out)@ == old(out)@ + hex_text(b@),
{
    let mut i: usize = 0;
    let ghost start = out@;
    assert(b@.take(0) =~= Seq::<u8>::empty());
    while i < b.len()
        invariant
            i <= b.len(),
            out@ == start + hex_text(b@.take(i as int)),
        decreases b.len() - i,
    {
        assert(b@.take(i + 1).drop_last() =~= b@.take(i as int));
        let x = b[i];
        out.push(hex_digit_char(x / 16));
        out.push(hex_digit_char(x % 16));
        assert(out@ =~= start + hex_text(b@.take(i + 1)));
        i = i + 1;
    }
    assert(b@.take(i as int) =~= b@);
}

fn hex_digit_char(d: u8) -> (c: char)
    requires
        d < 16,
    ensures
        c == crate::messages::hex_digit(d as nat),
{
    if d < 10 {
        (48 + d) as char
    } else {
        (55 + d) as char
    }
}

/// Interpolate parsed parts: literal bytes as they are, each variable as
/// its value's bytes; the whole is written as upper-case hexadecimal text.
pub fn process_interpolation(parts: &Vec<InterpolationPart>, env: &Env) -> (r: Result<Value, InterpolationError>)
    requires
        env_wf(*env),
        forall|i: int| 0 <= i < parts@.len() ==> part_defined(part_view(#[trigger] parts@[i]), *env),
    ensures
        match parts_bytes(parts_view(parts@), *env) {
            Ok(b) => r matches Ok(Value::String(s)) && s@ == hex_text(b),
            Err(e) => r matches Err(x) && interpolation_error_view(x) == e,
        },
{
    let ghost pv = parts_view(parts@);
    let mut acc: Vec<u8> = Vec::new();
    let mut i: usize = 0;
    assert(pv.take(0) =~= Seq::<PartView>::empty());
    while i < parts.len()
        invariant
            i <= parts.len(),
            pv == parts_view(parts@),
            env_wf(*env),
            forall|k: int| 0 <= k < parts@.len() ==> part_defined(part_view(#[trigger] parts@[k]), *env),
            parts_bytes(pv.take(i as int), *env) == Ok::<Seq<u8>, InterpolationErrorView>(acc@),
        decreases parts.len() - i,
    {
        assert(pv.take(i + 1).drop_last() =~= pv.take(i as int));
        assert(pv.take(i + 1).last() == part_view(parts@[i as int]));
        let ghost before = acc@;
        match &parts[i] {
            InterpolationPart::Literal(l) => {
                let mut k: usize = 0;
                while k < l.len()
                    invariant
                        k <= l.len(),
                        acc@ == before + l@.take(k as int),
                    decreases l.len() - k,
                {
                    acc.push(l[k]);
                    assert(acc@ =~= before + l@.take(k + 1));
                    k = k + 1;
                }
                assert(l@.take(k as int) =~= l@);
            },
            InterpolationPart::Variable { name, format, length } => {
                assert(part_defined(part_view(parts@[i as int]), *env));
                match interpolate_part(name, format, *length, env) {
                    Ok(x) => {
                        let mut k: usize = 0;
                        while k < x.len()
                            invariant
                                k <= x.len(),
                                acc@ == before + x@.take(k as int),
                            decreases x.len() - k,
                        {
                            acc.push(x[k]);
                            assert(acc@ =~= before + x@.take(k + 1));
                            k = k + 1;
                        }
                        assert(x@.take(k as int) =~= x@);
                    },
                    Err(e) => {
                        proof {
                            lemma_parts_failure(pv, i + 1, *env);
                        }
                        return Err(e);
                    },
                }
            },
        }
        i = i + 1;
    }
    assert(pv.take(i as int) =~= pv);
    let mut out: Vec<char> = Vec::new();
    push_hex_bytes(&mut out, &acc);
    assert(out@ =~= hex_text(acc@));
    Ok(Value::String(string_from_chars(out.as_slice())))
}

} // verus!
