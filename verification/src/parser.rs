//! Syntax tree of rig files.
use vstd::prelude::*;

use crate::name_map::NameMap;

verus! {

/// An identifier.
#[derive(Debug, Clone, PartialEq, Eq, PartialOrd, Ord)]
pub struct Id(pub String);

impl Id {
    pub fn new(id: &str) -> (r: Self)
        ensures
            r.0@ == id@,
    {
        Id(id.to_owned())
    }

    pub fn as_str(&self) -> (r: &str)
        ensures
            r@ == self.0@,
    {
        self.0.as_str()
    }
}

/// A piece of an interpolated byte string: literal bytes, or a variable
/// written in a data format over a number of bytes.
#[derive(Debug, Clone, PartialEq, Eq)]
pub enum InterpolationPart {
    Literal(Vec<u8>),
    Variable { name: String, format: Option<String>, length: usize },
}

/// Binary operators, by precedence from loosest: `|| &&`, `== !=`,
/// `< <= > >=`, `+ -`, `* / %`.
#[derive(Debug, Clone, Copy, PartialEq, Eq, Structural)]
pub enum BinaryOp {
    Add,
    Subtract,
    Multiply,
    Divide,
    Modulo,
    Equal,
    NotEqual,
    Less,
    LessEqual,
    Greater,
    GreaterEqual,
    And,
    Or,
}

/// An expression.
#[derive(Debug)]
pub enum Expr {
    Integer(i64),
    /// A decimal fraction, as written.
    Float(String),
    String(String),
    Bytes(Vec<u8>),
    Identifier(Id),
    QualifiedIdentifier(Id, Id),
    BinaryOp { left: Box<Expr>, op: BinaryOp, right: Box<Expr> },
    StringInterpolation { parts: Vec<InterpolationPart> },
}

/// A statement.
#[derive(Debug)]
pub enum Statement {
    Assign(Id, Expr),
    FunctionCall { name: String, args: Vec<Expr> },
    If { condition: Expr, then_body: Vec<Statement>, else_body: Option<Vec<Statement>> },
}

/// Statements run once when the rig is opened.
#[derive(Debug)]
pub struct Init {
    pub statements: Vec<Statement>,
}

/// An enum of the rig file: its variants with their wire values.
#[derive(Debug, Clone)]
pub struct Enum {
    pub name: String,
    pub variants: NameMap<u32>,
}

/// Types of parameters, status fields and expressions.
#[derive(Debug, Clone, PartialEq, Eq)]
pub enum DataType {
    Int,
    Bool,
    Enum(String),
    Float,
    String,
    Bytes,
}

impl DataType {
    /// Integers and fractions are numeric.
    pub fn is_numeric(&self) -> (r: bool)
        ensures
            r == (*self is Int || *self is Float),
    {
        match self {
            DataType::Int | DataType::Float => true,
            _ => false,
        }
    }
}

/// A data type with its enum name as characters.
pub enum DataTypeView {
    Int,
    Bool,
    Enum(Seq<char>),
    Float,
    String,
    Bytes,
}

pub open spec fn dtype_view(d: DataType) -> DataTypeView {
    match d {
        DataType::Int => DataTypeView::Int,
        DataType::Bool => DataTypeView::Bool,
        DataType::Enum(s) => DataTypeView::Enum(s@),
        DataType::Float => DataTypeView::Float,
        DataType::String => DataTypeView::String,
        DataType::Bytes => DataTypeView::Bytes,
    }
}

/// A copy of a data type.
pub fn copy_data_type(d: &DataType) -> (r: DataType)
    ensures
        dtype_view(r) == dtype_view(*d),
{
    match d {
        DataType::Int => DataType::Int,
        DataType::Bool => DataType::Bool,
        DataType::Enum(s) => DataType::Enum(s.clone()),
        DataType::Float => DataType::Float,
        DataType::String => DataType::String,
        DataType::Bytes => DataType::Bytes,
    }
}

/// Whether two data types are the same.
pub fn same_data_type(a: &DataType, b: &DataType) -> (r: bool)
    ensures
        r == (dtype_view(*a) == dtype_view(*b)),
{
    match (a, b) {
        (DataType::Int, DataType::Int) => true,
        (DataType::Bool, DataType::Bool) => true,
        (DataType::Enum(x), DataType::Enum(y)) => crate::text::str_eq(x.as_str(), y.as_str()),
        (DataType::Float, DataType::Float) => true,
        (DataType::String, DataType::String) => true,
        (DataType::Bytes, DataType::Bytes) => true,
        _ => false,
    }
}

/// A typed command parameter.
#[derive(Debug, Clone)]
pub struct Parameter {
    pub param_type: DataType,
    pub name: String,
}

/// A command: its parameters and the statements that carry it out.
#[derive(Debug)]
pub struct Command {
    pub name: String,
    pub parameters: Vec<Parameter>,
    pub statements: Vec<Statement>,
}

/// Statements that read the rig's status.
#[derive(Debug)]
pub struct Status {
    pub statements: Vec<Statement>,
}

/// One declaration inside an `impl` block.
#[derive(Debug)]
pub enum Member {
    Enum(Enum),
    Init(Init),
    Command(Command),
    Status(Status),
}

/// The `impl Schema for Rig { ... }` block: the last init and status blocks,
/// the commands by name (a later one replaces an earlier one) and the enums in order.
#[derive(Debug)]
pub struct Impl {
    pub schema: String,
    pub name: String,
    pub init: Option<Init>,
    pub status: Option<Status>,
    pub commands: NameMap<Command>,
    pub enums: Vec<Enum>,
}

/// The settings at the top of a rig file, by name.
#[derive(Debug)]
pub struct Settings {
    pub settings: NameMap<Expr>,
}

/// A parsed rig file.
#[derive(Debug)]
pub struct RigFile {
    pub settings: Settings,
    pub impl_block: Impl,
}

impl Default for Settings {
    fn default() -> (r: Self)
        ensures
            r.settings.entries@.len() == 0,
            r.settings.wf(),
    {
        Settings { settings: NameMap::new() }
    }
}

impl Default for RigFile {
    fn default() -> (r: Self)
        ensures
            r.settings.settings.entries@.len() == 0,
            r.impl_block.schema@.len() == 0,
            r.impl_block.name@.len() == 0,
            r.impl_block.init is None,
            r.impl_block.status is None,
            r.impl_block.commands.entries@.len() == 0,
            r.impl_block.enums@.len() == 0,
    {
        RigFile {
            settings: Settings { settings: NameMap::new() },
            impl_block: Impl {
                schema: String::new(),
                name: String::new(),
                init: None,
                status: None,
                commands: NameMap::new(),
                enums: Vec::new(),
            },
        }
    }
}

} // verus!
