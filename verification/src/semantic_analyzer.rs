//! Checks a parsed rig file against the schema it implements: names, types,
//! built-in calls and commands.
use vstd::prelude::*;

use crate::lexer::debug_str;
use crate::name_map::{entries_view, insert_view, lemma_insert_view, view_key_index, NameMap};
use crate::parser::{
    copy_data_type, dtype_view, same_data_type, BinaryOp, Command, DataType, DataTypeView, Expr,
    Id, InterpolationPart, RigFile, Statement,
};
use crate::parser_errors::{ErrorLevel, ParseError, ParseErrorType, SourcePosition};
use crate::lexer::{lex_from, tokenize_error_is};
use crate::grammar::source_tokens;
use crate::rig_parser::{parse_rig_file, rig_outcome};
use crate::schema_parser::{parse_schema, schema_outcome};
use crate::schema_parser::{SchemaFile, SchemaParameter};
use crate::text::{name_is, same_name, int_chars, push_decimal, push_int, push_str, str_eq, string_from_chars, decimal_chars};

verus! {

/// A problem found in a rig file.
#[derive(Debug)]
pub struct SemanticError {
    pub position: Option<SourcePosition>,
    pub error_type: SemanticErrorType,
}

/// The kinds of problems found in rig files.
#[derive(Debug)]
pub enum SemanticErrorType {
    UndefinedVariable { name: String },
    UndefinedFunction { name: String },
    UndefinedEnumVariant { enum_name: String, variant_name: String },
    UndefinedEnum { name: String },
    TypeMismatch { expected: DataType, found: DataType, context: String },
    InvalidFunctionArguments { function_name: String, expected: usize, found: usize },
    InvalidFunctionArgumentType { function_name: String, arg_index: usize, expected: String, found: String },
    CommandNotInSchema { command_name: String },
    ParameterTypeMismatch { command_name: String, param_name: String, expected: DataType, found: DataType },
    MissingRequiredParameter { command_name: String, param_name: String },
    UnknownParameter { command_name: String, param_name: String },
    DuplicateEnumVariant { enum_name: String, variant_name: String },
    InvalidBinaryOperation { left_type: DataType, op: BinaryOp, right_type: DataType },
    SchemaVersionMismatch { rig_version: String, schema_version: u32 },
    SchemaTypeMismatch { rig_type: String, schema_type: String },
    InvalidInterpolationVariable { variable_name: String, context: String },
    EmptyCommand { command_name: String },
    InvalidEnumVariantValue { enum_name: String, variant_name: String, value: u32 },
    DivisionByZero { context: String },
    InvalidDataFormat { format: String, context: String },
}

/// A problem with its names as characters.
pub enum ErrView {
    UndefinedVariable(Seq<char>),
    UndefinedFunction(Seq<char>),
    UndefinedEnumVariant(Seq<char>, Seq<char>),
    UndefinedEnum(Seq<char>),
    TypeMismatch(DataTypeView, DataTypeView, Seq<char>),
    InvalidFunctionArguments(Seq<char>, nat, nat),
    InvalidFunctionArgumentType(Seq<char>, nat, Seq<char>, Seq<char>),
    CommandNotInSchema(Seq<char>),
    ParameterTypeMismatch(Seq<char>, Seq<char>, DataTypeView, DataTypeView),
    MissingRequiredParameter(Seq<char>, Seq<char>),
    UnknownParameter(Seq<char>, Seq<char>),
    DuplicateEnumVariant(Seq<char>, Seq<char>),
    InvalidBinaryOperation(DataTypeView, BinaryOp, DataTypeView),
    SchemaVersionMismatch(Seq<char>, u32),
    SchemaTypeMismatch(Seq<char>, Seq<char>),
    InvalidInterpolationVariable(Seq<char>, Seq<char>),
    EmptyCommand(Seq<char>),
    InvalidEnumVariantValue(Seq<char>, Seq<char>, u32),
    DivisionByZero(Seq<char>),
    InvalidDataFormat(Seq<char>, Seq<char>),
}

pub open spec fn err_view(e: SemanticError) -> ErrView {
    match e.error_type {
        SemanticErrorType::UndefinedVariable { name } => ErrView::UndefinedVariable(name@),
        SemanticErrorType::UndefinedFunction { name } => ErrView::UndefinedFunction(name@),
        SemanticErrorType::UndefinedEnumVariant { enum_name, variant_name } => ErrView::UndefinedEnumVariant(
            enum_name@,
            variant_name@,
        ),
        SemanticErrorType::UndefinedEnum { name } => ErrView::UndefinedEnum(name@),
        SemanticErrorType::TypeMismatch { expected, found, context } => ErrView::TypeMismatch(
            dtype_view(expected),
            dtype_view(found),
            context@,
        ),
        SemanticErrorType::InvalidFunctionArguments { function_name, expected, found } =>
            ErrView::InvalidFunctionArguments(function_name@, expected as nat, found as nat),
        SemanticErrorType::InvalidFunctionArgumentType { function_name, arg_index, expected, found } =>
            ErrView::InvalidFunctionArgumentType(function_name@, arg_index as nat, expected@, found@),
        SemanticErrorType::CommandNotInSchema { command_name } => ErrView::CommandNotInSchema(command_name@),
        SemanticErrorType::ParameterTypeMismatch { command_name, param_name, expected, found } =>
            ErrView::ParameterTypeMismatch(command_name@, param_name@, dtype_view(expected), dtype_view(found)),
        SemanticErrorType::MissingRequiredParameter { command_name, param_name } =>
            ErrView::MissingRequiredParameter(command_name@, param_name@),
        SemanticErrorType::UnknownParameter { command_name, param_name } => ErrView::UnknownParameter(
            command_name@,
            param_name@,
        ),
        SemanticErrorType::DuplicateEnumVariant { enum_name, variant_name } => ErrView::DuplicateEnumVariant(
            enum_name@,
            variant_name@,
        ),
        SemanticErrorType::InvalidBinaryOperation { left_type, op, right_type } =>
            ErrView::InvalidBinaryOperation(dtype_view(left_type), op, dtype_view(right_type)),
        SemanticErrorType::SchemaVersionMismatch { rig_version, schema_version } =>
            ErrView::SchemaVersionMismatch(rig_version@, schema_version),
        SemanticErrorType::SchemaTypeMismatch { rig_type, schema_type } => ErrView::SchemaTypeMismatch(
            rig_type@,
            schema_type@,
        ),
        SemanticErrorType::InvalidInterpolationVariable { variable_name, context } =>
            ErrView::InvalidInterpolationVariable(variable_name@, context@),
        SemanticErrorType::EmptyCommand { command_name } => ErrView::EmptyCommand(command_name@),
        SemanticErrorType::InvalidEnumVariantValue { enum_name, variant_name, value } =>
            ErrView::InvalidEnumVariantValue(enum_name@, variant_name@, value),
        SemanticErrorType::DivisionByZero { context } => ErrView::DivisionByZero(context@),
        SemanticErrorType::InvalidDataFormat { format, context } => ErrView::InvalidDataFormat(format@, context@),
    }
}

pub open spec fn errs_view(es: Seq<SemanticError>) -> Seq<ErrView> {
    es.map_values(|e: SemanticError| err_view(e))
}

/// None of the errors points at a place in the source: the analysis reports
/// no positions.
pub open spec fn unplaced(es: Seq<SemanticError>) -> bool {
    forall|i: int| 0 <= i < es.len() ==> (#[trigger] es[i]).position is None
}

/// `after` keeps the errors of `before` as they were, and every error added
/// after them points at no place.
pub open spec fn extends_unplaced(before: Seq<SemanticError>, after: Seq<SemanticError>) -> bool {
    &&& before.len() <= after.len()
    &&& forall|i: int| 0 <= i < before.len() ==> #[trigger] after[i] == before[i]
    &&& forall|i: int| before.len() <= i < after.len() ==> (#[trigger] after[i]).position is None
}

fn problem(error_type: SemanticErrorType) -> (e: SemanticError)
    ensures
        e.error_type == error_type,
        e.position is None,
{
    SemanticError { position: None, error_type }
}

// ---------------------------------------------------------------------------
// What the analysis knows: the types of variables and the variants of enums
// ---------------------------------------------------------------------------

/// Variable types and enum variants, by name.
pub struct Ctx {
    pub vars: Seq<(Seq<char>, DataTypeView)>,
    pub enums: Seq<(Seq<char>, Seq<Seq<char>>)>,
}

pub open spec fn var_type(c: Ctx, name: Seq<char>) -> Option<DataTypeView> {
    let i = view_key_index(c.vars, name);
    if i >= 0 {
        Some(c.vars[i].1)
    } else {
        None
    }
}

pub open spec fn enum_variants(c: Ctx, name: Seq<char>) -> Option<Seq<Seq<char>>> {
    let i = view_key_index(c.enums, name);
    if i >= 0 {
        Some(c.enums[i].1)
    } else {
        None
    }
}

pub open spec fn with_var(c: Ctx, name: Seq<char>, t: DataTypeView) -> Ctx {
    Ctx { vars: insert_view(c.vars, name, t), enums: c.enums }
}

pub open spec fn with_enum(c: Ctx, name: Seq<char>, variants: Seq<Seq<char>>) -> Ctx {
    Ctx { vars: c.vars, enums: insert_view(c.enums, name, variants) }
}

// ---------------------------------------------------------------------------
// The rules
// ---------------------------------------------------------------------------

pub open spec fn numeric(t: DataTypeView) -> bool {
    t is Int || t is Float
}

/// The type of `l op r`, or the error for it.
pub open spec fn s_binop(l: DataTypeView, op: BinaryOp, r: DataTypeView) -> Result<DataTypeView, ErrView> {
    let bad = ErrView::InvalidBinaryOperation(l, op, r);
    match op {
        BinaryOp::Add | BinaryOp::Subtract | BinaryOp::Multiply | BinaryOp::Divide | BinaryOp::Modulo => {
            if numeric(l) && numeric(r) {
                Ok(DataTypeView::Int)
            } else {
                Err(bad)
            }
        },
        BinaryOp::Equal | BinaryOp::NotEqual => {
            if l == r {
                Ok(DataTypeView::Bool)
            } else {
                Err(bad)
            }
        },
        BinaryOp::Less | BinaryOp::LessEqual | BinaryOp::Greater | BinaryOp::GreaterEqual => {
            if numeric(l) && numeric(r) {
                Ok(DataTypeView::Bool)
            } else {
                Err(bad)
            }
        },
        BinaryOp::And | BinaryOp::Or => {
            if l == DataTypeView::Bool && r == DataTypeView::Bool {
                Ok(DataTypeView::Bool)
            } else {
                Err(bad)
            }
        },
    }
}

/// The types of operations: arithmetic on numbers is an integer; an order
/// comparison of numbers, an equality of two values of one type, and `&&`
/// or `||` of booleans are booleans; an order comparison or arithmetic with
/// an operand that is no number, `&&` or `||` with one that is no boolean,
/// and an equality of values of two types are refused.
pub proof fn lemma_operator_types(l: DataTypeView, op: BinaryOp, r: DataTypeView)
    ensures
        (op == BinaryOp::Less || op == BinaryOp::LessEqual || op == BinaryOp::Greater || op
            == BinaryOp::GreaterEqual) ==> s_binop(l, op, r) == if (l is Int || l is Float) && (r is Int
            || r is Float) {
            Ok::<DataTypeView, ErrView>(DataTypeView::Bool)
        } else {
            Err::<DataTypeView, ErrView>(ErrView::InvalidBinaryOperation(l, op, r))
        },
        (op == BinaryOp::Add || op == BinaryOp::Subtract || op == BinaryOp::Multiply || op == BinaryOp::Divide
            || op == BinaryOp::Modulo) ==> s_binop(l, op, r) == if (l is Int || l is Float) && (r is Int
            || r is Float) {
            Ok::<DataTypeView, ErrView>(DataTypeView::Int)
        } else {
            Err::<DataTypeView, ErrView>(ErrView::InvalidBinaryOperation(l, op, r))
        },
        (op == BinaryOp::Equal || op == BinaryOp::NotEqual) ==> s_binop(l, op, r) == if l == r {
            Ok::<DataTypeView, ErrView>(DataTypeView::Bool)
        } else {
            Err::<DataTypeView, ErrView>(ErrView::InvalidBinaryOperation(l, op, r))
        },
        (op == BinaryOp::And || op == BinaryOp::Or) ==> s_binop(l, op, r) == if l is Bool && r is Bool {
            Ok::<DataTypeView, ErrView>(DataTypeView::Bool)
        } else {
            Err::<DataTypeView, ErrView>(ErrView::InvalidBinaryOperation(l, op, r))
        },
{
}

/// An `if` whose condition compares two numbers that are themselves without
/// error: the condition is a boolean, and the statement's errors are those
/// of its branches alone.
pub proof fn lemma_comparison_condition(
    left: Expr,
    op: BinaryOp,
    right: Expr,
    then_body: Vec<Statement>,
    else_body: Option<Vec<Statement>>,
    c: Ctx,
)
    requires
        op == BinaryOp::Less || op == BinaryOp::LessEqual || op == BinaryOp::Greater || op == BinaryOp::GreaterEqual,
        s_expr(left, c).1.len() == 0,
        s_expr(right, c).1.len() == 0,
        s_expr(left, c).0 is Int || s_expr(left, c).0 is Float,
        s_expr(right, c).0 is Int || s_expr(right, c).0 is Float,
    ensures
        s_expr(Expr::BinaryOp { left: Box::new(left), op, right: Box::new(right) }, c) == (
            DataTypeView::Bool,
            Seq::<ErrView>::empty(),
        ),
        s_stmt(
            Statement::If {
                condition: Expr::BinaryOp { left: Box::new(left), op, right: Box::new(right) },
                then_body,
                else_body,
            },
            c,
        ).0 == s_stmts(then_body@, c).0 + match else_body {
            Some(b) => s_stmts(b@, s_stmts(then_body@, c).1).0,
            None => Seq::<ErrView>::empty(),
        },
{
    let e = Expr::BinaryOp { left: Box::new(left), op, right: Box::new(right) };
    assert(s_expr(left, c).1 =~= Seq::<ErrView>::empty());
    assert(s_expr(right, c).1 =~= Seq::<ErrView>::empty());
    assert(s_expr(e, c).1 =~= Seq::<ErrView>::empty());
    let (e2, c2) = s_stmts(then_body@, c);
    assert(Seq::<ErrView>::empty() + e2 =~= e2);
    match else_body {
        Some(b) => {
            assert(Seq::<ErrView>::empty() + e2 + s_stmts(b@, c2).0 =~= e2 + s_stmts(b@, c2).0);
        },
        None => {},
    }
}

/// Interpolated variables that are not known (`_` always is).
pub open spec fn s_interp(parts: Seq<InterpolationPart>, c: Ctx) -> Seq<ErrView>
    decreases parts.len(),
{
    if parts.len() == 0 {
        Seq::empty()
    } else {
        s_interp(parts.drop_last(), c) + match parts.last() {
            InterpolationPart::Variable { name, .. } => if name@ != "_"@ && var_type(c, name@) is None {
                seq![ErrView::InvalidInterpolationVariable(name@, "string interpolation"@)]
            } else {
                Seq::empty()
            },
            _ => Seq::empty(),
        }
    }
}

/// The type of an expression and the errors in it; with errors, the type is
/// the one the checks go on with.
pub open spec fn s_expr(e: Expr, c: Ctx) -> (DataTypeView, Seq<ErrView>)
    decreases e,
{
    match e {
        Expr::Integer(_) => (DataTypeView::Int, Seq::empty()),
        Expr::Float(_) => (DataTypeView::Float, Seq::empty()),
        Expr::String(_) => (DataTypeView::String, Seq::empty()),
        Expr::Bytes(_) => (DataTypeView::Bytes, Seq::empty()),
        Expr::Identifier(id) => match var_type(c, id.0@) {
            Some(t) => (t, Seq::empty()),
            None => (DataTypeView::Int, seq![ErrView::UndefinedVariable(id.0@)]),
        },
        Expr::QualifiedIdentifier(en, vn) => match enum_variants(c, en.0@) {
            Some(vs) => (
                DataTypeView::Enum(en.0@),
                if vs.contains(vn.0@) {
                    Seq::empty()
                } else {
                    seq![ErrView::UndefinedEnumVariant(en.0@, vn.0@)]
                },
            ),
            None => (DataTypeView::Int, seq![ErrView::UndefinedEnum(en.0@)]),
        },
        Expr::BinaryOp { left, op, right } => {
            let (lt, le) = s_expr(*left, c);
            let (rt, re) = s_expr(*right, c);
            let l = if le.len() == 0 {
                lt
            } else {
                DataTypeView::Int
            };
            let r = if re.len() == 0 {
                rt
            } else {
                DataTypeView::Int
            };
            let zero = if (op == BinaryOp::Divide || op == BinaryOp::Modulo) && *right matches Expr::Integer(0) {
                seq![ErrView::DivisionByZero("binary operation"@)]
            } else {
                Seq::empty()
            };
            match s_binop(l, op, r) {
                Ok(t) => (t, le + re + zero),
                Err(b) => (DataTypeView::Bool, le + re + zero + seq![b]),
            }
        },
        Expr::StringInterpolation { parts } => (DataTypeView::Bytes, s_interp(parts@, c)),
    }
}

/// The built-in functions.
pub open spec fn is_builtin(name: Seq<char>) -> bool {
    name == "write"@ || name == "read"@ || name == "set_var"@ || name == "error"@
}

/// The context after `read` names its interpolated variables as integers.
pub open spec fn read_vars(parts: Seq<InterpolationPart>, c: Ctx) -> Ctx
    decreases parts.len(),
{
    if parts.len() == 0 {
        c
    } else {
        let c1 = read_vars(parts.drop_last(), c);
        match parts.last() {
            InterpolationPart::Variable { name, .. } => with_var(c1, name@, DataTypeView::Int),
            _ => c1,
        }
    }
}

pub open spec fn arity_error(name: Seq<char>, expected: nat, found: nat) -> ErrView {
    ErrView::InvalidFunctionArguments(name, expected, found)
}

/// The errors of a built-in call, and the context after it.
pub open spec fn s_call(name: Seq<char>, args: Seq<Expr>, c: Ctx) -> (Seq<ErrView>, Ctx) {
    if !is_builtin(name) {
        (seq![ErrView::UndefinedFunction(name)], c)
    } else if name == "set_var"@ {
        if args.len() != 2 {
            (seq![arity_error(name, 2, args.len())], c)
        } else {
            (s_expr(args[0], c).1 + s_expr(args[1], c).1, c)
        }
    } else if args.len() != 1 {
        (seq![arity_error(name, 1, args.len())], c)
    } else if name == "write"@ {
        let es = s_expr(args[0], c).1;
        if es.len() == 0 {
            match args[0] {
                Expr::StringInterpolation { parts } => (s_interp(parts@, c), c),
                _ => (Seq::empty(), c),
            }
        } else {
            (es, c)
        }
    } else if name == "read"@ {
        match args[0] {
            Expr::Bytes(_) => (Seq::empty(), c),
            Expr::StringInterpolation { parts } => (Seq::empty(), read_vars(parts@, c)),
            _ => (
                seq![
                    ErrView::InvalidFunctionArgumentType(
                        "read"@,
                        0,
                        "Bytes or StringInterpolation"@,
                        expr_debug(args[0]),
                    ),
                ],
                c,
            ),
        }
    } else {
        (s_expr(args[0], c).1, c)
    }
}

/// The errors of a statement, and the context after it.
pub open spec fn s_stmt(s: Statement, c: Ctx) -> (Seq<ErrView>, Ctx)
    decreases s,
{
    match s {
        Statement::Assign(id, e) => ((if var_type(c, id.0@) is None {
            seq![ErrView::UndefinedVariable(id.0@)]
        } else {
            Seq::empty()
        }) + s_expr(e, c).1, c),
        Statement::FunctionCall { name, args } => s_call(name@, args@, c),
        Statement::If { condition, then_body, else_body } => {
            let (ct, ce) = s_expr(condition, c);
            let e1 = if ce.len() == 0 {
                if ct != DataTypeView::Bool {
                    seq![ErrView::TypeMismatch(DataTypeView::Bool, ct, "if condition"@)]
                } else {
                    Seq::empty()
                }
            } else {
                ce
            };
            let (e2, c2) = s_stmts(then_body@, c);
            match else_body {
                Some(b) => {
                    let (e3, c3) = s_stmts(b@, c2);
                    (e1 + e2 + e3, c3)
                },
                None => (e1 + e2, c2),
            }
        },
    }
}

/// The errors of statements run in order, and the context after them.
pub open spec fn s_stmts(ss: Seq<Statement>, c: Ctx) -> (Seq<ErrView>, Ctx)
    decreases ss,
{
    if ss.len() == 0 {
        (Seq::empty(), c)
    } else {
        let (e1, c1) = s_stmts(ss.subrange(0, ss.len() - 1), c);
        let (e2, c2) = s_stmt(ss[ss.len() - 1], c1);
        (e1 + e2, c2)
    }
}

/// The debug form of an expression.
pub open spec fn expr_debug(e: Expr) -> Seq<char>
    decreases e,
{
    match e {
        Expr::Integer(i) => "Integer("@ + int_chars(i as int) + ")"@,
        Expr::Float(t) => "Float("@ + t@ + ")"@,
        Expr::String(s) => "String("@ + debug_str(s@) + ")"@,
        Expr::Bytes(b) => "Bytes("@ + bytes_debug(b@) + ")"@,
        Expr::Identifier(id) => "Identifier("@ + id_debug(id) + ")"@,
        Expr::QualifiedIdentifier(a, b) => "QualifiedIdentifier("@ + id_debug(a) + ", "@ + id_debug(b) + ")"@,
        Expr::BinaryOp { left, op, right } => "BinaryOp { left: "@ + expr_debug(*left) + ", op: "@
            + op_name(op) + ", right: "@ + expr_debug(*right) + " }"@,
        Expr::StringInterpolation { parts } => "StringInterpolation { parts: "@ + parts_debug(parts@) + " }"@,
    }
}

pub open spec fn id_debug(id: Id) -> Seq<char> {
    "Id("@ + debug_str(id.0@) + ")"@
}

pub open spec fn op_name(op: BinaryOp) -> Seq<char> {
    match op {
        BinaryOp::Add => "Add"@,
        BinaryOp::Subtract => "Subtract"@,
        BinaryOp::Multiply => "Multiply"@,
        BinaryOp::Divide => "Divide"@,
        BinaryOp::Modulo => "Modulo"@,
        BinaryOp::Equal => "Equal"@,
        BinaryOp::NotEqual => "NotEqual"@,
        BinaryOp::Less => "Less"@,
        BinaryOp::LessEqual => "LessEqual"@,
        BinaryOp::Greater => "Greater"@,
        BinaryOp::GreaterEqual => "GreaterEqual"@,
        BinaryOp::And => "And"@,
        BinaryOp::Or => "Or"@,
    }
}

/// Items separated by `, `.
pub open spec fn join(items: Seq<Seq<char>>) -> Seq<char>
    decreases items.len(),
{
    if items.len() == 0 {
        Seq::empty()
    } else if items.len() == 1 {
        items[0]
    } else {
        join(items.drop_last()) + ", "@ + items.last()
    }
}

/// Bytes in brackets, in decimal.
pub open spec fn bytes_debug(b: Seq<u8>) -> Seq<char> {
    "["@ + join(b.map_values(|x: u8| decimal_chars(x as nat))) + "]"@
}

pub open spec fn part_debug(p: InterpolationPart) -> Seq<char> {
    match p {
        InterpolationPart::Literal(b) => "Literal("@ + bytes_debug(b@) + ")"@,
        InterpolationPart::Variable { name, format, length } => "Variable { name: "@ + debug_str(name@)
            + ", format: "@ + match format {
            Some(f) => "Some("@ + debug_str(f@) + ")"@,
            None => "None"@,
        } + ", length: "@ + decimal_chars(length as nat) + " }"@,
    }
}

pub open spec fn parts_debug(ps: Seq<InterpolationPart>) -> Seq<char> {
    "["@ + join(ps.map_values(|p: InterpolationPart| part_debug(p))) + "]"@
}


// ---------------------------------------------------------------------------
// Debug forms
// ---------------------------------------------------------------------------

fn push_join_item(out: &mut Vec<char>, first: bool, item: &Vec<char>)
    ensures
        first ==> final(out)@ == old(out)@ + item@,
        !first ==> final(out)@ == old(out)@ + ", "@ + item@,
{
    if !first {
        push_str(out, ", ");
    }
    let ghost mid = out@;
    let mut i: usize = 0;
    while i < item.len()
        invariant
            i <= item@.len(),
            out@ == mid + item@.take(i as int),
        decreases item@.len() - i,
    {
        out.push(item[i]);
        assert(out@ =~= mid + item@.take(i + 1));
        i = i + 1;
    }
    assert(item@.take(i as int) =~= item@);
}

fn push_bytes_debug(out: &mut Vec<char>, b: &Vec<u8>)
    ensures
        final(out)@ == old(out)@ + bytes_debug(b@),
{
    let ghost items = b@.map_values(|x: u8| decimal_chars(x as nat));
    let ghost start = out@;
    let mut body: Vec<char> = Vec::new();
    let mut i: usize = 0;
    while i < b.len()
        invariant
            i <= b@.len(),
            items == b@.map_values(|x: u8| decimal_chars(x as nat)),
            body@ == join(items.take(i as int)),
        decreases b@.len() - i,
    {
        let mut d: Vec<char> = Vec::new();
        push_decimal(&mut d, b[i] as u128);
        assert(d@ =~= items[i as int]);
        assert(items.take(i + 1).drop_last() =~= items.take(i as int));
        push_join_item(&mut body, i == 0, &d);
        i = i + 1;
    }
    assert(items.take(i as int) =~= items);
    push_str(out, "[");
    let ghost mid = out@;
    push_join_item(out, true, &body);
    push_str(out, "]");
    assert(out@ =~= start + bytes_debug(b@));
}

fn push_chars(out: &mut Vec<char>, s: &String)
    ensures
        final(out)@ == old(out)@ + s@,
{
    push_str(out, s.as_str());
}

fn push_id_debug(out: &mut Vec<char>, id: &Id)
    ensures
        final(out)@ == old(out)@ + id_debug(*id),
{
    push_str(out, "Id(");
    let q = crate::lexer::debug_quoted(id.0.as_str());
    push_chars(out, &q);
    push_str(out, ")");
    assert(final(out)@ =~= old(out)@ + id_debug(*id)) by {
    }
}

pub(crate) fn push_op_name(out: &mut Vec<char>, op: BinaryOp)
    ensures
        final(out)@ == old(out)@ + op_name(op),
{
    let n: &str = match op {
        BinaryOp::Add => "Add",
        BinaryOp::Subtract => "Subtract",
        BinaryOp::Multiply => "Multiply",
        BinaryOp::Divide => "Divide",
        BinaryOp::Modulo => "Modulo",
        BinaryOp::Equal => "Equal",
        BinaryOp::NotEqual => "NotEqual",
        BinaryOp::Less => "Less",
        BinaryOp::LessEqual => "LessEqual",
        BinaryOp::Greater => "Greater",
        BinaryOp::GreaterEqual => "GreaterEqual",
        BinaryOp::And => "And",
        BinaryOp::Or => "Or",
    };
    push_str(out, n);
}

fn push_part_debug(out: &mut Vec<char>, p: &InterpolationPart)
    ensures
        final(out)@ == old(out)@ + part_debug(*p),
{
    let ghost start = out@;
    match p {
        InterpolationPart::Literal(b) => {
            push_str(out, "Literal(");
            push_bytes_debug(out, b);
            push_str(out, ")");
        },
        InterpolationPart::Variable { name, format, length } => {
            push_str(out, "Variable { name: ");
            let q = crate::lexer::debug_quoted(name.as_str());
            push_chars(out, &q);
            push_str(out, ", format: ");
            match format {
                Some(f) => {
                    push_str(out, "Some(");
                    let qf = crate::lexer::debug_quoted(f.as_str());
                    push_chars(out, &qf);
                    push_str(out, ")");
                },
                None => {
                    push_str(out, "None");
                },
            }
            push_str(out, ", length: ");
            push_decimal(out, *length as u128);
            push_str(out, " }");
        },
    }
    assert(out@ =~= start + part_debug(*p));
}

fn push_parts_debug(out: &mut Vec<char>, ps: &Vec<InterpolationPart>)
    ensures
        final(out)@ == old(out)@ + parts_debug(ps@),
{
    let ghost items = ps@.map_values(|p: InterpolationPart| part_debug(p));
    let ghost start = out@;
    let mut body: Vec<char> = Vec::new();
    let mut i: usize = 0;
    while i < ps.len()
        invariant
            i <= ps@.len(),
            items == ps@.map_values(|p: InterpolationPart| part_debug(p)),
            body@ == join(items.take(i as int)),
        decreases ps@.len() - i,
    {
        let mut d: Vec<char> = Vec::new();
        push_part_debug(&mut d, &ps[i]);
        assert(d@ =~= items[i as int]);
        assert(items.take(i + 1).drop_last() =~= items.take(i as int));
        push_join_item(&mut body, i == 0, &d);
        i = i + 1;
    }
    assert(items.take(i as int) =~= items);
    push_str(out, "[");
    push_join_item(out, true, &body);
    push_str(out, "]");
    assert(out@ =~= start + parts_debug(ps@));
}

fn push_expr_debug(out: &mut Vec<char>, e: &Expr)
    ensures
        final(out)@ == old(out)@ + expr_debug(*e),
    decreases e,
{
    let ghost start = out@;
    match e {
        Expr::Integer(i) => {
            push_str(out, "Integer(");
            push_int(out, *i);
            push_str(out, ")");
        },
        Expr::Float(t) => {
            push_str(out, "Float(");
            push_chars(out, t);
            push_str(out, ")");
        },
        Expr::String(s) => {
            push_str(out, "String(");
            let q = crate::lexer::debug_quoted(s.as_str());
            push_chars(out, &q);
            push_str(out, ")");
        },
        Expr::Bytes(b) => {
            push_str(out, "Bytes(");
            push_bytes_debug(out, b);
            push_str(out, ")");
        },
        Expr::Identifier(id) => {
            push_str(out, "Identifier(");
            push_id_debug(out, id);
            push_str(out, ")");
        },
        Expr::QualifiedIdentifier(a, b) => {
            push_str(out, "QualifiedIdentifier(");
            push_id_debug(out, a);
            push_str(out, ", ");
            push_id_debug(out, b);
            push_str(out, ")");
        },
        Expr::BinaryOp { left, op, right } => {
            push_str(out, "BinaryOp { left: ");
            push_expr_debug(out, left);
            push_str(out, ", op: ");
            push_op_name(out, *op);
            push_str(out, ", right: ");
            push_expr_debug(out, right);
            push_str(out, " }");
        },
        Expr::StringInterpolation { parts } => {
            push_str(out, "StringInterpolation { parts: ");
            push_parts_debug(out, parts);
            push_str(out, " }");
        },
    }
    assert(out@ =~= start + expr_debug(*e));
}

/// The debug form of an expression.
pub fn expr_debug_text(e: &Expr) -> (s: String)
    ensures
        s@ == expr_debug(*e),
{
    let mut out: Vec<char> = Vec::new();
    push_expr_debug(&mut out, e);
    string_from_chars(out.as_slice())
}

// ---------------------------------------------------------------------------
// Commands and whole files
// ---------------------------------------------------------------------------

/// The type the schema gives parameter `name` (the first of that name).
pub open spec fn schema_param_type(sp: Seq<SchemaParameter>, name: Seq<char>) -> Option<DataTypeView>
    decreases sp.len(),
{
    if sp.len() == 0 {
        None
    } else if sp[0].name@ == name {
        Some(dtype_view(sp[0].param_type))
    } else {
        schema_param_type(sp.drop_first(), name)
    }
}

/// The errors of a command's parameters against the schema's, and the
/// context with the parameters as variables.
pub open spec fn s_params(
    cmd: Seq<char>,
    ps: Seq<crate::parser::Parameter>,
    sp: Seq<SchemaParameter>,
    c: Ctx,
) -> (Seq<ErrView>, Ctx)
    decreases ps.len(),
{
    if ps.len() == 0 {
        (Seq::empty(), c)
    } else {
        let (e1, c1) = s_params(cmd, ps.drop_last(), sp, c);
        let p = ps.last();
        let e2 = match schema_param_type(sp, p.name@) {
            Some(t) => if t != dtype_view(p.param_type) {
                seq![ErrView::ParameterTypeMismatch(cmd, p.name@, t, dtype_view(p.param_type))]
            } else {
                Seq::empty()
            },
            None => seq![ErrView::UnknownParameter(cmd, p.name@)],
        };
        (e1 + e2, with_var(c1, p.name@, dtype_view(p.param_type)))
    }
}

pub open spec fn has_param(ps: Seq<crate::parser::Parameter>, name: Seq<char>) -> bool {
    exists|i: int| 0 <= i < ps.len() && (#[trigger] ps[i]).name@ == name
}

/// Schema parameters the command does not declare.
pub open spec fn s_missing(cmd: Seq<char>, ps: Seq<crate::parser::Parameter>, sp: Seq<SchemaParameter>) -> Seq<ErrView>
    decreases sp.len(),
{
    if sp.len() == 0 {
        Seq::empty()
    } else {
        s_missing(cmd, ps, sp.drop_last()) + if has_param(ps, sp.last().name@) {
            Seq::<ErrView>::empty()
        } else {
            seq![ErrView::MissingRequiredParameter(cmd, sp.last().name@)]
        }
    }
}

pub open spec fn schema_command(schema: SchemaFile, name: Seq<char>) -> Option<Seq<SchemaParameter>> {
    let i = crate::name_map::key_index(schema.commands.entries@, name);
    if i >= 0 {
        Some(schema.commands.entries@[i].1@)
    } else {
        None
    }
}

/// The errors of one command of the rig file.
pub open spec fn s_command(schema: SchemaFile, name: Seq<char>, cmd: Command, c: Ctx) -> Seq<ErrView> {
    match schema_command(schema, name) {
        None => seq![ErrView::CommandNotInSchema(name)] + s_stmts(cmd.statements@, register_params(cmd.parameters@, c)).0,
        Some(sp) => {
            let (e1, c1) = s_params(name, cmd.parameters@, sp, c);
            let e3 = if cmd.statements@.len() == 0 {
                seq![ErrView::EmptyCommand(name)]
            } else {
                Seq::empty()
            };
            e1 + s_missing(name, cmd.parameters@, sp) + e3 + s_stmts(cmd.statements@, c1).0
        },
    }
}

/// The context with the parameters `ps` known as variables.
pub open spec fn register_params(ps: Seq<crate::parser::Parameter>, c: Ctx) -> Ctx
    decreases ps.len(),
{
    if ps.len() == 0 {
        c
    } else {
        with_var(register_params(ps.drop_last(), c), ps.last().name@, dtype_view(ps.last().param_type))
    }
}

pub open spec fn s_commands(schema: SchemaFile, cs: Seq<(String, Command)>, c: Ctx) -> Seq<ErrView>
    decreases cs.len(),
{
    if cs.len() == 0 {
        Seq::empty()
    } else {
        s_commands(schema, cs.drop_last(), c) + s_command(schema, cs.last().0@, cs.last().1, c)
    }
}

pub open spec fn variant_names(e: crate::parser::Enum) -> Seq<Seq<char>> {
    e.variants.entries@.map_values(|v: (String, u32)| v.0@)
}

/// Variant names that repeat an earlier one.
pub open spec fn s_dup_variants(en: Seq<char>, names: Seq<Seq<char>>) -> Seq<ErrView>
    decreases names.len(),
{
    if names.len() == 0 {
        Seq::empty()
    } else {
        s_dup_variants(en, names.drop_last()) + if names.drop_last().contains(names.last()) {
            seq![ErrView::DuplicateEnumVariant(en, names.last())]
        } else {
            Seq::empty()
        }
    }
}

/// The enums of the rig file registered in order.
pub open spec fn register_enums(es: Seq<crate::parser::Enum>, c: Ctx) -> Ctx
    decreases es.len(),
{
    if es.len() == 0 {
        c
    } else {
        let e = es.last();
        with_enum(register_enums(es.drop_last(), c), e.name@, variant_names(e))
    }
}

/// The errors of the rig file's enums, and the context with them registered.
pub open spec fn s_enums(schema: SchemaFile, es: Seq<crate::parser::Enum>, c: Ctx) -> (Seq<ErrView>, Ctx)
    decreases es.len(),
{
    if es.len() == 0 {
        (Seq::empty(), c)
    } else {
        let (e1, c1) = s_enums(schema, es.drop_last(), c);
        let e = es.last();
        let undefined = if crate::name_map::key_index(schema.enums.entries@, e.name@) < 0 {
            seq![ErrView::UndefinedEnum(e.name@)]
        } else {
            Seq::empty()
        };
        (e1 + s_dup_variants(e.name@, variant_names(e)) + undefined, with_enum(c1, e.name@, variant_names(e)))
    }
}

/// The errors of the settings; each well-typed setting becomes a variable.
pub open spec fn s_settings(ss: Seq<(String, Expr)>, c: Ctx) -> (Seq<ErrView>, Ctx)
    decreases ss.len(),
{
    if ss.len() == 0 {
        (Seq::empty(), c)
    } else {
        let (e1, c1) = s_settings(ss.drop_last(), c);
        let (t, es) = s_expr(ss.last().1, c1);
        if es.len() == 0 {
            (e1, with_var(c1, ss.last().0@, t))
        } else {
            (e1 + es, c1)
        }
    }
}

/// Every problem of a rig file against a schema, in the order the checks
/// find them: the schema name, the enums, the settings, the init block, the
/// status block, then the commands by name.
pub open spec fn s_analyze(schema: SchemaFile, rig: RigFile) -> Seq<ErrView> {
    let imp = rig.impl_block;
    let e0 = if !same_name(imp.schema@, schema.name@) {
        seq![ErrView::SchemaTypeMismatch(imp.schema@, schema.name@)]
    } else {
        Seq::empty()
    };
    let c0 = register_enums(imp.enums@, Ctx { vars: Seq::empty(), enums: Seq::empty() });
    let (e1, c1) = s_enums(schema, imp.enums@, c0);
    let (e2, c2) = s_settings(rig.settings.settings.entries@, c1);
    let (e3, c3) = match imp.init {
        Some(i) => s_stmts(i.statements@, c2),
        None => (Seq::empty(), c2),
    };
    let (e4, c4) = match imp.status {
        Some(st) => s_stmts(st.statements@, c3),
        None => (Seq::empty(), c3),
    };
    e0 + e1 + e2 + e3 + e4 + s_commands(schema, imp.commands.entries@, c4)
}

// ---------------------------------------------------------------------------
// Implementation
// ---------------------------------------------------------------------------

pub open spec fn dtype_fn() -> spec_fn(DataType) -> DataTypeView {
    |d: DataType| dtype_view(d)
}

pub open spec fn names_fn() -> spec_fn(Vec<String>) -> Seq<Seq<char>> {
    |v: Vec<String>| v@.map_values(|s: String| s@)
}

/// What the analysis knows while it walks a rig file.
struct AnalysisContext {
    variables: NameMap<DataType>,
    enums: NameMap<Vec<String>>,
}

spec fn ctx_of(a: AnalysisContext) -> Ctx {
    Ctx {
        vars: entries_view(a.variables.entries@, dtype_fn()),
        enums: entries_view(a.enums.entries@, names_fn()),
    }
}

spec fn ctx_wf(a: AnalysisContext) -> bool {
    a.variables.wf() && a.enums.wf()
}

fn add_error(errors: &mut Vec<SemanticError>, e: SemanticError)
    requires
        e.position is None,
    ensures
        errs_view(final(errors)@) == errs_view(old(errors)@).push(err_view(e)),
        extends_unplaced(old(errors)@, final(errors)@),
{
    let ghost ev = err_view(e);
    errors.push(e);
    assert(errs_view(errors@) =~= errs_view(old(errors)@).push(ev));
}

fn add_errors(errors: &mut Vec<SemanticError>, more: Vec<SemanticError>)
    requires
        unplaced(more@),
    ensures
        errs_view(final(errors)@) == errs_view(old(errors)@) + errs_view(more@),
        extends_unplaced(old(errors)@, final(errors)@),
{
    let ghost mv = errs_view(more@);
    let mut more = more;
    errors.append(&mut more);
    assert(errs_view(errors@) =~= errs_view(old(errors)@) + mv);
}

fn contains_name(names: &Vec<String>, name: &str) -> (r: bool)
    ensures
        r == names@.map_values(|s: String| s@).contains(name@),
{
    let ghost views = names@.map_values(|s: String| s@);
    let mut i: usize = 0;
    while i < names.len()
        invariant
            i <= names@.len(),
            views == names@.map_values(|s: String| s@),
            forall|j: int| 0 <= j < i ==> views[j] != name@,
        decreases names@.len() - i,
    {
        if str_eq(names[i].as_str(), name) {
            assert(views[i as int] == name@);
            return true;
        }
        i = i + 1;
    }
    false
}

impl AnalysisContext {
    fn new() -> (r: Self)
        ensures
            ctx_wf(r),
            ctx_of(r) == (Ctx { vars: Seq::empty(), enums: Seq::empty() }),
    {
        let r = AnalysisContext { variables: NameMap::new(), enums: NameMap::new() };
        assert(ctx_of(r).vars =~= Seq::empty());
        assert(ctx_of(r).enums =~= Seq::empty());
        r
    }

    fn get_variable_type(&self, name: &str) -> (r: Option<DataType>)
        ensures
            match var_type(ctx_of(*self), name@) {
                Some(t) => r matches Some(d) && dtype_view(d) == t,
                None => r is None,
            },
    {
        proof {
            crate::name_map::lemma_view_key_index(self.variables.entries@, name@, dtype_fn());
            crate::name_map::lemma_key_index(self.variables.entries@, name@);
        }
        match self.variables.get(name) {
            Some(d) => Some(copy_data_type(d)),
            None => None,
        }
    }

    fn get_enum_variants(&self, name: &str) -> (r: Option<&Vec<String>>)
        ensures
            match enum_variants(ctx_of(*self), name@) {
                Some(vs) => r matches Some(v) && v@.map_values(|s: String| s@) == vs,
                None => r is None,
            },
    {
        proof {
            crate::name_map::lemma_view_key_index(self.enums.entries@, name@, names_fn());
            crate::name_map::lemma_key_index(self.enums.entries@, name@);
        }
        self.enums.get(name)
    }

    fn register_variable(&mut self, name: &str, t: DataType)
        requires
            ctx_wf(*old(self)),
        ensures
            ctx_wf(*final(self)),
            ctx_of(*final(self)) == with_var(ctx_of(*old(self)), name@, dtype_view(t)),
    {
        let key = name.to_owned();
        proof {
            lemma_insert_view(self.variables.entries@, key, t, dtype_fn());
        }
        self.variables.insert(key, t);
    }

    fn register_enum(&mut self, name: &str, variants: Vec<String>)
        requires
            ctx_wf(*old(self)),
        ensures
            ctx_wf(*final(self)),
            ctx_of(*final(self)) == with_enum(ctx_of(*old(self)), name@, variants@.map_values(|s: String| s@)),
    {
        let key = name.to_owned();
        proof {
            lemma_insert_view(self.enums.entries@, key, variants, names_fn());
        }
        self.enums.insert(key, variants);
    }

    fn copy(&self) -> (r: Self)
        requires
            ctx_wf(*self),
        ensures
            ctx_wf(r),
            ctx_of(r) == ctx_of(*self),
    {
        let mut vars: Vec<(String, DataType)> = Vec::new();
        let mut i: usize = 0;
        while i < self.variables.entries.len()
            invariant
                i <= self.variables.entries@.len(),
                vars@.len() == i,
                forall|j: int| 0 <= j < i ==> (#[trigger] vars@[j]).0@ == self.variables.entries@[j].0@
                    && dtype_view(vars@[j].1) == dtype_view(self.variables.entries@[j].1),
            decreases self.variables.entries@.len() - i,
        {
            let e = &self.variables.entries[i];
            vars.push((e.0.clone(), copy_data_type(&e.1)));
            i = i + 1;
        }
        let mut enums: Vec<(String, Vec<String>)> = Vec::new();
        let mut k: usize = 0;
        while k < self.enums.entries.len()
            invariant
                k <= self.enums.entries@.len(),
                enums@.len() == k,
                forall|j: int| 0 <= j < k ==> (#[trigger] enums@[j]).0@ == self.enums.entries@[j].0@
                    && enums@[j].1@.map_values(|s: String| s@) == self.enums.entries@[j].1@.map_values(
                    |s: String| s@,
                ),
            decreases self.enums.entries@.len() - k,
        {
            let e = &self.enums.entries[k];
            let mut names: Vec<String> = Vec::new();
            let mut q: usize = 0;
            while q < e.1.len()
                invariant
                    q <= e.1@.len(),
                    names@.len() == q,
                    forall|j: int| 0 <= j < q ==> (#[trigger] names@[j])@ == e.1@[j]@,
                decreases e.1@.len() - q,
            {
                names.push(e.1[q].clone());
                q = q + 1;
            }
            assert(names@.map_values(|s: String| s@) =~= e.1@.map_values(|s: String| s@));
            enums.push((e.0.clone(), names));
            k = k + 1;
        }
        let r = AnalysisContext { variables: NameMap { entries: vars }, enums: NameMap { entries: enums } };
        assert(entries_view(r.variables.entries@, dtype_fn()) =~= entries_view(self.variables.entries@, dtype_fn()));
        assert(entries_view(r.enums.entries@, names_fn()) =~= entries_view(self.enums.entries@, names_fn()));
        assert(r.variables.wf()) by {
            assert forall|i: int, j: int| 0 <= i < j < r.variables.entries@.len() implies crate::name_map::key_before(
                #[trigger] r.variables.entries@[i].0@,
                #[trigger] r.variables.entries@[j].0@,
            ) by {
                assert(self.variables.entries@[i].0@ == r.variables.entries@[i].0@);
                assert(self.variables.entries@[j].0@ == r.variables.entries@[j].0@);
            }
        }
        assert(r.enums.wf()) by {
            assert forall|i: int, j: int| 0 <= i < j < r.enums.entries@.len() implies crate::name_map::key_before(
                #[trigger] r.enums.entries@[i].0@,
                #[trigger] r.enums.entries@[j].0@,
            ) by {
                assert(self.enums.entries@[i].0@ == r.enums.entries@[i].0@);
                assert(self.enums.entries@[j].0@ == r.enums.entries@[j].0@);
            }
        }
        r
    }
}

fn validate_binary_op(l: &DataType, op: BinaryOp, r: &DataType) -> (res: Result<DataType, SemanticError>)
    ensures
        match s_binop(dtype_view(*l), op, dtype_view(*r)) {
            Ok(t) => res matches Ok(d) && dtype_view(d) == t,
            Err(v) => res matches Err(e) && err_view(e) == v,
        },
        res matches Err(e) ==> e.position is None,
{
    let ok = match op {
        BinaryOp::Add | BinaryOp::Subtract | BinaryOp::Multiply | BinaryOp::Divide | BinaryOp::Modulo => {
            if l.is_numeric() && r.is_numeric() {
                Some(DataType::Int)
            } else {
                None
            }
        },
        BinaryOp::Equal | BinaryOp::NotEqual => {
            if same_data_type(l, r) {
                Some(DataType::Bool)
            } else {
                None
            }
        },
        BinaryOp::Less | BinaryOp::LessEqual | BinaryOp::Greater | BinaryOp::GreaterEqual => {
            if l.is_numeric() && r.is_numeric() {
                Some(DataType::Bool)
            } else {
                None
            }
        },
        BinaryOp::And | BinaryOp::Or => {
            let b = DataType::Bool;
            if same_data_type(l, &b) && same_data_type(r, &b) {
                Some(DataType::Bool)
            } else {
                None
            }
        },
    };
    match ok {
        Some(t) => Ok(t),
        None => Err(
            problem(
                SemanticErrorType::InvalidBinaryOperation {
                    left_type: copy_data_type(l),
                    op,
                    right_type: copy_data_type(r),
                },
            ),
        ),
    }
}

fn validate_string_interpolation(
    parts: &Vec<InterpolationPart>,
    ctx: &AnalysisContext,
    errors: &mut Vec<SemanticError>,
)
    ensures
        errs_view(final(errors)@) == errs_view(old(errors)@) + s_interp(parts@, ctx_of(*ctx)),
        extends_unplaced(old(errors)@, final(errors)@),
{
    let ghost c = ctx_of(*ctx);
    let mut i: usize = 0;
    assert(parts@.take(0) =~= Seq::<InterpolationPart>::empty());
    assert(errs_view(errors@) =~= errs_view(old(errors)@) + s_interp(parts@.take(0), c));
    while i < parts.len()
        invariant
            i <= parts@.len(),
            c == ctx_of(*ctx),
            errs_view(errors@) == errs_view(old(errors)@) + s_interp(parts@.take(i as int), c),
            extends_unplaced(old(errors)@, errors@),
        decreases parts@.len() - i,
    {
        assert(parts@.take(i + 1).drop_last() =~= parts@.take(i as int));
        let ghost before = errs_view(errors@);
        match &parts[i] {
            InterpolationPart::Variable { name, .. } => {
                if !str_eq(name.as_str(), "_") && ctx.get_variable_type(name.as_str()).is_none() {
                    add_error(
                        errors,
                        problem(
                            SemanticErrorType::InvalidInterpolationVariable {
                                variable_name: name.clone(),
                                context: "string interpolation".to_owned(),
                            },
                        ),
                    );
                }
            },
            _ => {},
        }
        assert(errs_view(errors@) =~= errs_view(old(errors)@) + s_interp(parts@.take(i + 1), c));
        i = i + 1;
    }
    assert(parts@.take(i as int) =~= parts@);
}

fn expr_to_type(e: &Expr, ctx: &AnalysisContext) -> (r: (DataType, Vec<SemanticError>))
    ensures
        (dtype_view(r.0), errs_view(r.1@)) == s_expr(*e, ctx_of(*ctx)),
        unplaced(r.1@),
    decreases e,
{
    let mut errors: Vec<SemanticError> = Vec::new();
    assert(errs_view(errors@) =~= Seq::<ErrView>::empty());
    match e {
        Expr::Integer(_) => (DataType::Int, errors),
        Expr::Float(_) => (DataType::Float, errors),
        Expr::String(_) => (DataType::String, errors),
        Expr::Bytes(_) => (DataType::Bytes, errors),
        Expr::Identifier(id) => match ctx.get_variable_type(id.as_str()) {
            Some(t) => (t, errors),
            None => {
                add_error(&mut errors, problem(SemanticErrorType::UndefinedVariable { name: id.0.clone() }));
                (DataType::Int, errors)
            },
        },
        Expr::QualifiedIdentifier(en, vn) => match ctx.get_enum_variants(en.as_str()) {
            Some(vs) => {
                if !contains_name(vs, vn.as_str()) {
                    add_error(
                        &mut errors,
                        problem(
                            SemanticErrorType::UndefinedEnumVariant {
                                enum_name: en.0.clone(),
                                variant_name: vn.0.clone(),
                            },
                        ),
                    );
                }
                (DataType::Enum(en.0.clone()), errors)
            },
            None => {
                add_error(&mut errors, problem(SemanticErrorType::UndefinedEnum { name: en.0.clone() }));
                (DataType::Int, errors)
            },
        },
        Expr::BinaryOp { left, op, right } => {
            let (lt, le) = expr_to_type(left, ctx);
            let left_type = if le.len() == 0 {
                lt
            } else {
                DataType::Int
            };
            add_errors(&mut errors, le);
            let (rt, re) = expr_to_type(right, ctx);
            let right_type = if re.len() == 0 {
                rt
            } else {
                DataType::Int
            };
            add_errors(&mut errors, re);
            let zero_divisor = match &**right {
                Expr::Integer(0) => true,
                _ => false,
            };
            if (*op == BinaryOp::Divide || *op == BinaryOp::Modulo) && zero_divisor {
                add_error(
                    &mut errors,
                    problem(SemanticErrorType::DivisionByZero { context: "binary operation".to_owned() }),
                );
            }
            match validate_binary_op(&left_type, *op, &right_type) {
                Ok(t) => (t, errors),
                Err(b) => {
                    add_error(&mut errors, b);
                    (DataType::Bool, errors)
                },
            }
        },
        Expr::StringInterpolation { parts } => {
            validate_string_interpolation(parts, ctx, &mut errors);
            (DataType::Bytes, errors)
        },
    }
}

fn arity_problem(name: &String, expected: usize, found: usize) -> (e: SemanticError)
    ensures
        err_view(e) == arity_error(name@, expected as nat, found as nat),
        e.position is None,
{
    problem(SemanticErrorType::InvalidFunctionArguments { function_name: name.clone(), expected, found })
}

/// The whole analysis of a rig file against a schema.
pub struct SemanticAnalyzer {
    schema: SchemaFile,
    builtin_functions: Vec<String>,
}

pub open spec fn builtin_names() -> Seq<Seq<char>> {
    seq!["write"@, "read"@, "set_var"@, "error"@]
}

impl SemanticAnalyzer {
    #[verifier::type_invariant]
    spec fn builtins_known(self) -> bool {
        self.builtin_functions@.map_values(|s: String| s@) == builtin_names()
    }

    /// The schema the analyzer checks against.
    pub closed spec fn schema_file(self) -> SchemaFile {
        self.schema
    }

    /// An analyzer for rig files implementing `schema`.
    pub fn new(schema: SchemaFile) -> (r: Self)
        ensures
            r.schema_file() == schema,
    {
        let builtin_functions = vec![
            "write".to_owned(),
            "read".to_owned(),
            "set_var".to_owned(),
            "error".to_owned(),
        ];
        assert(builtin_functions@.map_values(|s: String| s@) =~= builtin_names());
        SemanticAnalyzer { schema, builtin_functions }
    }

    fn validate_function_call(
        &self,
        name: &String,
        args: &Vec<Expr>,
        ctx: &mut AnalysisContext,
        errors: &mut Vec<SemanticError>,
    )
        requires
            ctx_wf(*old(ctx)),
        ensures
            ctx_wf(*final(ctx)),
            errs_view(final(errors)@) == errs_view(old(errors)@) + s_call(name@, args@, ctx_of(*old(ctx))).0,
            extends_unplaced(old(errors)@, final(errors)@),
            ctx_of(*final(ctx)) == s_call(name@, args@, ctx_of(*old(ctx))).1,
    {
        proof {
            use_type_invariant(self);
        }
        let ghost c = ctx_of(*ctx);
        let builtin = contains_name(&self.builtin_functions, name.as_str());
        assert(builtin == is_builtin(name@)) by {
            if is_builtin(name@) {
                assert(builtin_names()[0] == "write"@);
                assert(builtin_names()[1] == "read"@);
                assert(builtin_names()[2] == "set_var"@);
                assert(builtin_names()[3] == "error"@);
            }
        }
        if !builtin {
            add_error(errors, problem(SemanticErrorType::UndefinedFunction { name: name.clone() }));
            return;
        }
        if str_eq(name.as_str(), "set_var") {
            if args.len() != 2 {
                add_error(errors, arity_problem(name, 2, args.len()));
                return;
            }
            let (_, e0) = expr_to_type(&args[0], ctx);
            add_errors(errors, e0);
            let (_, e1) = expr_to_type(&args[1], ctx);
            add_errors(errors, e1);
            assert(errs_view(errors@) =~= errs_view(old(errors)@) + s_call(name@, args@, c).0);
            return;
        }
        if args.len() != 1 {
            add_error(errors, arity_problem(name, 1, args.len()));
            return;
        }
        if str_eq(name.as_str(), "write") {
            let (_, es) = expr_to_type(&args[0], ctx);
            if es.len() == 0 {
                match &args[0] {
                    Expr::StringInterpolation { parts } => {
                        validate_string_interpolation(parts, ctx, errors);
                    },
                    _ => {
                        assert(errs_view(errors@) =~= errs_view(old(errors)@) + Seq::<ErrView>::empty());
                    },
                }
            } else {
                add_errors(errors, es);
            }
        } else if str_eq(name.as_str(), "read") {
            match &args[0] {
                Expr::Bytes(_) => {
                    assert(errs_view(errors@) =~= errs_view(old(errors)@) + Seq::<ErrView>::empty());
                },
                Expr::StringInterpolation { parts } => {
                    let mut i: usize = 0;
                    assert(parts@.take(0) =~= Seq::<InterpolationPart>::empty());
                    while i < parts.len()
                        invariant
                            i <= parts@.len(),
                            ctx_wf(*ctx),
                            ctx_of(*ctx) == read_vars(parts@.take(i as int), c),
                        decreases parts@.len() - i,
                    {
                        assert(parts@.take(i + 1).drop_last() =~= parts@.take(i as int));
                        match &parts[i] {
                            InterpolationPart::Variable { name, .. } => {
                                ctx.register_variable(name.as_str(), DataType::Int);
                            },
                            _ => {},
                        }
                        i = i + 1;
                    }
                    assert(parts@.take(i as int) =~= parts@);
                    assert(errs_view(errors@) =~= errs_view(old(errors)@) + Seq::<ErrView>::empty());
                },
                _ => {
                    let found = expr_debug_text(&args[0]);
                    add_error(
                        errors,
                        problem(
                            SemanticErrorType::InvalidFunctionArgumentType {
                                function_name: "read".to_owned(),
                                arg_index: 0,
                                expected: "Bytes or StringInterpolation".to_owned(),
                                found,
                            },
                        ),
                    );
                },
            }
        } else {
            let (_, es) = expr_to_type(&args[0], ctx);
            add_errors(errors, es);
        }
    }

    fn validate_statement(&self, st: &Statement, ctx: &mut AnalysisContext, errors: &mut Vec<SemanticError>)
        requires
            ctx_wf(*old(ctx)),
        ensures
            ctx_wf(*final(ctx)),
            errs_view(final(errors)@) == errs_view(old(errors)@) + s_stmt(*st, ctx_of(*old(ctx))).0,
            extends_unplaced(old(errors)@, final(errors)@),
            ctx_of(*final(ctx)) == s_stmt(*st, ctx_of(*old(ctx))).1,
        decreases st,
    {
        match st {
            Statement::Assign(id, e) => {
                if ctx.get_variable_type(id.0.as_str()).is_none() {
                    add_error(errors, problem(SemanticErrorType::UndefinedVariable { name: id.0.clone() }));
                }
                let (_, es) = expr_to_type(e, ctx);
                add_errors(errors, es);
            },
            Statement::FunctionCall { name, args } => {
                self.validate_function_call(name, args, ctx, errors);
            },
            Statement::If { condition, then_body, else_body } => {
                let ghost c = ctx_of(*ctx);
                let (ct, ce) = expr_to_type(condition, ctx);
                if ce.len() == 0 {
                    let b = DataType::Bool;
                    if !same_data_type(&ct, &b) {
                        add_error(
                            errors,
                            problem(
                                SemanticErrorType::TypeMismatch {
                                    expected: DataType::Bool,
                                    found: ct,
                                    context: "if condition".to_owned(),
                                },
                            ),
                        );
                    } else {
                        assert(errs_view(errors@) =~= errs_view(old(errors)@) + Seq::<ErrView>::empty());
                    }
                } else {
                    add_errors(errors, ce);
                }
                let ghost e1 = errs_view(errors@);
                self.validate_statements(then_body, ctx, errors);
                match else_body {
                    Some(b) => {
                        self.validate_statements(b, ctx, errors);
                    },
                    None => {},
                }
                assert(errs_view(errors@) =~= errs_view(old(errors)@) + s_stmt(*st, c).0);
            },
        }
    }

    fn validate_statements(&self, ss: &Vec<Statement>, ctx: &mut AnalysisContext, errors: &mut Vec<SemanticError>)
        requires
            ctx_wf(*old(ctx)),
        ensures
            ctx_wf(*final(ctx)),
            errs_view(final(errors)@) == errs_view(old(errors)@) + s_stmts(ss@, ctx_of(*old(ctx))).0,
            extends_unplaced(old(errors)@, final(errors)@),
            ctx_of(*final(ctx)) == s_stmts(ss@, ctx_of(*old(ctx))).1,
        decreases ss@,
    {
        let ghost c = ctx_of(*ctx);
        let mut i: usize = 0;
        assert(ss@.take(0) =~= Seq::<Statement>::empty());
        assert(errs_view(errors@) =~= errs_view(old(errors)@) + s_stmts(ss@.take(0), c).0);
        while i < ss.len()
            invariant
                i <= ss@.len(),
                ctx_wf(*ctx),
                errs_view(errors@) == errs_view(old(errors)@) + s_stmts(ss@.take(i as int), c).0,
                extends_unplaced(old(errors)@, errors@),
                ctx_of(*ctx) == s_stmts(ss@.take(i as int), c).1,
            decreases ss@.len() - i,
        {
            assert(ss@.take(i + 1).subrange(0, i as int) =~= ss@.take(i as int));
            assert(ss@.take(i + 1)[i as int] == ss@[i as int]);
            let ghost before = errs_view(errors@);
            self.validate_statement(&ss[i], ctx, errors);
            assert(errs_view(errors@) =~= errs_view(old(errors)@) + s_stmts(ss@.take(i + 1), c).0);
            i = i + 1;
        }
        assert(ss@.take(i as int) =~= ss@);
    }
}


fn find_schema_param<'a>(sp: &'a Vec<SchemaParameter>, name: &str) -> (r: Option<&'a DataType>)
    ensures
        match schema_param_type(sp@, name@) {
            Some(t) => r matches Some(d) && dtype_view(*d) == t,
            None => r is None,
        },
{
    let mut i: usize = 0;
    assert(sp@.skip(0) =~= sp@);
    while i < sp.len()
        invariant
            i <= sp@.len(),
            schema_param_type(sp@, name@) == schema_param_type(sp@.skip(i as int), name@),
        decreases sp@.len() - i,
    {
        assert(sp@.skip(i as int)[0] == sp@[i as int]);
        if str_eq(sp[i].name.as_str(), name) {
            return Some(&sp[i].param_type);
        }
        assert(sp@.skip(i as int).drop_first() =~= sp@.skip(i + 1));
        i = i + 1;
    }
    None
}

fn declares_param(ps: &Vec<crate::parser::Parameter>, name: &str) -> (r: bool)
    ensures
        r == has_param(ps@, name@),
{
    let mut i: usize = 0;
    while i < ps.len()
        invariant
            i <= ps@.len(),
            forall|j: int| 0 <= j < i ==> (#[trigger] ps@[j]).name@ != name@,
        decreases ps@.len() - i,
    {
        if str_eq(ps[i].name.as_str(), name) {
            return true;
        }
        i = i + 1;
    }
    false
}

fn variant_keys(e: &crate::parser::Enum) -> (r: Vec<String>)
    ensures
        r@.map_values(|s: String| s@) == variant_names(*e),
{
    let mut keys: Vec<String> = Vec::new();
    let mut i: usize = 0;
    while i < e.variants.entries.len()
        invariant
            i <= e.variants.entries@.len(),
            keys@.len() == i,
            forall|j: int| 0 <= j < i ==> (#[trigger] keys@[j])@ == e.variants.entries@[j].0@,
        decreases e.variants.entries@.len() - i,
    {
        keys.push(e.variants.entries[i].0.clone());
        i = i + 1;
    }
    assert(keys@.map_values(|s: String| s@) =~= variant_names(*e));
    keys
}

impl SemanticAnalyzer {
    fn validate_command(
        &self,
        name: &String,
        cmd: &Command,
        ctx: &AnalysisContext,
        errors: &mut Vec<SemanticError>,
    )
        requires
            ctx_wf(*ctx),
        ensures
            errs_view(final(errors)@) == errs_view(old(errors)@) + s_command(self.schema, name@, *cmd, ctx_of(*ctx)),
            extends_unplaced(old(errors)@, final(errors)@),
    {
        proof {
            crate::name_map::lemma_key_index(self.schema.commands.entries@, name@);
        }
        let sp = match self.schema.commands.get(name.as_str()) {
            Some(sp) => sp,
            None => {
                add_error(errors, problem(SemanticErrorType::CommandNotInSchema { command_name: name.clone() }));
                let ghost c0 = ctx_of(*ctx);
                let ghost ps0 = cmd.parameters@;
                let mut local = ctx.copy();
                let mut k: usize = 0;
                assert(ps0.take(0) =~= Seq::<crate::parser::Parameter>::empty());
                while k < cmd.parameters.len()
                    invariant
                        k <= ps0.len(),
                        ps0 == cmd.parameters@,
                        ctx_wf(local),
                        ctx_of(local) == register_params(ps0.take(k as int), c0),
                    decreases ps0.len() - k,
                {
                    assert(ps0.take(k + 1).drop_last() =~= ps0.take(k as int));
                    let p = &cmd.parameters[k];
                    local.register_variable(p.name.as_str(), copy_data_type(&p.param_type));
                    k = k + 1;
                }
                assert(ps0.take(k as int) =~= ps0);
                self.validate_statements(&cmd.statements, &mut local, errors);
                return;
            },
        };
        let ghost c = ctx_of(*ctx);
        let ghost ps = cmd.parameters@;
        let mut local = ctx.copy();
        let mut i: usize = 0;
        assert(ps.take(0) =~= Seq::<crate::parser::Parameter>::empty());
        assert(errs_view(errors@) =~= errs_view(old(errors)@) + s_params(name@, ps.take(0), sp@, c).0);
        while i < cmd.parameters.len()
            invariant
                i <= ps.len(),
                ps == cmd.parameters@,
                ctx_wf(local),
                errs_view(errors@) == errs_view(old(errors)@) + s_params(name@, ps.take(i as int), sp@, c).0,
                extends_unplaced(old(errors)@, errors@),
                ctx_of(local) == s_params(name@, ps.take(i as int), sp@, c).1,
            decreases ps.len() - i,
        {
            assert(ps.take(i + 1).drop_last() =~= ps.take(i as int));
            let p = &cmd.parameters[i];
            match find_schema_param(sp, p.name.as_str()) {
                Some(expected) => {
                    if !same_data_type(&p.param_type, expected) {
                        add_error(
                            errors,
                            problem(
                                SemanticErrorType::ParameterTypeMismatch {
                                    command_name: name.clone(),
                                    param_name: p.name.clone(),
                                    expected: copy_data_type(expected),
                                    found: copy_data_type(&p.param_type),
                                },
                            ),
                        );
                    } else {
                        assert(errs_view(errors@) =~= errs_view(errors@) + Seq::<ErrView>::empty());
                    }
                },
                None => {
                    add_error(
                        errors,
                        problem(
                            SemanticErrorType::UnknownParameter { command_name: name.clone(), param_name: p.name.clone() },
                        ),
                    );
                },
            }
            local.register_variable(p.name.as_str(), copy_data_type(&p.param_type));
            assert(errs_view(errors@) =~= errs_view(old(errors)@) + s_params(name@, ps.take(i + 1), sp@, c).0);
            i = i + 1;
        }
        assert(ps.take(i as int) =~= ps);
        let ghost after_params = errs_view(errors@);
        let mut j: usize = 0;
        assert(sp@.take(0) =~= Seq::<SchemaParameter>::empty());
        assert(errs_view(errors@) =~= after_params + s_missing(name@, ps, sp@.take(0)));
        while j < sp.len()
            invariant
                j <= sp@.len(),
                ps == cmd.parameters@,
                errs_view(errors@) == after_params + s_missing(name@, ps, sp@.take(j as int)),
                extends_unplaced(old(errors)@, errors@),
            decreases sp@.len() - j,
        {
            assert(sp@.take(j + 1).drop_last() =~= sp@.take(j as int));
            if !declares_param(&cmd.parameters, sp[j].name.as_str()) {
                add_error(
                    errors,
                    problem(
                        SemanticErrorType::MissingRequiredParameter {
                            command_name: name.clone(),
                            param_name: sp[j].name.clone(),
                        },
                    ),
                );
            }
            assert(errs_view(errors@) =~= after_params + s_missing(name@, ps, sp@.take(j + 1)));
            j = j + 1;
        }
        assert(sp@.take(j as int) =~= sp@);
        if cmd.statements.len() == 0 {
            add_error(errors, problem(SemanticErrorType::EmptyCommand { command_name: name.clone() }));
        }
        self.validate_statements(&cmd.statements, &mut local, errors);
        assert(errs_view(errors@) =~= errs_view(old(errors)@) + s_command(self.schema, name@, *cmd, c));
    }

    /// Check a rig file: `Ok` when nothing is wrong, else every problem found,
    /// in the order `s_analyze` gives.
    pub fn analyze(&self, rig_file: &RigFile) -> (r: Result<(), Vec<SemanticError>>)
        ensures
            s_analyze(self.schema_file(), *rig_file).len() == 0 ==> r is Ok,
            s_analyze(self.schema_file(), *rig_file).len() > 0 ==> (r matches Err(v) && errs_view(v@)
                == s_analyze(self.schema_file(), *rig_file)),
            r matches Err(v) ==> unplaced(v@),
    {
        let mut errors: Vec<SemanticError> = Vec::new();
        let imp = &rig_file.impl_block;
        if !name_is(imp.schema.as_str(), self.schema.name.as_str()) {
            add_error(
                &mut errors,
                problem(
                    SemanticErrorType::SchemaTypeMismatch {
                        rig_type: imp.schema.clone(),
                        schema_type: self.schema.name.clone(),
                    },
                ),
            );
        }
        assert(errs_view(errors@) =~= if !same_name(imp.schema@, self.schema.name@) {
            seq![ErrView::SchemaTypeMismatch(imp.schema@, self.schema.name@)]
        } else {
            Seq::<ErrView>::empty()
        });
        let ghost e0 = errs_view(errors@);
        let ghost es = imp.enums@;
        // The enums are known from the start.
        let mut ctx = AnalysisContext::new();
        let ghost c_empty = ctx_of(ctx);
        let mut k: usize = 0;
        assert(es.take(0) =~= Seq::<crate::parser::Enum>::empty());
        while k < imp.enums.len()
            invariant
                k <= es.len(),
                es == imp.enums@,
                ctx_wf(ctx),
                ctx_of(ctx) == register_enums(es.take(k as int), c_empty),
            decreases es.len() - k,
        {
            assert(es.take(k + 1).drop_last() =~= es.take(k as int));
            let keys = variant_keys(&imp.enums[k]);
            ctx.register_enum(imp.enums[k].name.as_str(), keys);
            k = k + 1;
        }
        assert(es.take(k as int) =~= es);
        let ghost c0 = ctx_of(ctx);
        // Each enum: repeated variants, and whether the schema has it.
        let mut i: usize = 0;
        assert(errs_view(errors@) =~= e0 + s_enums(self.schema, es.take(0), c0).0);
        while i < imp.enums.len()
            invariant
                i <= es.len(),
                es == imp.enums@,
                ctx_wf(ctx),
                errs_view(errors@) == e0 + s_enums(self.schema, es.take(i as int), c0).0,
                unplaced(errors@),
                ctx_of(ctx) == s_enums(self.schema, es.take(i as int), c0).1,
            decreases es.len() - i,
        {
            assert(es.take(i + 1).drop_last() =~= es.take(i as int));
            let e = &imp.enums[i];
            let keys = variant_keys(e);
            let ghost names = variant_names(*e);
            let ghost before = errs_view(errors@);
            let mut q: usize = 0;
            assert(names.take(0) =~= Seq::<Seq<char>>::empty());
            assert(errs_view(errors@) =~= before + s_dup_variants(e.name@, names.take(0)));
            while q < keys.len()
                invariant
                    q <= names.len(),
                    keys@.map_values(|s: String| s@) == names,
                    errs_view(errors@) == before + s_dup_variants(e.name@, names.take(q as int)),
                    unplaced(errors@),
                decreases names.len() - q,
            {
                assert(names.take(q + 1).drop_last() =~= names.take(q as int));
                let mut seen = false;
                let mut t: usize = 0;
                while t < q
                    invariant
                        t <= q,
                        q < names.len(),
                        keys@.map_values(|s: String| s@) == names,
                        seen == exists|u: int| 0 <= u < t && names[u] == names[q as int],
                    decreases q - t,
                {
                    assert(names[t as int] == keys@[t as int]@ && names[q as int] == keys@[q as int]@);
                    if str_eq(keys[t].as_str(), keys[q].as_str()) {
                        seen = true;
                    }
                    t = t + 1;
                }
                assert(seen == names.take(q as int).contains(names[q as int])) by {
                    if names.take(q as int).contains(names[q as int]) {
                        let u = choose|u: int| 0 <= u < q && names.take(q as int)[u] == names[q as int];
                        assert(names[u] == names[q as int]);
                    }
                    if seen {
                        let u = choose|u: int| 0 <= u < q && names[u] == names[q as int];
                        assert(names.take(q as int)[u] == names[q as int]);
                    }
                }
                if seen {
                    add_error(
                        &mut errors,
                        problem(
                            SemanticErrorType::DuplicateEnumVariant {
                                enum_name: e.name.clone(),
                                variant_name: keys[q].clone(),
                            },
                        ),
                    );
                }
                assert(errs_view(errors@) =~= before + s_dup_variants(e.name@, names.take(q + 1)));
                q = q + 1;
            }
            assert(names.take(q as int) =~= names);
            proof {
                crate::name_map::lemma_key_index(self.schema.enums.entries@, e.name@);
            }
            if !self.schema.enums.contains_key(e.name.as_str()) {
                add_error(&mut errors, problem(SemanticErrorType::UndefinedEnum { name: e.name.clone() }));
            }
            ctx.register_enum(e.name.as_str(), keys);
            assert(errs_view(errors@) =~= e0 + s_enums(self.schema, es.take(i + 1), c0).0);
            i = i + 1;
        }
        assert(es.take(i as int) =~= es);
        let ghost e01 = errs_view(errors@);
        let ghost c1 = ctx_of(ctx);
        // The settings become variables.
        let ghost ss = rig_file.settings.settings.entries@;
        let mut s: usize = 0;
        assert(ss.take(0) =~= Seq::<(String, Expr)>::empty());
        assert(errs_view(errors@) =~= e01 + s_settings(ss.take(0), c1).0);
        while s < rig_file.settings.settings.entries.len()
            invariant
                s <= ss.len(),
                ss == rig_file.settings.settings.entries@,
                ctx_wf(ctx),
                errs_view(errors@) == e01 + s_settings(ss.take(s as int), c1).0,
                unplaced(errors@),
                ctx_of(ctx) == s_settings(ss.take(s as int), c1).1,
            decreases ss.len() - s,
        {
            assert(ss.take(s + 1).drop_last() =~= ss.take(s as int));
            let entry = &rig_file.settings.settings.entries[s];
            let (t, es2) = expr_to_type(&entry.1, &ctx);
            if es2.len() == 0 {
                ctx.register_variable(entry.0.as_str(), t);
            } else {
                add_errors(&mut errors, es2);
            }
            assert(errs_view(errors@) =~= e01 + s_settings(ss.take(s + 1), c1).0);
            s = s + 1;
        }
        assert(ss.take(s as int) =~= ss);
        let ghost e012 = errs_view(errors@);
        match &imp.init {
            Some(init) => self.validate_statements(&init.statements, &mut ctx, &mut errors),
            None => {},
        }
        match &imp.status {
            Some(status) => self.validate_statements(&status.statements, &mut ctx, &mut errors),
            None => {},
        }
        let ghost e0123 = errs_view(errors@);
        let ghost c4 = ctx_of(ctx);
        let ghost cs = imp.commands.entries@;
        let mut m: usize = 0;
        assert(cs.take(0) =~= Seq::<(String, Command)>::empty());
        assert(errs_view(errors@) =~= e0123 + s_commands(self.schema, cs.take(0), c4));
        while m < imp.commands.entries.len()
            invariant
                m <= cs.len(),
                cs == imp.commands.entries@,
                ctx_wf(ctx),
                ctx_of(ctx) == c4,
                errs_view(errors@) == e0123 + s_commands(self.schema, cs.take(m as int), c4),
                unplaced(errors@),
            decreases cs.len() - m,
        {
            assert(cs.take(m + 1).drop_last() =~= cs.take(m as int));
            let entry = &imp.commands.entries[m];
            self.validate_command(&entry.0, &entry.1, &ctx, &mut errors);
            assert(errs_view(errors@) =~= e0123 + s_commands(self.schema, cs.take(m + 1), c4));
            m = m + 1;
        }
        assert(cs.take(m as int) =~= cs);
        assert(errs_view(errors@) =~= s_analyze(self.schema, *rig_file));
        if errors.len() == 0 {
            Ok(())
        } else {
            Err(errors)
        }
    }
}


// ---------------------------------------------------------------------------
// Messages
// ---------------------------------------------------------------------------

/// How `Debug` writes a data type.
pub open spec fn dtype_debug(d: DataTypeView) -> Seq<char> {
    match d {
        DataTypeView::Int => "Int"@,
        DataTypeView::Bool => "Bool"@,
        DataTypeView::Enum(n) => "Enum("@ + debug_str(n) + ")"@,
        DataTypeView::Float => "Float"@,
        DataTypeView::String => "String"@,
        DataTypeView::Bytes => "Bytes"@,
    }
}

/// The text shown for a problem.
pub open spec fn error_message(e: ErrView) -> Seq<char> {
    match e {
        ErrView::UndefinedVariable(n) => "Undefined variable '"@ + n + "'"@,
        ErrView::UndefinedFunction(n) => "Undefined function '"@ + n + "'"@,
        ErrView::UndefinedEnumVariant(en, vn) => "Undefined variant '"@ + vn + "' for enum '"@ + en + "'"@,
        ErrView::UndefinedEnum(n) => "Undefined enum '"@ + n + "'"@,
        ErrView::TypeMismatch(ex, fo, c) => "Type mismatch in "@ + c + ": expected "@ + dtype_debug(ex)
            + ", found "@ + dtype_debug(fo),
        ErrView::InvalidFunctionArguments(f, ex, fo) => "Function '"@ + f + "' expects "@ + decimal_chars(ex)
            + " arguments, got "@ + decimal_chars(fo),
        ErrView::InvalidFunctionArgumentType(f, i, ex, fo) => "Function '"@ + f + "' argument "@
            + decimal_chars(i) + ": expected "@ + ex + ", found "@ + fo,
        ErrView::CommandNotInSchema(c) => "Command '"@ + c + "' is not defined in the schema"@,
        ErrView::ParameterTypeMismatch(c, p, ex, fo) => "Parameter '"@ + p + "' in command '"@ + c
            + "': expected "@ + dtype_debug(ex) + ", found "@ + dtype_debug(fo),
        ErrView::MissingRequiredParameter(c, p) => "Missing required parameter '"@ + p + "' for command '"@ + c
            + "'"@,
        ErrView::UnknownParameter(c, p) => "Unknown parameter '"@ + p + "' for command '"@ + c + "'"@,
        ErrView::DuplicateEnumVariant(en, vn) => "Duplicate variant '"@ + vn + "' in enum '"@ + en + "'"@,
        ErrView::InvalidBinaryOperation(l, op, r) => "Invalid binary operation: "@ + dtype_debug(l) + " "@
            + op_name(op) + " "@ + dtype_debug(r),
        ErrView::SchemaVersionMismatch(rv, sv) => "Schema version mismatch: rig expects '"@ + rv
            + "', schema has "@ + decimal_chars(sv as nat),
        ErrView::SchemaTypeMismatch(rt, st) => "Schema type mismatch: rig has '"@ + rt + "', schema expects '"@
            + st + "'"@,
        ErrView::InvalidInterpolationVariable(v, c) => "Invalid interpolation variable '"@ + v + "' in "@ + c,
        ErrView::EmptyCommand(c) => "Command '"@ + c + "' is empty"@,
        ErrView::InvalidEnumVariantValue(en, vn, v) => "Invalid value '"@ + decimal_chars(v as nat)
            + "' for enum variant '"@ + vn + "' in enum '"@ + en + "'"@,
        ErrView::DivisionByZero(c) => "Division by zero in "@ + c,
        ErrView::InvalidDataFormat(f, c) => "Invalid data format '"@ + f + "' in "@ + c,
    }
}

fn push_dtype_debug(out: &mut Vec<char>, d: &DataType)
    ensures
        final(out)@ == old(out)@ + dtype_debug(dtype_view(*d)),
{
    match d {
        DataType::Int => push_str(out, "Int"),
        DataType::Bool => push_str(out, "Bool"),
        DataType::Enum(n) => {
            push_str(out, "Enum(");
            let q = crate::lexer::debug_quoted(n.as_str());
            push_chars(out, &q);
            push_str(out, ")");
            assert(final(out)@ =~= old(out)@ + dtype_debug(dtype_view(*d)));
        },
        DataType::Float => push_str(out, "Float"),
        DataType::String => push_str(out, "String"),
        DataType::Bytes => push_str(out, "Bytes"),
    }
}

/// Appends the pieces of a message, each either text or characters already
/// built.
fn push_all(out: &mut Vec<char>, parts: &[&str])
    ensures
        final(out)@ == old(out)@ + concat_strs(parts@),
{
    let mut i: usize = 0;
    let ghost start = out@;
    assert(parts@.take(0) =~= Seq::<&str>::empty());
    while i < parts.len()
        invariant
            i <= parts@.len(),
            out@ == start + concat_strs(parts@.take(i as int)),
        decreases parts.len() - i,
    {
        assert(parts@.take(i + 1).drop_last() =~= parts@.take(i as int));
        push_str(out, parts[i]);
        assert(out@ =~= start + concat_strs(parts@.take(i + 1)));
        i = i + 1;
    }
    assert(parts@.take(i as int) =~= parts@);
}

/// The characters of several string slices, one after another.
pub open spec fn concat_strs(parts: Seq<&str>) -> Seq<char>
    decreases parts.len(),
{
    if parts.len() == 0 {
        Seq::empty()
    } else {
        concat_strs(parts.drop_last()) + parts.last()@
    }
}

impl SemanticError {
    /// The text shown for this problem.
    #[verifier::spinoff_prover]
    #[verifier::rlimit(40)]
    pub fn message(&self) -> (s: String)
        ensures
            s@ == error_message(err_view(*self)),
    {
        let mut out: Vec<char> = Vec::new();
        match &self.error_type {
            SemanticErrorType::UndefinedVariable { name } => {
                push_all(&mut out, &["Undefined variable '", name.as_str(), "'"]);
            },
            SemanticErrorType::UndefinedFunction { name } => {
                push_all(&mut out, &["Undefined function '", name.as_str(), "'"]);
            },
            SemanticErrorType::UndefinedEnumVariant { enum_name, variant_name } => {
                push_all(
                    &mut out,
                    &["Undefined variant '", variant_name.as_str(), "' for enum '", enum_name.as_str(), "'"],
                );
            },
            SemanticErrorType::UndefinedEnum { name } => {
                push_all(&mut out, &["Undefined enum '", name.as_str(), "'"]);
            },
            SemanticErrorType::TypeMismatch { expected, found, context } => {
                push_all(&mut out, &["Type mismatch in ", context.as_str(), ": expected "]);
                push_dtype_debug(&mut out, expected);
                push_str(&mut out, ", found ");
                push_dtype_debug(&mut out, found);
            },
            SemanticErrorType::InvalidFunctionArguments { function_name, expected, found } => {
                push_all(&mut out, &["Function '", function_name.as_str(), "' expects "]);
                push_decimal(&mut out, *expected as u128);
                push_str(&mut out, " arguments, got ");
                push_decimal(&mut out, *found as u128);
            },
            SemanticErrorType::InvalidFunctionArgumentType { function_name, arg_index, expected, found } => {
                push_all(&mut out, &["Function '", function_name.as_str(), "' argument "]);
                push_decimal(&mut out, *arg_index as u128);
                push_all(&mut out, &[": expected ", expected.as_str(), ", found ", found.as_str()]);
            },
            SemanticErrorType::CommandNotInSchema { command_name } => {
                push_all(&mut out, &["Command '", command_name.as_str(), "' is not defined in the schema"]);
            },
            SemanticErrorType::ParameterTypeMismatch { command_name, param_name, expected, found } => {
                push_all(
                    &mut out,
                    &["Parameter '", param_name.as_str(), "' in command '", command_name.as_str(), "': expected "],
                );
                push_dtype_debug(&mut out, expected);
                push_str(&mut out, ", found ");
                push_dtype_debug(&mut out, found);
            },
            SemanticErrorType::MissingRequiredParameter { command_name, param_name } => {
                push_all(
                    &mut out,
                    &["Missing required parameter '", param_name.as_str(), "' for command '", command_name.as_str(), "'"],
                );
            },
            SemanticErrorType::UnknownParameter { command_name, param_name } => {
                push_all(
                    &mut out,
                    &["Unknown parameter '", param_name.as_str(), "' for command '", command_name.as_str(), "'"],
                );
            },
            SemanticErrorType::DuplicateEnumVariant { enum_name, variant_name } => {
                push_all(
                    &mut out,
                    &["Duplicate variant '", variant_name.as_str(), "' in enum '", enum_name.as_str(), "'"],
                );
            },
            SemanticErrorType::InvalidBinaryOperation { left_type, op, right_type } => {
                push_str(&mut out, "Invalid binary operation: ");
                push_dtype_debug(&mut out, left_type);
                push_str(&mut out, " ");
                push_op_name(&mut out, *op);
                push_str(&mut out, " ");
                push_dtype_debug(&mut out, right_type);
            },
            SemanticErrorType::SchemaVersionMismatch { rig_version, schema_version } => {
                push_all(&mut out, &["Schema version mismatch: rig expects '", rig_version.as_str(), "', schema has "]);
                push_decimal(&mut out, *schema_version as u128);
            },
            SemanticErrorType::SchemaTypeMismatch { rig_type, schema_type } => {
                push_all(
                    &mut out,
                    &["Schema type mismatch: rig has '", rig_type.as_str(), "', schema expects '", schema_type.as_str(), "'"],
                );
            },
            SemanticErrorType::InvalidInterpolationVariable { variable_name, context } => {
                push_all(&mut out, &["Invalid interpolation variable '", variable_name.as_str(), "' in ", context.as_str()]);
            },
            SemanticErrorType::EmptyCommand { command_name } => {
                push_all(&mut out, &["Command '", command_name.as_str(), "' is empty"]);
            },
            SemanticErrorType::InvalidEnumVariantValue { enum_name, variant_name, value } => {
                push_str(&mut out, "Invalid value '");
                push_decimal(&mut out, *value as u128);
                push_all(
                    &mut out,
                    &["' for enum variant '", variant_name.as_str(), "' in enum '", enum_name.as_str(), "'"],
                );
            },
            SemanticErrorType::DivisionByZero { context } => {
                push_all(&mut out, &["Division by zero in ", context.as_str()]);
            },
            SemanticErrorType::InvalidDataFormat { format, context } => {
                push_all(&mut out, &["Invalid data format '", format.as_str(), "' in ", context.as_str()]);
            },
        }
        proof {
            reveal_with_fuel(concat_strs, 6);
        }
        assert(out@ =~= error_message(err_view(*self)));
        string_from_chars(out.as_slice())
    }
}


impl SemanticAnalyzer {
    /// The checks of `analyze`; the format checks of interpolated strings
    /// add nothing to them.
    pub fn analyze_with_advanced_checks(&self, rig_file: &RigFile) -> (r: Result<(), Vec<SemanticError>>)
        ensures
            s_analyze(self.schema_file(), *rig_file).len() == 0 ==> r is Ok,
            s_analyze(self.schema_file(), *rig_file).len() > 0 ==> (r matches Err(v) && errs_view(v@)
                == s_analyze(self.schema_file(), *rig_file)),
            r matches Err(v) ==> unplaced(v@),
    {
        let mut errors: Vec<SemanticError> = Vec::new();
        if let Err(basic) = self.analyze(rig_file) {
            errors = basic;
        }
        if errors.len() == 0 {
            Ok(())
        } else {
            Err(errors)
        }
    }
}

/// `p` reports the semantic problem `e` found in `source`.
pub open spec fn reports_semantic(e: SemanticError, source: Seq<char>, p: ParseError) -> bool {
    &&& p.position == (match e.position {
        Some(q) => q,
        None => SourcePosition { line: 1, column: 1, offset: 0 },
    })
    &&& match *p.error_type {
        ParseErrorType::Semantic { message, suggestion, context } => message@ == error_message(err_view(e))
            && suggestion is None && context@ == "Semantic analysis"@,
        _ => false,
    }
    &&& p.source@ == source
    &&& p.level == ErrorLevel::Normal
}

/// Each semantic problem as a parse error in `source`, in the same order;
/// one without a position is placed at the start of the text.
pub fn semantic_errors_to_parse_errors(errors: Vec<SemanticError>, source: &str) -> (r: Vec<ParseError>)
    ensures
        r.len() == errors.len(),
        forall|i: int| 0 <= i < r.len() ==> reports_semantic(#[trigger] errors@[i], source@, r@[i]),
{
    let mut r: Vec<ParseError> = Vec::new();
    let mut i: usize = 0;
    while i < errors.len()
        invariant
            i <= errors.len(),
            r.len() == i,
            forall|j: int| 0 <= j < i ==> reports_semantic(#[trigger] errors@[j], source@, r@[j]),
        decreases errors.len() - i,
    {
        let e = &errors[i];
        let position = match e.position {
            Some(q) => q,
            None => SourcePosition::new(1, 1, 0),
        };
        let message = e.message();
        r.push(ParseError {
            position,
            error_type: Box::new(ParseErrorType::Semantic {
                message,
                suggestion: None,
                context: "Semantic analysis".to_owned(),
            }),
            source: source.to_owned(),
            level: ErrorLevel::Normal,
        });
        i = i + 1;
    }
    r
}

/// What `parse_schema` may give for `source`.
pub open spec fn schema_parsed(source: Seq<char>, r: Result<SchemaFile, ParseError>) -> bool {
    match lex_from(source, 0) {
        Err(p) => r matches Err(e) && tokenize_error_is(source, p, e) && e.level == ErrorLevel::Normal,
        Ok(_) => schema_outcome(source_tokens(source), source, ErrorLevel::Normal, r),
    }
}

/// What `parse_rig_file` may give for `source`.
pub open spec fn rig_parsed(source: Seq<char>, r: Result<RigFile, ParseError>) -> bool {
    match lex_from(source, 0) {
        Err(p) => r matches Err(e) && tokenize_error_is(source, p, e) && e.level == ErrorLevel::Normal,
        Ok(_) => rig_outcome(source_tokens(source), source, ErrorLevel::Normal, r),
    }
}

/// Parse a schema and a rig file and check the rig file against the schema.
/// The first parse error stops the work and is the only one reported; else
/// the rig file comes back if the analysis finds nothing, and every problem
/// it finds otherwise, as parse errors in the rig source.
pub fn parse_and_validate_with_schema(rig_source: &str, schema_source: &str) -> (r: Result<
    RigFile,
    Vec<ParseError>,
>)
    ensures
        exists|rs: Result<SchemaFile, ParseError>| #[trigger] schema_parsed(schema_source@, rs) && match rs {
            Err(e) => r matches Err(es) && es@ == seq![e],
            Ok(schema) => exists|rr: Result<RigFile, ParseError>| #[trigger] rig_parsed(rig_source@, rr) && match rr {
                Err(e) => r matches Err(es) && es@ == seq![e],
                Ok(rf) => if s_analyze(schema, rf).len() == 0 {
                    r == Ok::<RigFile, Vec<ParseError>>(rf)
                } else {
                    r matches Err(es) && exists|v: Seq<SemanticError>| errs_view(v) == s_analyze(schema, rf)
                        && unplaced(v) && es.len() == v.len() && forall|i: int| 0 <= i < v.len() ==> reports_semantic(
                        #[trigger] v[i], rig_source@, es[i])
                },
            },
        },
{
    let rs = parse_schema(schema_source);
    assert(schema_parsed(schema_source@, rs));
    let schema = match rs {
        Err(e) => {
            let r = Err(vec![e]);
            return r;
        },
        Ok(schema) => schema,
    };
    let rr = parse_rig_file(rig_source);
    assert(rig_parsed(rig_source@, rr));
    let rig_file = match rr {
        Err(e) => {
            return Err(vec![e]);
        },
        Ok(rf) => rf,
    };
    let analyzer = SemanticAnalyzer::new(schema);
    match analyzer.analyze(&rig_file) {
        Ok(()) => Ok(rig_file),
        Err(v) => {
            let ghost vs = v@;
            let es = semantic_errors_to_parse_errors(v, rig_source);
            assert(errs_view(vs) == s_analyze(analyzer.schema_file(), rig_file));
            Err(es)
        },
    }
}

} // verus!
