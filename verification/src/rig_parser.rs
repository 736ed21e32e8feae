//! Rig files: settings, then an `impl Schema for Rig { ... }` block with
//! enums, an init block, commands and a status block, written in a small
//! language of statements and expressions.
//!
//! ```text
//! version = 1;
//! impl Transceiver for IC7300 {
//!     enum Vfo { A = 0, B = 1 }
//!     init { write("FEFE94E0.1A050071.00.FD"); }
//!     fn set_freq(int freq, Vfo target) {
//!         write("FEFE94E0.25{target:int_lu:1}{freq:bcd_lu:5}FD");
//!         read("FEFE E094 FBFD");
//!     }
//! }
//! ```
use vstd::prelude::*;

use crate::grammar::{
    at_kind, fail_at, failure_at, fv, merge, merge_failures, no_fail, no_failure, p_ident, p_tok, s_ident,
    s_tok, syntax_error, syntax_error_is, token_views, lemma_token_views, source_tokens, Expect, Failure, TokenSeq,
};
use crate::interpolation::{bytes_literal, BytesValue, PartView, part_view};
use crate::lexer::{
    has_layout, lex_from, text_of, token_kind, token_text, tokenize, tokenize_error_is, TokenKind,
    TokenWithPosition,
};
use crate::name_map::{entries_view, insert_view, lemma_insert_view, NameMap};
use crate::parser::{
    dtype_view, BinaryOp, Command, DataType, DataTypeView, Enum, Expr, Id, Impl, Init, InterpolationPart,
    Member, Parameter, RigFile, Settings, Statement, Status,
};
use crate::parser_errors::{ErrorLevel, ParseError, ParseErrorType, SourcePosition};

verus! {

// ---------------------------------------------------------------------------
// Views of the syntax tree
// ---------------------------------------------------------------------------

/// An expression with its names as characters.
pub enum ExprView {
    Integer(int),
    Float(Seq<char>),
    Str(Seq<char>),
    Bytes(Seq<u8>),
    Ident(Seq<char>),
    Qualified(Seq<char>, Seq<char>),
    Binary(Box<ExprView>, BinaryOp, Box<ExprView>),
    Interp(Seq<PartView>),
}

pub open spec fn expr_view(e: Expr) -> ExprView
    decreases e,
{
    match e {
        Expr::Integer(i) => ExprView::Integer(i as int),
        Expr::Float(t) => ExprView::Float(t@),
        Expr::String(s) => ExprView::Str(s@),
        Expr::Bytes(b) => ExprView::Bytes(b@),
        Expr::Identifier(id) => ExprView::Ident(id.0@),
        Expr::QualifiedIdentifier(a, b) => ExprView::Qualified(a.0@, b.0@),
        Expr::BinaryOp { left, op, right } => ExprView::Binary(
            Box::new(expr_view(*left)),
            op,
            Box::new(expr_view(*right)),
        ),
        Expr::StringInterpolation { parts } => ExprView::Interp(parts@.map_values(|p: InterpolationPart| part_view(p))),
    }
}

pub open spec fn exprs_view(es: Seq<Expr>) -> Seq<ExprView> {
    es.map_values(|e: Expr| expr_view(e))
}

/// A statement with its names as characters.
pub enum StmtView {
    Assign(Seq<char>, ExprView),
    Call(Seq<char>, Seq<ExprView>),
    If(ExprView, Seq<StmtView>, Option<Seq<StmtView>>),
}

pub open spec fn stmt_view(s: Statement) -> StmtView
    decreases s,
{
    match s {
        Statement::Assign(id, e) => StmtView::Assign(id.0@, expr_view(e)),
        Statement::FunctionCall { name, args } => StmtView::Call(name@, exprs_view(args@)),
        Statement::If { condition, then_body, else_body } => StmtView::If(
            expr_view(condition),
            stmts_view(then_body@),
            match else_body {
                Some(b) => Some(stmts_view(b@)),
                None => None,
            },
        ),
    }
}

pub open spec fn stmts_view(ss: Seq<Statement>) -> Seq<StmtView>
    decreases ss,
{
    if ss.len() == 0 {
        Seq::empty()
    } else {
        stmts_view(ss.subrange(0, ss.len() - 1)).push(stmt_view(ss[ss.len() - 1]))
    }
}

pub open spec fn param_view(p: Parameter) -> (DataTypeView, Seq<char>) {
    (dtype_view(p.param_type), p.name@)
}

pub open spec fn params_view(ps: Seq<Parameter>) -> Seq<(DataTypeView, Seq<char>)> {
    ps.map_values(|p: Parameter| param_view(p))
}

pub open spec fn u32_fn() -> spec_fn(u32) -> u32 {
    |v: u32| v
}

/// An enum: its name and its variants sorted by name.
pub open spec fn enum_view(e: Enum) -> (Seq<char>, Seq<(Seq<char>, u32)>) {
    (e.name@, entries_view(e.variants.entries@, u32_fn()))
}

/// A declaration inside the `impl` block.
pub enum MemberView {
    Enum(Seq<char>, Seq<(Seq<char>, u32)>),
    Init(Seq<StmtView>),
    Command(Seq<char>, Seq<(DataTypeView, Seq<char>)>, Seq<StmtView>),
    Status(Seq<StmtView>),
}

/// A command's parameters and statements.
pub open spec fn command_view(c: Command) -> (Seq<(DataTypeView, Seq<char>)>, Seq<StmtView>) {
    (params_view(c.parameters@), stmts_view(c.statements@))
}

pub open spec fn command_fn() -> spec_fn(Command) -> (Seq<(DataTypeView, Seq<char>)>, Seq<StmtView>) {
    |c: Command| command_view(c)
}

pub open spec fn expr_fn() -> spec_fn(Expr) -> ExprView {
    |e: Expr| expr_view(e)
}

/// The `impl` block with its declarations gathered.
pub struct ImplView {
    pub schema: Seq<char>,
    pub name: Seq<char>,
    pub init: Option<Seq<StmtView>>,
    pub status: Option<Seq<StmtView>>,
    pub commands: Seq<(Seq<char>, (Seq<(DataTypeView, Seq<char>)>, Seq<StmtView>))>,
    pub enums: Seq<(Seq<char>, Seq<(Seq<char>, u32)>)>,
}

/// A rig file with its settings sorted by name.
pub struct RigFileView {
    pub settings: Seq<(Seq<char>, ExprView)>,
    pub impl_block: ImplView,
}

pub open spec fn rig_file_view(f: RigFile) -> RigFileView {
    RigFileView {
        settings: entries_view(f.settings.settings.entries@, expr_fn()),
        impl_block: ImplView {
            schema: f.impl_block.schema@,
            name: f.impl_block.name@,
            init: match f.impl_block.init {
                Some(i) => Some(stmts_view(i.statements@)),
                None => None,
            },
            status: match f.impl_block.status {
                Some(s) => Some(stmts_view(s.statements@)),
                None => None,
            },
            commands: entries_view(f.impl_block.commands.entries@, command_fn()),
            enums: f.impl_block.enums@.map_values(|e: Enum| enum_view(e)),
        },
    }
}

// ---------------------------------------------------------------------------
// The grammar: numbers and expressions
// ---------------------------------------------------------------------------

/// Value of decimal digits.
pub open spec fn dec_value(cs: Seq<char>) -> int
    decreases cs.len(),
{
    if cs.len() == 0 {
        0
    } else {
        10 * dec_value(cs.drop_last()) + (cs.last() as int - 48)
    }
}

pub open spec fn hex_digit(c: char) -> int {
    if '0' <= c <= '9' {
        c as int - 48
    } else if 'a' <= c <= 'f' {
        c as int - 87
    } else {
        c as int - 55
    }
}

/// Value of hexadecimal digits.
pub open spec fn hex_value(cs: Seq<char>) -> int
    decreases cs.len(),
{
    if cs.len() == 0 {
        0
    } else {
        16 * hex_value(cs.drop_last()) + hex_digit(cs.last())
    }
}

/// A decimal integer that fits in an `i64`.
pub open spec fn dec_i64(cs: Seq<char>) -> Option<int> {
    if cs.len() > 0 && (forall|i: int| 0 <= i < cs.len() ==> '0' <= #[trigger] cs[i] <= '9') && dec_value(cs)
        <= i64::MAX {
        Some(dec_value(cs))
    } else {
        None
    }
}

/// A `0x` hexadecimal integer that fits in a `u32`.
pub open spec fn hex_u32(cs: Seq<char>) -> Option<int> {
    if cs.len() > 2 && cs[0] == '0' && cs[1] == 'x' && (forall|i: int|
        2 <= i < cs.len() ==> crate::interpolation::is_hex(#[trigger] cs[i])) && hex_value(cs.skip(2)) <= u32::MAX {
        Some(hex_value(cs.skip(2)))
    } else {
        None
    }
}

/// A decimal integer token (which must fit in an `i64`) or a `0x` hexadecimal
/// one (which must fit in a `u32`).
pub open spec fn s_integer(t: TokenSeq, pos: int) -> (Option<(int, int)>, (int, Seq<Expect>)) {
    if at_kind(t, pos, TokenKind::Integer) {
        match dec_i64(t[pos].1) {
            Some(v) => (Some((v, pos + 1)), no_fail()),
            None => (None, merge(fail_at(pos + 1, Expect::InvalidInteger), fail_at(pos, Expect::HexNumber))),
        }
    } else if at_kind(t, pos, TokenKind::HexNumber) {
        match hex_u32(t[pos].1) {
            Some(v) => (Some((v, pos + 1)), fail_at(pos, Expect::Integer)),
            None => (None, merge(fail_at(pos, Expect::Integer), fail_at(pos + 1, Expect::InvalidHex))),
        }
    } else {
        (None, (pos, seq![Expect::Integer, Expect::HexNumber]))
    }
}

/// The content of a `"..."` or `s"..."` token: without its quotes.
pub open spec fn quoted_content(text: Seq<char>, lead: int) -> Seq<char> {
    if text.len() < lead + 2 {
        Seq::empty()
    } else {
        text.subrange(lead + 1, text.len() - 1)
    }
}

/// A literal or a name: a number, a fraction, a byte string, a text string,
/// `Enum::Variant` or a variable, tried in that order.
#[verifier::opaque]
pub open spec fn s_atomic(t: TokenSeq, pos: int) -> (Option<(ExprView, int)>, (int, Seq<Expect>)) {
    let (ri, fi) = s_integer(t, pos);
    match ri {
        Some((v, p)) => (Some((ExprView::Integer(v), p)), fi),
        None => {
            let f1 = merge(fi, if at_kind(t, pos, TokenKind::Float) {
                no_fail()
            } else {
                fail_at(pos, Expect::Float)
            });
            if at_kind(t, pos, TokenKind::Float) {
                (Some((ExprView::Float(t[pos].1), pos + 1)), f1)
            } else if at_kind(t, pos, TokenKind::Bytes) {
                match bytes_literal(quoted_content(t[pos].1, 0)) {
                    Ok(BytesValue::Bytes(b)) => (Some((ExprView::Bytes(b), pos + 1)), f1),
                    Ok(BytesValue::Interp(ps)) => (Some((ExprView::Interp(ps), pos + 1)), f1),
                    Ok(BytesValue::Text(s)) => (Some((ExprView::Str(s), pos + 1)), f1),
                    Err(x) => {
                        let f2 = merge(f1, fail_at(pos + 1, x));
                        let f3 = merge(f2, fail_at(pos, Expect::Str));
                        let f4 = merge(f3, fail_at(pos, Expect::Id));
                        (None, merge(f4, fail_at(pos, Expect::Id)))
                    },
                }
            } else {
                let f2 = merge(f1, fail_at(pos, Expect::Bytes));
                if at_kind(t, pos, TokenKind::Str) {
                    (Some((ExprView::Str(quoted_content(t[pos].1, 1)), pos + 1)), f2)
                } else {
                    let f3 = merge(f2, fail_at(pos, Expect::Str));
                    if at_kind(t, pos, TokenKind::Id) {
                        let scope = t[pos].1;
                        if at_kind(t, pos + 1, TokenKind::DoubleColon) {
                            if at_kind(t, pos + 2, TokenKind::Id) {
                                (Some((ExprView::Qualified(scope, t[pos + 2].1), pos + 3)), f3)
                            } else {
                                (Some((ExprView::Ident(scope), pos + 1)), merge(f3, fail_at(pos + 2, Expect::Id)))
                            }
                        } else {
                            (Some((ExprView::Ident(scope), pos + 1)), merge(f3, fail_at(pos + 1, Expect::DoubleColon)))
                        }
                    } else {
                        (None, merge(merge(f3, fail_at(pos, Expect::Id)), fail_at(pos, Expect::Id)))
                    }
                }
            }
        },
    }
}

/// The operators of a precedence level, from loosest (0) to tightest (4).
pub open spec fn level_ops(lvl: int) -> Seq<(Expect, BinaryOp)> {
    if lvl == 0 {
        seq![(Expect::Or, BinaryOp::Or), (Expect::And, BinaryOp::And)]
    } else if lvl == 1 {
        seq![(Expect::Equal, BinaryOp::Equal), (Expect::NotEqual, BinaryOp::NotEqual)]
    } else if lvl == 2 {
        seq![
            (Expect::Less, BinaryOp::Less),
            (Expect::LessEqual, BinaryOp::LessEqual),
            (Expect::Greater, BinaryOp::Greater),
            (Expect::GreaterEqual, BinaryOp::GreaterEqual),
        ]
    } else if lvl == 3 {
        seq![(Expect::Plus, BinaryOp::Add), (Expect::Minus, BinaryOp::Subtract)]
    } else {
        seq![
            (Expect::Multiply, BinaryOp::Multiply),
            (Expect::Divide, BinaryOp::Divide),
            (Expect::Modulo, BinaryOp::Modulo),
        ]
    }
}

/// The token that writes each binary operator.
pub open spec fn operator_token(op: BinaryOp) -> TokenKind {
    match op {
        BinaryOp::Or => TokenKind::Or,
        BinaryOp::And => TokenKind::And,
        BinaryOp::Equal => TokenKind::Equal,
        BinaryOp::NotEqual => TokenKind::NotEqual,
        BinaryOp::Less => TokenKind::Less,
        BinaryOp::LessEqual => TokenKind::LessEqual,
        BinaryOp::Greater => TokenKind::Greater,
        BinaryOp::GreaterEqual => TokenKind::GreaterEqual,
        BinaryOp::Add => TokenKind::Plus,
        BinaryOp::Subtract => TokenKind::Minus,
        BinaryOp::Multiply => TokenKind::Multiply,
        BinaryOp::Divide => TokenKind::Divide,
        BinaryOp::Modulo => TokenKind::Modulo,
    }
}

/// How tightly each binary operator binds, from `||` and `&&` (0) to
/// `*`, `/` and `%` (4).
pub open spec fn precedence(op: BinaryOp) -> int {
    match op {
        BinaryOp::Or | BinaryOp::And => 0,
        BinaryOp::Equal | BinaryOp::NotEqual => 1,
        BinaryOp::Less | BinaryOp::LessEqual | BinaryOp::Greater | BinaryOp::GreaterEqual => 2,
        BinaryOp::Add | BinaryOp::Subtract => 3,
        BinaryOp::Multiply | BinaryOp::Divide | BinaryOp::Modulo => 4,
    }
}

/// Reading an operator at a precedence level: the operator read is the one
/// the token at `pos` writes, and it belongs to that level; and every
/// operator of the level is read from its own token.
pub proof fn lemma_operator_read(t: TokenSeq, pos: int, lvl: int)
    requires
        0 <= lvl < 5,
    ensures
        s_op(t, pos, lvl).0 matches Some(op) ==> 0 <= pos < t.len() && t[pos].0 == operator_token(op)
            && precedence(op) == lvl,
        forall|op: BinaryOp|
            0 <= pos < t.len() && t[pos].0 == #[trigger] operator_token(op) && precedence(op) == lvl
                ==> s_op(t, pos, lvl).0 == Some(op),
{
    reveal_with_fuel(op_index, 5);
    let ops = level_ops(lvl);
    assert forall|op: BinaryOp|
        0 <= pos < t.len() && t[pos].0 == #[trigger] operator_token(op) && precedence(op) == lvl implies s_op(
        t,
        pos,
        lvl,
    ).0 == Some(op) by {
        reveal_with_fuel(op_index, 5);
    }
}

/// Index of the first operator of `ops` at `pos`, or `ops.len()`.
pub open spec fn op_index(t: TokenSeq, pos: int, ops: Seq<(Expect, BinaryOp)>) -> int
    decreases ops.len(),
{
    if ops.len() == 0 {
        0
    } else if at_kind(t, pos, crate::grammar::expect_kind(ops[0].0)) {
        0
    } else {
        1 + op_index(t, pos, ops.drop_first())
    }
}

/// The operator of a level at `pos`, if any, and the operators tried in vain before it.
pub open spec fn s_op(t: TokenSeq, pos: int, lvl: int) -> (Option<BinaryOp>, (int, Seq<Expect>)) {
    let ops = level_ops(lvl);
    let i = op_index(t, pos, ops);
    let tried = ops.take(i).map_values(|o: (Expect, BinaryOp)| o.0);
    let f = if i == 0 {
        no_fail()
    } else {
        (pos, tried)
    };
    if i < ops.len() {
        (Some(ops[i].1), f)
    } else {
        (None, f)
    }
}

/// An expression.
pub open spec fn s_expr(t: TokenSeq, pos: int) -> (Option<(ExprView, int)>, (int, Seq<Expect>))
    decreases t.len() - pos, 7int,
{
    s_level(t, pos, 0)
}

/// Operands joined by operators of level `lvl` or tighter (level 5: a primary).
pub open spec fn s_level(t: TokenSeq, pos: int, lvl: int) -> (Option<(ExprView, int)>, (int, Seq<Expect>))
    decreases t.len() - pos, if 0 <= lvl < 5 { 6 - lvl } else { 1int },
{
    if lvl < 0 || lvl >= 5 {
        s_primary(t, pos)
    } else {
        let (r1, f1) = s_level(t, pos, lvl + 1);
        match r1 {
            None => (None, f1),
            Some((lhs, p1)) => if p1 <= pos || p1 > t.len() {
                (None, f1)
            } else {
                let (r2, f2) = s_level_rest(t, p1, lvl, lhs);
                (r2, merge(f1, f2))
            },
        }
    }
}

/// Further `op operand` pairs of level `lvl` after `lhs`, grouping to the left.
pub open spec fn s_level_rest(t: TokenSeq, pos: int, lvl: int, lhs: ExprView) -> (Option<(ExprView, int)>, (int, Seq<Expect>))
    decreases t.len() - pos, if 0 <= lvl < 5 { 6 - lvl } else { 1int },
{
    if lvl < 0 || lvl >= 5 || pos < 0 || pos >= t.len() {
        let (_, fo) = s_op(t, pos, lvl);
        (Some((lhs, pos)), fo)
    } else {
        let (ro, fo) = s_op(t, pos, lvl);
        match ro {
            None => (Some((lhs, pos)), fo),
            Some(op) => {
                let (r2, f2) = s_level(t, pos + 1, lvl + 1);
                match r2 {
                    None => (Some((lhs, pos)), merge(fo, f2)),
                    Some((rhs, p2)) => if p2 <= pos || p2 > t.len() {
                        (Some((lhs, pos)), merge(fo, f2))
                    } else {
                        let (r3, f3) = s_level_rest(t, p2, lvl, ExprView::Binary(Box::new(lhs), op, Box::new(rhs)));
                        (r3, merge(merge(fo, f2), f3))
                    },
                }
            },
        }
    }
}

/// `( expr )` or a literal or name.
pub open spec fn s_primary(t: TokenSeq, pos: int) -> (Option<(ExprView, int)>, (int, Seq<Expect>))
    decreases t.len() - pos, 0int,
{
    if at_kind(t, pos, TokenKind::ParenOpen) {
        let (r1, f1) = s_expr(t, pos + 1);
        match r1 {
            Some((e, p1)) => if at_kind(t, p1, TokenKind::ParenClose) {
                (Some((e, p1 + 1)), f1)
            } else {
                let f2 = merge(f1, fail_at(p1, Expect::ParenClose));
                let (r3, f3) = s_atomic(t, pos);
                (r3, merge(f2, f3))
            },
            None => {
                let (r3, f3) = s_atomic(t, pos);
                (r3, merge(f1, f3))
            },
        }
    } else {
        let (r3, f3) = s_atomic(t, pos);
        (r3, merge(fail_at(pos, Expect::ParenOpen), f3))
    }
}


/// Further `, expr` items after a first one.
pub open spec fn s_exprs_more(t: TokenSeq, pos: int) -> ((Seq<ExprView>, int), (int, Seq<Expect>))
    decreases t.len() - pos,
{
    if at_kind(t, pos, TokenKind::Comma) {
        let (r, f) = s_expr(t, pos + 1);
        match r {
            None => ((Seq::empty(), pos), f),
            Some((e, p1)) => if p1 <= pos || p1 > t.len() {
                ((Seq::empty(), pos), f)
            } else {
                let ((rest, end), f2) = s_exprs_more(t, p1);
                ((seq![e] + rest, end), merge(f, f2))
            },
        }
    } else {
        ((Seq::empty(), pos), fail_at(pos, Expect::Comma))
    }
}

/// Expressions separated by commas (possibly none).
pub open spec fn s_exprs(t: TokenSeq, pos: int) -> ((Seq<ExprView>, int), (int, Seq<Expect>)) {
    let (r, f) = s_expr(t, pos);
    match r {
        None => ((Seq::empty(), pos), f),
        Some((e, p1)) => if p1 <= pos || p1 > t.len() {
            ((Seq::empty(), pos), f)
        } else {
            let ((rest, end), f2) = s_exprs_more(t, p1);
            ((seq![e] + rest, end), merge(f, f2))
        },
    }
}

/// An optional comma at `pos`: where the list then ends.
pub open spec fn s_opt_comma(t: TokenSeq, pos: int) -> (int, (int, Seq<Expect>)) {
    if at_kind(t, pos, TokenKind::Comma) {
        (pos + 1, no_fail())
    } else {
        (pos, fail_at(pos, Expect::Comma))
    }
}

/// `name(args);`
#[verifier::opaque]
pub open spec fn s_call(t: TokenSeq, pos: int) -> (Option<(StmtView, int)>, (int, Seq<Expect>)) {
    let (r1, f1) = s_ident(t, pos);
    match r1 {
        None => (None, f1),
        Some((name, p1)) => {
            let (r2, f2) = s_tok(t, p1, Expect::ParenOpen);
            match r2 {
                None => (None, merge(f1, f2)),
                Some(p2) => {
                    let ((args, p3), f3) = s_exprs(t, p2);
                    let (p4, f4) = s_opt_comma(t, p3);
                    let (r5, f5) = s_tok(t, p4, Expect::ParenClose);
                    let f = merge(merge(merge(merge(f1, f2), f3), f4), f5);
                    match r5 {
                        None => (None, f),
                        Some(p5) => {
                            let (r6, f6) = s_tok(t, p5, Expect::Semicolon);
                            match r6 {
                                None => (None, merge(f, f6)),
                                Some(p6) => (Some((StmtView::Call(name, args), p6)), merge(f, f6)),
                            }
                        },
                    }
                },
            }
        },
    }
}

/// `name = expr;`
#[verifier::opaque]
pub open spec fn s_assign(t: TokenSeq, pos: int) -> (Option<((Seq<char>, ExprView), int)>, (int, Seq<Expect>)) {
    let (r1, f1) = s_ident(t, pos);
    match r1 {
        None => (None, f1),
        Some((name, p1)) => {
            let (r2, f2) = s_tok(t, p1, Expect::EqualAssign);
            match r2 {
                None => (None, merge(f1, f2)),
                Some(p2) => {
                    let (r3, f3) = s_expr(t, p2);
                    match r3 {
                        None => (None, merge(merge(f1, f2), f3)),
                        Some((e, p3)) => {
                            let (r4, f4) = s_tok(t, p3, Expect::Semicolon);
                            let f = merge(merge(merge(f1, f2), f3), f4);
                            match r4 {
                                None => (None, f),
                                Some(p4) => (Some(((name, e), p4)), f),
                            }
                        },
                    }
                },
            }
        },
    }
}

/// A statement: `if`, a call, or an assignment, tried in that order.
pub open spec fn s_stmt(t: TokenSeq, pos: int) -> (Option<(StmtView, int)>, (int, Seq<Expect>))
    decreases t.len() - pos, 3int,
{
    let (r1, f1) = s_if(t, pos);
    match r1 {
        Some(x) => (Some(x), f1),
        None => {
            let (r2, f2) = s_call(t, pos);
            match r2 {
                Some(x) => (Some(x), merge(f1, f2)),
                None => {
                    let (r3, f3) = s_assign(t, pos);
                    match r3 {
                        Some(((n, e), p)) => (Some((StmtView::Assign(n, e), p)), merge(merge(f1, f2), f3)),
                        None => (None, merge(merge(f1, f2), f3)),
                    }
                },
            }
        },
    }
}

/// Statements, as many as there are.
pub open spec fn s_stmts(t: TokenSeq, pos: int) -> ((Seq<StmtView>, int), (int, Seq<Expect>))
    decreases t.len() - pos, 4int,
{
    let (r, f) = s_stmt(t, pos);
    match r {
        None => ((Seq::empty(), pos), f),
        Some((st, p1)) => if p1 <= pos || p1 > t.len() {
            ((Seq::empty(), pos), f)
        } else {
            let ((rest, e), f2) = s_stmts(t, p1);
            ((seq![st] + rest, e), merge(f, f2))
        },
    }
}

/// `{ statements }` at `pos`, where `pos` comes after a keyword at `start`.
pub open spec fn s_block(t: TokenSeq, pos: int, start: int) -> (Option<(Seq<StmtView>, int)>, (int, Seq<Expect>))
    decreases t.len() - start, 0int,
{
    if pos <= start || pos > t.len() {
        (None, no_fail())
    } else {
        let (r1, f1) = s_tok(t, pos, Expect::BraceOpen);
        match r1 {
            None => (None, f1),
            Some(p1) => {
                let ((ss, p2), f2) = s_stmts(t, p1);
                let (r3, f3) = s_tok(t, p2, Expect::BraceClose);
                let f = merge(merge(f1, f2), f3);
                match r3 {
                    None => (None, f),
                    Some(p3) => (Some((ss, p3)), f),
                }
            },
        }
    }
}

/// An optional `else` at `pos`, followed by another `if` or a block: its
/// statements and where the `if` statement then ends.
pub open spec fn s_else(t: TokenSeq, pos: int) -> (Option<Seq<StmtView>>, int, (int, Seq<Expect>))
    decreases t.len() - pos, 1int,
{
    let (r4, f4) = s_tok(t, pos, Expect::Else);
    match r4 {
        None => (None, pos, f4),
        Some(p4) => {
            let (r5, f5) = s_if(t, p4);
            match r5 {
                Some((nested, p5)) => (Some(seq![nested]), p5, merge(f4, f5)),
                None => {
                    let (r6, f6) = s_block(t, p4, pos);
                    let g = merge(merge(f4, f5), f6);
                    match r6 {
                        Some((els, p6)) => (Some(els), p6, g),
                        None => (None, pos, g),
                    }
                },
            }
        },
    }
}

/// `if expr { statements }`, then optionally `else` and another `if` or a block.
pub open spec fn s_if(t: TokenSeq, pos: int) -> (Option<(StmtView, int)>, (int, Seq<Expect>))
    decreases t.len() - pos, 2int,
{
    let (r1, f1) = s_tok(t, pos, Expect::If);
    match r1 {
        None => (None, f1),
        Some(p1) => {
            let (r2, f2) = s_expr(t, p1);
            match r2 {
                None => (None, merge(f1, f2)),
                Some((cond, p2)) => if p2 <= pos || p2 > t.len() {
                    (None, merge(f1, f2))
                } else {
                    let (r3, f3) = s_block(t, p2, pos);
                    let f = merge(merge(f1, f2), f3);
                    match r3 {
                        None => (None, f),
                        Some((body, p3)) => if p3 <= pos || p3 > t.len() {
                            (None, f)
                        } else {
                            let (els, end, f4) = s_else(t, p3);
                            (Some((StmtView::If(cond, body, els), end)), merge(f, f4))
                        },
                    }
                },
            }
        },
    }
}

// ---------------------------------------------------------------------------
// The grammar: declarations and the file
// ---------------------------------------------------------------------------

/// `Name = integer`, the integer kept to its low 32 bits.
#[verifier::opaque]
pub open spec fn s_variant(t: TokenSeq, pos: int) -> (Option<((Seq<char>, u32), int)>, (int, Seq<Expect>)) {
    let (r1, f1) = s_ident(t, pos);
    match r1 {
        None => (None, f1),
        Some((name, p1)) => {
            let (r2, f2) = s_tok(t, p1, Expect::EqualAssign);
            match r2 {
                None => (None, merge(f1, f2)),
                Some(p2) => {
                    let (r3, f3) = s_integer(t, p2);
                    let f = merge(merge(f1, f2), f3);
                    match r3 {
                        None => (None, f),
                        Some((v, p3)) => (Some(((name, v as u32), p3)), f),
                    }
                },
            }
        },
    }
}

/// Further `, variant` items.
pub open spec fn s_variants_more(t: TokenSeq, pos: int) -> ((Seq<(Seq<char>, u32)>, int), (int, Seq<Expect>))
    decreases t.len() - pos,
{
    if at_kind(t, pos, TokenKind::Comma) {
        let (r, f) = s_variant(t, pos + 1);
        match r {
            None => ((Seq::empty(), pos), f),
            Some((v, p1)) => if p1 <= pos || p1 > t.len() {
                ((Seq::empty(), pos), f)
            } else {
                let ((rest, end), f2) = s_variants_more(t, p1);
                ((seq![v] + rest, end), merge(f, f2))
            },
        }
    } else {
        ((Seq::empty(), pos), fail_at(pos, Expect::Comma))
    }
}

/// Variants separated by commas (possibly none).
pub open spec fn s_variants(t: TokenSeq, pos: int) -> ((Seq<(Seq<char>, u32)>, int), (int, Seq<Expect>)) {
    let (r, f) = s_variant(t, pos);
    match r {
        None => ((Seq::empty(), pos), f),
        Some((v, p1)) => if p1 <= pos || p1 > t.len() {
            ((Seq::empty(), pos), f)
        } else {
            let ((rest, end), f2) = s_variants_more(t, p1);
            ((seq![v] + rest, end), merge(f, f2))
        },
    }
}

/// Variants by name, a later one replacing an earlier one.
pub open spec fn variant_entries(vs: Seq<(Seq<char>, u32)>) -> Seq<(Seq<char>, u32)>
    decreases vs.len(),
{
    if vs.len() == 0 {
        Seq::empty()
    } else {
        insert_view(variant_entries(vs.drop_last()), vs.last().0, vs.last().1)
    }
}

/// `enum Name { variants ,? }`.
#[verifier::opaque]
pub open spec fn s_enum(t: TokenSeq, pos: int) -> (Option<(MemberView, int)>, (int, Seq<Expect>)) {
    let (r1, f1) = s_tok(t, pos, Expect::Enum);
    match r1 {
        None => (None, f1),
        Some(p1) => {
            let (r2, f2) = s_ident(t, p1);
            match r2 {
                None => (None, merge(f1, f2)),
                Some((name, p2)) => {
                    let (r3, f3) = s_tok(t, p2, Expect::BraceOpen);
                    let f = merge(merge(f1, f2), f3);
                    match r3 {
                        None => (None, f),
                        Some(p3) => {
                            let ((vs, p4), f4) = s_variants(t, p3);
                            let (p5, f5) = s_opt_comma(t, p4);
                            let (r6, f6) = s_tok(t, p5, Expect::BraceClose);
                            let g = merge(merge(merge(f, f4), f5), f6);
                            match r6 {
                                None => (None, g),
                                Some(p6) => (Some((MemberView::Enum(name, variant_entries(vs)), p6)), g),
                            }
                        },
                    }
                },
            }
        },
    }
}

/// `int`, `bool` or an enum name, then the parameter's name.
#[verifier::opaque]
pub open spec fn s_parameter(t: TokenSeq, pos: int) -> (Option<((DataTypeView, Seq<char>), int)>, (int, Seq<Expect>)) {
    let (ty, f1) = if at_kind(t, pos, TokenKind::Int) {
        (Some(DataTypeView::Int), no_fail())
    } else if at_kind(t, pos, TokenKind::Bool) {
        (Some(DataTypeView::Bool), fail_at(pos, Expect::Int))
    } else if at_kind(t, pos, TokenKind::Id) {
        (Some(DataTypeView::Enum(t[pos].1)), (pos, seq![Expect::Int, Expect::Bool]))
    } else {
        (None, (pos, seq![Expect::Int, Expect::Bool, Expect::Id]))
    };
    match ty {
        None => (None, f1),
        Some(d) => {
            let (r2, f2) = s_ident(t, pos + 1);
            match r2 {
                None => (None, merge(f1, f2)),
                Some((name, p2)) => (Some(((d, name), p2)), merge(f1, f2)),
            }
        },
    }
}

/// Further `, parameter` items.
pub open spec fn s_params_more(t: TokenSeq, pos: int) -> ((Seq<(DataTypeView, Seq<char>)>, int), (int, Seq<Expect>))
    decreases t.len() - pos,
{
    if at_kind(t, pos, TokenKind::Comma) {
        let (r, f) = s_parameter(t, pos + 1);
        match r {
            None => ((Seq::empty(), pos), f),
            Some((p, p1)) => if p1 <= pos || p1 > t.len() {
                ((Seq::empty(), pos), f)
            } else {
                let ((rest, end), f2) = s_params_more(t, p1);
                ((seq![p] + rest, end), merge(f, f2))
            },
        }
    } else {
        ((Seq::empty(), pos), fail_at(pos, Expect::Comma))
    }
}

/// Parameters separated by commas (possibly none).
pub open spec fn s_params(t: TokenSeq, pos: int) -> ((Seq<(DataTypeView, Seq<char>)>, int), (int, Seq<Expect>)) {
    let (r, f) = s_parameter(t, pos);
    match r {
        None => ((Seq::empty(), pos), f),
        Some((p, p1)) => if p1 <= pos || p1 > t.len() {
            ((Seq::empty(), pos), f)
        } else {
            let ((rest, end), f2) = s_params_more(t, p1);
            ((seq![p] + rest, end), merge(f, f2))
        },
    }
}

/// `fn name(parameters ,?) { statements }`.
#[verifier::opaque]
pub open spec fn s_command(t: TokenSeq, pos: int) -> (Option<(MemberView, int)>, (int, Seq<Expect>)) {
    let (r1, f1) = s_tok(t, pos, Expect::Fn);
    match r1 {
        None => (None, f1),
        Some(p1) => {
            let (r2, f2) = s_ident(t, p1);
            match r2 {
                None => (None, merge(f1, f2)),
                Some((name, p2)) => {
                    let (r3, f3) = s_tok(t, p2, Expect::ParenOpen);
                    let f = merge(merge(f1, f2), f3);
                    match r3 {
                        None => (None, f),
                        Some(p3) => {
                            let ((ps, p4), f4) = s_params(t, p3);
                            let (p5, f5) = s_opt_comma(t, p4);
                            let (r6, f6) = s_tok(t, p5, Expect::ParenClose);
                            let g = merge(merge(merge(f, f4), f5), f6);
                            match r6 {
                                None => (None, g),
                                Some(p6) => {
                                    let (r7, f7) = s_block(t, p6, pos);
                                    match r7 {
                                        None => (None, merge(g, f7)),
                                        Some((ss, p7)) => (Some((MemberView::Command(name, ps, ss), p7)), merge(g, f7)),
                                    }
                                },
                            }
                        },
                    }
                },
            }
        },
    }
}

/// `init { ... }` or `status { ... }`, as `e` says.
#[verifier::opaque]
pub open spec fn s_keyword_block(t: TokenSeq, pos: int, e: Expect) -> (Option<(Seq<StmtView>, int)>, (int, Seq<Expect>)) {
    let (r1, f1) = s_tok(t, pos, e);
    match r1 {
        None => (None, f1),
        Some(p1) => {
            let (r2, f2) = s_block(t, p1, pos);
            (r2, merge(f1, f2))
        },
    }
}

/// An init block, an enum, a command or a status block, tried in that order.
#[verifier::opaque]
pub open spec fn s_member(t: TokenSeq, pos: int) -> (Option<(MemberView, int)>, (int, Seq<Expect>)) {
    let (r1, f1) = s_keyword_block(t, pos, Expect::Init);
    match r1 {
        Some((ss, p)) => (Some((MemberView::Init(ss), p)), f1),
        None => {
            let (r2, f2) = s_enum(t, pos);
            match r2 {
                Some(x) => (Some(x), merge(f1, f2)),
                None => {
                    let (r3, f3) = s_command(t, pos);
                    match r3 {
                        Some(x) => (Some(x), merge(merge(f1, f2), f3)),
                        None => {
                            let (r4, f4) = s_keyword_block(t, pos, Expect::Status);
                            let f = merge(merge(merge(f1, f2), f3), f4);
                            match r4 {
                                Some((ss, p)) => (Some((MemberView::Status(ss), p)), f),
                                None => (None, f),
                            }
                        },
                    }
                },
            }
        },
    }
}

/// Declarations, as many as there are.
pub open spec fn s_members(t: TokenSeq, pos: int) -> ((Seq<MemberView>, int), (int, Seq<Expect>))
    decreases t.len() - pos,
{
    let (r, f) = s_member(t, pos);
    match r {
        None => ((Seq::empty(), pos), f),
        Some((m, p1)) => if p1 <= pos || p1 > t.len() {
            ((Seq::empty(), pos), f)
        } else {
            let ((rest, e), f2) = s_members(t, p1);
            ((seq![m] + rest, e), merge(f, f2))
        },
    }
}

/// The declarations gathered: the last init and status blocks, the commands
/// by name (a later one replacing an earlier one), and the enums in order.
pub open spec fn gather(ms: Seq<MemberView>) -> (
    Option<Seq<StmtView>>,
    Option<Seq<StmtView>>,
    Seq<(Seq<char>, (Seq<(DataTypeView, Seq<char>)>, Seq<StmtView>))>,
    Seq<(Seq<char>, Seq<(Seq<char>, u32)>)>,
)
    decreases ms.len(),
{
    if ms.len() == 0 {
        (None, None, Seq::empty(), Seq::empty())
    } else {
        let (i, s, c, e) = gather(ms.drop_last());
        match ms.last() {
            MemberView::Init(ss) => (Some(ss), s, c, e),
            MemberView::Status(ss) => (i, Some(ss), c, e),
            MemberView::Command(n, ps, ss) => (i, s, insert_view(c, n, (ps, ss)), e),
            MemberView::Enum(n, vs) => (i, s, c, e.push((n, vs))),
        }
    }
}

/// `impl Schema for Rig { declarations }`.
#[verifier::opaque]
pub open spec fn s_impl(t: TokenSeq, pos: int) -> (Option<(ImplView, int)>, (int, Seq<Expect>)) {
    let (r1, f1) = s_tok(t, pos, Expect::Impl);
    match r1 {
        None => (None, f1),
        Some(p1) => {
            let (r2, f2) = s_ident(t, p1);
            match r2 {
                None => (None, merge(f1, f2)),
                Some((schema, p2)) => {
                    let (r3, f3) = s_tok(t, p2, Expect::For);
                    let f = merge(merge(f1, f2), f3);
                    match r3 {
                        None => (None, f),
                        Some(p3) => {
                            let (r4, f4) = s_ident(t, p3);
                            match r4 {
                                None => (None, merge(f, f4)),
                                Some((name, p4)) => {
                                    let (r5, f5) = s_tok(t, p4, Expect::BraceOpen);
                                    let g = merge(merge(f, f4), f5);
                                    match r5 {
                                        None => (None, g),
                                        Some(p5) => {
                                            let ((ms, p6), f6) = s_members(t, p5);
                                            let (r7, f7) = s_tok(t, p6, Expect::BraceClose);
                                            let h = merge(merge(g, f6), f7);
                                            match r7 {
                                                None => (None, h),
                                                Some(p7) => {
                                                    let (init, status, commands, enums) = gather(ms);
                                                    (
                                                        Some((
                                                            ImplView { schema, name, init, status, commands, enums },
                                                            p7,
                                                        )),
                                                        h,
                                                    )
                                                },
                                            }
                                        },
                                    }
                                },
                            }
                        },
                    }
                },
            }
        },
    }
}

/// Settings, as many as there are.
pub open spec fn s_settings(t: TokenSeq, pos: int) -> ((Seq<(Seq<char>, ExprView)>, int), (int, Seq<Expect>))
    decreases t.len() - pos,
{
    let (r, f) = s_assign(t, pos);
    match r {
        None => ((Seq::empty(), pos), f),
        Some((a, p1)) => if p1 <= pos || p1 > t.len() {
            ((Seq::empty(), pos), f)
        } else {
            let ((rest, e), f2) = s_settings(t, p1);
            ((seq![a] + rest, e), merge(f, f2))
        },
    }
}

/// Settings by name, a later one replacing an earlier one.
pub open spec fn setting_entries(ss: Seq<(Seq<char>, ExprView)>) -> Seq<(Seq<char>, ExprView)>
    decreases ss.len(),
{
    if ss.len() == 0 {
        Seq::empty()
    } else {
        insert_view(setting_entries(ss.drop_last()), ss.last().0, ss.last().1)
    }
}

/// The rig file the tokens spell (all tokens must be used); or the furthest
/// position at which something else was expected, and what was.
pub open spec fn spec_rig_file(t: TokenSeq) -> Result<RigFileView, (int, Seq<Expect>)> {
    let ((ss, p1), f1) = s_settings(t, 0);
    let (r2, f2) = s_impl(t, p1);
    match r2 {
        None => Err(merge(f1, f2)),
        Some((imp, p2)) => if p2 == t.len() {
            Ok(RigFileView { settings: setting_entries(ss), impl_block: imp })
        } else {
            Err(merge(merge(f1, f2), fail_at(p2, Expect::End)))
        },
    }
}

/// What parsing the tokens `t` of `source` gives.
pub open spec fn rig_outcome(
    t: TokenSeq,
    source: Seq<char>,
    level: ErrorLevel,
    r: Result<RigFile, ParseError>,
) -> bool {
    match spec_rig_file(t) {
        Ok(v) => r matches Ok(f) && rig_file_view(f) == v && f.settings.settings.wf()
            && f.impl_block.commands.wf() && commands_named(f.impl_block.commands.entries@),
        Err(fail) => r matches Err(e) && syntax_error_is(
            t,
            fail.0,
            fail.1,
            source,
            level,
            "Failed to parse rig file structure"@,
            e,
        ),
    }
}

// ---------------------------------------------------------------------------
// Implementation: numbers and expressions
// ---------------------------------------------------------------------------

/// Statements seen one by one.
pub proof fn lemma_stmts_view(ss: Seq<Statement>)
    ensures
        stmts_view(ss) == ss.map_values(|s: Statement| stmt_view(s)),
    decreases ss.len(),
{
    if ss.len() > 0 {
        lemma_stmts_view(ss.subrange(0, ss.len() - 1));
        assert(ss.map_values(|s: Statement| stmt_view(s)) =~= ss.subrange(0, ss.len() - 1).map_values(
            |s: Statement| stmt_view(s),
        ).push(stmt_view(ss[ss.len() - 1])));
    }
}

fn dec_i64_of(cs: &Vec<char>) -> (r: Option<i64>)
    ensures
        match dec_i64(cs@) {
            Some(v) => r matches Some(x) && x as int == v,
            None => r is None,
        },
{
    if cs.len() == 0 {
        return None;
    }
    let mut value: u128 = 0;
    let mut big = false;
    let mut i: usize = 0;
    assert(cs@.take(0) =~= Seq::<char>::empty());
    while i < cs.len()
        invariant
            i <= cs@.len(),
            forall|k: int| 0 <= k < i ==> '0' <= #[trigger] cs@[k] <= '9',
            dec_value(cs@.take(i as int)) >= 0,
            !big ==> value == dec_value(cs@.take(i as int)) && value <= i64::MAX,
            big ==> dec_value(cs@.take(i as int)) > i64::MAX,
        decreases cs@.len() - i,
    {
        let c = cs[i];
        if !('0' <= c && c <= '9') {
            assert(!('0' <= cs@[i as int] <= '9'));
            return None;
        }
        assert(cs@.take(i + 1).drop_last() =~= cs@.take(i as int));
        let d = (c as u32 - 48) as u128;
        if !big {
            value = value * 10 + d;
            if value > 0x7fff_ffff_ffff_ffff {
                big = true;
            }
        }
        i = i + 1;
    }
    assert(cs@.take(i as int) =~= cs@);
    if big {
        None
    } else {
        Some(value as i64)
    }
}

fn hex_u32_of(cs: &Vec<char>) -> (r: Option<i64>)
    ensures
        match hex_u32(cs@) {
            Some(v) => r matches Some(x) && x as int == v,
            None => r is None,
        },
{
    let len = cs.len();
    if len <= 2 || cs[0] != '0' || cs[1] != 'x' {
        return None;
    }
    let mut value: u128 = 0;
    let mut big = false;
    let mut i: usize = 2;
    let ghost h = cs@.skip(2);
    assert(h.take(0) =~= Seq::<char>::empty());
    while i < len
        invariant
            len == cs@.len(),
            2 <= i <= len,
            h == cs@.skip(2),
            forall|k: int| 2 <= k < i ==> crate::interpolation::is_hex(#[trigger] cs@[k]),
            hex_value(h.take(i - 2)) >= 0,
            !big ==> value == hex_value(h.take(i - 2)) && value <= u32::MAX,
            big ==> hex_value(h.take(i - 2)) > u32::MAX,
        decreases len - i,
    {
        let c = cs[i];
        let is_hex = ('0' <= c && c <= '9') || ('a' <= c && c <= 'f') || ('A' <= c && c <= 'F');
        if !is_hex {
            assert(!crate::interpolation::is_hex(cs@[i as int]));
            return None;
        }
        assert(h.take(i - 1).drop_last() =~= h.take(i - 2));
        assert(h.take(i - 1).last() == c);
        let v = c as u32;
        let d: u128 = if '0' <= c && c <= '9' {
            (v - 48) as u128
        } else if 'a' <= c && c <= 'f' {
            (v - 87) as u128
        } else {
            (v - 55) as u128
        };
        if !big {
            value = value * 16 + d;
            if value > 0xffff_ffff {
                big = true;
            }
        }
        i = i + 1;
    }
    assert(h.take(len - 2) =~= h);
    if big {
        None
    } else {
        Some(value as i64)
    }
}

fn kind_at(t: &Vec<TokenWithPosition>, pos: usize, k: TokenKind) -> (r: bool)
    ensures
        r == at_kind(token_views(t@), pos as int, k),
        r ==> pos < usize::MAX,
{
    pos < t.len() && token_kind(&t[pos].token) == k
}

fn text_at(t: &Vec<TokenWithPosition>, pos: usize) -> (r: Vec<char>)
    requires
        pos < t@.len(),
    ensures
        r@ == text_of(t@[pos as int].token),
{
    let s = token_text(&t[pos].token);
    crate::text::chars_of(s.as_str())
}

fn p_integer(t: &Vec<TokenWithPosition>, pos: usize) -> (r: (Option<(i64, usize)>, Failure))
    ensures
        fv(r.1) == s_integer(token_views(t@), pos as int).1,
        match (r.0, s_integer(token_views(t@), pos as int).0) {
            (Some((x, p)), Some((y, q))) => x == y && p == q && p <= t@.len(),
            (None, None) => true,
            _ => false,
        },
{
    if kind_at(t, pos, TokenKind::Integer) {
        match dec_i64_of(&text_at(t, pos)) {
            Some(v) => (Some((v, pos + 1)), no_failure()),
            None => (None, merge_failures(failure_at(pos + 1, Expect::InvalidInteger), failure_at(pos, Expect::HexNumber))),
        }
    } else if kind_at(t, pos, TokenKind::HexNumber) {
        match hex_u32_of(&text_at(t, pos)) {
            Some(v) => (Some((v, pos + 1)), failure_at(pos, Expect::Integer)),
            None => (None, merge_failures(failure_at(pos, Expect::Integer), failure_at(pos + 1, Expect::InvalidHex))),
        }
    } else {
        let f = Failure { at: pos as i128, expected: vec![Expect::Integer, Expect::HexNumber] };
        assert(f.expected@ =~= seq![Expect::Integer, Expect::HexNumber]);
        (None, f)
    }
}

fn content_of(text: &Vec<char>, lead: usize) -> (r: Vec<char>)
    requires
        lead <= 1,
    ensures
        r@ == quoted_content(text@, lead as int),
{
    let len = text.len();
    let mut out: Vec<char> = Vec::new();
    if len < lead + 2 {
        assert(out@ =~= Seq::<char>::empty());
        return out;
    }
    let mut i = lead + 1;
    while i < len - 1
        invariant
            len == text@.len(),
            lead + 1 <= i <= len - 1,
            out@ == text@.subrange(lead + 1, i as int),
        decreases len - 1 - i,
    {
        out.push(text[i]);
        assert(out@ =~= text@.subrange(lead + 1, i + 1));
        i = i + 1;
    }
    out
}

fn p_atomic(t: &Vec<TokenWithPosition>, pos: usize) -> (r: (Option<(Expr, usize)>, Failure))
    ensures
        fv(r.1) == s_atomic(token_views(t@), pos as int).1,
        match (r.0, s_atomic(token_views(t@), pos as int).0) {
            (Some((x, p)), Some((y, q))) => expr_view(x) == y && p == q && p <= t@.len(),
            (None, None) => true,
            _ => false,
        },
{
    proof {
        reveal(s_atomic);
    }
    let (ri, fi) = p_integer(t, pos);
    match ri {
        Some((v, p)) => (Some((Expr::Integer(v), p)), fi),
        None => {
            let is_float = kind_at(t, pos, TokenKind::Float);
            let f1 = merge_failures(fi, if is_float {
                no_failure()
            } else {
                failure_at(pos, Expect::Float)
            });
            if is_float {
                (Some((Expr::Float(token_text(&t[pos].token)), pos + 1)), f1)
            } else if kind_at(t, pos, TokenKind::Bytes) {
                let content = content_of(&text_at(t, pos), 0);
                match crate::interpolation::parse_bytes_literal(&content) {
                    Ok(crate::interpolation::BytesLit::Bytes(b)) => (Some((Expr::Bytes(b), pos + 1)), f1),
                    Ok(crate::interpolation::BytesLit::Interp(parts)) => (
                        Some((Expr::StringInterpolation { parts }, pos + 1)),
                        f1,
                    ),
                    Ok(crate::interpolation::BytesLit::Text(text)) => (
                        Some((Expr::String(crate::text::string_from_chars(text.as_slice())), pos + 1)),
                        f1,
                    ),
                    Err(x) => {
                        let f2 = merge_failures(f1, failure_at(pos + 1, x));
                        let f3 = merge_failures(f2, failure_at(pos, Expect::Str));
                        let f4 = merge_failures(f3, failure_at(pos, Expect::Id));
                        (None, merge_failures(f4, failure_at(pos, Expect::Id)))
                    },
                }
            } else {
                let f2 = merge_failures(f1, failure_at(pos, Expect::Bytes));
                if kind_at(t, pos, TokenKind::Str) {
                    let content = content_of(&text_at(t, pos), 1);
                    (Some((Expr::String(crate::text::string_from_chars(content.as_slice())), pos + 1)), f2)
                } else {
                    let f3 = merge_failures(f2, failure_at(pos, Expect::Str));
                    if kind_at(t, pos, TokenKind::Id) {
                        let scope = token_text(&t[pos].token);
                        if kind_at(t, pos + 1, TokenKind::DoubleColon) {
                            if kind_at(t, pos + 2, TokenKind::Id) {
                                let id = token_text(&t[pos + 2].token);
                                (Some((Expr::QualifiedIdentifier(Id(scope), Id(id)), pos + 3)), f3)
                            } else {
                                (Some((Expr::Identifier(Id(scope)), pos + 1)), merge_failures(f3, failure_at(pos + 2, Expect::Id)))
                            }
                        } else {
                            (
                                Some((Expr::Identifier(Id(scope)), pos + 1)),
                                merge_failures(f3, failure_at(pos + 1, Expect::DoubleColon)),
                            )
                        }
                    } else {
                        (None, merge_failures(merge_failures(f3, failure_at(pos, Expect::Id)), failure_at(pos, Expect::Id)))
                    }
                }
            }
        },
    }
}

fn level_ops_of(lvl: usize) -> (r: Vec<(Expect, BinaryOp)>)
    ensures
        r@ == level_ops(lvl as int),
{
    let r = if lvl == 0 {
        vec![(Expect::Or, BinaryOp::Or), (Expect::And, BinaryOp::And)]
    } else if lvl == 1 {
        vec![(Expect::Equal, BinaryOp::Equal), (Expect::NotEqual, BinaryOp::NotEqual)]
    } else if lvl == 2 {
        vec![
            (Expect::Less, BinaryOp::Less),
            (Expect::LessEqual, BinaryOp::LessEqual),
            (Expect::Greater, BinaryOp::Greater),
            (Expect::GreaterEqual, BinaryOp::GreaterEqual),
        ]
    } else if lvl == 3 {
        vec![(Expect::Plus, BinaryOp::Add), (Expect::Minus, BinaryOp::Subtract)]
    } else {
        vec![
            (Expect::Multiply, BinaryOp::Multiply),
            (Expect::Divide, BinaryOp::Divide),
            (Expect::Modulo, BinaryOp::Modulo),
        ]
    };
    assert(r@ =~= level_ops(lvl as int));
    r
}

fn p_op(t: &Vec<TokenWithPosition>, pos: usize, lvl: usize) -> (r: (Option<BinaryOp>, Failure))
    ensures
        fv(r.1) == s_op(token_views(t@), pos as int, lvl as int).1,
        r.0 == s_op(token_views(t@), pos as int, lvl as int).0,
{
    let ops = level_ops_of(lvl);
    let ghost all = level_ops(lvl as int);
    let mut tried: Vec<Expect> = Vec::new();
    let mut i: usize = 0;
    assert(all.skip(0) =~= all);
    assert(all.take(0).map_values(|o: (Expect, BinaryOp)| o.0) =~= tried@);
    while i < ops.len()
        invariant
            ops@ == all,
            all == level_ops(lvl as int),
            i <= all.len(),
            op_index(token_views(t@), pos as int, all) == i + op_index(token_views(t@), pos as int, all.skip(i as int)),
            tried@ == all.take(i as int).map_values(|o: (Expect, BinaryOp)| o.0),
        decreases all.len() - i,
    {
        let (e, op) = ops[i];
        assert(all.skip(i as int)[0] == all[i as int]);
        assert(all.skip(i as int).len() > 0);
        if kind_at(t, pos, crate::grammar::expect_token_kind(e)) {
            assert(op_index(token_views(t@), pos as int, all.skip(i as int)) == 0);
            assert(op_index(token_views(t@), pos as int, all) == i);
            let f = if i == 0 {
                no_failure()
            } else {
                Failure { at: pos as i128, expected: tried }
            };
            return (Some(op), f);
        }
        assert(all.skip(i as int).drop_first() =~= all.skip(i + 1));
        assert(all.take(i + 1).map_values(|o: (Expect, BinaryOp)| o.0) =~= tried@.push(e));
        tried.push(e);
        i = i + 1;
    }
    assert(all.skip(i as int) =~= Seq::<(Expect, BinaryOp)>::empty());
    let f = if i == 0 {
        no_failure()
    } else {
        Failure { at: pos as i128, expected: tried }
    };
    (None, f)
}

spec fn expr_result(r: Option<(Expr, usize)>, s: Option<(ExprView, int)>, len: nat) -> bool {
    match (r, s) {
        (Some((x, p)), Some((y, q))) => expr_view(x) == y && p == q && p <= len,
        (None, None) => true,
        _ => false,
    }
}

fn p_expr(t: &Vec<TokenWithPosition>, pos: usize) -> (r: (Option<(Expr, usize)>, Failure))
    requires
        pos <= t@.len(),
    ensures
        fv(r.1) == s_expr(token_views(t@), pos as int).1,
        expr_result(r.0, s_expr(token_views(t@), pos as int).0, t@.len()),
    decreases t@.len() - pos, 7int,
{
    p_level(t, pos, 0)
}

fn p_level(t: &Vec<TokenWithPosition>, pos: usize, lvl: usize) -> (r: (Option<(Expr, usize)>, Failure))
    requires
        pos <= t@.len(),
        lvl <= 5,
    ensures
        fv(r.1) == s_level(token_views(t@), pos as int, lvl as int).1,
        expr_result(r.0, s_level(token_views(t@), pos as int, lvl as int).0, t@.len()),
    decreases t@.len() - pos, if 0 <= lvl < 5 { 6 - lvl } else { 1int },
{
    if lvl >= 5 {
        return p_primary(t, pos);
    }
    let (r1, f1) = p_level(t, pos, lvl + 1);
    match r1 {
        None => (None, f1),
        Some((lhs, p1)) => {
            if p1 <= pos {
                return (None, f1);
            }
            let (r2, f2) = p_level_rest(t, p1, lvl, lhs);
            (r2, merge_failures(f1, f2))
        },
    }
}

fn p_level_rest(t: &Vec<TokenWithPosition>, pos: usize, lvl: usize, lhs: Expr) -> (r: (Option<(Expr, usize)>, Failure))
    requires
        pos <= t@.len(),
        lvl < 5,
    ensures
        fv(r.1) == s_level_rest(token_views(t@), pos as int, lvl as int, expr_view(lhs)).1,
        expr_result(r.0, s_level_rest(token_views(t@), pos as int, lvl as int, expr_view(lhs)).0, t@.len()),
    decreases t@.len() - pos, if 0 <= lvl < 5 { 6 - lvl } else { 1int },
{
    let ghost lv = expr_view(lhs);
    let (ro, fo) = p_op(t, pos, lvl);
    if pos >= t.len() {
        return (Some((lhs, pos)), fo);
    }
    match ro {
        None => (Some((lhs, pos)), fo),
        Some(op) => {
            let (r2, f2) = p_level(t, pos + 1, lvl + 1);
            match r2 {
                None => (Some((lhs, pos)), merge_failures(fo, f2)),
                Some((rhs, p2)) => {
                    if p2 <= pos {
                        return (Some((lhs, pos)), merge_failures(fo, f2));
                    }
                    let e = Expr::BinaryOp { left: Box::new(lhs), op, right: Box::new(rhs) };
                    let (r3, f3) = p_level_rest(t, p2, lvl, e);
                    (r3, merge_failures(merge_failures(fo, f2), f3))
                },
            }
        },
    }
}

fn p_primary(t: &Vec<TokenWithPosition>, pos: usize) -> (r: (Option<(Expr, usize)>, Failure))
    requires
        pos <= t@.len(),
    ensures
        fv(r.1) == s_primary(token_views(t@), pos as int).1,
        expr_result(r.0, s_primary(token_views(t@), pos as int).0, t@.len()),
    decreases t@.len() - pos, 0int,
{
    if kind_at(t, pos, TokenKind::ParenOpen) {
        let (r1, f1) = p_expr(t, pos + 1);
        match r1 {
            Some((e, p1)) => {
                if kind_at(t, p1, TokenKind::ParenClose) {
                    (Some((e, p1 + 1)), f1)
                } else {
                    let f2 = merge_failures(f1, failure_at(p1, Expect::ParenClose));
                    let (r3, f3) = p_atomic(t, pos);
                    (r3, merge_failures(f2, f3))
                }
            },
            None => {
                let (r3, f3) = p_atomic(t, pos);
                (r3, merge_failures(f1, f3))
            },
        }
    } else {
        let (r3, f3) = p_atomic(t, pos);
        (r3, merge_failures(failure_at(pos, Expect::ParenOpen), f3))
    }
}

// ---------------------------------------------------------------------------
// Implementation: statements
// ---------------------------------------------------------------------------

spec fn sv(ss: Seq<Statement>) -> Seq<StmtView> {
    ss.map_values(|s: Statement| stmt_view(s))
}

fn p_exprs_more(t: &Vec<TokenWithPosition>, pos: usize) -> (r: ((Vec<Expr>, usize), Failure))
    requires
        pos <= t@.len(),
    ensures
        fv(r.1) == s_exprs_more(token_views(t@), pos as int).1,
        exprs_view(r.0.0@) == s_exprs_more(token_views(t@), pos as int).0.0,
        r.0.1 == s_exprs_more(token_views(t@), pos as int).0.1,
        r.0.1 <= t@.len(),
    decreases t@.len() - pos,
{
    if kind_at(t, pos, TokenKind::Comma) {
        let (r, f) = p_expr(t, pos + 1);
        match r {
            None => {
                let none: Vec<Expr> = Vec::new();
                assert(exprs_view(none@) =~= Seq::empty());
                ((none, pos), f)
            },
            Some((e, p1)) => {
                if p1 <= pos {
                    let none: Vec<Expr> = Vec::new();
                    assert(exprs_view(none@) =~= Seq::empty());
                    return ((none, pos), f);
                }
                let ghost ev = expr_view(e);
                let ((mut rest, end), f2) = p_exprs_more(t, p1);
                let ghost rv = exprs_view(rest@);
                rest.insert(0, e);
                assert(exprs_view(rest@) =~= seq![ev] + rv);
                ((rest, end), merge_failures(f, f2))
            },
        }
    } else {
        let none: Vec<Expr> = Vec::new();
        assert(exprs_view(none@) =~= Seq::empty());
        ((none, pos), failure_at(pos, Expect::Comma))
    }
}

fn p_exprs(t: &Vec<TokenWithPosition>, pos: usize) -> (r: ((Vec<Expr>, usize), Failure))
    requires
        pos <= t@.len(),
    ensures
        fv(r.1) == s_exprs(token_views(t@), pos as int).1,
        exprs_view(r.0.0@) == s_exprs(token_views(t@), pos as int).0.0,
        r.0.1 == s_exprs(token_views(t@), pos as int).0.1,
        r.0.1 <= t@.len(),
{
    let (r, f) = p_expr(t, pos);
    match r {
        None => {
            let none: Vec<Expr> = Vec::new();
            assert(exprs_view(none@) =~= Seq::empty());
            ((none, pos), f)
        },
        Some((e, p1)) => {
            if p1 <= pos {
                let none: Vec<Expr> = Vec::new();
                assert(exprs_view(none@) =~= Seq::empty());
                return ((none, pos), f);
            }
            let ghost ev = expr_view(e);
            let ((mut rest, end), f2) = p_exprs_more(t, p1);
            let ghost rv = exprs_view(rest@);
            rest.insert(0, e);
            assert(exprs_view(rest@) =~= seq![ev] + rv);
            ((rest, end), merge_failures(f, f2))
        },
    }
}

fn p_opt_comma(t: &Vec<TokenWithPosition>, pos: usize) -> (r: (usize, Failure))
    requires
        pos <= t@.len(),
    ensures
        r.0 == s_opt_comma(token_views(t@), pos as int).0,
        fv(r.1) == s_opt_comma(token_views(t@), pos as int).1,
        r.0 <= t@.len(),
{
    if kind_at(t, pos, TokenKind::Comma) {
        (pos + 1, no_failure())
    } else {
        (pos, failure_at(pos, Expect::Comma))
    }
}

spec fn stmt_result(r: Option<(Statement, usize)>, s: Option<(StmtView, int)>, len: nat) -> bool {
    match (r, s) {
        (Some((x, p)), Some((y, q))) => stmt_view(x) == y && p == q && p <= len,
        (None, None) => true,
        _ => false,
    }
}

fn p_call(t: &Vec<TokenWithPosition>, pos: usize) -> (r: (Option<(Statement, usize)>, Failure))
    requires
        pos <= t@.len(),
    ensures
        fv(r.1) == s_call(token_views(t@), pos as int).1,
        stmt_result(r.0, s_call(token_views(t@), pos as int).0, t@.len()),
{
    proof {
        reveal(s_call);
    }
    let (r1, f1) = p_ident(t, pos);
    match r1 {
        None => (None, f1),
        Some((name, p1)) => {
            let (r2, f2) = p_tok(t, p1, Expect::ParenOpen);
            match r2 {
                None => (None, merge_failures(f1, f2)),
                Some(p2) => {
                    let ((args, p3), f3) = p_exprs(t, p2);
                    let (p4, f4) = p_opt_comma(t, p3);
                    let (r5, f5) = p_tok(t, p4, Expect::ParenClose);
                    let f = merge_failures(merge_failures(merge_failures(merge_failures(f1, f2), f3), f4), f5);
                    match r5 {
                        None => (None, f),
                        Some(p5) => {
                            let (r6, f6) = p_tok(t, p5, Expect::Semicolon);
                            match r6 {
                                None => (None, merge_failures(f, f6)),
                                Some(p6) => (Some((Statement::FunctionCall { name, args }, p6)), merge_failures(f, f6)),
                            }
                        },
                    }
                },
            }
        },
    }
}

fn p_assign(t: &Vec<TokenWithPosition>, pos: usize) -> (r: (Option<((String, Expr), usize)>, Failure))
    requires
        pos <= t@.len(),
    ensures
        fv(r.1) == s_assign(token_views(t@), pos as int).1,
        match (r.0, s_assign(token_views(t@), pos as int).0) {
            (Some(((n, e), p)), Some(((m, v), q))) => n@ == m && expr_view(e) == v && p == q && p <= t@.len(),
            (None, None) => true,
            _ => false,
        },
{
    proof {
        reveal(s_assign);
    }
    let (r1, f1) = p_ident(t, pos);
    match r1 {
        None => (None, f1),
        Some((name, p1)) => {
            let (r2, f2) = p_tok(t, p1, Expect::EqualAssign);
            match r2 {
                None => (None, merge_failures(f1, f2)),
                Some(p2) => {
                    let (r3, f3) = p_expr(t, p2);
                    match r3 {
                        None => (None, merge_failures(merge_failures(f1, f2), f3)),
                        Some((e, p3)) => {
                            let (r4, f4) = p_tok(t, p3, Expect::Semicolon);
                            let f = merge_failures(merge_failures(merge_failures(f1, f2), f3), f4);
                            match r4 {
                                None => (None, f),
                                Some(p4) => (Some(((name, e), p4)), f),
                            }
                        },
                    }
                },
            }
        },
    }
}

fn p_stmt(t: &Vec<TokenWithPosition>, pos: usize) -> (r: (Option<(Statement, usize)>, Failure))
    requires
        pos <= t@.len(),
    ensures
        fv(r.1) == s_stmt(token_views(t@), pos as int).1,
        stmt_result(r.0, s_stmt(token_views(t@), pos as int).0, t@.len()),
    decreases t@.len() - pos, 3int,
{
    let (r1, f1) = p_if(t, pos);
    match r1 {
        Some(x) => (Some(x), f1),
        None => {
            let (r2, f2) = p_call(t, pos);
            match r2 {
                Some(x) => (Some(x), merge_failures(f1, f2)),
                None => {
                    let (r3, f3) = p_assign(t, pos);
                    let f = merge_failures(merge_failures(f1, f2), f3);
                    match r3 {
                        Some(((n, e), p)) => (Some((Statement::Assign(Id(n), e), p)), f),
                        None => (None, f),
                    }
                },
            }
        },
    }
}

fn p_stmts(t: &Vec<TokenWithPosition>, pos: usize) -> (r: ((Vec<Statement>, usize), Failure))
    requires
        pos <= t@.len(),
    ensures
        fv(r.1) == s_stmts(token_views(t@), pos as int).1,
        sv(r.0.0@) == s_stmts(token_views(t@), pos as int).0.0,
        r.0.1 == s_stmts(token_views(t@), pos as int).0.1,
        r.0.1 <= t@.len(),
    decreases t@.len() - pos, 4int,
{
    let (r, f) = p_stmt(t, pos);
    match r {
        None => {
            let none: Vec<Statement> = Vec::new();
            assert(sv(none@) =~= Seq::empty());
            ((none, pos), f)
        },
        Some((st, p1)) => {
            if p1 <= pos {
                let none: Vec<Statement> = Vec::new();
                assert(sv(none@) =~= Seq::empty());
                return ((none, pos), f);
            }
            let ghost stv = stmt_view(st);
            let ((mut rest, e), f2) = p_stmts(t, p1);
            let ghost rv = sv(rest@);
            rest.insert(0, st);
            assert(sv(rest@) =~= seq![stv] + rv);
            ((rest, e), merge_failures(f, f2))
        },
    }
}

fn p_block(t: &Vec<TokenWithPosition>, pos: usize, start: usize) -> (r: (Option<(Vec<Statement>, usize)>, Failure))
    requires
        pos <= t@.len(),
    ensures
        fv(r.1) == s_block(token_views(t@), pos as int, start as int).1,
        match (r.0, s_block(token_views(t@), pos as int, start as int).0) {
            (Some((x, p)), Some((y, q))) => sv(x@) == y && p == q && p <= t@.len(),
            (None, None) => true,
            _ => false,
        },
    decreases t@.len() - start, 0int,
{
    if pos <= start {
        return (None, no_failure());
    }
    let (r1, f1) = p_tok(t, pos, Expect::BraceOpen);
    match r1 {
        None => (None, f1),
        Some(p1) => {
            let ((ss, p2), f2) = p_stmts(t, p1);
            let (r3, f3) = p_tok(t, p2, Expect::BraceClose);
            let f = merge_failures(merge_failures(f1, f2), f3);
            match r3 {
                None => (None, f),
                Some(p3) => (Some((ss, p3)), f),
            }
        },
    }
}

fn p_else(t: &Vec<TokenWithPosition>, pos: usize) -> (r: (Option<Vec<Statement>>, usize, Failure))
    requires
        pos <= t@.len(),
    ensures
        fv(r.2) == s_else(token_views(t@), pos as int).2,
        r.1 == s_else(token_views(t@), pos as int).1,
        r.1 <= t@.len(),
        match (r.0, s_else(token_views(t@), pos as int).0) {
            (Some(x), Some(y)) => sv(x@) == y,
            (None, None) => true,
            _ => false,
        },
    decreases t@.len() - pos, 1int,
{
    let (r4, f4) = p_tok(t, pos, Expect::Else);
    match r4 {
        None => (None, pos, f4),
        Some(p4) => {
            let (r5, f5) = p_if(t, p4);
            match r5 {
                Some((nested, p5)) => {
                    let ghost nv = stmt_view(nested);
                    let els = vec![nested];
                    assert(sv(els@) =~= seq![nv]);
                    (Some(els), p5, merge_failures(f4, f5))
                },
                None => {
                    let (r6, f6) = p_block(t, p4, pos);
                    let g = merge_failures(merge_failures(f4, f5), f6);
                    match r6 {
                        Some((els, p6)) => (Some(els), p6, g),
                        None => (None, pos, g),
                    }
                },
            }
        },
    }
}

fn p_if(t: &Vec<TokenWithPosition>, pos: usize) -> (r: (Option<(Statement, usize)>, Failure))
    requires
        pos <= t@.len(),
    ensures
        fv(r.1) == s_if(token_views(t@), pos as int).1,
        stmt_result(r.0, s_if(token_views(t@), pos as int).0, t@.len()),
    decreases t@.len() - pos, 2int,
{
    let (r1, f1) = p_tok(t, pos, Expect::If);
    match r1 {
        None => (None, f1),
        Some(p1) => {
            let (r2, f2) = p_expr(t, p1);
            match r2 {
                None => (None, merge_failures(f1, f2)),
                Some((condition, p2)) => {
                    if p2 <= pos {
                        return (None, merge_failures(f1, f2));
                    }
                    let (r3, f3) = p_block(t, p2, pos);
                    let f = merge_failures(merge_failures(f1, f2), f3);
                    match r3 {
                        None => (None, f),
                        Some((then_body, p3)) => {
                            if p3 <= pos {
                                return (None, f);
                            }
                            let (else_body, end, f4) = p_else(t, p3);
                            proof {
                                lemma_stmts_view(then_body@);
                                match &else_body {
                                    Some(b) => lemma_stmts_view(b@),
                                    None => {},
                                }
                            }
                            (Some((Statement::If { condition, then_body, else_body }, end)), merge_failures(f, f4))
                        },
                    }
                },
            }
        },
    }
}


// ---------------------------------------------------------------------------
// Implementation: declarations and the file
// ---------------------------------------------------------------------------

fn p_variant(t: &Vec<TokenWithPosition>, pos: usize) -> (r: (Option<((String, u32), usize)>, Failure))
    requires
        pos <= t@.len(),
    ensures
        fv(r.1) == s_variant(token_views(t@), pos as int).1,
        match (r.0, s_variant(token_views(t@), pos as int).0) {
            (Some(((n, v), p)), Some(((m, w), q))) => n@ == m && v == w && p == q && p <= t@.len(),
            (None, None) => true,
            _ => false,
        },
{
    proof {
        reveal(s_variant);
    }
    let (r1, f1) = p_ident(t, pos);
    match r1 {
        None => (None, f1),
        Some((name, p1)) => {
            let (r2, f2) = p_tok(t, p1, Expect::EqualAssign);
            match r2 {
                None => (None, merge_failures(f1, f2)),
                Some(p2) => {
                    let (r3, f3) = p_integer(t, p2);
                    let f = merge_failures(merge_failures(f1, f2), f3);
                    match r3 {
                        None => (None, f),
                        Some((v, p3)) => {
                            #[verifier::truncate]
                            let w = v as u32;
                            (Some(((name, w), p3)), f)
                        },
                    }
                },
            }
        },
    }
}

spec fn vv(vs: Seq<(String, u32)>) -> Seq<(Seq<char>, u32)> {
    vs.map_values(|x: (String, u32)| (x.0@, x.1))
}

fn p_variants_more(t: &Vec<TokenWithPosition>, pos: usize) -> (r: ((Vec<(String, u32)>, usize), Failure))
    requires
        pos <= t@.len(),
    ensures
        fv(r.1) == s_variants_more(token_views(t@), pos as int).1,
        vv(r.0.0@) == s_variants_more(token_views(t@), pos as int).0.0,
        r.0.1 == s_variants_more(token_views(t@), pos as int).0.1,
        r.0.1 <= t@.len(),
    decreases t@.len() - pos,
{
    if kind_at(t, pos, TokenKind::Comma) {
        let (r, f) = p_variant(t, pos + 1);
        match r {
            None => {
                let none: Vec<(String, u32)> = Vec::new();
                assert(vv(none@) =~= Seq::empty());
                ((none, pos), f)
            },
            Some((v, p1)) => {
                if p1 <= pos {
                    let none: Vec<(String, u32)> = Vec::new();
                    assert(vv(none@) =~= Seq::empty());
                    return ((none, pos), f);
                }
                let ghost x = (v.0@, v.1);
                let ((mut rest, end), f2) = p_variants_more(t, p1);
                let ghost rv = vv(rest@);
                rest.insert(0, v);
                assert(vv(rest@) =~= seq![x] + rv);
                ((rest, end), merge_failures(f, f2))
            },
        }
    } else {
        let none: Vec<(String, u32)> = Vec::new();
        assert(vv(none@) =~= Seq::empty());
        ((none, pos), failure_at(pos, Expect::Comma))
    }
}

fn p_variants(t: &Vec<TokenWithPosition>, pos: usize) -> (r: ((Vec<(String, u32)>, usize), Failure))
    requires
        pos <= t@.len(),
    ensures
        fv(r.1) == s_variants(token_views(t@), pos as int).1,
        vv(r.0.0@) == s_variants(token_views(t@), pos as int).0.0,
        r.0.1 == s_variants(token_views(t@), pos as int).0.1,
        r.0.1 <= t@.len(),
{
    let (r, f) = p_variant(t, pos);
    match r {
        None => {
            let none: Vec<(String, u32)> = Vec::new();
            assert(vv(none@) =~= Seq::empty());
            ((none, pos), f)
        },
        Some((v, p1)) => {
            if p1 <= pos {
                let none: Vec<(String, u32)> = Vec::new();
                assert(vv(none@) =~= Seq::empty());
                return ((none, pos), f);
            }
            let ghost x = (v.0@, v.1);
            let ((mut rest, end), f2) = p_variants_more(t, p1);
            let ghost rv = vv(rest@);
            rest.insert(0, v);
            assert(vv(rest@) =~= seq![x] + rv);
            ((rest, end), merge_failures(f, f2))
        },
    }
}

/// Variants by name, a later one replacing an earlier one.
fn variant_map(vs: Vec<(String, u32)>) -> (r: NameMap<u32>)
    ensures
        r.wf(),
        entries_view(r.entries@, u32_fn()) == variant_entries(vv(vs@)),
{
    let ghost all = vv(vs@);
    let mut m: NameMap<u32> = NameMap::new();
    let mut rest = vs;
    let n = rest.len();
    let mut i: usize = 0;
    assert(all.take(0) =~= Seq::<(Seq<char>, u32)>::empty());
    assert(entries_view(m.entries@, u32_fn()) =~= Seq::empty());
    while i < n
        invariant
            n == all.len(),
            i <= n,
            vv(rest@) == all.skip(i as int),
            m.wf(),
            entries_view(m.entries@, u32_fn()) == variant_entries(all.take(i as int)),
        decreases n - i,
    {
        let ghost before = rest@;
        assert(vv(rest@).len() == rest@.len());
        let (name, value) = rest.remove(0);
        assert(vv(rest@) =~= all.skip(i + 1)) by {
            assert(rest@ =~= before.drop_first());
            assert(vv(rest@) =~= vv(before).drop_first());
        }
        assert(all.skip(i as int)[0] == (name@, value));
        assert(all.take(i + 1).drop_last() =~= all.take(i as int));
        assert(all.take(i + 1).last() == all[i as int]);
        proof {
            lemma_insert_view(m.entries@, name, value, u32_fn());
        }
        m.insert(name, value);
        i = i + 1;
    }
    assert(all.take(n as int) =~= all);
    m
}

spec fn member_view(m: Member) -> MemberView {
    match m {
        Member::Enum(e) => MemberView::Enum(enum_view(e).0, enum_view(e).1),
        Member::Init(i) => MemberView::Init(stmts_view(i.statements@)),
        Member::Command(c) => MemberView::Command(c.name@, params_view(c.parameters@), stmts_view(c.statements@)),
        Member::Status(s) => MemberView::Status(stmts_view(s.statements@)),
    }
}

spec fn member_result(r: Option<(Member, usize)>, s: Option<(MemberView, int)>, len: nat) -> bool {
    match (r, s) {
        (Some((x, p)), Some((y, q))) => member_view(x) == y && p == q && p <= len,
        (None, None) => true,
        _ => false,
    }
}

fn p_enum(t: &Vec<TokenWithPosition>, pos: usize) -> (r: (Option<(Member, usize)>, Failure))
    requires
        pos <= t@.len(),
    ensures
        fv(r.1) == s_enum(token_views(t@), pos as int).1,
        member_result(r.0, s_enum(token_views(t@), pos as int).0, t@.len()),
{
    proof {
        reveal(s_enum);
    }
    let (r1, f1) = p_tok(t, pos, Expect::Enum);
    match r1 {
        None => (None, f1),
        Some(p1) => {
            let (r2, f2) = p_ident(t, p1);
            match r2 {
                None => (None, merge_failures(f1, f2)),
                Some((name, p2)) => {
                    let (r3, f3) = p_tok(t, p2, Expect::BraceOpen);
                    let f = merge_failures(merge_failures(f1, f2), f3);
                    match r3 {
                        None => (None, f),
                        Some(p3) => {
                            let ((vs, p4), f4) = p_variants(t, p3);
                            let (p5, f5) = p_opt_comma(t, p4);
                            let (r6, f6) = p_tok(t, p5, Expect::BraceClose);
                            let g = merge_failures(merge_failures(merge_failures(f, f4), f5), f6);
                            match r6 {
                                None => (None, g),
                                Some(p6) => {
                                    let variants = variant_map(vs);
                                    (Some((Member::Enum(Enum { name, variants }), p6)), g)
                                },
                            }
                        },
                    }
                },
            }
        },
    }
}

fn p_parameter(t: &Vec<TokenWithPosition>, pos: usize) -> (r: (Option<(Parameter, usize)>, Failure))
    requires
        pos <= t@.len(),
    ensures
        fv(r.1) == s_parameter(token_views(t@), pos as int).1,
        match (r.0, s_parameter(token_views(t@), pos as int).0) {
            (Some((x, p)), Some((y, q))) => param_view(x) == y && p == q && p <= t@.len(),
            (None, None) => true,
            _ => false,
        },
{
    proof {
        reveal(s_parameter);
    }
    let (ty, f1): (Option<DataType>, Failure) = if kind_at(t, pos, TokenKind::Int) {
        (Some(DataType::Int), no_failure())
    } else if kind_at(t, pos, TokenKind::Bool) {
        (Some(DataType::Bool), failure_at(pos, Expect::Int))
    } else if kind_at(t, pos, TokenKind::Id) {
        let f = Failure { at: pos as i128, expected: vec![Expect::Int, Expect::Bool] };
        assert(f.expected@ =~= seq![Expect::Int, Expect::Bool]);
        (Some(DataType::Enum(token_text(&t[pos].token))), f)
    } else {
        let f = Failure { at: pos as i128, expected: vec![Expect::Int, Expect::Bool, Expect::Id] };
        assert(f.expected@ =~= seq![Expect::Int, Expect::Bool, Expect::Id]);
        (None, f)
    };
    match ty {
        None => (None, f1),
        Some(param_type) => {
            let (r2, f2) = p_ident(t, pos + 1);
            match r2 {
                None => (None, merge_failures(f1, f2)),
                Some((name, p2)) => (Some((Parameter { param_type, name }, p2)), merge_failures(f1, f2)),
            }
        },
    }
}

fn p_params_more(t: &Vec<TokenWithPosition>, pos: usize) -> (r: ((Vec<Parameter>, usize), Failure))
    requires
        pos <= t@.len(),
    ensures
        fv(r.1) == s_params_more(token_views(t@), pos as int).1,
        params_view(r.0.0@) == s_params_more(token_views(t@), pos as int).0.0,
        r.0.1 == s_params_more(token_views(t@), pos as int).0.1,
        r.0.1 <= t@.len(),
    decreases t@.len() - pos,
{
    if kind_at(t, pos, TokenKind::Comma) {
        let (r, f) = p_parameter(t, pos + 1);
        match r {
            None => {
                let none: Vec<Parameter> = Vec::new();
                assert(params_view(none@) =~= Seq::empty());
                ((none, pos), f)
            },
            Some((p, p1)) => {
                if p1 <= pos {
                    let none: Vec<Parameter> = Vec::new();
                    assert(params_view(none@) =~= Seq::empty());
                    return ((none, pos), f);
                }
                let ghost x = param_view(p);
                let ((mut rest, end), f2) = p_params_more(t, p1);
                let ghost rv = params_view(rest@);
                rest.insert(0, p);
                assert(params_view(rest@) =~= seq![x] + rv);
                ((rest, end), merge_failures(f, f2))
            },
        }
    } else {
        let none: Vec<Parameter> = Vec::new();
        assert(params_view(none@) =~= Seq::empty());
        ((none, pos), failure_at(pos, Expect::Comma))
    }
}

fn p_params(t: &Vec<TokenWithPosition>, pos: usize) -> (r: ((Vec<Parameter>, usize), Failure))
    requires
        pos <= t@.len(),
    ensures
        fv(r.1) == s_params(token_views(t@), pos as int).1,
        params_view(r.0.0@) == s_params(token_views(t@), pos as int).0.0,
        r.0.1 == s_params(token_views(t@), pos as int).0.1,
        r.0.1 <= t@.len(),
{
    let (r, f) = p_parameter(t, pos);
    match r {
        None => {
            let none: Vec<Parameter> = Vec::new();
            assert(params_view(none@) =~= Seq::empty());
            ((none, pos), f)
        },
        Some((p, p1)) => {
            if p1 <= pos {
                let none: Vec<Parameter> = Vec::new();
                assert(params_view(none@) =~= Seq::empty());
                return ((none, pos), f);
            }
            let ghost x = param_view(p);
            let ((mut rest, end), f2) = p_params_more(t, p1);
            let ghost rv = params_view(rest@);
            rest.insert(0, p);
            assert(params_view(rest@) =~= seq![x] + rv);
            ((rest, end), merge_failures(f, f2))
        },
    }
}

fn p_command(t: &Vec<TokenWithPosition>, pos: usize) -> (r: (Option<(Member, usize)>, Failure))
    requires
        pos <= t@.len(),
    ensures
        fv(r.1) == s_command(token_views(t@), pos as int).1,
        member_result(r.0, s_command(token_views(t@), pos as int).0, t@.len()),
{
    proof {
        reveal(s_command);
    }
    let (r1, f1) = p_tok(t, pos, Expect::Fn);
    match r1 {
        None => (None, f1),
        Some(p1) => {
            let (r2, f2) = p_ident(t, p1);
            match r2 {
                None => (None, merge_failures(f1, f2)),
                Some((name, p2)) => {
                    let (r3, f3) = p_tok(t, p2, Expect::ParenOpen);
                    let f = merge_failures(merge_failures(f1, f2), f3);
                    match r3 {
                        None => (None, f),
                        Some(p3) => {
                            let ((parameters, p4), f4) = p_params(t, p3);
                            let (p5, f5) = p_opt_comma(t, p4);
                            let (r6, f6) = p_tok(t, p5, Expect::ParenClose);
                            let g = merge_failures(merge_failures(merge_failures(f, f4), f5), f6);
                            match r6 {
                                None => (None, g),
                                Some(p6) => {
                                    let (r7, f7) = p_block(t, p6, pos);
                                    match r7 {
                                        None => (None, merge_failures(g, f7)),
                                        Some((statements, p7)) => {
                                            proof {
                                                lemma_stmts_view(statements@);
                                            }
                                            (
                                                Some((Member::Command(Command { name, parameters, statements }), p7)),
                                                merge_failures(g, f7),
                                            )
                                        },
                                    }
                                },
                            }
                        },
                    }
                },
            }
        },
    }
}

fn p_keyword_block(t: &Vec<TokenWithPosition>, pos: usize, e: Expect) -> (r: (Option<(Vec<Statement>, usize)>, Failure))
    requires
        pos <= t@.len(),
    ensures
        fv(r.1) == s_keyword_block(token_views(t@), pos as int, e).1,
        match (r.0, s_keyword_block(token_views(t@), pos as int, e).0) {
            (Some((x, p)), Some((y, q))) => stmts_view(x@) == y && p == q && p <= t@.len(),
            (None, None) => true,
            _ => false,
        },
{
    proof {
        reveal(s_keyword_block);
    }
    let (r1, f1) = p_tok(t, pos, e);
    match r1 {
        None => (None, f1),
        Some(p1) => {
            let (r2, f2) = p_block(t, p1, pos);
            match r2 {
                Some((ss, p)) => {
                    proof {
                        lemma_stmts_view(ss@);
                    }
                    (Some((ss, p)), merge_failures(f1, f2))
                },
                None => (None, merge_failures(f1, f2)),
            }
        },
    }
}

fn p_member(t: &Vec<TokenWithPosition>, pos: usize) -> (r: (Option<(Member, usize)>, Failure))
    requires
        pos <= t@.len(),
    ensures
        fv(r.1) == s_member(token_views(t@), pos as int).1,
        member_result(r.0, s_member(token_views(t@), pos as int).0, t@.len()),
{
    proof {
        reveal(s_member);
    }
    let (r1, f1) = p_keyword_block(t, pos, Expect::Init);
    match r1 {
        Some((statements, p)) => (Some((Member::Init(Init { statements }), p)), f1),
        None => {
            let (r2, f2) = p_enum(t, pos);
            match r2 {
                Some(x) => (Some(x), merge_failures(f1, f2)),
                None => {
                    let (r3, f3) = p_command(t, pos);
                    match r3 {
                        Some(x) => (Some(x), merge_failures(merge_failures(f1, f2), f3)),
                        None => {
                            let (r4, f4) = p_keyword_block(t, pos, Expect::Status);
                            let f = merge_failures(merge_failures(merge_failures(f1, f2), f3), f4);
                            match r4 {
                                Some((statements, p)) => (Some((Member::Status(Status { statements }), p)), f),
                                None => (None, f),
                            }
                        },
                    }
                },
            }
        },
    }
}

spec fn members_view(ms: Seq<Member>) -> Seq<MemberView> {
    ms.map_values(|m: Member| member_view(m))
}

fn p_members(t: &Vec<TokenWithPosition>, pos: usize) -> (r: ((Vec<Member>, usize), Failure))
    requires
        pos <= t@.len(),
    ensures
        fv(r.1) == s_members(token_views(t@), pos as int).1,
        members_view(r.0.0@) == s_members(token_views(t@), pos as int).0.0,
        r.0.1 == s_members(token_views(t@), pos as int).0.1,
        r.0.1 <= t@.len(),
    decreases t@.len() - pos,
{
    let (r, f) = p_member(t, pos);
    match r {
        None => {
            let none: Vec<Member> = Vec::new();
            assert(members_view(none@) =~= Seq::empty());
            ((none, pos), f)
        },
        Some((m, p1)) => {
            if p1 <= pos {
                let none: Vec<Member> = Vec::new();
                assert(members_view(none@) =~= Seq::empty());
                return ((none, pos), f);
            }
            let ghost x = member_view(m);
            let ((mut rest, e), f2) = p_members(t, p1);
            let ghost rv = members_view(rest@);
            rest.insert(0, m);
            assert(members_view(rest@) =~= seq![x] + rv);
            ((rest, e), merge_failures(f, f2))
        },
    }
}

spec fn opt_stmts(o: Option<Vec<Statement>>) -> Option<Seq<StmtView>> {
    match o {
        Some(v) => Some(stmts_view(v@)),
        None => None,
    }
}

/// Each command is stored under its own name.
pub open spec fn commands_named(es: Seq<(String, Command)>) -> bool {
    forall|i: int| 0 <= i < es.len() ==> (#[trigger] es[i]).1.name@ == es[i].0@
}

pub open spec fn named_fn() -> spec_fn(Seq<char>, Command) -> bool {
    |k: Seq<char>, c: Command| c.name@ == k
}

/// The declarations gathered into an `impl` block.
fn gather_members(schema: String, name: String, members: Vec<Member>) -> (r: Impl)
    ensures
        r.commands.wf(),
        commands_named(r.commands.entries@),
        r.schema@ == schema@,
        r.name@ == name@,
        gather(members_view(members@)) == (
            match r.init {
                Some(i) => Some(stmts_view(i.statements@)),
                None => None,
            },
            match r.status {
                Some(s) => Some(stmts_view(s.statements@)),
                None => None,
            },
            entries_view(r.commands.entries@, command_fn()),
            r.enums@.map_values(|e: Enum| enum_view(e)),
        ),
{
    let ghost all = members_view(members@);
    let mut init: Option<Init> = None;
    let mut status: Option<Status> = None;
    let mut commands: NameMap<Command> = NameMap::new();
    let mut enums: Vec<Enum> = Vec::new();
    let mut rest = members;
    let n = rest.len();
    let mut i: usize = 0;
    assert(all.take(0) =~= Seq::<MemberView>::empty());
    assert(entries_view(commands.entries@, command_fn()) =~= Seq::empty());
    assert(enums@.map_values(|e: Enum| enum_view(e)) =~= Seq::empty());
    while i < n
        invariant
            n == all.len(),
            i <= n,
            members_view(rest@) == all.skip(i as int),
            commands.wf(),
            commands_named(commands.entries@),
            gather(all.take(i as int)) == (
                match init {
                    Some(x) => Some(stmts_view(x.statements@)),
                    None => None,
                },
                match status {
                    Some(x) => Some(stmts_view(x.statements@)),
                    None => None,
                },
                entries_view(commands.entries@, command_fn()),
                enums@.map_values(|e: Enum| enum_view(e)),
            ),
        decreases n - i,
    {
        let ghost before = rest@;
        assert(members_view(rest@).len() == rest@.len());
        let m = rest.remove(0);
        assert(members_view(rest@) =~= all.skip(i + 1)) by {
            assert(rest@ =~= before.drop_first());
            assert(members_view(rest@) =~= members_view(before).drop_first());
        }
        assert(all.skip(i as int)[0] == member_view(m));
        assert(all.take(i + 1).drop_last() =~= all.take(i as int));
        assert(all.take(i + 1).last() == all[i as int]);
        let ghost ev = enums@.map_values(|e: Enum| enum_view(e));
        match m {
            Member::Init(x) => {
                init = Some(x);
            },
            Member::Status(x) => {
                status = Some(x);
            },
            Member::Command(c) => {
                let key = c.name.clone();
                proof {
                    lemma_insert_view(commands.entries@, key, c, command_fn());
                    assert forall|j: int| 0 <= j < commands.entries@.len() implies #[trigger] named_fn()(
                        commands.entries@[j].0@,
                        commands.entries@[j].1,
                    ) by {
                        assert(commands_named(commands.entries@));
                        assert(commands.entries@[j].1.name@ == commands.entries@[j].0@);
                    }
                    crate::name_map::lemma_insert_entry_pairs(commands.entries@, key, c, named_fn());
                }
                let ghost before = commands.entries@;
                commands.insert(key, c);
                proof {
                    assert forall|j: int| 0 <= j < commands.entries@.len() implies (#[trigger] commands.entries@[j]).1.name@
                        == commands.entries@[j].0@ by {
                        assert(named_fn()(commands.entries@[j].0@, commands.entries@[j].1));
                    }
                }
            },
            Member::Enum(e) => {
                let ghost x = enum_view(e);
                enums.push(e);
                assert(enums@.map_values(|e: Enum| enum_view(e)) =~= ev.push(x));
            },
        }
        i = i + 1;
    }
    assert(all.take(n as int) =~= all);
    Impl { schema, name, init, status, commands, enums }
}

fn p_impl(t: &Vec<TokenWithPosition>, pos: usize) -> (r: (Option<(Impl, usize)>, Failure))
    requires
        pos <= t@.len(),
    ensures
        fv(r.1) == s_impl(token_views(t@), pos as int).1,
        match (r.0, s_impl(token_views(t@), pos as int).0) {
            (Some((x, p)), Some((y, q))) => {
                &&& x.commands.wf()
                &&& commands_named(x.commands.entries@)
                &&& y == (ImplView {
                    schema: x.schema@,
                    name: x.name@,
                    init: match x.init {
                        Some(i) => Some(stmts_view(i.statements@)),
                        None => None,
                    },
                    status: match x.status {
                        Some(s) => Some(stmts_view(s.statements@)),
                        None => None,
                    },
                    commands: entries_view(x.commands.entries@, command_fn()),
                    enums: x.enums@.map_values(|e: Enum| enum_view(e)),
                })
                &&& p == q
                &&& p <= t@.len()
            },
            (None, None) => true,
            _ => false,
        },
{
    proof {
        reveal(s_impl);
    }
    let (r1, f1) = p_tok(t, pos, Expect::Impl);
    match r1 {
        None => (None, f1),
        Some(p1) => {
            let (r2, f2) = p_ident(t, p1);
            match r2 {
                None => (None, merge_failures(f1, f2)),
                Some((schema, p2)) => {
                    let (r3, f3) = p_tok(t, p2, Expect::For);
                    let f = merge_failures(merge_failures(f1, f2), f3);
                    match r3 {
                        None => (None, f),
                        Some(p3) => {
                            let (r4, f4) = p_ident(t, p3);
                            match r4 {
                                None => (None, merge_failures(f, f4)),
                                Some((name, p4)) => {
                                    let (r5, f5) = p_tok(t, p4, Expect::BraceOpen);
                                    let g = merge_failures(merge_failures(f, f4), f5);
                                    match r5 {
                                        None => (None, g),
                                        Some(p5) => {
                                            let ((ms, p6), f6) = p_members(t, p5);
                                            let (r7, f7) = p_tok(t, p6, Expect::BraceClose);
                                            let h = merge_failures(merge_failures(g, f6), f7);
                                            match r7 {
                                                None => (None, h),
                                                Some(p7) => (Some((gather_members(schema, name, ms), p7)), h),
                                            }
                                        },
                                    }
                                },
                            }
                        },
                    }
                },
            }
        },
    }
}

spec fn settings_view(ss: Seq<(String, Expr)>) -> Seq<(Seq<char>, ExprView)> {
    ss.map_values(|a: (String, Expr)| (a.0@, expr_view(a.1)))
}

fn p_settings(t: &Vec<TokenWithPosition>, pos: usize) -> (r: ((Vec<(String, Expr)>, usize), Failure))
    requires
        pos <= t@.len(),
    ensures
        fv(r.1) == s_settings(token_views(t@), pos as int).1,
        settings_view(r.0.0@) == s_settings(token_views(t@), pos as int).0.0,
        r.0.1 == s_settings(token_views(t@), pos as int).0.1,
        r.0.1 <= t@.len(),
    decreases t@.len() - pos,
{
    let (r, f) = p_assign(t, pos);
    match r {
        None => {
            let none: Vec<(String, Expr)> = Vec::new();
            assert(settings_view(none@) =~= Seq::empty());
            ((none, pos), f)
        },
        Some((a, p1)) => {
            if p1 <= pos {
                let none: Vec<(String, Expr)> = Vec::new();
                assert(settings_view(none@) =~= Seq::empty());
                return ((none, pos), f);
            }
            let ghost x = (a.0@, expr_view(a.1));
            let ((mut rest, e), f2) = p_settings(t, p1);
            let ghost rv = settings_view(rest@);
            rest.insert(0, a);
            assert(settings_view(rest@) =~= seq![x] + rv);
            ((rest, e), merge_failures(f, f2))
        },
    }
}

/// Settings by name, a later one replacing an earlier one.
fn settings_map(ss: Vec<(String, Expr)>) -> (r: NameMap<Expr>)
    ensures
        r.wf(),
        entries_view(r.entries@, expr_fn()) == setting_entries(settings_view(ss@)),
{
    let ghost all = settings_view(ss@);
    let mut m: NameMap<Expr> = NameMap::new();
    let mut rest = ss;
    let n = rest.len();
    let mut i: usize = 0;
    assert(all.take(0) =~= Seq::<(Seq<char>, ExprView)>::empty());
    assert(entries_view(m.entries@, expr_fn()) =~= Seq::empty());
    while i < n
        invariant
            n == all.len(),
            i <= n,
            settings_view(rest@) == all.skip(i as int),
            m.wf(),
            entries_view(m.entries@, expr_fn()) == setting_entries(all.take(i as int)),
        decreases n - i,
    {
        let ghost before = rest@;
        assert(settings_view(rest@).len() == rest@.len());
        let (name, e) = rest.remove(0);
        assert(settings_view(rest@) =~= all.skip(i + 1)) by {
            assert(rest@ =~= before.drop_first());
            assert(settings_view(rest@) =~= settings_view(before).drop_first());
        }
        assert(all.skip(i as int)[0] == (name@, expr_view(e)));
        assert(all.take(i + 1).drop_last() =~= all.take(i as int));
        assert(all.take(i + 1).last() == all[i as int]);
        proof {
            lemma_insert_view(m.entries@, name, e, expr_fn());
        }
        m.insert(name, e);
        i = i + 1;
    }
    assert(all.take(n as int) =~= all);
    m
}

fn p_rig_file(t: &Vec<TokenWithPosition>) -> (r: Result<RigFile, Failure>)
    ensures
        match (r, spec_rig_file(token_views(t@))) {
            (Ok(f), Ok(v)) => rig_file_view(f) == v && f.settings.settings.wf() && f.impl_block.commands.wf()
                && commands_named(f.impl_block.commands.entries@),
            (Err(f), Err(g)) => fv(f) == g,
            _ => false,
        },
{
    let ((ss, p1), f1) = p_settings(t, 0);
    let (r2, f2) = p_impl(t, p1);
    match r2 {
        None => Err(merge_failures(f1, f2)),
        Some((impl_block, p2)) => {
            if p2 == t.len() {
                let settings = Settings { settings: settings_map(ss) };
                Ok(RigFile { settings, impl_block })
            } else {
                Err(merge_failures(merge_failures(f1, f2), failure_at(p2, Expect::End)))
            }
        },
    }
}

/// Parse a rig file, reporting errors at `level`.
///
/// A source that does not split into tokens gives a tokenization error at the
/// first character that starts none; tokens that do not spell a rig file give
/// a syntax error at the furthest token where something else was expected.
pub fn parse_with_level(source: &str, level: ErrorLevel) -> (r: Result<RigFile, ParseError>)
    ensures
        match lex_from(source@, 0) {
            Err(p) => r matches Err(e) && tokenize_error_is(source@, p, e) && e.level == level,
            Ok(_) => rig_outcome(source_tokens(source@), source@, level, r),
        },
{
    let tokens = match tokenize(source, level) {
        Ok(tokens) => tokens,
        Err(e) => return Err(e),
    };
    let r = match p_rig_file(&tokens) {
        Ok(f) => Ok(f),
        Err(fail) => Err(syntax_error(&tokens, fail, source, level, "Failed to parse rig file structure")),
    };
    proof {
        lemma_token_views(source@, tokens);
    }
    assert(rig_outcome(token_views(tokens@), source@, level, r));
    r
}

/// Parse a rig file, reporting errors at the normal level.
pub fn parse(source: &str) -> (r: Result<RigFile, ParseError>)
    ensures
        match lex_from(source@, 0) {
            Err(p) => r matches Err(e) && tokenize_error_is(source@, p, e) && e.level == ErrorLevel::Normal,
            Ok(_) => rig_outcome(source_tokens(source@), source@, ErrorLevel::Normal, r),
        },
{
    parse_with_level(source, ErrorLevel::Normal)
}

/// Parse a rig file, reporting errors at the normal level.
pub fn parse_rig_file(source: &str) -> (r: Result<RigFile, ParseError>)
    ensures
        match lex_from(source@, 0) {
            Err(p) => r matches Err(e) && tokenize_error_is(source@, p, e) && e.level == ErrorLevel::Normal,
            Ok(_) => rig_outcome(source_tokens(source@), source@, ErrorLevel::Normal, r),
        },
{
    parse_with_level(source, ErrorLevel::Normal)
}

/// What `parse_atomic_expr` gives for `cs`: the expression when its tokens
/// (comments and line breaks among them) spell exactly one atom.
pub open spec fn atomic_outcome(cs: Seq<char>, tokens: TokenSeq, r: Result<Expr, &str>) -> bool {
    match lex_from(cs, 0) {
        Err(_) => r matches Err(m) && m@ == "Lexer failed"@,
        Ok(toks) => match s_atomic(tokens, 0).0 {
            Some((x, end)) if !has_layout(toks) && end == tokens.len() => r matches Ok(e) && expr_view(e) == x,
            _ => r matches Err(m) && m@ == "Parsing atomic expr failed"@,
        },
    }
}

/// Parse a single atom: a number, a string, a byte string, an identifier or
/// a qualified identifier.
pub fn parse_atomic_expr(expr: &str) -> (r: Result<Expr, &'static str>)
    ensures
        match lex_from(expr@, 0) {
            Err(_) => r matches Err(m) && m@ == "Lexer failed"@,
            Ok(_) => atomic_outcome(expr@, source_tokens(expr@), r),
        },
{
    let tokens = match tokenize(expr, ErrorLevel::Normal) {
        Ok(t) => t,
        Err(_) => {
            return Err("Lexer failed");
        },
    };
    let cs = crate::text::chars_of(expr);
    let r = if crate::lexer::layout_in(&cs) {
        Err("Parsing atomic expr failed")
    } else {
        match p_atomic(&tokens, 0) {
            (Some((e, p)), _) => if p == tokens.len() {
                Ok(e)
            } else {
                Err("Parsing atomic expr failed")
            },
            (None, _) => Err("Parsing atomic expr failed"),
        }
    };
    proof {
        lemma_token_views(expr@, tokens);
    }
    assert(atomic_outcome(expr@, token_views(tokens@), r));
    r
}

/// A semantic error at a line and column of `source`.
pub fn create_semantic_error(
    source: &str,
    line: usize,
    column: usize,
    message: &str,
    suggestion: Option<&str>,
) -> (r: ParseError)
    ensures
        r.position == (SourcePosition { line, column, offset: 0 }),
        match *r.error_type {
            ParseErrorType::Semantic { message: m, suggestion: s, context: c } => m@ == message@ && c@
                == "Semantic validation"@ && match (s, suggestion) {
                (Some(x), Some(y)) => x@ == y@,
                (None, None) => true,
                _ => false,
            },
            _ => false,
        },
        r.source@ == source@,
        r.level == ErrorLevel::Normal,
{
    let s = match suggestion {
        Some(t) => Some(t.to_owned()),
        None => None,
    };
    ParseError {
        position: SourcePosition::new(line, column, 0),
        error_type: Box::new(
            ParseErrorType::Semantic {
                message: message.to_owned(),
                suggestion: s,
                context: "Semantic validation".to_owned(),
            },
        ),
        source: source.to_owned(),
        level: ErrorLevel::Normal,
    }
}

/// What `parse_with_level` gives for `source` at `level`: the tokenization error
/// if the text does not split into tokens, else the outcome of the grammar
/// on its tokens.
pub open spec fn rig_parse_outcome(source: Seq<char>, level: ErrorLevel, r: Result<RigFile, ParseError>) -> bool {
    match lex_from(source, 0) {
        Err(p) => r matches Err(e) && tokenize_error_is(source, p, e) && e.level == level,
        Ok(_) => rig_outcome(source_tokens(source), source, level, r),
    }
}

/// The level of errors only changes how they are shown: parsing the same
/// text at two levels succeeds at both or at neither, with the same result
/// when it succeeds and an error at the same place when it fails, and each
/// failure carries the level asked for and the source text.
pub proof fn lemma_rig_level_only_renders(
    source: Seq<char>,
    l1: ErrorLevel,
    l2: ErrorLevel,
    r1: Result<RigFile, ParseError>,
    r2: Result<RigFile, ParseError>,
)
    requires
        rig_parse_outcome(source, l1, r1),
        rig_parse_outcome(source, l2, r2),
    ensures
        r1 is Ok <==> r2 is Ok,
        (r1, r2) matches (Ok(f1), Ok(f2)) ==> rig_file_view(f1) == rig_file_view(f2),
        (r1, r2) matches (Err(e1), Err(e2)) ==> e1.position == e2.position,
        r1 matches Err(e) ==> e.level == l1 && e.source@ == source,
        r2 matches Err(e) ==> e.level == l2 && e.source@ == source,
{
}

} // verus!
