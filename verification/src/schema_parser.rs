//! Schema files: the enums, commands and status fields a kind of rig offers.
//!
//! ```text
//! version = 1;
//! schema Transceiver {
//!     enum Vfo { A, B }
//!     fn set_freq(int freq, Vfo target);
//!     status { int freq_a; }
//! }
//! ```
use vstd::prelude::*;

use crate::grammar::{
    at_kind, digits_u32, fail_at, failure_at, fv, merge, merge_failures, no_fail, no_failure, p_ident, p_tok,
    parse_u32_digits, s_ident, s_tok, syntax_error, syntax_error_is, token_views, lemma_token_views, source_tokens, Expect, Failure, TokenSeq,
};
use crate::lexer::{
    lex_from, token_kind, token_text, tokenize, tokenize_error_is, TokenKind,
    TokenWithPosition,
};
use crate::name_map::{entries_view, insert_view, lemma_insert_view, NameMap};
use crate::parser::{dtype_view, DataType, DataTypeView};
use crate::parser_errors::{ErrorLevel, ParseError, ParseErrorType, SourcePosition};

verus! {

/// A typed name: a command parameter or a status field.
#[derive(Debug, Clone)]
pub struct SchemaParameter {
    pub param_type: DataType,
    pub name: String,
}

/// One declaration inside a schema block.
#[derive(Debug, Clone)]
pub enum SchemaMember {
    Enum(String, Vec<String>),
    Command(String, Vec<SchemaParameter>),
    Status(Vec<SchemaParameter>),
}

/// A schema block with its declarations gathered by kind.
#[derive(Debug, Clone)]
pub struct SchemaBlock {
    pub name: String,
    pub enums: NameMap<Vec<String>>,
    pub commands: NameMap<Vec<SchemaParameter>>,
    pub status: NameMap<DataType>,
}

/// A parsed schema file.
#[derive(Debug, Clone)]
pub struct SchemaFile {
    pub version: u32,
    pub name: String,
    pub enums: NameMap<Vec<String>>,
    pub commands: NameMap<Vec<SchemaParameter>>,
    pub status: NameMap<DataType>,
}

// ---------------------------------------------------------------------------
// Views
// ---------------------------------------------------------------------------

pub open spec fn param_view(p: SchemaParameter) -> (DataTypeView, Seq<char>) {
    (dtype_view(p.param_type), p.name@)
}

pub open spec fn params_view(ps: Seq<SchemaParameter>) -> Seq<(DataTypeView, Seq<char>)> {
    ps.map_values(|p: SchemaParameter| param_view(p))
}

pub open spec fn names_view(ns: Seq<String>) -> Seq<Seq<char>> {
    ns.map_values(|s: String| s@)
}

/// A declaration with its names as characters.
pub enum MemberView {
    Enum(Seq<char>, Seq<Seq<char>>),
    Command(Seq<char>, Seq<(DataTypeView, Seq<char>)>),
    Status(Seq<(DataTypeView, Seq<char>)>),
}

pub open spec fn member_view(m: SchemaMember) -> MemberView {
    match m {
        SchemaMember::Enum(n, vs) => MemberView::Enum(n@, names_view(vs@)),
        SchemaMember::Command(n, ps) => MemberView::Command(n@, params_view(ps@)),
        SchemaMember::Status(ps) => MemberView::Status(params_view(ps@)),
    }
}

pub open spec fn vec_names_view() -> spec_fn(Vec<String>) -> Seq<Seq<char>> {
    |v: Vec<String>| names_view(v@)
}

pub open spec fn vec_params_view() -> spec_fn(Vec<SchemaParameter>) -> Seq<(DataTypeView, Seq<char>)> {
    |v: Vec<SchemaParameter>| params_view(v@)
}

pub open spec fn dtype_fn() -> spec_fn(DataType) -> DataTypeView {
    |d: DataType| dtype_view(d)
}

/// The declarations of a schema gathered by kind, later ones replacing earlier
/// ones of the same name.
pub struct SchemaView {
    pub version: u32,
    pub name: Seq<char>,
    pub enums: Seq<(Seq<char>, Seq<Seq<char>>)>,
    pub commands: Seq<(Seq<char>, Seq<(DataTypeView, Seq<char>)>)>,
    pub status: Seq<(Seq<char>, DataTypeView)>,
}

pub open spec fn schema_view(f: SchemaFile) -> SchemaView {
    SchemaView {
        version: f.version,
        name: f.name@,
        enums: entries_view(f.enums.entries@, vec_names_view()),
        commands: entries_view(f.commands.entries@, vec_params_view()),
        status: entries_view(f.status.entries@, dtype_fn()),
    }
}

/// An integer token, which must fit in a `u32` (else the failure is recorded after it).
pub open spec fn s_integer(t: TokenSeq, pos: int) -> (Option<(u32, int)>, (int, Seq<Expect>)) {
    if at_kind(t, pos, TokenKind::Integer) {
        match digits_u32(t[pos].1) {
            Some(v) => (Some((v, pos + 1)), no_fail()),
            None => (None, fail_at(pos + 1, Expect::InvalidInteger)),
        }
    } else {
        (None, fail_at(pos, Expect::Integer))
    }
}

/// `int`, `bool` or an enum name, tried in that order.
pub open spec fn s_data_type(t: TokenSeq, pos: int) -> (Option<(DataTypeView, int)>, (int, Seq<Expect>)) {
    if at_kind(t, pos, TokenKind::Int) {
        (Some((DataTypeView::Int, pos + 1)), no_fail())
    } else if at_kind(t, pos, TokenKind::Bool) {
        (Some((DataTypeView::Bool, pos + 1)), fail_at(pos, Expect::Int))
    } else if at_kind(t, pos, TokenKind::Id) {
        (Some((DataTypeView::Enum(t[pos].1), pos + 1)), (pos, seq![Expect::Int, Expect::Bool]))
    } else {
        (None, (pos, seq![Expect::Int, Expect::Bool, Expect::Id]))
    }
}

/// A type followed by a name.
pub open spec fn s_parameter(t: TokenSeq, pos: int) -> (Option<((DataTypeView, Seq<char>), int)>, (int, Seq<Expect>)) {
    let (r1, f1) = s_data_type(t, pos);
    match r1 {
        None => (None, f1),
        Some((ty, p1)) => {
            let (r2, f2) = s_ident(t, p1);
            match r2 {
                None => (None, merge(f1, f2)),
                Some((name, p2)) => (Some(((ty, name), p2)), merge(f1, f2)),
            }
        },
    }
}

/// Further `, parameter` items.
pub open spec fn s_params_more(t: TokenSeq, pos: int) -> ((Seq<(DataTypeView, Seq<char>)>, int), (int, Seq<Expect>))
    decreases t.len() - pos,
{
    let (rc, fc) = s_tok(t, pos, Expect::Comma);
    match rc {
        None => ((Seq::empty(), pos), fc),
        Some(p1) => {
            let (rp, fp) = s_parameter(t, p1);
            match rp {
                None => ((Seq::empty(), pos), merge(fc, fp)),
                Some((p, p2)) => if p2 <= pos || t.len() < pos {
                    ((Seq::empty(), pos), merge(fc, fp))
                } else {
                    let ((rest, e), fr) = s_params_more(t, p2);
                    ((seq![p] + rest, e), merge(merge(fc, fp), fr))
                },
            }
        },
    }
}

/// Parameters separated by commas (possibly none).
pub open spec fn s_params(t: TokenSeq, pos: int) -> ((Seq<(DataTypeView, Seq<char>)>, int), (int, Seq<Expect>)) {
    let (r, f) = s_parameter(t, pos);
    match r {
        None => ((Seq::empty(), pos), f),
        Some((p, p1)) => {
            let ((rest, e), f2) = s_params_more(t, p1);
            ((seq![p] + rest, e), merge(f, f2))
        },
    }
}

/// `( parameters )`.
pub open spec fn s_param_list(t: TokenSeq, pos: int) -> (Option<(Seq<(DataTypeView, Seq<char>)>, int)>, (int, Seq<Expect>)) {
    let (r1, f1) = s_tok(t, pos, Expect::ParenOpen);
    match r1 {
        None => (None, f1),
        Some(p1) => {
            let ((ps, p2), f2) = s_params(t, p1);
            let (r3, f3) = s_tok(t, p2, Expect::ParenClose);
            match r3 {
                None => (None, merge(merge(f1, f2), f3)),
                Some(p3) => (Some((ps, p3)), merge(merge(f1, f2), f3)),
            }
        },
    }
}

/// `fn name (parameters)? ;`.
pub open spec fn s_command(t: TokenSeq, pos: int) -> (Option<(MemberView, int)>, (int, Seq<Expect>)) {
    let (r1, f1) = s_tok(t, pos, Expect::Fn);
    match r1 {
        None => (None, f1),
        Some(p1) => {
            let (r2, f2) = s_ident(t, p1);
            match r2 {
                None => (None, merge(f1, f2)),
                Some((name, p2)) => {
                    let (r3, f3) = s_param_list(t, p2);
                    let (ps, p3) = match r3 {
                        Some((ps, e)) => (ps, e),
                        None => (Seq::empty(), p2),
                    };
                    let (r4, f4) = s_tok(t, p3, Expect::Semicolon);
                    let f = merge(merge(merge(f1, f2), f3), f4);
                    match r4 {
                        None => (None, f),
                        Some(p4) => (Some((MemberView::Command(name, ps), p4)), f),
                    }
                },
            }
        },
    }
}

/// An enum variant name, optionally followed by a comma.
pub open spec fn s_variant(t: TokenSeq, pos: int) -> (Option<(Seq<char>, int)>, (int, Seq<Expect>)) {
    let (r1, f1) = s_ident(t, pos);
    match r1 {
        None => (None, f1),
        Some((name, p1)) => {
            let (r2, f2) = s_tok(t, p1, Expect::Comma);
            match r2 {
                None => (Some((name, p1)), merge(f1, f2)),
                Some(p2) => (Some((name, p2)), merge(f1, f2)),
            }
        },
    }
}

/// Enum variants, as many as there are.
pub open spec fn s_variants(t: TokenSeq, pos: int) -> ((Seq<Seq<char>>, int), (int, Seq<Expect>))
    decreases t.len() - pos,
{
    let (r, f) = s_variant(t, pos);
    match r {
        None => ((Seq::empty(), pos), f),
        Some((v, p1)) => if p1 <= pos || t.len() < pos {
            ((Seq::empty(), pos), f)
        } else {
            let ((rest, e), f2) = s_variants(t, p1);
            ((seq![v] + rest, e), merge(f, f2))
        },
    }
}

/// `enum Name { variants }`.
pub open spec fn s_enum(t: TokenSeq, pos: int) -> (Option<(MemberView, int)>, (int, Seq<Expect>)) {
    let (r1, f1) = s_tok(t, pos, Expect::Enum);
    match r1 {
        None => (None, f1),
        Some(p1) => {
            let (r2, f2) = s_ident(t, p1);
            match r2 {
                None => (None, merge(f1, f2)),
                Some((name, p2)) => {
                    let (r3, f3) = s_tok(t, p2, Expect::BraceOpen);
                    match r3 {
                        None => (None, merge(merge(f1, f2), f3)),
                        Some(p3) => {
                            let ((vs, p4), f4) = s_variants(t, p3);
                            let (r5, f5) = s_tok(t, p4, Expect::BraceClose);
                            let f = merge(merge(merge(merge(f1, f2), f3), f4), f5);
                            match r5 {
                                None => (None, f),
                                Some(p5) => (Some((MemberView::Enum(name, vs), p5)), f),
                            }
                        },
                    }
                },
            }
        },
    }
}

/// `type name ;`.
pub open spec fn s_status_field(t: TokenSeq, pos: int) -> (Option<((DataTypeView, Seq<char>), int)>, (int, Seq<Expect>)) {
    let (r1, f1) = s_parameter(t, pos);
    match r1 {
        None => (None, f1),
        Some((p, p1)) => {
            let (r2, f2) = s_tok(t, p1, Expect::Semicolon);
            match r2 {
                None => (None, merge(f1, f2)),
                Some(p2) => (Some((p, p2)), merge(f1, f2)),
            }
        },
    }
}

/// Status fields, as many as there are.
pub open spec fn s_status_fields(t: TokenSeq, pos: int) -> ((Seq<(DataTypeView, Seq<char>)>, int), (int, Seq<Expect>))
    decreases t.len() - pos,
{
    let (r, f) = s_status_field(t, pos);
    match r {
        None => ((Seq::empty(), pos), f),
        Some((p, p1)) => if p1 <= pos || t.len() < pos {
            ((Seq::empty(), pos), f)
        } else {
            let ((rest, e), f2) = s_status_fields(t, p1);
            ((seq![p] + rest, e), merge(f, f2))
        },
    }
}

/// `status { fields }`.
pub open spec fn s_status(t: TokenSeq, pos: int) -> (Option<(MemberView, int)>, (int, Seq<Expect>)) {
    let (r1, f1) = s_tok(t, pos, Expect::Status);
    match r1 {
        None => (None, f1),
        Some(p1) => {
            let (r2, f2) = s_tok(t, p1, Expect::BraceOpen);
            match r2 {
                None => (None, merge(f1, f2)),
                Some(p2) => {
                    let ((fs, p3), f3) = s_status_fields(t, p2);
                    let (r4, f4) = s_tok(t, p3, Expect::BraceClose);
                    let f = merge(merge(merge(f1, f2), f3), f4);
                    match r4 {
                        None => (None, f),
                        Some(p4) => (Some((MemberView::Status(fs), p4)), f),
                    }
                },
            }
        },
    }
}

/// An enum, a command or a status block, tried in that order.
pub open spec fn s_member(t: TokenSeq, pos: int) -> (Option<(MemberView, int)>, (int, Seq<Expect>)) {
    let (r1, f1) = s_enum(t, pos);
    match r1 {
        Some(x) => (Some(x), f1),
        None => {
            let (r2, f2) = s_command(t, pos);
            match r2 {
                Some(x) => (Some(x), merge(f1, f2)),
                None => {
                    let (r3, f3) = s_status(t, pos);
                    (r3, merge(merge(f1, f2), f3))
                },
            }
        },
    }
}

/// Declarations, as many as there are.
pub open spec fn s_members(t: TokenSeq, pos: int) -> ((Seq<MemberView>, int), (int, Seq<Expect>))
    decreases t.len() - pos,
{
    let (r, f) = s_member(t, pos);
    match r {
        None => ((Seq::empty(), pos), f),
        Some((m, p1)) => if p1 <= pos || t.len() < pos {
            ((Seq::empty(), pos), f)
        } else {
            let ((rest, e), f2) = s_members(t, p1);
            ((seq![m] + rest, e), merge(f, f2))
        },
    }
}

/// Status fields added to the status entries, in order.
pub open spec fn add_status(
    st: Seq<(Seq<char>, DataTypeView)>,
    fs: Seq<(DataTypeView, Seq<char>)>,
) -> Seq<(Seq<char>, DataTypeView)>
    decreases fs.len(),
{
    if fs.len() == 0 {
        st
    } else {
        add_status(insert_view(st, fs[0].1, fs[0].0), fs.drop_first())
    }
}

/// The declarations gathered by kind: (enums, commands, status).
pub open spec fn gather(ms: Seq<MemberView>) -> (
    Seq<(Seq<char>, Seq<Seq<char>>)>,
    Seq<(Seq<char>, Seq<(DataTypeView, Seq<char>)>)>,
    Seq<(Seq<char>, DataTypeView)>,
)
    decreases ms.len(),
{
    if ms.len() == 0 {
        (Seq::empty(), Seq::empty(), Seq::empty())
    } else {
        let (e, c, s) = gather(ms.drop_last());
        match ms.last() {
            MemberView::Enum(n, vs) => (insert_view(e, n, vs), c, s),
            MemberView::Command(n, ps) => (e, insert_view(c, n, ps), s),
            MemberView::Status(fs) => (e, c, add_status(s, fs)),
        }
    }
}

/// `schema Name { declarations }`.
pub open spec fn s_block(t: TokenSeq, pos: int) -> (Option<((Seq<char>, Seq<MemberView>), int)>, (int, Seq<Expect>)) {
    let (r1, f1) = s_tok(t, pos, Expect::Schema);
    match r1 {
        None => (None, f1),
        Some(p1) => {
            let (r2, f2) = s_ident(t, p1);
            match r2 {
                None => (None, merge(f1, f2)),
                Some((name, p2)) => {
                    let (r3, f3) = s_tok(t, p2, Expect::BraceOpen);
                    match r3 {
                        None => (None, merge(merge(f1, f2), f3)),
                        Some(p3) => {
                            let ((ms, p4), f4) = s_members(t, p3);
                            let (r5, f5) = s_tok(t, p4, Expect::BraceClose);
                            let f = merge(merge(merge(merge(f1, f2), f3), f4), f5);
                            match r5 {
                                None => (None, f),
                                Some(p5) => (Some(((name, ms), p5)), f),
                            }
                        },
                    }
                },
            }
        },
    }
}

/// `version = N ;` (the name must be `version`; else the failure is recorded after it).
pub open spec fn s_version(t: TokenSeq, pos: int) -> (Option<(u32, int)>, (int, Seq<Expect>)) {
    let (r1, f1) = s_ident(t, pos);
    match r1 {
        None => (None, f1),
        Some((kw, p1)) => {
            let (r2, f2) = s_tok(t, p1, Expect::EqualAssign);
            match r2 {
                None => (None, merge(f1, f2)),
                Some(p2) => {
                    let (r3, f3) = s_integer(t, p2);
                    match r3 {
                        None => (None, merge(merge(f1, f2), f3)),
                        Some((v, p3)) => {
                            let (r4, f4) = s_tok(t, p3, Expect::Semicolon);
                            let f = merge(merge(merge(f1, f2), f3), f4);
                            match r4 {
                                None => (None, f),
                                Some(p4) => if kw == "version"@ {
                                    (Some((v, p4)), f)
                                } else {
                                    (None, merge(f, fail_at(p4, Expect::VersionKeyword)))
                                },
                            }
                        },
                    }
                },
            }
        },
    }
}

/// The schema the tokens spell (all tokens must be used); or the furthest
/// position at which something else was expected, and what was.
pub open spec fn spec_schema_file(t: TokenSeq) -> Result<SchemaView, (int, Seq<Expect>)> {
    let (r1, f1) = s_version(t, 0);
    match r1 {
        None => Err(f1),
        Some((v, p1)) => {
            let (r2, f2) = s_block(t, p1);
            match r2 {
                None => Err(merge(f1, f2)),
                Some(((name, ms), p2)) => if p2 == t.len() {
                    let (e, c, s) = gather(ms);
                    Ok(SchemaView { version: v, name, enums: e, commands: c, status: s })
                } else {
                    Err(merge(merge(f1, f2), fail_at(p2, Expect::End)))
                },
            }
        },
    }
}

/// What parsing the tokens `t` of `source` gives.
pub open spec fn schema_outcome(
    t: TokenSeq,
    source: Seq<char>,
    level: ErrorLevel,
    r: Result<SchemaFile, ParseError>,
) -> bool {
    match spec_schema_file(t) {
        Ok(v) => r matches Ok(f) && schema_view(f) == v && f.enums.wf() && f.commands.wf() && f.status.wf(),
        Err(fail) => r matches Err(e) && syntax_error_is(t, fail.0, fail.1, source, level, "Failed to parse schema file structure"@, e),
    }
}

// ---------------------------------------------------------------------------
// Implementation
// ---------------------------------------------------------------------------

fn p_integer(t: &Vec<TokenWithPosition>, pos: usize) -> (r: (Option<(u32, usize)>, Failure))
    ensures
        fv(r.1) == s_integer(token_views(t@), pos as int).1,
        match (r.0, s_integer(token_views(t@), pos as int).0) {
            (Some((x, p)), Some((y, q))) => x == y && p == q && p <= t@.len(),
            (None, None) => true,
            _ => false,
        },
{
    if pos < t.len() && token_kind(&t[pos].token) == TokenKind::Integer {
        let text = token_text(&t[pos].token);
        match parse_u32_digits(text.as_str()) {
            Some(v) => (Some((v, pos + 1)), no_failure()),
            None => (None, failure_at(pos + 1, Expect::InvalidInteger)),
        }
    } else {
        (None, failure_at(pos, Expect::Integer))
    }
}

fn p_data_type(t: &Vec<TokenWithPosition>, pos: usize) -> (r: (Option<(DataType, usize)>, Failure))
    ensures
        fv(r.1) == s_data_type(token_views(t@), pos as int).1,
        match (r.0, s_data_type(token_views(t@), pos as int).0) {
            (Some((x, p)), Some((y, q))) => dtype_view(x) == y && p == q && p <= t@.len(),
            (None, None) => true,
            _ => false,
        },
{
    if pos < t.len() {
        let k = token_kind(&t[pos].token);
        if k == TokenKind::Int {
            return (Some((DataType::Int, pos + 1)), no_failure());
        } else if k == TokenKind::Bool {
            return (Some((DataType::Bool, pos + 1)), failure_at(pos, Expect::Int));
        } else if k == TokenKind::Id {
            let f = Failure { at: pos as i128, expected: vec![Expect::Int, Expect::Bool] };
            assert(f.expected@ =~= seq![Expect::Int, Expect::Bool]);
            return (Some((DataType::Enum(token_text(&t[pos].token)), pos + 1)), f);
        }
    }
    let f = Failure { at: pos as i128, expected: vec![Expect::Int, Expect::Bool, Expect::Id] };
    assert(f.expected@ =~= seq![Expect::Int, Expect::Bool, Expect::Id]);
    (None, f)
}

fn p_parameter(t: &Vec<TokenWithPosition>, pos: usize) -> (r: (Option<(SchemaParameter, usize)>, Failure))
    ensures
        fv(r.1) == s_parameter(token_views(t@), pos as int).1,
        match (r.0, s_parameter(token_views(t@), pos as int).0) {
            (Some((x, p)), Some((y, q))) => param_view(x) == y && p == q && p <= t@.len(),
            (None, None) => true,
            _ => false,
        },
{
    let (r1, f1) = p_data_type(t, pos);
    match r1 {
        None => (None, f1),
        Some((param_type, p1)) => {
            let (r2, f2) = p_ident(t, p1);
            match r2 {
                None => (None, merge_failures(f1, f2)),
                Some((name, p2)) => (Some((SchemaParameter { param_type, name }, p2)), merge_failures(f1, f2)),
            }
        },
    }
}

fn p_params_more(t: &Vec<TokenWithPosition>, pos: usize) -> (r: ((Vec<SchemaParameter>, usize), Failure))
    requires
        pos <= t@.len(),
    ensures
        fv(r.1) == s_params_more(token_views(t@), pos as int).1,
        params_view(r.0.0@) == s_params_more(token_views(t@), pos as int).0.0,
        r.0.1 == s_params_more(token_views(t@), pos as int).0.1,
        r.0.1 <= t@.len(),
    decreases t@.len() - pos,
{
    let (rc, fc) = p_tok(t, pos, Expect::Comma);
    match rc {
        None => {
            let none: Vec<SchemaParameter> = Vec::new();
            assert(params_view(none@) =~= Seq::empty());
            ((none, pos), fc)
        },
        Some(p1) => {
            let (rp, fp) = p_parameter(t, p1);
            match rp {
                None => {
                    let none: Vec<SchemaParameter> = Vec::new();
                    assert(params_view(none@) =~= Seq::empty());
                    ((none, pos), merge_failures(fc, fp))
                },
                Some((p, p2)) => {
                    let ghost pv = param_view(p);
                    let f = merge_failures(fc, fp);
                    let ((mut rest, e), fr) = p_params_more(t, p2);
                    let ghost rest_view = params_view(rest@);
                    rest.insert(0, p);
                    assert(params_view(rest@) =~= seq![pv] + rest_view);
                    ((rest, e), merge_failures(f, fr))
                },
            }
        },
    }
}

fn p_params(t: &Vec<TokenWithPosition>, pos: usize) -> (r: ((Vec<SchemaParameter>, usize), Failure))
    requires
        pos <= t@.len(),
    ensures
        fv(r.1) == s_params(token_views(t@), pos as int).1,
        params_view(r.0.0@) == s_params(token_views(t@), pos as int).0.0,
        r.0.1 == s_params(token_views(t@), pos as int).0.1,
        r.0.1 <= t@.len(),
{
    let (r, f) = p_parameter(t, pos);
    match r {
        None => {
            let none: Vec<SchemaParameter> = Vec::new();
            assert(params_view(none@) =~= Seq::empty());
            ((none, pos), f)
        },
        Some((p, p1)) => {
            let ghost pv = param_view(p);
            let ((mut rest, e), f2) = p_params_more(t, p1);
            let ghost rest_view = params_view(rest@);
            rest.insert(0, p);
            assert(params_view(rest@) =~= seq![pv] + rest_view);
            ((rest, e), merge_failures(f, f2))
        },
    }
}

fn p_param_list(t: &Vec<TokenWithPosition>, pos: usize) -> (r: (Option<(Vec<SchemaParameter>, usize)>, Failure))
    requires
        pos <= t@.len(),
    ensures
        fv(r.1) == s_param_list(token_views(t@), pos as int).1,
        match (r.0, s_param_list(token_views(t@), pos as int).0) {
            (Some((x, p)), Some((y, q))) => params_view(x@) == y && p == q && p <= t@.len(),
            (None, None) => true,
            _ => false,
        },
{
    let (r1, f1) = p_tok(t, pos, Expect::ParenOpen);
    match r1 {
        None => (None, f1),
        Some(p1) => {
            let ((ps, p2), f2) = p_params(t, p1);
            let (r3, f3) = p_tok(t, p2, Expect::ParenClose);
            let f = merge_failures(merge_failures(f1, f2), f3);
            match r3 {
                None => (None, f),
                Some(p3) => (Some((ps, p3)), f),
            }
        },
    }
}

fn p_command(t: &Vec<TokenWithPosition>, pos: usize) -> (r: (Option<(SchemaMember, usize)>, Failure))
    requires
        pos <= t@.len(),
    ensures
        fv(r.1) == s_command(token_views(t@), pos as int).1,
        match (r.0, s_command(token_views(t@), pos as int).0) {
            (Some((x, p)), Some((y, q))) => member_view(x) == y && p == q && p <= t@.len(),
            (None, None) => true,
            _ => false,
        },
{
    let (r1, f1) = p_tok(t, pos, Expect::Fn);
    match r1 {
        None => (None, f1),
        Some(p1) => {
            let (r2, f2) = p_ident(t, p1);
            match r2 {
                None => (None, merge_failures(f1, f2)),
                Some((name, p2)) => {
                    let (r3, f3) = p_param_list(t, p2);
                    let (ps, p3) = match r3 {
                        Some((ps, e)) => (ps, e),
                        None => {
                            let none: Vec<SchemaParameter> = Vec::new();
                            assert(params_view(none@) =~= Seq::empty());
                            (none, p2)
                        },
                    };
                    let (r4, f4) = p_tok(t, p3, Expect::Semicolon);
                    let f = merge_failures(merge_failures(merge_failures(f1, f2), f3), f4);
                    match r4 {
                        None => (None, f),
                        Some(p4) => (Some((SchemaMember::Command(name, ps), p4)), f),
                    }
                },
            }
        },
    }
}

fn p_variant(t: &Vec<TokenWithPosition>, pos: usize) -> (r: (Option<(String, usize)>, Failure))
    ensures
        fv(r.1) == s_variant(token_views(t@), pos as int).1,
        match (r.0, s_variant(token_views(t@), pos as int).0) {
            (Some((x, p)), Some((y, q))) => x@ == y && p == q && p <= t@.len(),
            (None, None) => true,
            _ => false,
        },
{
    let (r1, f1) = p_ident(t, pos);
    match r1 {
        None => (None, f1),
        Some((name, p1)) => {
            let (r2, f2) = p_tok(t, p1, Expect::Comma);
            match r2 {
                None => (Some((name, p1)), merge_failures(f1, f2)),
                Some(p2) => (Some((name, p2)), merge_failures(f1, f2)),
            }
        },
    }
}

fn p_variants(t: &Vec<TokenWithPosition>, pos: usize) -> (r: ((Vec<String>, usize), Failure))
    requires
        pos <= t@.len(),
    ensures
        fv(r.1) == s_variants(token_views(t@), pos as int).1,
        names_view(r.0.0@) == s_variants(token_views(t@), pos as int).0.0,
        r.0.1 == s_variants(token_views(t@), pos as int).0.1,
        r.0.1 <= t@.len(),
    decreases t@.len() - pos,
{
    let (r, f) = p_variant(t, pos);
    match r {
        None => {
            let none: Vec<String> = Vec::new();
            assert(names_view(none@) =~= Seq::empty());
            ((none, pos), f)
        },
        Some((v, p1)) => {
            if p1 <= pos {
                let none: Vec<String> = Vec::new();
                assert(names_view(none@) =~= Seq::empty());
                return ((none, pos), f);
            }
            let ((mut rest, e), f2) = p_variants(t, p1);
            let ghost rest_view = names_view(rest@);
            let ghost vv = v@;
            rest.insert(0, v);
            assert(names_view(rest@) =~= seq![vv] + rest_view);
            ((rest, e), merge_failures(f, f2))
        },
    }
}

fn p_enum(t: &Vec<TokenWithPosition>, pos: usize) -> (r: (Option<(SchemaMember, usize)>, Failure))
    requires
        pos <= t@.len(),
    ensures
        fv(r.1) == s_enum(token_views(t@), pos as int).1,
        match (r.0, s_enum(token_views(t@), pos as int).0) {
            (Some((x, p)), Some((y, q))) => member_view(x) == y && p == q && p <= t@.len(),
            (None, None) => true,
            _ => false,
        },
{
    let (r1, f1) = p_tok(t, pos, Expect::Enum);
    match r1 {
        None => (None, f1),
        Some(p1) => {
            let (r2, f2) = p_ident(t, p1);
            match r2 {
                None => (None, merge_failures(f1, f2)),
                Some((name, p2)) => {
                    let (r3, f3) = p_tok(t, p2, Expect::BraceOpen);
                    let f = merge_failures(merge_failures(f1, f2), f3);
                    match r3 {
                        None => (None, f),
                        Some(p3) => {
                            let ((vs, p4), f4) = p_variants(t, p3);
                            let (r5, f5) = p_tok(t, p4, Expect::BraceClose);
                            let f = merge_failures(merge_failures(f, f4), f5);
                            match r5 {
                                None => (None, f),
                                Some(p5) => (Some((SchemaMember::Enum(name, vs), p5)), f),
                            }
                        },
                    }
                },
            }
        },
    }
}

fn p_status_field(t: &Vec<TokenWithPosition>, pos: usize) -> (r: (Option<(SchemaParameter, usize)>, Failure))
    ensures
        fv(r.1) == s_status_field(token_views(t@), pos as int).1,
        match (r.0, s_status_field(token_views(t@), pos as int).0) {
            (Some((x, p)), Some((y, q))) => param_view(x) == y && p == q && p <= t@.len(),
            (None, None) => true,
            _ => false,
        },
{
    let (r1, f1) = p_parameter(t, pos);
    match r1 {
        None => (None, f1),
        Some((p, p1)) => {
            let (r2, f2) = p_tok(t, p1, Expect::Semicolon);
            match r2 {
                None => (None, merge_failures(f1, f2)),
                Some(p2) => (Some((p, p2)), merge_failures(f1, f2)),
            }
        },
    }
}

fn p_status_fields(t: &Vec<TokenWithPosition>, pos: usize) -> (r: ((Vec<SchemaParameter>, usize), Failure))
    requires
        pos <= t@.len(),
    ensures
        fv(r.1) == s_status_fields(token_views(t@), pos as int).1,
        params_view(r.0.0@) == s_status_fields(token_views(t@), pos as int).0.0,
        r.0.1 == s_status_fields(token_views(t@), pos as int).0.1,
        r.0.1 <= t@.len(),
    decreases t@.len() - pos,
{
    let (r, f) = p_status_field(t, pos);
    match r {
        None => {
            let none: Vec<SchemaParameter> = Vec::new();
            assert(params_view(none@) =~= Seq::empty());
            ((none, pos), f)
        },
        Some((p, p1)) => {
            if p1 <= pos {
                let none: Vec<SchemaParameter> = Vec::new();
                assert(params_view(none@) =~= Seq::empty());
                return ((none, pos), f);
            }
            let ghost pv = param_view(p);
            let ((mut rest, e), f2) = p_status_fields(t, p1);
            let ghost rest_view = params_view(rest@);
            rest.insert(0, p);
            assert(params_view(rest@) =~= seq![pv] + rest_view);
            ((rest, e), merge_failures(f, f2))
        },
    }
}

fn p_status(t: &Vec<TokenWithPosition>, pos: usize) -> (r: (Option<(SchemaMember, usize)>, Failure))
    requires
        pos <= t@.len(),
    ensures
        fv(r.1) == s_status(token_views(t@), pos as int).1,
        match (r.0, s_status(token_views(t@), pos as int).0) {
            (Some((x, p)), Some((y, q))) => member_view(x) == y && p == q && p <= t@.len(),
            (None, None) => true,
            _ => false,
        },
{
    let (r1, f1) = p_tok(t, pos, Expect::Status);
    match r1 {
        None => (None, f1),
        Some(p1) => {
            let (r2, f2) = p_tok(t, p1, Expect::BraceOpen);
            let f = merge_failures(f1, f2);
            match r2 {
                None => (None, f),
                Some(p2) => {
                    let ((fs, p3), f3) = p_status_fields(t, p2);
                    let (r4, f4) = p_tok(t, p3, Expect::BraceClose);
                    let f = merge_failures(merge_failures(f, f3), f4);
                    match r4 {
                        None => (None, f),
                        Some(p4) => (Some((SchemaMember::Status(fs), p4)), f),
                    }
                },
            }
        },
    }
}

fn p_member(t: &Vec<TokenWithPosition>, pos: usize) -> (r: (Option<(SchemaMember, usize)>, Failure))
    requires
        pos <= t@.len(),
    ensures
        fv(r.1) == s_member(token_views(t@), pos as int).1,
        match (r.0, s_member(token_views(t@), pos as int).0) {
            (Some((x, p)), Some((y, q))) => member_view(x) == y && p == q && p <= t@.len(),
            (None, None) => true,
            _ => false,
        },
{
    let (r1, f1) = p_enum(t, pos);
    match r1 {
        Some(x) => (Some(x), f1),
        None => {
            let (r2, f2) = p_command(t, pos);
            let f = merge_failures(f1, f2);
            match r2 {
                Some(x) => (Some(x), f),
                None => {
                    let (r3, f3) = p_status(t, pos);
                    (r3, merge_failures(f, f3))
                },
            }
        },
    }
}

#[verifier::spinoff_prover]
#[verifier::rlimit(40)]
fn p_members(t: &Vec<TokenWithPosition>, pos: usize) -> (r: ((Vec<SchemaMember>, usize), Failure))
    requires
        pos <= t@.len(),
    ensures
        fv(r.1) == s_members(token_views(t@), pos as int).1,
        r.0.0@.map_values(|m: SchemaMember| member_view(m)) == s_members(token_views(t@), pos as int).0.0,
        r.0.1 == s_members(token_views(t@), pos as int).0.1,
        r.0.1 <= t@.len(),
    decreases t@.len() - pos,
{
    let (r, f) = p_member(t, pos);
    match r {
        None => {
            let none: Vec<SchemaMember> = Vec::new();
            assert(none@.map_values(|m: SchemaMember| member_view(m)) =~= Seq::empty());
            ((none, pos), f)
        },
        Some((m, p1)) => {
            if p1 <= pos {
                let none: Vec<SchemaMember> = Vec::new();
                assert(none@.map_values(|m: SchemaMember| member_view(m)) =~= Seq::empty());
                return ((none, pos), f);
            }
            let ((mut rest, e), f2) = p_members(t, p1);
            let ghost rest_view = rest@.map_values(|m: SchemaMember| member_view(m));
            let ghost mv = member_view(m);
            rest.insert(0, m);
            assert(rest@.map_values(|m: SchemaMember| member_view(m)) =~= seq![mv] + rest_view);
            ((rest, e), merge_failures(f, f2))
        },
    }
}


/// Add status fields to `status`, in order.
fn add_fields(status: &mut NameMap<DataType>, fields: Vec<SchemaParameter>)
    requires
        old(status).wf(),
    ensures
        final(status).wf(),
        entries_view(final(status).entries@, dtype_fn())
            == add_status(entries_view(old(status).entries@, dtype_fn()), params_view(fields@)),
{
    let ghost all = params_view(fields@);
    let ghost target = add_status(entries_view(status.entries@, dtype_fn()), all);
    let mut rest = fields;
    let mut i: usize = 0;
    let n = rest.len();
    while i < n
        invariant
            n == all.len(),
            i <= n,
            params_view(rest@) == all.skip(i as int),
            status.wf(),
            add_status(entries_view(status.entries@, dtype_fn()), all.skip(i as int)) == target,
        decreases n - i,
    {
        assert(rest@.len() > 0) by {
            assert(params_view(rest@).len() == rest@.len());
        }
        let ghost before = rest@;
        let field = rest.remove(0);
        assert(params_view(rest@) =~= all.skip(i + 1)) by {
            assert(rest@ =~= before.drop_first());
            assert(params_view(rest@) =~= params_view(before).drop_first());
        }
        assert(all.skip(i as int)[0] == param_view(field));
        assert(all.skip(i as int).drop_first() =~= all.skip(i + 1));
        proof {
            lemma_insert_view(status.entries@, field.name, field.param_type, dtype_fn());
        }
        status.insert(field.name, field.param_type);
        i = i + 1;
    }
    assert(all.skip(n as int) =~= Seq::<(DataTypeView, Seq<char>)>::empty());
}

/// The declarations gathered by kind, later ones replacing earlier ones of the same name.
fn gather_members(members: Vec<SchemaMember>) -> (r: (NameMap<Vec<String>>, NameMap<Vec<SchemaParameter>>, NameMap<DataType>))
    ensures
        r.0.wf() && r.1.wf() && r.2.wf(),
        gather(members@.map_values(|m: SchemaMember| member_view(m))) == (
            entries_view(r.0.entries@, vec_names_view()),
            entries_view(r.1.entries@, vec_params_view()),
            entries_view(r.2.entries@, dtype_fn()),
        ),
{
    let ghost all = members@.map_values(|m: SchemaMember| member_view(m));
    let mut enums: NameMap<Vec<String>> = NameMap::new();
    let mut commands: NameMap<Vec<SchemaParameter>> = NameMap::new();
    let mut status: NameMap<DataType> = NameMap::new();
    let mut rest = members;
    let mut i: usize = 0;
    let n = rest.len();
    assert(entries_view(enums.entries@, vec_names_view()) =~= Seq::empty());
    assert(entries_view(commands.entries@, vec_params_view()) =~= Seq::empty());
    assert(entries_view(status.entries@, dtype_fn()) =~= Seq::empty());
    assert(all.take(0) =~= Seq::<MemberView>::empty());
    while i < n
        invariant
            n == all.len(),
            i <= n,
            rest@.map_values(|m: SchemaMember| member_view(m)) == all.skip(i as int),
            enums.wf() && commands.wf() && status.wf(),
            gather(all.take(i as int)) == (
                entries_view(enums.entries@, vec_names_view()),
                entries_view(commands.entries@, vec_params_view()),
                entries_view(status.entries@, dtype_fn()),
            ),
        decreases n - i,
    {
        let ghost before = rest@;
        assert(rest@.len() > 0) by {
            assert(rest@.map_values(|m: SchemaMember| member_view(m)).len() == rest@.len());
        }
        let m = rest.remove(0);
        assert(rest@.map_values(|m: SchemaMember| member_view(m)) =~= all.skip(i + 1)) by {
            assert(rest@ =~= before.drop_first());
            assert(rest@.map_values(|m: SchemaMember| member_view(m)) =~= before.map_values(
                |m: SchemaMember| member_view(m),
            ).drop_first());
        }
        assert(all.take(i + 1).drop_last() =~= all.take(i as int));
        assert(all.take(i + 1).last() == member_view(m)) by {
            assert(all.skip(i as int)[0] == member_view(m));
        }
        match m {
            SchemaMember::Enum(name, variants) => {
                proof {
                    lemma_insert_view(enums.entries@, name, variants, vec_names_view());
                }
                enums.insert(name, variants);
            },
            SchemaMember::Command(name, params) => {
                proof {
                    lemma_insert_view(commands.entries@, name, params, vec_params_view());
                }
                commands.insert(name, params);
            },
            SchemaMember::Status(fields) => {
                add_fields(&mut status, fields);
            },
        }
        i = i + 1;
    }
    assert(all.take(n as int) =~= all);
    (enums, commands, status)
}

fn p_block(t: &Vec<TokenWithPosition>, pos: usize) -> (r: (Option<(SchemaBlock, usize)>, Failure))
    requires
        pos <= t@.len(),
    ensures
        fv(r.1) == s_block(token_views(t@), pos as int).1,
        match (r.0, s_block(token_views(t@), pos as int).0) {
            (Some((b, p)), Some(((name, ms), q))) => {
                &&& b.name@ == name
                &&& b.enums.wf() && b.commands.wf() && b.status.wf()
                &&& gather(ms) == (
                    entries_view(b.enums.entries@, vec_names_view()),
                    entries_view(b.commands.entries@, vec_params_view()),
                    entries_view(b.status.entries@, dtype_fn()),
                )
                &&& p == q
                &&& p <= t@.len()
            },
            (None, None) => true,
            _ => false,
        },
{
    let (r1, f1) = p_tok(t, pos, Expect::Schema);
    match r1 {
        None => (None, f1),
        Some(p1) => {
            let (r2, f2) = p_ident(t, p1);
            match r2 {
                None => (None, merge_failures(f1, f2)),
                Some((name, p2)) => {
                    let (r3, f3) = p_tok(t, p2, Expect::BraceOpen);
                    let f = merge_failures(merge_failures(f1, f2), f3);
                    match r3 {
                        None => (None, f),
                        Some(p3) => {
                            let ((members, p4), f4) = p_members(t, p3);
                            let (r5, f5) = p_tok(t, p4, Expect::BraceClose);
                            let f = merge_failures(merge_failures(f, f4), f5);
                            match r5 {
                                None => (None, f),
                                Some(p5) => {
                                    let (enums, commands, status) = gather_members(members);
                                    (Some((SchemaBlock { name, enums, commands, status }, p5)), f)
                                },
                            }
                        },
                    }
                },
            }
        },
    }
}

fn p_version(t: &Vec<TokenWithPosition>, pos: usize) -> (r: (Option<(u32, usize)>, Failure))
    requires
        pos <= t@.len(),
    ensures
        fv(r.1) == s_version(token_views(t@), pos as int).1,
        match (r.0, s_version(token_views(t@), pos as int).0) {
            (Some((x, p)), Some((y, q))) => x == y && p == q && p <= t@.len(),
            (None, None) => true,
            _ => false,
        },
{
    let (r1, f1) = p_ident(t, pos);
    match r1 {
        None => (None, f1),
        Some((kw, p1)) => {
            let (r2, f2) = p_tok(t, p1, Expect::EqualAssign);
            let f = merge_failures(f1, f2);
            match r2 {
                None => (None, f),
                Some(p2) => {
                    let (r3, f3) = p_integer(t, p2);
                    let f = merge_failures(f, f3);
                    match r3 {
                        None => (None, f),
                        Some((v, p3)) => {
                            let (r4, f4) = p_tok(t, p3, Expect::Semicolon);
                            let f = merge_failures(f, f4);
                            match r4 {
                                None => (None, f),
                                Some(p4) => if crate::text::str_eq(kw.as_str(), "version") {
                                    (Some((v, p4)), f)
                                } else {
                                    (None, merge_failures(f, failure_at(p4, Expect::VersionKeyword)))
                                },
                            }
                        },
                    }
                },
            }
        },
    }
}

/// Parse a schema file from its tokens; on failure, the furthest failure.
fn p_schema_file(t: &Vec<TokenWithPosition>) -> (r: Result<SchemaFile, Failure>)
    ensures
        match (r, spec_schema_file(token_views(t@))) {
            (Ok(f), Ok(v)) => schema_view(f) == v && f.enums.wf() && f.commands.wf() && f.status.wf(),
            (Err(f), Err(g)) => fv(f) == g,
            _ => false,
        },
{
    let (r1, f1) = p_version(t, 0);
    match r1 {
        None => Err(f1),
        Some((version, p1)) => {
            let (r2, f2) = p_block(t, p1);
            match r2 {
                None => Err(merge_failures(f1, f2)),
                Some((block, p2)) => {
                    if p2 == t.len() {
                        Ok(SchemaFile {
                            version,
                            name: block.name,
                            enums: block.enums,
                            commands: block.commands,
                            status: block.status,
                        })
                    } else {
                        Err(merge_failures(merge_failures(f1, f2), failure_at(p2, Expect::End)))
                    }
                },
            }
        },
    }
}

/// Parse a schema file, reporting errors at `level`.
///
/// A source that does not split into tokens gives a tokenization error at the
/// first character that starts none; tokens that do not spell a schema file
/// give a syntax error at the furthest token where something else was expected.
pub fn parse_schema_with_level(source: &str, level: ErrorLevel) -> (r: Result<SchemaFile, ParseError>)
    ensures
        match lex_from(source@, 0) {
            Err(p) => r matches Err(e) && tokenize_error_is(source@, p, e) && e.level == level,
            Ok(_) => schema_outcome(source_tokens(source@), source@, level, r),
        },
{
    let tokens = match tokenize(source, level) {
        Ok(tokens) => tokens,
        Err(e) => return Err(e),
    };
    let r = match p_schema_file(&tokens) {
        Ok(f) => Ok(f),
        Err(fail) => Err(syntax_error(&tokens, fail, source, level, "Failed to parse schema file structure")),
    };
    proof {
        lemma_token_views(source@, tokens);
    }
    assert(schema_outcome(token_views(tokens@), source@, level, r));
    r
}

/// Parse a schema file, reporting errors at the normal level.
pub fn parse_schema(source: &str) -> (r: Result<SchemaFile, ParseError>)
    ensures
        match lex_from(source@, 0) {
            Err(p) => r matches Err(e) && tokenize_error_is(source@, p, e) && e.level == ErrorLevel::Normal,
            Ok(_) => schema_outcome(source_tokens(source@), source@, ErrorLevel::Normal, r),
        },
{
    parse_schema_with_level(source, ErrorLevel::Normal)
}

/// What `parse_schema_with_level` gives for `source` at `level`: the tokenization error
/// if the text does not split into tokens, else the outcome of the grammar
/// on its tokens.
pub open spec fn schema_parse_outcome(source: Seq<char>, level: ErrorLevel, r: Result<SchemaFile, ParseError>) -> bool {
    match lex_from(source, 0) {
        Err(p) => r matches Err(e) && tokenize_error_is(source, p, e) && e.level == level,
        Ok(_) => schema_outcome(source_tokens(source), source, level, r),
    }
}

/// The level of errors only changes how they are shown: parsing the same
/// text at two levels succeeds at both or at neither, with the same result
/// when it succeeds and an error at the same place when it fails, and each
/// failure carries the level asked for and the source text.
pub proof fn lemma_schema_level_only_renders(
    source: Seq<char>,
    l1: ErrorLevel,
    l2: ErrorLevel,
    r1: Result<SchemaFile, ParseError>,
    r2: Result<SchemaFile, ParseError>,
)
    requires
        schema_parse_outcome(source, l1, r1),
        schema_parse_outcome(source, l2, r2),
    ensures
        r1 is Ok <==> r2 is Ok,
        (r1, r2) matches (Ok(f1), Ok(f2)) ==> schema_view(f1) == schema_view(f2),
        (r1, r2) matches (Err(e1), Err(e2)) ==> e1.position == e2.position,
        r1 matches Err(e) ==> e.level == l1 && e.source@ == source,
        r2 matches Err(e) ==> e.level == l2 && e.source@ == source,
{
}

} // verus!
