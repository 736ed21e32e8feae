//! What the token grammars share: what a rule expected and did not find,
//! the furthest such failure, and the syntax error reported for it.
use vstd::prelude::*;

use crate::lexer::{
    char_position, debug_of, has_text, kind_of, lex_from, significant, text_of, token_debug_text, token_kind,
    token_text, tokens_ok, TokenKind, TokenWithPosition,
};
use crate::parser_errors::{ErrorLevel, ParseError, ParseErrorType, SourcePosition};

verus! {

// ---------------------------------------------------------------------------
// The grammar, over tokens
//
// Every rule yields its result and the position after it, or nothing; and the
// furthest position at which it found something other than it expected, with
// what it expected there (position -1 if it never did).
// ---------------------------------------------------------------------------

/// Something the grammar expected and did not find.
#[derive(Debug, Clone, Copy, PartialEq, Eq, Structural)]
pub enum Expect {
    Int,
    Bool,
    Id,
    Integer,
    InvalidInteger,
    Comma,
    ParenOpen,
    ParenClose,
    Fn,
    Semicolon,
    Enum,
    BraceOpen,
    BraceClose,
    Status,
    Schema,
    EqualAssign,
    VersionKeyword,
    End,
    Impl,
    For,
    Init,
    If,
    Else,
    HexNumber,
    Float,
    Bytes,
    Str,
    DoubleColon,
    Or,
    And,
    Equal,
    NotEqual,
    Less,
    LessEqual,
    Greater,
    GreaterEqual,
    Plus,
    Minus,
    Multiply,
    Divide,
    Modulo,
    InvalidHex,
    InvalidBytes,
    InterpolationLexer,
    InterpolationParser,
}

/// The token kind an expectation of a single token is for.
pub open spec fn expect_kind(e: Expect) -> TokenKind {
    match e {
        Expect::Int => TokenKind::Int,
        Expect::Bool => TokenKind::Bool,
        Expect::Id => TokenKind::Id,
        Expect::Integer => TokenKind::Integer,
        Expect::Comma => TokenKind::Comma,
        Expect::ParenOpen => TokenKind::ParenOpen,
        Expect::ParenClose => TokenKind::ParenClose,
        Expect::Fn => TokenKind::Fn,
        Expect::Semicolon => TokenKind::Semicolon,
        Expect::Enum => TokenKind::Enum,
        Expect::BraceOpen => TokenKind::BraceOpen,
        Expect::BraceClose => TokenKind::BraceClose,
        Expect::Status => TokenKind::Status,
        Expect::Schema => TokenKind::Schema,
        Expect::EqualAssign => TokenKind::EqualAssign,
        Expect::Impl => TokenKind::Impl,
        Expect::For => TokenKind::For,
        Expect::Init => TokenKind::Init,
        Expect::If => TokenKind::If,
        Expect::Else => TokenKind::Else,
        Expect::HexNumber => TokenKind::HexNumber,
        Expect::Float => TokenKind::Float,
        Expect::Bytes => TokenKind::Bytes,
        Expect::Str => TokenKind::Str,
        Expect::DoubleColon => TokenKind::DoubleColon,
        Expect::Or => TokenKind::Or,
        Expect::And => TokenKind::And,
        Expect::Equal => TokenKind::Equal,
        Expect::NotEqual => TokenKind::NotEqual,
        Expect::Less => TokenKind::Less,
        Expect::LessEqual => TokenKind::LessEqual,
        Expect::Greater => TokenKind::Greater,
        Expect::GreaterEqual => TokenKind::GreaterEqual,
        Expect::Plus => TokenKind::Plus,
        Expect::Minus => TokenKind::Minus,
        Expect::Multiply => TokenKind::Multiply,
        Expect::Divide => TokenKind::Divide,
        Expect::Modulo => TokenKind::Modulo,
        _ => TokenKind::Comment,
    }
}

/// How an expectation is named in an error report.
pub open spec fn expect_name(e: Expect) -> Seq<char> {
    match e {
        Expect::Int => "[Token::Int]"@,
        Expect::Bool => "[Token::Bool]"@,
        Expect::Id => "[Token::Id(id)]"@,
        Expect::Integer => "[Token::Integer(num)]"@,
        Expect::InvalidInteger => "Invalid integer"@,
        Expect::Comma => "[Token::Comma]"@,
        Expect::ParenOpen => "[Token::ParenOpen]"@,
        Expect::ParenClose => "[Token::ParenClose]"@,
        Expect::Fn => "[Token::Fn]"@,
        Expect::Semicolon => "[Token::Semicolon]"@,
        Expect::Enum => "[Token::Enum]"@,
        Expect::BraceOpen => "[Token::BraceOpen]"@,
        Expect::BraceClose => "[Token::BraceClose]"@,
        Expect::Status => "[Token::Status]"@,
        Expect::Schema => "[Token::Schema]"@,
        Expect::EqualAssign => "[Token::EqualAssign]"@,
        Expect::VersionKeyword => "Expected 'version' keyword"@,
        Expect::End => "EOF"@,
        Expect::Impl => "[Token::Impl]"@,
        Expect::For => "[Token::For]"@,
        Expect::Init => "[Token::Init]"@,
        Expect::If => "[Token::If]"@,
        Expect::Else => "[Token::Else]"@,
        Expect::HexNumber => "[Token::HexNumber(num)]"@,
        Expect::Float => "[Token::Float(num)]"@,
        Expect::Bytes => "[Token::Bytes(s)]"@,
        Expect::Str => "[Token::Str(s)]"@,
        Expect::DoubleColon => "[Token::DoubleColon]"@,
        Expect::Or => "[Token::Or]"@,
        Expect::And => "[Token::And]"@,
        Expect::Equal => "[Token::Equal]"@,
        Expect::NotEqual => "[Token::NotEqual]"@,
        Expect::Less => "[Token::Less]"@,
        Expect::LessEqual => "[Token::LessEqual]"@,
        Expect::Greater => "[Token::Greater]"@,
        Expect::GreaterEqual => "[Token::GreaterEqual]"@,
        Expect::Plus => "[Token::Plus]"@,
        Expect::Minus => "[Token::Minus]"@,
        Expect::Multiply => "[Token::Multiply]"@,
        Expect::Divide => "[Token::Divide]"@,
        Expect::Modulo => "[Token::Modulo]"@,
        Expect::InvalidHex => "Invalid hexadecimal number"@,
        Expect::InvalidBytes => "Parsing bytes literal failed"@,
        Expect::InterpolationLexer => "Lexer failed"@,
        Expect::InterpolationParser => "Parser failed"@,
    }
}

/// No failure seen.
pub open spec fn no_fail() -> (int, Seq<Expect>) {
    (-1, Seq::empty())
}

pub open spec fn fail_at(pos: int, e: Expect) -> (int, Seq<Expect>) {
    (pos, seq![e])
}

/// The furthest of two failures; at the same position, what both expected.
pub open spec fn merge(a: (int, Seq<Expect>), b: (int, Seq<Expect>)) -> (int, Seq<Expect>) {
    if a.0 > b.0 {
        a
    } else if b.0 > a.0 {
        b
    } else {
        (a.0, a.1 + b.1)
    }
}

/// What the grammar reads of each token: its kind, its text (empty for a
/// token that carries none) and where it starts.
pub type TokenSeq = Seq<(TokenKind, Seq<char>, SourcePosition)>;

pub open spec fn token_view(t: TokenWithPosition) -> (TokenKind, Seq<char>, SourcePosition) {
    (kind_of(t.token), text_of(t.token), t.position)
}

pub open spec fn token_views(t: Seq<TokenWithPosition>) -> TokenSeq {
    t.map_values(|x: TokenWithPosition| token_view(x))
}

/// The tokens of `cs` as the grammar reads them, comments and line breaks
/// left out; empty where `cs` does not split into tokens.
pub open spec fn source_tokens(cs: Seq<char>) -> TokenSeq {
    match lex_from(cs, 0) {
        Ok(toks) => significant(toks).map_values(
            |m: (TokenKind, int, int)|
                (m.0, if has_text(m.0) { cs.subrange(m.1, m.2) } else { Seq::empty() }, char_position(cs, m.1)),
        ),
        Err(_) => Seq::empty(),
    }
}

/// Tokens that `tokenize` may give for a source read as that source's tokens.
pub proof fn lemma_token_views(source: Seq<char>, v: Vec<TokenWithPosition>)
    requires
        tokens_ok(source, Ok(v)),
    ensures
        token_views(v@) == source_tokens(source),
{
    assert forall|i: int| 0 <= i < v@.len() implies #[trigger] token_views(v@)[i] == source_tokens(source)[i] by {
        let t = v@[i].token;
        if !has_text(kind_of(t)) {
            assert(text_of(t) == Seq::<char>::empty());
        }
    }
    assert(token_views(v@) =~= source_tokens(source));
}

pub open spec fn at_kind(t: TokenSeq, pos: int, k: TokenKind) -> bool {
    0 <= pos < t.len() && t[pos].0 == k
}

/// A single token of the kind `e` expects.
pub open spec fn s_tok(t: TokenSeq, pos: int, e: Expect) -> (Option<int>, (int, Seq<Expect>)) {
    if at_kind(t, pos, expect_kind(e)) {
        (Some(pos + 1), no_fail())
    } else {
        (None, fail_at(pos, e))
    }
}

pub open spec fn s_ident(t: TokenSeq, pos: int) -> (Option<(Seq<char>, int)>, (int, Seq<Expect>)) {
    if at_kind(t, pos, TokenKind::Id) {
        (Some((t[pos].1, pos + 1)), no_fail())
    } else {
        (None, fail_at(pos, Expect::Id))
    }
}

/// Value of decimal digits.
pub open spec fn digits_value(cs: Seq<char>) -> int
    decreases cs.len(),
{
    if cs.len() == 0 {
        0
    } else {
        10 * digits_value(cs.drop_last()) + (cs.last() as int - 48)
    }
}

/// A `u32` written in decimal digits, if it fits.
pub open spec fn digits_u32(cs: Seq<char>) -> Option<u32> {
    if cs.len() > 0 && (forall|i: int| 0 <= i < cs.len() ==> '0' <= #[trigger] cs[i] <= '9')
        && digits_value(cs) <= u32::MAX {
        Some(digits_value(cs) as u32)
    } else {
        None
    }
}


/// Each expectation once, in the order first met.
pub open spec fn distinct_expects(es: Seq<Expect>) -> Seq<Expect>
    decreases es.len(),
{
    if es.len() == 0 {
        es
    } else {
        let d = distinct_expects(es.drop_last());
        if d.contains(es.last()) {
            d
        } else {
            d.push(es.last())
        }
    }
}

/// Where a syntax error at token `loc` is reported.
pub open spec fn error_position(t: TokenSeq, loc: int) -> SourcePosition {
    if 0 <= loc < t.len() {
        t[loc].2
    } else if t.len() > 0 {
        t[0].2
    } else {
        SourcePosition { line: 1, column: 1, offset: 0 }
    }
}

/// What a syntax error at token `loc` says was found there.
pub open spec fn found_text(t: TokenSeq, loc: int) -> Seq<char> {
    if 0 <= loc < t.len() {
        debug_of(t[loc].0, t[loc].1)
    } else {
        "unexpected token"@
    }
}

/// The syntax error reported for a failure at token `loc` expecting `ex`.
pub open spec fn syntax_error_is(
    t: TokenSeq,
    loc: int,
    ex: Seq<Expect>,
    source: Seq<char>,
    level: ErrorLevel,
    context: Seq<char>,
    e: ParseError,
) -> bool {
    &&& e.position == error_position(t, loc)
    &&& e.source@ == source
    &&& e.level == level
    &&& *e.error_type matches ParseErrorType::Syntax { expected, found, context: ctx, peg_error, user_friendly_message }
    &&& expected@.len() == distinct_expects(ex).len()
    &&& forall|i: int| 0 <= i < expected@.len() ==> (#[trigger] expected@[i])@ == expect_name(distinct_expects(ex)[i])
    &&& found matches Some(f) && f@ == found_text(t, loc)
    &&& ctx@ == context
    &&& peg_error is None
    &&& user_friendly_message is None
}

// ---------------------------------------------------------------------------
// Implementation
// ---------------------------------------------------------------------------

/// The furthest failure so far and what was expected there.
pub(crate) struct Failure {
    pub(crate) at: i128,
    pub(crate) expected: Vec<Expect>,
}

pub(crate) open spec fn fv(f: Failure) -> (int, Seq<Expect>) {
    (f.at as int, f.expected@)
}

pub(crate) fn no_failure() -> (r: Failure)
    ensures
        fv(r) == no_fail(),
{
    let r = Failure { at: -1, expected: Vec::new() };
    assert(r.expected@ =~= Seq::<Expect>::empty());
    r
}

pub(crate) fn failure_at(pos: usize, e: Expect) -> (r: Failure)
    ensures
        fv(r) == fail_at(pos as int, e),
{
    let r = Failure { at: pos as i128, expected: vec![e] };
    assert(r.expected@ =~= seq![e]);
    r
}

pub(crate) fn merge_failures(a: Failure, b: Failure) -> (r: Failure)
    ensures
        fv(r) == merge(fv(a), fv(b)),
{
    if a.at > b.at {
        a
    } else if b.at > a.at {
        b
    } else {
        let mut ea = a.expected;
        let mut eb = b.expected;
        ea.append(&mut eb);
        Failure { at: a.at, expected: ea }
    }
}

pub(crate) fn expect_token_kind(e: Expect) -> (k: TokenKind)
    ensures
        k == expect_kind(e),
{
    match e {
        Expect::Int => TokenKind::Int,
        Expect::Bool => TokenKind::Bool,
        Expect::Id => TokenKind::Id,
        Expect::Integer => TokenKind::Integer,
        Expect::Comma => TokenKind::Comma,
        Expect::ParenOpen => TokenKind::ParenOpen,
        Expect::ParenClose => TokenKind::ParenClose,
        Expect::Fn => TokenKind::Fn,
        Expect::Semicolon => TokenKind::Semicolon,
        Expect::Enum => TokenKind::Enum,
        Expect::BraceOpen => TokenKind::BraceOpen,
        Expect::BraceClose => TokenKind::BraceClose,
        Expect::Status => TokenKind::Status,
        Expect::Schema => TokenKind::Schema,
        Expect::EqualAssign => TokenKind::EqualAssign,
        Expect::Impl => TokenKind::Impl,
        Expect::For => TokenKind::For,
        Expect::Init => TokenKind::Init,
        Expect::If => TokenKind::If,
        Expect::Else => TokenKind::Else,
        Expect::HexNumber => TokenKind::HexNumber,
        Expect::Float => TokenKind::Float,
        Expect::Bytes => TokenKind::Bytes,
        Expect::Str => TokenKind::Str,
        Expect::DoubleColon => TokenKind::DoubleColon,
        Expect::Or => TokenKind::Or,
        Expect::And => TokenKind::And,
        Expect::Equal => TokenKind::Equal,
        Expect::NotEqual => TokenKind::NotEqual,
        Expect::Less => TokenKind::Less,
        Expect::LessEqual => TokenKind::LessEqual,
        Expect::Greater => TokenKind::Greater,
        Expect::GreaterEqual => TokenKind::GreaterEqual,
        Expect::Plus => TokenKind::Plus,
        Expect::Minus => TokenKind::Minus,
        Expect::Multiply => TokenKind::Multiply,
        Expect::Divide => TokenKind::Divide,
        Expect::Modulo => TokenKind::Modulo,
        _ => TokenKind::Comment,
    }
}

pub(crate) fn expect_text(e: Expect) -> (s: String)
    ensures
        s@ == expect_name(e),
{
    let name: &str = match e {
        Expect::Int => "[Token::Int]",
        Expect::Bool => "[Token::Bool]",
        Expect::Id => "[Token::Id(id)]",
        Expect::Integer => "[Token::Integer(num)]",
        Expect::InvalidInteger => "Invalid integer",
        Expect::Comma => "[Token::Comma]",
        Expect::ParenOpen => "[Token::ParenOpen]",
        Expect::ParenClose => "[Token::ParenClose]",
        Expect::Fn => "[Token::Fn]",
        Expect::Semicolon => "[Token::Semicolon]",
        Expect::Enum => "[Token::Enum]",
        Expect::BraceOpen => "[Token::BraceOpen]",
        Expect::BraceClose => "[Token::BraceClose]",
        Expect::Status => "[Token::Status]",
        Expect::Schema => "[Token::Schema]",
        Expect::EqualAssign => "[Token::EqualAssign]",
        Expect::VersionKeyword => "Expected 'version' keyword",
        Expect::End => "EOF",
        Expect::Impl => "[Token::Impl]",
        Expect::For => "[Token::For]",
        Expect::Init => "[Token::Init]",
        Expect::If => "[Token::If]",
        Expect::Else => "[Token::Else]",
        Expect::HexNumber => "[Token::HexNumber(num)]",
        Expect::Float => "[Token::Float(num)]",
        Expect::Bytes => "[Token::Bytes(s)]",
        Expect::Str => "[Token::Str(s)]",
        Expect::DoubleColon => "[Token::DoubleColon]",
        Expect::Or => "[Token::Or]",
        Expect::And => "[Token::And]",
        Expect::Equal => "[Token::Equal]",
        Expect::NotEqual => "[Token::NotEqual]",
        Expect::Less => "[Token::Less]",
        Expect::LessEqual => "[Token::LessEqual]",
        Expect::Greater => "[Token::Greater]",
        Expect::GreaterEqual => "[Token::GreaterEqual]",
        Expect::Plus => "[Token::Plus]",
        Expect::Minus => "[Token::Minus]",
        Expect::Multiply => "[Token::Multiply]",
        Expect::Divide => "[Token::Divide]",
        Expect::Modulo => "[Token::Modulo]",
        Expect::InvalidHex => "Invalid hexadecimal number",
        Expect::InvalidBytes => "Parsing bytes literal failed",
        Expect::InterpolationLexer => "Lexer failed",
        Expect::InterpolationParser => "Parser failed",
    };
    name.to_owned()
}

/// A `u32` written in decimal digits, if it fits.
pub fn parse_u32_digits(s: &str) -> (r: Option<u32>)
    ensures
        r == digits_u32(s@),
{
    let cs = crate::text::chars_of(s);
    let mut value: u64 = 0;
    let mut big = false;
    let mut i: usize = 0;
    while i < cs.len()
        invariant
            cs@ == s@,
            i <= cs@.len(),
            forall|k: int| 0 <= k < i ==> '0' <= #[trigger] cs@[k] <= '9',
            !big ==> value == digits_value(cs@.take(i as int)) && value <= u32::MAX,
            big ==> digits_value(cs@.take(i as int)) > u32::MAX,
            digits_value(cs@.take(i as int)) >= 0,
        decreases cs@.len() - i,
    {
        let c = cs[i];
        if !('0' <= c && c <= '9') {
            assert(!('0' <= s@[i as int] <= '9'));
            return None;
        }
        assert(cs@.take(i + 1).drop_last() =~= cs@.take(i as int));
        let d = (c as u32 - 48) as u64;
        if !big {
            value = value * 10 + d;
            if value > 0xFFFF_FFFF {
                big = true;
            }
        }
        i = i + 1;
    }
    assert(cs@.take(i as int) =~= s@);
    if cs.len() == 0 || big {
        None
    } else {
        Some(value as u32)
    }
}

pub(crate) fn p_tok(t: &Vec<TokenWithPosition>, pos: usize, e: Expect) -> (r: (Option<usize>, Failure))
    ensures
        fv(r.1) == s_tok(token_views(t@), pos as int, e).1,
        match (r.0, s_tok(token_views(t@), pos as int, e).0) {
            (Some(p), Some(q)) => p == q && p <= t@.len(),
            (None, None) => true,
            _ => false,
        },
{
    if pos < t.len() && token_kind(&t[pos].token) == expect_token_kind(e) {
        (Some(pos + 1), no_failure())
    } else {
        (None, failure_at(pos, e))
    }
}

pub(crate) fn p_ident(t: &Vec<TokenWithPosition>, pos: usize) -> (r: (Option<(String, usize)>, Failure))
    ensures
        fv(r.1) == s_ident(token_views(t@), pos as int).1,
        match (r.0, s_ident(token_views(t@), pos as int).0) {
            (Some((x, p)), Some((y, q))) => x@ == y && p == q && p <= t@.len(),
            (None, None) => true,
            _ => false,
        },
{
    if pos < t.len() && token_kind(&t[pos].token) == TokenKind::Id {
        (Some((token_text(&t[pos].token), pos + 1)), no_failure())
    } else {
        (None, failure_at(pos, Expect::Id))
    }
}

/// Each expectation once, in the order first met, by name.
pub(crate) fn expected_names(es: &Vec<Expect>) -> (r: Vec<String>)
    ensures
        r@.len() == distinct_expects(es@).len(),
        forall|i: int| 0 <= i < r@.len() ==> (#[trigger] r@[i])@ == expect_name(distinct_expects(es@)[i]),
{
    let mut seen: Vec<Expect> = Vec::new();
    let mut names: Vec<String> = Vec::new();
    let mut i: usize = 0;
    assert(es@.take(0) =~= Seq::<Expect>::empty());
    while i < es.len()
        invariant
            i <= es@.len(),
            seen@ == distinct_expects(es@.take(i as int)),
            names@.len() == seen@.len(),
            forall|j: int| 0 <= j < names@.len() ==> (#[trigger] names@[j])@ == expect_name(seen@[j]),
        decreases es@.len() - i,
    {
        let e = es[i];
        assert(es@.take(i + 1).drop_last() =~= es@.take(i as int));
        let mut found = false;
        let mut j: usize = 0;
        while j < seen.len()
            invariant
                j <= seen@.len(),
                found <==> exists|k: int| 0 <= k < j && seen@[k] == e,
            decreases seen@.len() - j,
        {
            if seen[j] == e {
                found = true;
            }
            j = j + 1;
        }
        assert(found <==> seen@.contains(e));
        if !found {
            seen.push(e);
            names.push(expect_text(e));
        }
        i = i + 1;
    }
    assert(es@.take(es@.len() as int) =~= es@);
    names
}

/// The error for a syntax failure at token `loc`.
pub(crate) fn syntax_error(
    t: &Vec<TokenWithPosition>,
    fail: Failure,
    source: &str,
    level: ErrorLevel,
    context: &str,
) -> (e: ParseError)
    ensures
        syntax_error_is(token_views(t@), fail.at as int, fail.expected@, source@, level, context@, e),
{
    let at = fail.at;
    let (position, found) = if 0 <= at && at < t.len() as i128 {
        let i = at as usize;
        (t[i].position, token_debug_text(&t[i].token))
    } else if t.len() > 0 {
        (t[0].position, "unexpected token".to_owned())
    } else {
        (SourcePosition::new(1, 1, 0), "unexpected token".to_owned())
    };
    let expected = expected_names(&fail.expected);
    ParseError {
        position,
        error_type: Box::new(
            ParseErrorType::Syntax {
                expected,
                found: Some(found),
                context: context.to_owned(),
                peg_error: None,
                user_friendly_message: None,
            },
        ),
        source: source.to_owned(),
        level,
    }
}

} // verus!
