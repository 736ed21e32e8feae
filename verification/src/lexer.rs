//! Tokens of rig and schema files.
use vstd::prelude::*;

use crate::parser_errors::{
    char_utf8_width, line_col, utf8_len, ErrorLevel, ParseError, ParseErrorType, SourcePosition,
};
use crate::text::{chars_of, push_decimal, push_str, string_from_chars, decimal_chars};

verus! {

/// The kind of a token, without its text.
#[derive(Debug, Clone, Copy, PartialEq, Eq, Structural)]
pub enum TokenKind {
    Id,
    Float,
    Integer,
    HexNumber,
    Bytes,
    Str,
    Colon,
    Impl,
    For,
    Enum,
    Init,
    Fn,
    Status,
    Schema,
    If,
    Else,
    Int,
    Bool,
    BraceOpen,
    BraceClose,
    ParenOpen,
    ParenClose,
    EqualAssign,
    Equal,
    NotEqual,
    LessEqual,
    GreaterEqual,
    Less,
    Greater,
    And,
    Or,
    Plus,
    Minus,
    Multiply,
    Divide,
    Modulo,
    Semicolon,
    Comma,
    Dot,
    DoubleColon,
    NewLine,
    Comment,
}

/// A token; identifiers, numbers and literals carry their text as written.
#[derive(Debug, Clone)]
pub enum Token {
    Id(String),
    Float(String),
    Integer(String),
    HexNumber(String),
    Bytes(String),
    Str(String),
    Colon,
    Impl,
    For,
    Enum,
    Init,
    Fn,
    Status,
    Schema,
    If,
    Else,
    Int,
    Bool,
    BraceOpen,
    BraceClose,
    ParenOpen,
    ParenClose,
    EqualAssign,
    Equal,
    NotEqual,
    LessEqual,
    GreaterEqual,
    Less,
    Greater,
    And,
    Or,
    Plus,
    Minus,
    Multiply,
    Divide,
    Modulo,
    Semicolon,
    Comma,
    Dot,
    DoubleColon,
    NewLine,
    Comment,
}

/// A token and where it starts.
#[derive(Debug, Clone)]
pub struct TokenWithPosition {
    pub token: Token,
    pub position: SourcePosition,
}

pub open spec fn kind_of(t: Token) -> TokenKind {
    match t {
        Token::Id(_) => TokenKind::Id,
        Token::Float(_) => TokenKind::Float,
        Token::Integer(_) => TokenKind::Integer,
        Token::HexNumber(_) => TokenKind::HexNumber,
        Token::Bytes(_) => TokenKind::Bytes,
        Token::Str(_) => TokenKind::Str,
        Token::Colon => TokenKind::Colon,
        Token::Impl => TokenKind::Impl,
        Token::For => TokenKind::For,
        Token::Enum => TokenKind::Enum,
        Token::Init => TokenKind::Init,
        Token::Fn => TokenKind::Fn,
        Token::Status => TokenKind::Status,
        Token::Schema => TokenKind::Schema,
        Token::If => TokenKind::If,
        Token::Else => TokenKind::Else,
        Token::Int => TokenKind::Int,
        Token::Bool => TokenKind::Bool,
        Token::BraceOpen => TokenKind::BraceOpen,
        Token::BraceClose => TokenKind::BraceClose,
        Token::ParenOpen => TokenKind::ParenOpen,
        Token::ParenClose => TokenKind::ParenClose,
        Token::EqualAssign => TokenKind::EqualAssign,
        Token::Equal => TokenKind::Equal,
        Token::NotEqual => TokenKind::NotEqual,
        Token::LessEqual => TokenKind::LessEqual,
        Token::GreaterEqual => TokenKind::GreaterEqual,
        Token::Less => TokenKind::Less,
        Token::Greater => TokenKind::Greater,
        Token::And => TokenKind::And,
        Token::Or => TokenKind::Or,
        Token::Plus => TokenKind::Plus,
        Token::Minus => TokenKind::Minus,
        Token::Multiply => TokenKind::Multiply,
        Token::Divide => TokenKind::Divide,
        Token::Modulo => TokenKind::Modulo,
        Token::Semicolon => TokenKind::Semicolon,
        Token::Comma => TokenKind::Comma,
        Token::Dot => TokenKind::Dot,
        Token::DoubleColon => TokenKind::DoubleColon,
        Token::NewLine => TokenKind::NewLine,
        Token::Comment => TokenKind::Comment,
    }
}

/// Kinds whose tokens carry their text.
pub open spec fn has_text(k: TokenKind) -> bool {
    k == TokenKind::Id || k == TokenKind::Float || k == TokenKind::Integer || k == TokenKind::HexNumber
        || k == TokenKind::Bytes || k == TokenKind::Str
}

pub open spec fn text_of(t: Token) -> Seq<char> {
    match t {
        Token::Id(s) => s@,
        Token::Float(s) => s@,
        Token::Integer(s) => s@,
        Token::HexNumber(s) => s@,
        Token::Bytes(s) => s@,
        Token::Str(s) => s@,
        _ => Seq::empty(),
    }
}

// ---------------------------------------------------------------------------
// Model of the token syntax, over the characters of the source
// ---------------------------------------------------------------------------

pub open spec fn is_ident_start(c: char) -> bool {
    ('a' <= c <= 'z') || ('A' <= c <= 'Z') || c == '_'
}

pub open spec fn is_ident_char(c: char) -> bool {
    is_ident_start(c) || ('0' <= c <= '9')
}

pub open spec fn is_digit_char(c: char) -> bool {
    '0' <= c <= '9'
}

pub open spec fn is_hex_char(c: char) -> bool {
    ('0' <= c <= '9') || ('a' <= c <= 'f') || ('A' <= c <= 'F')
}

/// Characters skipped between tokens (newlines are tokens of their own).
pub open spec fn is_blank(c: char) -> bool {
    c == ' ' || c == '\t' || c == '\x0c'
}

/// Classes of characters that tokens are made of.
#[derive(Debug, Clone, Copy, PartialEq, Eq, Structural)]
pub enum CharClass {
    Ident,
    Hex,
    Digit,
    Blank,
}

pub open spec fn class_pred(k: CharClass) -> spec_fn(char) -> bool {
    match k {
        CharClass::Ident => |x: char| is_ident_char(x),
        CharClass::Hex => |x: char| is_hex_char(x),
        CharClass::Digit => |x: char| is_digit_char(x),
        CharClass::Blank => |x: char| is_blank(x),
    }
}

/// Number of characters from `p` on that satisfy `pred`.
pub open spec fn run_from(cs: Seq<char>, p: int, pred: spec_fn(char) -> bool) -> nat
    decreases cs.len() - p,
{
    if p < 0 || p >= cs.len() || !pred(cs[p]) {
        0
    } else {
        1 + run_from(cs, p + 1, pred)
    }
}

/// Number of characters from `p` on before the first `stop`, if there is one.
pub open spec fn until_from(cs: Seq<char>, p: int, stop: char) -> Option<nat>
    decreases cs.len() - p,
{
    if p < 0 || p >= cs.len() {
        None
    } else if cs[p] == stop {
        Some(0)
    } else {
        match until_from(cs, p + 1, stop) {
            Some(n) => Some(n + 1),
            None => None,
        }
    }
}

/// The keyword a word spells, or `Id`.
pub open spec fn keyword_kind(w: Seq<char>) -> TokenKind {
    if w == seq!['i', 'm', 'p', 'l'] {
        TokenKind::Impl
    } else if w == seq!['f', 'o', 'r'] {
        TokenKind::For
    } else if w == seq!['e', 'n', 'u', 'm'] {
        TokenKind::Enum
    } else if w == seq!['i', 'n', 'i', 't'] {
        TokenKind::Init
    } else if w == seq!['f', 'n'] {
        TokenKind::Fn
    } else if w == seq!['s', 't', 'a', 't', 'u', 's'] {
        TokenKind::Status
    } else if w == seq!['s', 'c', 'h', 'e', 'm', 'a'] {
        TokenKind::Schema
    } else if w == seq!['i', 'f'] {
        TokenKind::If
    } else if w == seq!['e', 'l', 's', 'e'] {
        TokenKind::Else
    } else if w == seq!['i', 'n', 't'] {
        TokenKind::Int
    } else if w == seq!['b', 'o', 'o', 'l'] {
        TokenKind::Bool
    } else {
        TokenKind::Id
    }
}

/// What the text at `p` starts with: a token and its length, blanks to skip,
/// or nothing that is a token.
#[derive(Debug, Clone, Copy, PartialEq, Eq, Structural)]
pub enum Lexeme {
    Token(TokenKind),
    Blank,
    Invalid,
}

/// Operators and punctuation at `p`; two-character ones take precedence.
pub open spec fn punct_at(cs: Seq<char>, p: int) -> (Lexeme, nat) {
    let c = cs[p];
    let has_next = p + 1 < cs.len();
    if has_next && c == '=' && cs[p + 1] == '=' {
        (Lexeme::Token(TokenKind::Equal), 2)
    } else if has_next && c == '!' && cs[p + 1] == '=' {
        (Lexeme::Token(TokenKind::NotEqual), 2)
    } else if has_next && c == '<' && cs[p + 1] == '=' {
        (Lexeme::Token(TokenKind::LessEqual), 2)
    } else if has_next && c == '>' && cs[p + 1] == '=' {
        (Lexeme::Token(TokenKind::GreaterEqual), 2)
    } else if has_next && c == '&' && cs[p + 1] == '&' {
        (Lexeme::Token(TokenKind::And), 2)
    } else if has_next && c == '|' && cs[p + 1] == '|' {
        (Lexeme::Token(TokenKind::Or), 2)
    } else if has_next && c == ':' && cs[p + 1] == ':' {
        (Lexeme::Token(TokenKind::DoubleColon), 2)
    } else if c == ':' {
        (Lexeme::Token(TokenKind::Colon), 1)
    } else if c == '{' {
        (Lexeme::Token(TokenKind::BraceOpen), 1)
    } else if c == '}' {
        (Lexeme::Token(TokenKind::BraceClose), 1)
    } else if c == '(' {
        (Lexeme::Token(TokenKind::ParenOpen), 1)
    } else if c == ')' {
        (Lexeme::Token(TokenKind::ParenClose), 1)
    } else if c == '=' {
        (Lexeme::Token(TokenKind::EqualAssign), 1)
    } else if c == '<' {
        (Lexeme::Token(TokenKind::Less), 1)
    } else if c == '>' {
        (Lexeme::Token(TokenKind::Greater), 1)
    } else if c == '+' {
        (Lexeme::Token(TokenKind::Plus), 1)
    } else if c == '-' {
        (Lexeme::Token(TokenKind::Minus), 1)
    } else if c == '*' {
        (Lexeme::Token(TokenKind::Multiply), 1)
    } else if c == '%' {
        (Lexeme::Token(TokenKind::Modulo), 1)
    } else if c == ';' {
        (Lexeme::Token(TokenKind::Semicolon), 1)
    } else if c == ',' {
        (Lexeme::Token(TokenKind::Comma), 1)
    } else if c == '.' {
        (Lexeme::Token(TokenKind::Dot), 1)
    } else if c == '\n' {
        (Lexeme::Token(TokenKind::NewLine), 1)
    } else {
        (Lexeme::Invalid, 0)
    }
}

/// The longest token (or run of blanks) that starts at `p`.
pub open spec fn lexeme_at(cs: Seq<char>, p: int) -> (Lexeme, nat) {
    let c = cs[p];
    let has_next = p < cs.len() - 1;
    if c == 's' && has_next && cs[p + 1] == '"' && until_from(cs, p + 2, '"') is Some {
        (Lexeme::Token(TokenKind::Str), until_from(cs, p + 2, '"')->0 + 3)
    } else if is_ident_start(c) {
        let n = 1 + run_from(cs, p + 1, class_pred(CharClass::Ident));
        (Lexeme::Token(keyword_kind(cs.subrange(p, p + n))), n)
    } else if is_digit_char(c) {
        let h = run_from(cs, p + 2, class_pred(CharClass::Hex));
        let d = run_from(cs, p, class_pred(CharClass::Digit));
        let e = run_from(cs, p + d + 1, class_pred(CharClass::Digit));
        if c == '0' && has_next && cs[p + 1] == 'x' && h > 0 {
            (Lexeme::Token(TokenKind::HexNumber), 2 + h)
        } else if p + d < cs.len() && cs[p + d] == '.' && e > 0 {
            (Lexeme::Token(TokenKind::Float), d + 1 + e)
        } else {
            (Lexeme::Token(TokenKind::Integer), d)
        }
    } else if c == '"' {
        match until_from(cs, p + 1, '"') {
            Some(n) => (Lexeme::Token(TokenKind::Bytes), n + 2),
            None => (Lexeme::Invalid, 0),
        }
    } else if c == '/' {
        if has_next && cs[p + 1] == '/' && until_from(cs, p + 2, '\n') is Some {
            (Lexeme::Token(TokenKind::Comment), until_from(cs, p + 2, '\n')->0 + 3)
        } else {
            (Lexeme::Token(TokenKind::Divide), 1)
        }
    } else if is_blank(c) {
        (Lexeme::Blank, run_from(cs, p, class_pred(CharClass::Blank)))
    } else {
        punct_at(cs, p)
    }
}

pub proof fn lemma_run_from(cs: Seq<char>, p: int, pred: spec_fn(char) -> bool)
    requires
        0 <= p,
    ensures
        p + run_from(cs, p, pred) <= cs.len() || run_from(cs, p, pred) == 0,
        forall|k: int| p <= k < p + run_from(cs, p, pred) ==> pred(#[trigger] cs[k]),
        p + run_from(cs, p, pred) < cs.len() ==> !pred(cs[p + run_from(cs, p, pred)]),
    decreases cs.len() - p,
{
    if p < cs.len() && pred(cs[p]) {
        lemma_run_from(cs, p + 1, pred);
    }
}

pub proof fn lemma_until_from(cs: Seq<char>, p: int, stop: char)
    requires
        0 <= p,
    ensures
        until_from(cs, p, stop) matches Some(n) ==> p + n < cs.len() && cs[p + n] == stop && forall|k: int|
            p <= k < p + n ==> #[trigger] cs[k] != stop,
        until_from(cs, p, stop) is None ==> forall|k: int| p <= k < cs.len() ==> #[trigger] cs[k] != stop,
    decreases cs.len() - p,
{
    if 0 <= p < cs.len() && cs[p] != stop {
        lemma_until_from(cs, p + 1, stop);
    }
}

/// Every token and blank run has a length, and lies within the text.
pub proof fn lemma_lexeme_len(cs: Seq<char>, p: int)
    requires
        0 <= p < cs.len(),
    ensures
        lexeme_at(cs, p).0 != Lexeme::Invalid ==> 1 <= lexeme_at(cs, p).1 && p + lexeme_at(cs, p).1 <= cs.len(),
{
    lemma_run_from(cs, p + 1, class_pred(CharClass::Ident));
    lemma_run_from(cs, p + 2, class_pred(CharClass::Hex));
    lemma_run_from(cs, p, class_pred(CharClass::Digit));
    let d = run_from(cs, p, class_pred(CharClass::Digit));
    lemma_run_from(cs, p + d + 1, class_pred(CharClass::Digit));
    lemma_run_from(cs, p, class_pred(CharClass::Blank));
    lemma_until_from(cs, p + 2, '"');
    lemma_until_from(cs, p + 1, '"');
    lemma_until_from(cs, p + 2, '\n');
}

/// The tokens of `cs` from `p` on, as (kind, start, end), or the position of
/// the first character that starts no token.
pub open spec fn lex_from(cs: Seq<char>, p: int) -> Result<Seq<(TokenKind, int, int)>, int>
    decreases cs.len() - p,
{
    if p < 0 || p >= cs.len() {
        Ok(Seq::empty())
    } else {
        proof {
            lemma_lexeme_len(cs, p);
        }
        let (l, n) = lexeme_at(cs, p);
        match l {
            Lexeme::Invalid => Err(p),
            Lexeme::Blank => lex_from(cs, p + n),
            Lexeme::Token(k) => match lex_from(cs, p + n) {
                Ok(t) => Ok(seq![(k, p, p + n)] + t),
                Err(e) => Err(e),
            },
        }
    }
}

/// Tokens other than comments and newlines.
pub open spec fn significant(toks: Seq<(TokenKind, int, int)>) -> Seq<(TokenKind, int, int)>
    decreases toks.len(),
{
    if toks.len() == 0 {
        toks
    } else if toks[0].0 == TokenKind::Comment || toks[0].0 == TokenKind::NewLine {
        significant(toks.drop_first())
    } else {
        seq![toks[0]] + significant(toks.drop_first())
    }
}

/// Position of character `p` of `cs`.
pub open spec fn char_position(cs: Seq<char>, p: int) -> SourcePosition {
    let (l, c) = line_col(cs.take(p));
    SourcePosition { line: l as usize, column: c as usize, offset: utf8_len(cs.take(p)) as usize }
}

/// A token read from `cs` that matches the model's (kind, start, end).
pub open spec fn token_matches(cs: Seq<char>, t: TokenWithPosition, m: (TokenKind, int, int)) -> bool {
    &&& kind_of(t.token) == m.0
    &&& has_text(m.0) ==> text_of(t.token) == cs.subrange(m.1, m.2)
    &&& t.position == char_position(cs, m.1)
}

/// The message of a tokenization error at byte `offset`.
pub open spec fn tokenize_message(offset: nat) -> Seq<char> {
    "Unable to tokenize input at position "@ + decimal_chars(offset)
}

/// The tokens of `source`, without comments and newlines, each with its
/// position; or the position of the first character that starts no token.
pub open spec fn tokens_ok(source: Seq<char>, r: Result<Vec<TokenWithPosition>, ParseError>) -> bool {
    match (r, lex_from(source, 0)) {
        (Ok(v), Ok(toks)) => {
            let sig = significant(toks);
            &&& v@.len() == sig.len()
            &&& forall|i: int| 0 <= i < sig.len() ==> token_matches(source, #[trigger] v@[i], sig[i])
        },
        (Err(e), Err(p)) => tokenize_error_is(source, p, e),
        _ => false,
    }
}

/// The error reported when character `p` of `source` starts no token.
pub open spec fn tokenize_error_is(source: Seq<char>, p: int, e: ParseError) -> bool {
    &&& e.position == char_position(source, p)
    &&& e.source@ == source
    &&& *e.error_type matches ParseErrorType::Tokenization { message, context }
    &&& message@ == tokenize_message(utf8_len(source.take(p)))
    &&& context@ == "Invalid character or token"@
}


// ---------------------------------------------------------------------------
// Implementation
// ---------------------------------------------------------------------------

fn in_class(c: char, k: CharClass) -> (r: bool)
    ensures
        r == class_pred(k)(c),
{
    match k {
        CharClass::Ident => ('a' <= c && c <= 'z') || ('A' <= c && c <= 'Z') || c == '_' || ('0' <= c
            && c <= '9'),
        CharClass::Hex => ('0' <= c && c <= '9') || ('a' <= c && c <= 'f') || ('A' <= c && c <= 'F'),
        CharClass::Digit => '0' <= c && c <= '9',
        CharClass::Blank => c == ' ' || c == '\t' || c == '\x0c',
    }
}

fn run_length(cs: &Vec<char>, p: usize, k: CharClass) -> (n: usize)
    ensures
        n == run_from(cs@, p as int, class_pred(k)),
{
    let mut j: usize = p;
    if j >= cs.len() {
        return 0;
    }
    while j < cs.len() && in_class(cs[j], k)
        invariant
            p <= j <= cs@.len(),
            run_from(cs@, p as int, class_pred(k)) == (j - p) + run_from(cs@, j as int, class_pred(k)),
        decreases cs@.len() - j,
    {
        j = j + 1;
    }
    j - p
}

fn until_char(cs: &Vec<char>, p: usize, stop: char) -> (r: Option<usize>)
    ensures
        r matches Some(n) ==> until_from(cs@, p as int, stop) == Some(n as nat),
        r is None ==> until_from(cs@, p as int, stop) is None,
{
    let mut j: usize = p;
    while j < cs.len() && cs[j] != stop
        invariant
            p <= j,
            j <= cs@.len() || j == p,
            until_from(cs@, p as int, stop) == (match until_from(cs@, j as int, stop) {
                Some(n) => Some((n + (j - p)) as nat),
                None => None::<nat>,
            }),
        decreases cs@.len() - j,
    {
        j = j + 1;
    }
    if j < cs.len() {
        Some(j - p)
    } else {
        None
    }
}

fn word_is(cs: &Vec<char>, a: usize, b: usize, w: &[char]) -> (r: bool)
    requires
        a <= b <= cs@.len(),
    ensures
        r == (cs@.subrange(a as int, b as int) == w@),
{
    if b - a != w.len() {
        return false;
    }
    let mut i: usize = 0;
    while i < w.len()
        invariant
            b - a == w@.len(),
            a <= b <= cs@.len(),
            i <= w@.len(),
            forall|k: int| 0 <= k < i ==> cs@[a + k] == w@[k],
        decreases w@.len() - i,
    {
        if cs[a + i] != w[i] {
            assert(cs@.subrange(a as int, b as int)[i as int] != w@[i as int]);
            return false;
        }
        i = i + 1;
    }
    assert(cs@.subrange(a as int, b as int) =~= w@);
    true
}

fn keyword(cs: &Vec<char>, a: usize, b: usize) -> (k: TokenKind)
    requires
        a <= b <= cs@.len(),
    ensures
        k == keyword_kind(cs@.subrange(a as int, b as int)),
{
    let ghost w = cs@.subrange(a as int, b as int);
    if word_is(cs, a, b, &['i', 'm', 'p', 'l']) {
        assert(w == seq!['i', 'm', 'p', 'l']);
        TokenKind::Impl
    } else if word_is(cs, a, b, &['f', 'o', 'r']) {
        TokenKind::For
    } else if word_is(cs, a, b, &['e', 'n', 'u', 'm']) {
        TokenKind::Enum
    } else if word_is(cs, a, b, &['i', 'n', 'i', 't']) {
        TokenKind::Init
    } else if word_is(cs, a, b, &['f', 'n']) {
        TokenKind::Fn
    } else if word_is(cs, a, b, &['s', 't', 'a', 't', 'u', 's']) {
        TokenKind::Status
    } else if word_is(cs, a, b, &['s', 'c', 'h', 'e', 'm', 'a']) {
        TokenKind::Schema
    } else if word_is(cs, a, b, &['i', 'f']) {
        TokenKind::If
    } else if word_is(cs, a, b, &['e', 'l', 's', 'e']) {
        TokenKind::Else
    } else if word_is(cs, a, b, &['i', 'n', 't']) {
        TokenKind::Int
    } else if word_is(cs, a, b, &['b', 'o', 'o', 'l']) {
        TokenKind::Bool
    } else {
        TokenKind::Id
    }
}


fn punct(cs: &Vec<char>, p: usize) -> (r: (Lexeme, usize))
    requires
        p < cs@.len(),
    ensures
        r.0 == punct_at(cs@, p as int).0,
        r.1 == punct_at(cs@, p as int).1,
{
    let c = cs[p];
    let next: Option<char> = if p < cs.len() - 1 { Some(cs[p + 1]) } else { None };
    let two = match next {
        Some(d) => if c == '=' && d == '=' {
            Some(TokenKind::Equal)
        } else if c == '!' && d == '=' {
            Some(TokenKind::NotEqual)
        } else if c == '<' && d == '=' {
            Some(TokenKind::LessEqual)
        } else if c == '>' && d == '=' {
            Some(TokenKind::GreaterEqual)
        } else if c == '&' && d == '&' {
            Some(TokenKind::And)
        } else if c == '|' && d == '|' {
            Some(TokenKind::Or)
        } else if c == ':' && d == ':' {
            Some(TokenKind::DoubleColon)
        } else {
            None
        },
        None => None,
    };
    if let Some(k) = two {
        return (Lexeme::Token(k), 2);
    }
    let one = if c == ':' {
        TokenKind::Colon
    } else if c == '{' {
        TokenKind::BraceOpen
    } else if c == '}' {
        TokenKind::BraceClose
    } else if c == '(' {
        TokenKind::ParenOpen
    } else if c == ')' {
        TokenKind::ParenClose
    } else if c == '=' {
        TokenKind::EqualAssign
    } else if c == '<' {
        TokenKind::Less
    } else if c == '>' {
        TokenKind::Greater
    } else if c == '+' {
        TokenKind::Plus
    } else if c == '-' {
        TokenKind::Minus
    } else if c == '*' {
        TokenKind::Multiply
    } else if c == '%' {
        TokenKind::Modulo
    } else if c == ';' {
        TokenKind::Semicolon
    } else if c == ',' {
        TokenKind::Comma
    } else if c == '.' {
        TokenKind::Dot
    } else if c == '\n' {
        TokenKind::NewLine
    } else {
        return (Lexeme::Invalid, 0);
    };
    (Lexeme::Token(one), 1)
}

fn lexeme(cs: &Vec<char>, p: usize) -> (r: (Lexeme, usize))
    requires
        p < cs@.len(),
    ensures
        r.0 == lexeme_at(cs@, p as int).0,
        r.1 == lexeme_at(cs@, p as int).1,
{
    proof {
        lemma_lexeme_len(cs@, p as int);
    }
    let c = cs[p];
    let has_next = p < cs.len() - 1;
    if c == 's' && has_next && cs[p + 1] == '"' {
        if let Some(n) = until_char(cs, p + 2, '"') {
            proof {
                lemma_until_from(cs@, p + 2, '"');
            }
            return (Lexeme::Token(TokenKind::Str), n + 3);
        }
    }
    if ('a' <= c && c <= 'z') || ('A' <= c && c <= 'Z') || c == '_' {
        let n = 1 + run_length(cs, p + 1, CharClass::Ident);
        return (Lexeme::Token(keyword(cs, p, p + n)), n);
    }
    if '0' <= c && c <= '9' {
        if c == '0' && has_next && cs[p + 1] == 'x' {
            let h = run_length(cs, p + 2, CharClass::Hex);
            if h > 0 {
                return (Lexeme::Token(TokenKind::HexNumber), 2 + h);
            }
        }
        let d = run_length(cs, p, CharClass::Digit);
        if p + d < cs.len() && cs[p + d] == '.' {
            let e = run_length(cs, p + d + 1, CharClass::Digit);
            if e > 0 {
                return (Lexeme::Token(TokenKind::Float), d + 1 + e);
            }
        }
        return (Lexeme::Token(TokenKind::Integer), d);
    }
    if c == '"' {
        match until_char(cs, p + 1, '"') {
            Some(n) => {
                proof {
                    lemma_until_from(cs@, p + 1, '"');
                }
                return (Lexeme::Token(TokenKind::Bytes), n + 2);
            },
            None => {
                return (Lexeme::Invalid, 0);
            },
        }
    }
    if c == '/' {
        if has_next && cs[p + 1] == '/' {
            if let Some(n) = until_char(cs, p + 2, '\n') {
                proof {
                    lemma_until_from(cs@, p + 2, '\n');
                }
                return (Lexeme::Token(TokenKind::Comment), n + 3);
            }
        }
        return (Lexeme::Token(TokenKind::Divide), 1);
    }
    if c == ' ' || c == '\t' || c == '\x0c' {
        return (Lexeme::Blank, run_length(cs, p, CharClass::Blank));
    }
    punct(cs, p)
}

fn token_with_text(k: TokenKind, text: String) -> (t: Token)
    ensures
        kind_of(t) == k,
        has_text(k) ==> text_of(t) == text@,
{
    match k {
        TokenKind::Id => Token::Id(text),
        TokenKind::Float => Token::Float(text),
        TokenKind::Integer => Token::Integer(text),
        TokenKind::HexNumber => Token::HexNumber(text),
        TokenKind::Bytes => Token::Bytes(text),
        TokenKind::Str => Token::Str(text),
        TokenKind::Colon => Token::Colon,
        TokenKind::Impl => Token::Impl,
        TokenKind::For => Token::For,
        TokenKind::Enum => Token::Enum,
        TokenKind::Init => Token::Init,
        TokenKind::Fn => Token::Fn,
        TokenKind::Status => Token::Status,
        TokenKind::Schema => Token::Schema,
        TokenKind::If => Token::If,
        TokenKind::Else => Token::Else,
        TokenKind::Int => Token::Int,
        TokenKind::Bool => Token::Bool,
        TokenKind::BraceOpen => Token::BraceOpen,
        TokenKind::BraceClose => Token::BraceClose,
        TokenKind::ParenOpen => Token::ParenOpen,
        TokenKind::ParenClose => Token::ParenClose,
        TokenKind::EqualAssign => Token::EqualAssign,
        TokenKind::Equal => Token::Equal,
        TokenKind::NotEqual => Token::NotEqual,
        TokenKind::LessEqual => Token::LessEqual,
        TokenKind::GreaterEqual => Token::GreaterEqual,
        TokenKind::Less => Token::Less,
        TokenKind::Greater => Token::Greater,
        TokenKind::And => Token::And,
        TokenKind::Or => Token::Or,
        TokenKind::Plus => Token::Plus,
        TokenKind::Minus => Token::Minus,
        TokenKind::Multiply => Token::Multiply,
        TokenKind::Divide => Token::Divide,
        TokenKind::Modulo => Token::Modulo,
        TokenKind::Semicolon => Token::Semicolon,
        TokenKind::Comma => Token::Comma,
        TokenKind::Dot => Token::Dot,
        TokenKind::DoubleColon => Token::DoubleColon,
        TokenKind::NewLine => Token::NewLine,
        TokenKind::Comment => Token::Comment,
    }
}

pub open spec fn prepend_tokens(
    done: Seq<(TokenKind, int, int)>,
    r: Result<Seq<(TokenKind, int, int)>, int>,
) -> Result<Seq<(TokenKind, int, int)>, int> {
    match r {
        Ok(t) => Ok(done + t),
        Err(e) => Err(e),
    }
}

proof fn lemma_significant_append(a: Seq<(TokenKind, int, int)>, b: Seq<(TokenKind, int, int)>)
    ensures
        significant(a + b) == significant(a) + significant(b),
    decreases a.len(),
{
    if a.len() == 0 {
        assert(a + b =~= b);
        assert(significant(a) + significant(b) =~= significant(b));
    } else {
        assert((a + b).drop_first() =~= a.drop_first() + b);
        lemma_significant_append(a.drop_first(), b);
        if !(a[0].0 == TokenKind::Comment || a[0].0 == TokenKind::NewLine) {
            assert(seq![a[0]] + (significant(a.drop_first()) + significant(b)) =~= (seq![a[0]]
                + significant(a.drop_first())) + significant(b));
        }
    }
}

/// Line, column and byte count after moving from character `p` to `q`.
fn advance(cs: &Vec<char>, p: usize, q: usize, line: u128, column: u128, bytes: u128) -> (r: (u128, u128, u128))
    requires
        p <= q <= cs@.len(),
        (line as nat, column as nat) == line_col(cs@.take(p as int)),
        bytes == utf8_len(cs@.take(p as int)),
        line <= p + 1,
        column <= p + 1,
        bytes <= 4 * p,
    ensures
        (r.0 as nat, r.1 as nat) == line_col(cs@.take(q as int)),
        r.2 == utf8_len(cs@.take(q as int)),
        r.0 <= q + 1,
        r.1 <= q + 1,
        r.2 <= 4 * q,
{
    let mut i = p;
    let mut line = line;
    let mut column = column;
    let mut bytes = bytes;
    while i < q
        invariant
            p <= i <= q <= cs@.len(),
            (line as nat, column as nat) == line_col(cs@.take(i as int)),
            bytes == utf8_len(cs@.take(i as int)),
            line <= i + 1,
            column <= i + 1,
            bytes <= 4 * i,
        decreases q - i,
    {
        assert(cs@.take(i + 1).drop_last() =~= cs@.take(i as int));
        let c = cs[i];
        if c == '\n' {
            line = line + 1;
            column = 1;
        } else {
            column = column + 1;
        }
        bytes = bytes + char_utf8_width(c) as u128;
        i = i + 1;
    }
    (line, column, bytes)
}

/// Split `source` into tokens, dropping blanks, comments and newlines.
pub fn tokenize(source: &str, level: ErrorLevel) -> (r: Result<Vec<TokenWithPosition>, ParseError>)
    ensures
        tokens_ok(source@, r),
        r matches Err(e) ==> e.level == level,
{
    let cs = chars_of(source);
    let ghost text = cs@;
    let mut out: Vec<TokenWithPosition> = Vec::new();
    let ghost mut done: Seq<(TokenKind, int, int)> = Seq::empty();
    let mut p: usize = 0;
    let mut line: u128 = 1;
    let mut column: u128 = 1;
    let mut bytes: u128 = 0;
    assert(text.take(0) =~= Seq::<char>::empty());
    proof {
        match lex_from(text, 0) {
            Ok(t) => {
                assert(done + t =~= t);
            },
            Err(_) => {},
        }
    }
    while p < cs.len()
        invariant
            cs@ == text,
            text == source@,
            p <= text.len(),
            lex_from(text, 0) == prepend_tokens(done, lex_from(text, p as int)),
            out@.len() == significant(done).len(),
            forall|i: int| 0 <= i < out@.len() ==> token_matches(text, #[trigger] out@[i], significant(done)[i]),
            (line as nat, column as nat) == line_col(text.take(p as int)),
            bytes == utf8_len(text.take(p as int)),
            line <= p + 1,
            column <= p + 1,
            bytes <= 4 * p,
        decreases text.len() - p,
    {
        proof {
            lemma_lexeme_len(text, p as int);
        }
        let (lx, n) = lexeme(&cs, p);
        match lx {
            Lexeme::Invalid => {
                let mut message: Vec<char> = Vec::new();
                push_str(&mut message, "Unable to tokenize input at position ");
                push_decimal(&mut message, bytes);
                let position = SourcePosition {
                    line: line as usize,
                    column: column as usize,
                    offset: bytes as usize,
                };
                return Err(
                    ParseError {
                        position,
                        error_type: Box::new(
                            ParseErrorType::Tokenization {
                                message: string_from_chars(message.as_slice()),
                                context: "Invalid character or token".to_owned(),
                            },
                        ),
                        source: source.to_owned(),
                        level,
                    },
                );
            },
            Lexeme::Blank => {},
            Lexeme::Token(k) => {
                let ghost item = (k, p as int, (p + n) as int);
                if k != TokenKind::Comment && k != TokenKind::NewLine {
                    let text_chars = vstd::slice::slice_subrange(cs.as_slice(), p, p + n);
                    let token = token_with_text(k, string_from_chars(text_chars));
                    let position = SourcePosition {
                        line: line as usize,
                        column: column as usize,
                        offset: bytes as usize,
                    };
                    out.push(TokenWithPosition { token, position });
                }
                proof {
                    lemma_significant_append(done, seq![item]);
                    reveal_with_fuel(significant, 2);
                    assert(seq![item].drop_first() =~= Seq::<(TokenKind, int, int)>::empty());
                    match lex_from(text, p + n) {
                        Ok(t) => {
                            assert(done + (seq![item] + t) =~= done.push(item) + t);
                        },
                        Err(_) => {},
                    }
                    assert(done + seq![item] =~= done.push(item));
                    done = done.push(item);
                }
            },
        }
        let (l2, c2, b2) = advance(&cs, p, p + n, line, column, bytes);
        line = l2;
        column = c2;
        bytes = b2;
        p = p + n;
    }
    proof {
        assert(done + Seq::<(TokenKind, int, int)>::empty() =~= done);
    }
    Ok(out)
}


/// The name of a token kind, as the token's debug form begins.
pub open spec fn kind_name(k: TokenKind) -> Seq<char> {
    match k {
        TokenKind::Id => "Id"@,
        TokenKind::Float => "Float"@,
        TokenKind::Integer => "Integer"@,
        TokenKind::HexNumber => "HexNumber"@,
        TokenKind::Bytes => "Bytes"@,
        TokenKind::Str => "Str"@,
        TokenKind::Colon => "Colon"@,
        TokenKind::Impl => "Impl"@,
        TokenKind::For => "For"@,
        TokenKind::Enum => "Enum"@,
        TokenKind::Init => "Init"@,
        TokenKind::Fn => "Fn"@,
        TokenKind::Status => "Status"@,
        TokenKind::Schema => "Schema"@,
        TokenKind::If => "If"@,
        TokenKind::Else => "Else"@,
        TokenKind::Int => "Int"@,
        TokenKind::Bool => "Bool"@,
        TokenKind::BraceOpen => "BraceOpen"@,
        TokenKind::BraceClose => "BraceClose"@,
        TokenKind::ParenOpen => "ParenOpen"@,
        TokenKind::ParenClose => "ParenClose"@,
        TokenKind::EqualAssign => "EqualAssign"@,
        TokenKind::Equal => "Equal"@,
        TokenKind::NotEqual => "NotEqual"@,
        TokenKind::LessEqual => "LessEqual"@,
        TokenKind::GreaterEqual => "GreaterEqual"@,
        TokenKind::Less => "Less"@,
        TokenKind::Greater => "Greater"@,
        TokenKind::And => "And"@,
        TokenKind::Or => "Or"@,
        TokenKind::Plus => "Plus"@,
        TokenKind::Minus => "Minus"@,
        TokenKind::Multiply => "Multiply"@,
        TokenKind::Divide => "Divide"@,
        TokenKind::Modulo => "Modulo"@,
        TokenKind::Semicolon => "Semicolon"@,
        TokenKind::Comma => "Comma"@,
        TokenKind::Dot => "Dot"@,
        TokenKind::DoubleColon => "DoubleColon"@,
        TokenKind::NewLine => "NewLine"@,
        TokenKind::Comment => "Comment"@,
    }
}

fn kind_name_str(k: TokenKind) -> (s: &'static str)
    ensures
        s@ == kind_name(k),
{
    match k {
        TokenKind::Id => "Id",
        TokenKind::Float => "Float",
        TokenKind::Integer => "Integer",
        TokenKind::HexNumber => "HexNumber",
        TokenKind::Bytes => "Bytes",
        TokenKind::Str => "Str",
        TokenKind::Colon => "Colon",
        TokenKind::Impl => "Impl",
        TokenKind::For => "For",
        TokenKind::Enum => "Enum",
        TokenKind::Init => "Init",
        TokenKind::Fn => "Fn",
        TokenKind::Status => "Status",
        TokenKind::Schema => "Schema",
        TokenKind::If => "If",
        TokenKind::Else => "Else",
        TokenKind::Int => "Int",
        TokenKind::Bool => "Bool",
        TokenKind::BraceOpen => "BraceOpen",
        TokenKind::BraceClose => "BraceClose",
        TokenKind::ParenOpen => "ParenOpen",
        TokenKind::ParenClose => "ParenClose",
        TokenKind::EqualAssign => "EqualAssign",
        TokenKind::Equal => "Equal",
        TokenKind::NotEqual => "NotEqual",
        TokenKind::LessEqual => "LessEqual",
        TokenKind::GreaterEqual => "GreaterEqual",
        TokenKind::Less => "Less",
        TokenKind::Greater => "Greater",
        TokenKind::And => "And",
        TokenKind::Or => "Or",
        TokenKind::Plus => "Plus",
        TokenKind::Minus => "Minus",
        TokenKind::Multiply => "Multiply",
        TokenKind::Divide => "Divide",
        TokenKind::Modulo => "Modulo",
        TokenKind::Semicolon => "Semicolon",
        TokenKind::Comma => "Comma",
        TokenKind::Dot => "Dot",
        TokenKind::DoubleColon => "DoubleColon",
        TokenKind::NewLine => "NewLine",
        TokenKind::Comment => "Comment",
    }
}

/// The text `s` as `Debug` writes a string slice: quoted, with escapes.
pub uninterp spec fn debug_str(s: Seq<char>) -> Seq<char>;

/// `<str as Debug>::fmt` through `format!`: depends on the characters of `s` alone.
#[verifier::external_body]
pub(crate) fn debug_quoted(s: &str) -> (r: String)
    ensures
        r@ == debug_str(s@),
{
    format!("{:?}", s)
}

/// The debug form of a token: its kind, then its quoted text if it has one.
pub open spec fn token_debug(t: Token) -> Seq<char> {
    debug_of(kind_of(t), text_of(t))
}

/// The debug form of a token of kind `k` with text `text`.
pub open spec fn debug_of(k: TokenKind, text: Seq<char>) -> Seq<char> {
    if has_text(k) {
        kind_name(k) + "("@ + debug_str(text) + ")"@
    } else {
        kind_name(k)
    }
}

/// The debug form of a token.
pub fn token_debug_text(t: &Token) -> (s: String)
    ensures
        s@ == token_debug(*t),
{
    let k = token_kind(t);
    let mut out: Vec<char> = Vec::new();
    push_str(&mut out, kind_name_str(k));
    match t {
        Token::Id(s) | Token::Float(s) | Token::Integer(s) | Token::HexNumber(s) | Token::Bytes(s) | Token::Str(s) => {
            push_str(&mut out, "(");
            let q = debug_quoted(s.as_str());
            push_str(&mut out, q.as_str());
            push_str(&mut out, ")");
        },
        _ => {},
    }
    string_from_chars(out.as_slice())
}


pub fn token_kind(t: &Token) -> (k: TokenKind)
    ensures
        k == kind_of(*t),
{
    match t {
        Token::Id(_) => TokenKind::Id,
        Token::Float(_) => TokenKind::Float,
        Token::Integer(_) => TokenKind::Integer,
        Token::HexNumber(_) => TokenKind::HexNumber,
        Token::Bytes(_) => TokenKind::Bytes,
        Token::Str(_) => TokenKind::Str,
        Token::Colon => TokenKind::Colon,
        Token::Impl => TokenKind::Impl,
        Token::For => TokenKind::For,
        Token::Enum => TokenKind::Enum,
        Token::Init => TokenKind::Init,
        Token::Fn => TokenKind::Fn,
        Token::Status => TokenKind::Status,
        Token::Schema => TokenKind::Schema,
        Token::If => TokenKind::If,
        Token::Else => TokenKind::Else,
        Token::Int => TokenKind::Int,
        Token::Bool => TokenKind::Bool,
        Token::BraceOpen => TokenKind::BraceOpen,
        Token::BraceClose => TokenKind::BraceClose,
        Token::ParenOpen => TokenKind::ParenOpen,
        Token::ParenClose => TokenKind::ParenClose,
        Token::EqualAssign => TokenKind::EqualAssign,
        Token::Equal => TokenKind::Equal,
        Token::NotEqual => TokenKind::NotEqual,
        Token::LessEqual => TokenKind::LessEqual,
        Token::GreaterEqual => TokenKind::GreaterEqual,
        Token::Less => TokenKind::Less,
        Token::Greater => TokenKind::Greater,
        Token::And => TokenKind::And,
        Token::Or => TokenKind::Or,
        Token::Plus => TokenKind::Plus,
        Token::Minus => TokenKind::Minus,
        Token::Multiply => TokenKind::Multiply,
        Token::Divide => TokenKind::Divide,
        Token::Modulo => TokenKind::Modulo,
        Token::Semicolon => TokenKind::Semicolon,
        Token::Comma => TokenKind::Comma,
        Token::Dot => TokenKind::Dot,
        Token::DoubleColon => TokenKind::DoubleColon,
        Token::NewLine => TokenKind::NewLine,
        Token::Comment => TokenKind::Comment,
    }
}

pub fn token_text(t: &Token) -> (s: String)
    ensures
        s@ == text_of(*t),
{
    match t {
        Token::Id(s) => s.clone(),
        Token::Float(s) => s.clone(),
        Token::Integer(s) => s.clone(),
        Token::HexNumber(s) => s.clone(),
        Token::Bytes(s) => s.clone(),
        Token::Str(s) => s.clone(),
        _ => String::new(),
    }
}


/// Whether tokens include a comment or a line break.
pub open spec fn has_layout(toks: Seq<(TokenKind, int, int)>) -> bool {
    exists|i: int| 0 <= i < toks.len() && is_layout(#[trigger] toks[i])
}

/// A comment or a line break.
pub open spec fn is_layout(t: (TokenKind, int, int)) -> bool {
    t.0 == TokenKind::Comment || t.0 == TokenKind::NewLine
}

proof fn lemma_has_layout_push(done: Seq<(TokenKind, int, int)>, item: (TokenKind, int, int))
    ensures
        has_layout(done.push(item)) == (has_layout(done) || is_layout(item)),
{
    let next = done.push(item);
    if has_layout(done) {
        let i = choose|i: int| 0 <= i < done.len() && is_layout(#[trigger] done[i]);
        assert(next[i] == done[i]);
    }
    if is_layout(item) {
        assert(next[done.len() as int] == item);
    }
    if has_layout(next) {
        let i = choose|i: int| 0 <= i < next.len() && is_layout(#[trigger] next[i]);
        if i < done.len() {
            assert(next[i] == done[i]);
        } else {
            assert(next[i] == item);
        }
    }
}

/// Whether the tokens of `cs` include a comment or a line break.
pub(crate) fn layout_in(cs: &Vec<char>) -> (r: bool)
    requires
        lex_from(cs@, 0) is Ok,
    ensures
        r == has_layout(lex_from(cs@, 0)->Ok_0),
{
    let ghost text = cs@;
    let ghost mut done: Seq<(TokenKind, int, int)> = Seq::empty();
    let mut found = false;
    let mut p: usize = 0;
    assert(lex_from(text, 0) == prepend_tokens(done, lex_from(text, 0))) by {
        assert(done + lex_from(text, 0)->Ok_0 =~= lex_from(text, 0)->Ok_0);
    }
    while p < cs.len()
        invariant
            text == cs@,
            p <= text.len(),
            lex_from(text, 0) is Ok,
            lex_from(text, 0) == prepend_tokens(done, lex_from(text, p as int)),
            found == has_layout(done),
        decreases text.len() - p,
    {
        proof {
            lemma_lexeme_len(text, p as int);
        }
        let (lx, n) = lexeme(cs, p);
        match lx {
            Lexeme::Invalid => {
                assert(lex_from(text, p as int) is Err);
                assert(false);
            },
            Lexeme::Blank => {},
            Lexeme::Token(k) => {
                let ghost item = (k, p as int, (p + n) as int);
                if k == TokenKind::Comment || k == TokenKind::NewLine {
                    found = true;
                }
                proof {
                    match lex_from(text, p + n) {
                        Ok(t) => {
                            assert(done + (seq![item] + t) =~= done.push(item) + t);
                        },
                        Err(_) => {},
                    }
                    let ghost next = done.push(item);
                    lemma_has_layout_push(done, item);
                    done = next;
                }
            },
        }
        p = p + n;
    }
    proof {
        assert(done + Seq::<(TokenKind, int, int)>::empty() =~= done);
    }
    found
}

} // verus!
