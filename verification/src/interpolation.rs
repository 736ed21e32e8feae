//! Byte string literals of rig files: hexadecimal bytes (`"FE.FE.94"`), or,
//! where the text holds braces, a template that mixes literal bytes with
//! variables written in a data format (`"FEFE{freq:bcd_lu:5}FD"`).
use vstd::prelude::*;

use crate::parser::InterpolationPart;
use crate::text::{chars_of, string_from_chars};
use vstd::string::StringSliceAdditionalSpecFns;

verus! {

/// A template piece with its names as characters.
pub enum PartView {
    Literal(Seq<u8>),
    Variable(Seq<char>, Option<Seq<char>>, nat),
}

pub open spec fn part_view(p: InterpolationPart) -> PartView {
    match p {
        InterpolationPart::Literal(b) => PartView::Literal(b@),
        InterpolationPart::Variable { name, format, length } => PartView::Variable(
            name@,
            match format {
                Some(f) => Some(f@),
                None => None,
            },
            length as nat,
        ),
    }
}

/// What a byte string literal stands for.
pub enum BytesValue {
    Bytes(Seq<u8>),
    Interp(Seq<PartView>),
    Text(Seq<char>),
}

// ---------------------------------------------------------------------------
// Hexadecimal bytes
// ---------------------------------------------------------------------------

pub open spec fn is_hex(c: char) -> bool {
    ('0' <= c <= '9') || ('a' <= c <= 'f') || ('A' <= c <= 'F')
}

pub open spec fn is_hex_letter(c: char) -> bool {
    ('a' <= c <= 'f') || ('A' <= c <= 'F')
}

pub open spec fn hex_val(c: char) -> int {
    if '0' <= c <= '9' {
        c as int - 48
    } else if 'a' <= c <= 'f' {
        c as int - 87
    } else {
        c as int - 55
    }
}

/// The characters without the `.` separators.
pub open spec fn without_dots(cs: Seq<char>) -> Seq<char>
    decreases cs.len(),
{
    if cs.len() == 0 {
        cs
    } else if cs.last() == '.' {
        without_dots(cs.drop_last())
    } else {
        without_dots(cs.drop_last()).push(cs.last())
    }
}

/// The byte one or two characters spell in hexadecimal (a leading `+` is allowed before one digit).
pub open spec fn chunk_byte(c: Seq<char>) -> Option<u8> {
    if c.len() == 1 && is_hex(c[0]) {
        Some(hex_val(c[0]) as u8)
    } else if c.len() == 2 && c[0] == '+' && is_hex(c[1]) {
        Some(hex_val(c[1]) as u8)
    } else if c.len() == 2 && is_hex(c[0]) && is_hex(c[1]) {
        Some((16 * hex_val(c[0]) + hex_val(c[1])) as u8)
    } else {
        None
    }
}

/// The bytes of characters read two at a time, if every pair is a byte.
pub open spec fn chunk_bytes(cs: Seq<char>) -> Option<Seq<u8>>
    decreases cs.len(),
{
    if cs.len() == 0 {
        Some(Seq::empty())
    } else {
        let n = if cs.len() >= 2 {
            2int
        } else {
            1int
        };
        match (chunk_byte(cs.take(n)), chunk_bytes(cs.skip(n))) {
            (Some(b), Some(rest)) => Some(seq![b] + rest),
            _ => None,
        }
    }
}

/// The bytes of a hexadecimal literal with optional dots.
pub open spec fn hex_bytes(cs: Seq<char>) -> Option<Seq<u8>> {
    chunk_bytes(without_dots(cs))
}

// ---------------------------------------------------------------------------
// Templates: their tokens
// ---------------------------------------------------------------------------

/// A token of a template.
pub enum StrTok {
    HexString(Seq<char>),
    Dot,
    BraceOpen,
    BraceClose,
    Colon,
    Id(Seq<char>),
    Integer(Seq<char>),
    Other(char),
}

pub open spec fn is_id_start(c: char) -> bool {
    ('a' <= c <= 'z') || ('A' <= c <= 'Z') || c == '_'
}

pub open spec fn is_id_char(c: char) -> bool {
    is_id_start(c) || ('0' <= c <= '9')
}

/// Length of the run of characters at `p` for which `f` holds.
pub open spec fn run(cs: Seq<char>, p: int, f: spec_fn(char) -> bool) -> nat
    decreases cs.len() - p,
{
    if p < 0 || p >= cs.len() || !f(cs[p]) {
        0
    } else {
        1 + run(cs, p + 1, f)
    }
}

/// Whether a hex letter occurs in `cs[p..p+n]`.
pub open spec fn has_hex_letter(cs: Seq<char>, p: int, n: int) -> bool {
    exists|i: int| p <= i < p + n && 0 <= i < cs.len() && is_hex_letter(#[trigger] cs[i])
}

/// The token at `p` and its length; `None` where no token starts, or where a
/// hexadecimal run has an odd number of digits.
pub open spec fn str_token_at(cs: Seq<char>, p: int) -> Option<(StrTok, int)> {
    let c = cs[p];
    let hex_n = run(cs, p, |x: char| is_hex(x));
    let hex_len = if has_hex_letter(cs, p, hex_n as int) {
        hex_n as int
    } else {
        0int
    };
    let id_len = if is_id_start(c) {
        run(cs, p, |x: char| is_id_char(x)) as int
    } else {
        0int
    };
    let int_len = run(cs, p, |x: char| '0' <= x <= '9') as int;
    if hex_len > 0 && hex_len >= id_len && hex_len >= int_len {
        if hex_len % 2 == 0 {
            Some((StrTok::HexString(cs.subrange(p, p + hex_len)), hex_len))
        } else {
            None
        }
    } else if id_len > 0 {
        Some((StrTok::Id(cs.subrange(p, p + id_len)), id_len))
    } else if int_len > 0 {
        Some((StrTok::Integer(cs.subrange(p, p + int_len)), int_len))
    } else if c == '.' {
        Some((StrTok::Dot, 1))
    } else if c == '{' {
        Some((StrTok::BraceOpen, 1))
    } else if c == '}' {
        Some((StrTok::BraceClose, 1))
    } else if c == ':' {
        Some((StrTok::Colon, 1))
    } else if c != '\n' {
        Some((StrTok::Other(c), 1))
    } else {
        None
    }
}

/// The tokens of a template from `p` on, or `None` if some part is no token.
pub open spec fn str_tokens(cs: Seq<char>, p: int) -> Option<Seq<StrTok>>
    decreases cs.len() - p,
{
    if p < 0 || p >= cs.len() {
        Some(Seq::empty())
    } else {
        match str_token_at(cs, p) {
            None => None,
            Some((tok, n)) => if n <= 0 || p + n > cs.len() {
                None
            } else {
                match str_tokens(cs, p + n) {
                    Some(rest) => Some(seq![tok] + rest),
                    None => None,
                }
            },
        }
    }
}

// ---------------------------------------------------------------------------
// Templates: their pieces
// ---------------------------------------------------------------------------

/// A template piece as read: literal bytes or a variable.
pub enum RawPart {
    Bytes(Seq<u8>),
    Var(Seq<char>, Option<Seq<char>>, nat),
}

/// The bytes of a run of an even number of hexadecimal digits.
pub open spec fn pair_bytes(cs: Seq<char>) -> Seq<u8>
    decreases cs.len(),
{
    if cs.len() < 2 {
        Seq::empty()
    } else {
        seq![(16 * hex_val(cs[0]) + hex_val(cs[1])) as u8] + pair_bytes(cs.skip(2))
    }
}


/// A length written in decimal, if it fits in a `usize`.
pub open spec fn length_value(cs: Seq<char>) -> Option<usize> {
    if crate::rig_parser::dec_value(cs) <= usize::MAX {
        Some(crate::rig_parser::dec_value(cs) as usize)
    } else {
        None
    }
}

/// `{name:format:len}` or `{name:len}` at `i`.
pub open spec fn var_spec_at(ts: Seq<StrTok>, i: int) -> Option<(RawPart, int)> {
    if 0 <= i && i + 2 < ts.len() && ts[i] is BraceOpen && ts[i + 1] is Id && ts[i + 2] is Colon {
        let name = ts[i + 1]->Id_0;
        if i + 5 < ts.len() && ts[i + 3] is Id && ts[i + 4] is Colon && ts[i + 5] is Integer
            && length_value(ts[i + 5]->Integer_0) is Some {
            if i + 6 < ts.len() && ts[i + 6] is BraceClose {
                Some((RawPart::Var(name, Some(ts[i + 3]->Id_0), length_value(ts[i + 5]->Integer_0)->0 as nat), i + 7))
            } else {
                None
            }
        } else if i + 3 < ts.len() && ts[i + 3] is Integer && length_value(ts[i + 3]->Integer_0) is Some {
            if i + 4 < ts.len() && ts[i + 4] is BraceClose {
                Some((RawPart::Var(name, None, length_value(ts[i + 3]->Integer_0)->0 as nat), i + 5))
            } else {
                None
            }
        } else {
            None
        }
    } else {
        None
    }
}

/// How many `Other` tokens follow from `i`.
pub open spec fn others_run(ts: Seq<StrTok>, i: int) -> nat
    decreases ts.len() - i,
{
    if i < 0 || i >= ts.len() || !(ts[i] is Other) {
        0
    } else {
        1 + others_run(ts, i + 1)
    }
}

/// The characters of the `Other` tokens in `ts[i..i+n]`.
pub open spec fn others_chars(ts: Seq<StrTok>, i: int, n: int) -> Seq<char>
    decreases n,
{
    if n <= 0 {
        Seq::empty()
    } else {
        seq![ts[i]->Other_0] + others_chars(ts, i + 1, n - 1)
    }
}

/// The piece at `i`: hexadecimal bytes, a variable, a name as its own bytes,
/// other characters as their bytes, or nothing for a `.`; tried in that order.
pub open spec fn part_at(ts: Seq<StrTok>, i: int) -> Option<(RawPart, int)> {
    if i < 0 || i >= ts.len() {
        None
    } else {
        match ts[i] {
            StrTok::HexString(h) => Some((RawPart::Bytes(pair_bytes(h)), i + 1)),
            StrTok::Integer(d) => if d.len() % 2 == 0 {
                Some((RawPart::Bytes(pair_bytes(d)), i + 1))
            } else {
                None
            },
            StrTok::BraceOpen => var_spec_at(ts, i),
            StrTok::Id(n) => Some((RawPart::Bytes(vstd::utf8::encode_utf8(n)), i + 1)),
            StrTok::Other(_) => {
                let n = others_run(ts, i) as int;
                Some((RawPart::Bytes(vstd::utf8::encode_utf8(others_chars(ts, i, n))), i + n))
            },
            StrTok::Dot => Some((RawPart::Bytes(Seq::empty()), i + 1)),
            _ => None,
        }
    }
}

/// Pieces from `i` on, as many as there are, and where they stop.
pub open spec fn parts_from(ts: Seq<StrTok>, i: int) -> (Seq<RawPart>, int)
    decreases ts.len() - i,
{
    match part_at(ts, i) {
        None => (Seq::empty(), i),
        Some((p, j)) => if j <= i || j > ts.len() {
            (Seq::empty(), i)
        } else {
            let (rest, e) = parts_from(ts, j);
            (seq![p] + rest, e)
        },
    }
}

/// Pieces with neighbouring literal bytes joined and empty literals dropped;
/// `acc` holds the literal bytes not yet placed.
pub open spec fn join_parts(ps: Seq<RawPart>, acc: Seq<u8>) -> Seq<PartView>
    decreases ps.len(),
{
    if ps.len() == 0 {
        if acc.len() > 0 {
            seq![PartView::Literal(acc)]
        } else {
            Seq::empty()
        }
    } else {
        match ps[0] {
            RawPart::Bytes(b) => join_parts(ps.drop_first(), acc + b),
            RawPart::Var(n, f, l) => (if acc.len() > 0 {
                seq![PartView::Literal(acc)]
            } else {
                Seq::<PartView>::empty()
            }) + seq![PartView::Variable(n, f, l)] + join_parts(ps.drop_first(), Seq::empty()),
        }
    }
}

/// What a byte string literal's content stands for, or why it is refused:
/// a template where it holds both braces, else hexadecimal bytes, else the
/// text itself.
pub open spec fn bytes_literal(cs: Seq<char>) -> Result<BytesValue, crate::grammar::Expect> {
    if cs.contains('{') && cs.contains('}') {
        match str_tokens(cs, 0) {
            None => Err(crate::grammar::Expect::InterpolationLexer),
            Some(ts) => {
                let (ps, e) = parts_from(ts, 0);
                if e == ts.len() {
                    Ok(BytesValue::Interp(join_parts(ps, Seq::empty())))
                } else {
                    Err(crate::grammar::Expect::InterpolationParser)
                }
            },
        }
    } else {
        match hex_bytes(cs) {
            Some(b) => Ok(BytesValue::Bytes(b)),
            None => Ok(BytesValue::Text(cs)),
        }
    }
}


/// Tokens as the template lexer makes them: digit runs of digits, hexadecimal
/// runs of an even number of hexadecimal digits.
pub open spec fn tok_ok(t: StrTok) -> bool {
    match t {
        StrTok::Integer(d) => forall|i: int| 0 <= i < d.len() ==> '0' <= #[trigger] d[i] <= '9',
        StrTok::HexString(h) => h.len() % 2 == 0 && forall|i: int| 0 <= i < h.len() ==> is_hex(#[trigger] h[i]),
        _ => true,
    }
}

/// The characters of a run have its class.
pub proof fn lemma_run(cs: Seq<char>, p: int, f: spec_fn(char) -> bool)
    ensures
        p >= 0 ==> p + run(cs, p, f) <= cs.len() || run(cs, p, f) == 0,
        forall|j: int| p <= j < p + run(cs, p, f) ==> f(#[trigger] cs[j]),
    decreases cs.len() - p,
{
    if !(p < 0 || p >= cs.len() || !f(cs[p])) {
        lemma_run(cs, p + 1, f);
    }
}

/// Every token the lexer makes is well formed.
pub proof fn lemma_tokens_ok(cs: Seq<char>, p: int)
    ensures
        str_tokens(cs, p) matches Some(ts) ==> forall|i: int| 0 <= i < ts.len() ==> tok_ok(#[trigger] ts[i]),
    decreases cs.len() - p,
{
    if !(p < 0 || p >= cs.len()) {
        match str_token_at(cs, p) {
            None => {},
            Some((tok, n)) => {
                if !(n <= 0 || p + n > cs.len()) {
                    lemma_tokens_ok(cs, p + n);
                    lemma_run(cs, p, |x: char| is_hex(x));
                    lemma_run(cs, p, |x: char| '0' <= x <= '9');
                    match str_tokens(cs, p + n) {
                        Some(rest) => {
                            assert(tok_ok(tok));
                            let ts = seq![tok] + rest;
                            assert forall|i: int| 0 <= i < ts.len() implies tok_ok(#[trigger] ts[i]) by {
                                if i > 0 {
                                    assert(ts[i] == rest[i - 1]);
                                }
                            }
                        },
                        None => {},
                    }
                }
            },
        }
    }
}

// ---------------------------------------------------------------------------
// Implementation
// ---------------------------------------------------------------------------

fn hex_c(c: char) -> (r: bool)
    ensures
        r == is_hex(c),
{
    ('0' <= c && c <= '9') || ('a' <= c && c <= 'f') || ('A' <= c && c <= 'F')
}

fn hex_letter_c(c: char) -> (r: bool)
    ensures
        r == is_hex_letter(c),
{
    ('a' <= c && c <= 'f') || ('A' <= c && c <= 'F')
}

fn hex_val_c(c: char) -> (r: u8)
    requires
        is_hex(c),
    ensures
        r == hex_val(c),
{
    let v = c as u32;
    if '0' <= c && c <= '9' {
        (v - 48) as u8
    } else if 'a' <= c && c <= 'f' {
        (v - 87) as u8
    } else {
        (v - 55) as u8
    }
}

fn id_start_c(c: char) -> (r: bool)
    ensures
        r == is_id_start(c),
{
    ('a' <= c && c <= 'z') || ('A' <= c && c <= 'Z') || c == '_'
}

fn id_char_c(c: char) -> (r: bool)
    ensures
        r == is_id_char(c),
{
    id_start_c(c) || ('0' <= c && c <= '9')
}

fn drop_dots(cs: &Vec<char>) -> (r: Vec<char>)
    ensures
        r@ == without_dots(cs@),
{
    let mut out: Vec<char> = Vec::new();
    let mut i: usize = 0;
    assert(cs@.take(0) =~= Seq::<char>::empty());
    while i < cs.len()
        invariant
            i <= cs@.len(),
            out@ == without_dots(cs@.take(i as int)),
        decreases cs@.len() - i,
    {
        assert(cs@.take(i + 1).drop_last() =~= cs@.take(i as int));
        if cs[i] != '.' {
            out.push(cs[i]);
        }
        i = i + 1;
    }
    assert(cs@.take(i as int) =~= cs@);
    out
}

/// The bytes of a hexadecimal literal with optional dots, if it is one.
pub fn hex_literal_bytes(cs: &Vec<char>) -> (r: Option<Vec<u8>>)
    ensures
        match hex_bytes(cs@) {
            Some(b) => r matches Some(v) && v@ == b,
            None => r is None,
        },
{
    let d = drop_dots(cs);
    let mut out: Vec<u8> = Vec::new();
    let mut i: usize = 0;
    assert(d@.skip(0) =~= d@);
    assert(out@ + Seq::<u8>::empty() =~= out@);
    while i < d.len()
        invariant
            i <= d@.len(),
            d@ == without_dots(cs@),
            chunk_bytes(d@) == match chunk_bytes(d@.skip(i as int)) {
                Some(rest) => Some(out@ + rest),
                None => None,
            },
        decreases d@.len() - i,
    {
        let ghost rest = d@.skip(i as int);
        let two = d.len() - i >= 2;
        let n: usize = if two {
            2
        } else {
            1
        };
        assert(rest.take(n as int) =~= d@.subrange(i as int, i + n));
        assert(rest.skip(n as int) =~= d@.skip(i + n));
        let c0 = d[i];
        let b: Option<u8> = if !two {
            if hex_c(c0) {
                Some(hex_val_c(c0))
            } else {
                None
            }
        } else {
            let c1 = d[i + 1];
            if c0 == '+' && hex_c(c1) {
                Some(hex_val_c(c1))
            } else if hex_c(c0) && hex_c(c1) {
                let h0 = hex_val_c(c0);
                let h1 = hex_val_c(c1);
                Some(16 * h0 + h1)
            } else {
                None
            }
        };
        assert(b == chunk_byte(rest.take(n as int)));
        match b {
            None => {
                return None;
            },
            Some(v) => {
                proof {
                    match chunk_bytes(d@.skip(i + n)) {
                        Some(r2) => {
                            assert(out@.push(v) + r2 =~= out@ + (seq![v] + r2));
                        },
                        None => {},
                    }
                }
                out.push(v);
            },
        }
        i = i + n;
    }
    assert(d@.skip(i as int) =~= Seq::<char>::empty());
    assert(out@ + Seq::<u8>::empty() =~= out@);
    Some(out)
}

/// A token of a byte string template, as read.
#[derive(Debug)]
pub enum StringToken {
    HexString(Vec<char>),
    Dot,
    BraceOpen,
    BraceClose,
    Colon,
    Id(Vec<char>),
    Integer(Vec<char>),
    Other(char),
}

pub open spec fn tok_view(t: StringToken) -> StrTok {
    match t {
        StringToken::HexString(h) => StrTok::HexString(h@),
        StringToken::Dot => StrTok::Dot,
        StringToken::BraceOpen => StrTok::BraceOpen,
        StringToken::BraceClose => StrTok::BraceClose,
        StringToken::Colon => StrTok::Colon,
        StringToken::Id(n) => StrTok::Id(n@),
        StringToken::Integer(d) => StrTok::Integer(d@),
        StringToken::Other(c) => StrTok::Other(c),
    }
}

pub open spec fn toks_view(ts: Seq<StringToken>) -> Seq<StrTok> {
    ts.map_values(|t: StringToken| tok_view(t))
}

fn in_class(c: char, class: u8) -> (r: bool)
    ensures
        class == 0 ==> r == is_hex(c),
        class == 1 ==> r == is_id_char(c),
        class != 0 && class != 1 ==> r == ('0' <= c <= '9'),
{
    if class == 0 {
        hex_c(c)
    } else if class == 1 {
        id_char_c(c)
    } else {
        '0' <= c && c <= '9'
    }
}

/// Length of the run at `p` of characters in a class: hex digits (0),
/// identifier characters (1) or decimal digits (2).
fn run_len(cs: &Vec<char>, p: usize, class: u8) -> (r: usize)
    requires
        p <= cs@.len(),
    ensures
        class == 0 ==> r == run(cs@, p as int, |x: char| is_hex(x)),
        class == 1 ==> r == run(cs@, p as int, |x: char| is_id_char(x)),
        class != 0 && class != 1 ==> r == run(cs@, p as int, |x: char| '0' <= x <= '9'),
        p + r <= cs@.len(),
{
    let ghost f: spec_fn(char) -> bool = if class == 0 {
        |x: char| is_hex(x)
    } else if class == 1 {
        |x: char| is_id_char(x)
    } else {
        |x: char| '0' <= x <= '9'
    };
    let len = cs.len();
    let mut k: usize = 0;
    while k < len - p && in_class(cs[p + k], class)
        invariant
            len == cs@.len(),
            p <= len,
            k <= len - p,
            class == 0 ==> f == (|x: char| is_hex(x)),
            class == 1 ==> f == (|x: char| is_id_char(x)),
            class != 0 && class != 1 ==> f == (|x: char| '0' <= x <= '9'),
            run(cs@, p as int, f) == k + run(cs@, (p + k) as int, f),
        decreases len - p - k,
    {
        assert(f(cs@[(p + k) as int]));
        k = k + 1;
    }
    k
}

fn hex_letter_in(cs: &Vec<char>, p: usize, n: usize) -> (r: bool)
    requires
        p + n <= cs@.len(),
    ensures
        r == has_hex_letter(cs@, p as int, n as int),
{
    let len = cs.len();
    let mut i: usize = 0;
    while i < n
        invariant
            len == cs@.len(),
            p + n <= cs@.len(),
            i <= n,
            forall|j: int| p <= j < p + i ==> !is_hex_letter(#[trigger] cs@[j]),
        decreases n - i,
    {
        if hex_letter_c(cs[p + i]) {
            return true;
        }
        i = i + 1;
    }
    false
}

fn sub_chars(cs: &Vec<char>, from: usize, to: usize) -> (r: Vec<char>)
    requires
        from <= to <= cs@.len(),
    ensures
        r@ == cs@.subrange(from as int, to as int),
{
    let mut out: Vec<char> = Vec::new();
    let mut i = from;
    while i < to
        invariant
            from <= i <= to <= cs@.len(),
            out@ == cs@.subrange(from as int, i as int),
        decreases to - i,
    {
        out.push(cs[i]);
        assert(out@ =~= cs@.subrange(from as int, i + 1));
        i = i + 1;
    }
    out
}

fn token_at(cs: &Vec<char>, p: usize) -> (r: Option<(StringToken, usize)>)
    requires
        p < cs@.len(),
    ensures
        match str_token_at(cs@, p as int) {
            Some((tok, n)) => r matches Some((t, m)) && tok_view(t) == tok && m == n && 0 < m && p + m <= cs@.len(),
            None => r is None,
        },
{
    let len = cs.len();
    let c = cs[p];
    let hex_n = run_len(cs, p, 0);
    let hex_len = if hex_letter_in(cs, p, hex_n) {
        hex_n
    } else {
        0
    };
    let id_len = if id_start_c(c) {
        run_len(cs, p, 1)
    } else {
        0
    };
    let int_len = run_len(cs, p, 2);
    if hex_len > 0 && hex_len >= id_len && hex_len >= int_len {
        if hex_len % 2 == 0 {
            Some((StringToken::HexString(sub_chars(cs, p, p + hex_len)), hex_len))
        } else {
            None
        }
    } else if id_len > 0 {
        Some((StringToken::Id(sub_chars(cs, p, p + id_len)), id_len))
    } else if int_len > 0 {
        Some((StringToken::Integer(sub_chars(cs, p, p + int_len)), int_len))
    } else if c == '.' {
        Some((StringToken::Dot, 1))
    } else if c == '{' {
        Some((StringToken::BraceOpen, 1))
    } else if c == '}' {
        Some((StringToken::BraceClose, 1))
    } else if c == ':' {
        Some((StringToken::Colon, 1))
    } else if c != '\n' {
        Some((StringToken::Other(c), 1))
    } else {
        None
    }
}

/// The tokens of a byte string template, or `None` where some character
/// starts no token.
pub fn template_tokens(cs: &Vec<char>) -> (r: Option<Vec<StringToken>>)
    ensures
        match str_tokens(cs@, 0) {
            Some(ts) => r matches Some(v) && toks_view(v@) == ts,
            None => r is None,
        },
{
    let mut out: Vec<StringToken> = Vec::new();
    let mut p: usize = 0;
    assert(toks_view(out@) + Seq::<StrTok>::empty() =~= toks_view(out@));
    while p < cs.len()
        invariant
            p <= cs@.len(),
            str_tokens(cs@, 0) == match str_tokens(cs@, p as int) {
                Some(rest) => Some(toks_view(out@) + rest),
                None => None,
            },
        decreases cs@.len() - p,
    {
        match token_at(cs, p) {
            None => {
                return None;
            },
            Some((t, n)) => {
                let ghost tv = tok_view(t);
                proof {
                    match str_tokens(cs@, p + n) {
                        Some(rest) => {
                            assert(toks_view(out@.push(t)) =~= toks_view(out@).push(tv));
                            assert(toks_view(out@).push(tv) + rest =~= toks_view(out@) + (seq![tv] + rest));
                        },
                        None => {},
                    }
                }
                out.push(t);
                p = p + n;
            },
        }
    }
    assert(toks_view(out@) + Seq::<StrTok>::empty() =~= toks_view(out@));
    Some(out)
}

/// A decimal length, if it fits in a `usize`.
fn length_of(d: &Vec<char>) -> (r: Option<usize>)
    requires
        forall|i: int| 0 <= i < d@.len() ==> '0' <= #[trigger] d@[i] <= '9',
    ensures
        r == length_value(d@),
{
    let mut value: u128 = 0;
    let mut big = false;
    let mut i: usize = 0;
    assert(d@.take(0) =~= Seq::<char>::empty());
    while i < d.len()
        invariant
            i <= d@.len(),
            forall|k: int| 0 <= k < d@.len() ==> '0' <= #[trigger] d@[k] <= '9',
            crate::rig_parser::dec_value(d@.take(i as int)) >= 0,
            !big ==> value == crate::rig_parser::dec_value(d@.take(i as int)) && value <= usize::MAX,
            big ==> crate::rig_parser::dec_value(d@.take(i as int)) > usize::MAX,
        decreases d@.len() - i,
    {
        assert(d@.take(i + 1).drop_last() =~= d@.take(i as int));
        let dig = (d[i] as u32 - 48) as u128;
        if !big {
            value = value * 10 + dig;
            if value > usize::MAX as u128 {
                big = true;
            }
        }
        i = i + 1;
    }
    assert(d@.take(i as int) =~= d@);
    if big {
        None
    } else {
        Some(value as usize)
    }
}

fn pair_bytes_of(h: &Vec<char>) -> (r: Vec<u8>)
    requires
        forall|i: int| 0 <= i < h@.len() ==> is_hex(#[trigger] h@[i]),
    ensures
        r@ == pair_bytes(h@),
{
    let mut out: Vec<u8> = Vec::new();
    let len = h.len();
    let mut i: usize = 0;
    assert(h@.skip(0) =~= h@);
    assert(out@ + pair_bytes(h@.skip(0)) =~= pair_bytes(h@));
    while len - i >= 2
        invariant
            len == h@.len(),
            i <= h@.len(),
            forall|k: int| 0 <= k < h@.len() ==> is_hex(#[trigger] h@[k]),
            out@ + pair_bytes(h@.skip(i as int)) == pair_bytes(h@),
        decreases h@.len() - i,
    {
        let b = 16 * hex_val_c(h[i]) + hex_val_c(h[i + 1]);
        assert(h@.skip(i as int).skip(2) =~= h@.skip(i + 2));
        assert(out@.push(b) + pair_bytes(h@.skip(i + 2)) =~= out@ + pair_bytes(h@.skip(i as int)));
        out.push(b);
        i = i + 2;
    }
    assert(pair_bytes(h@.skip(i as int)) =~= Seq::<u8>::empty());
    assert(out@ + Seq::<u8>::empty() =~= out@);
    out
}

/// The UTF-8 bytes of characters.
fn utf8_bytes(cs: &Vec<char>) -> (r: Vec<u8>)
    ensures
        r@ == vstd::utf8::encode_utf8(cs@),
{
    let s = string_from_chars(cs.as_slice());
    let b = s.as_str().as_bytes();
    let mut out: Vec<u8> = Vec::new();
    let mut i: usize = 0;
    while i < b.len()
        invariant
            i <= b@.len(),
            out@ == b@.take(i as int),
        decreases b@.len() - i,
    {
        out.push(b[i]);
        assert(out@ =~= b@.take(i + 1));
        i = i + 1;
    }
    assert(b@.take(i as int) =~= b@);
    out
}

/// A template piece, as read.
enum Raw {
    Bytes(Vec<u8>),
    Var(String, Option<String>, usize),
}

spec fn raw_view(r: Raw) -> RawPart {
    match r {
        Raw::Bytes(b) => RawPart::Bytes(b@),
        Raw::Var(n, f, l) => RawPart::Var(
            n@,
            match f {
                Some(x) => Some(x@),
                None => None,
            },
            l as nat,
        ),
    }
}

fn is_digits(v: &Vec<char>) -> (r: bool)
    ensures
        r == forall|i: int| 0 <= i < v@.len() ==> '0' <= #[trigger] v@[i] <= '9',
{
    let mut i: usize = 0;
    while i < v.len()
        invariant
            i <= v@.len(),
            forall|k: int| 0 <= k < i ==> '0' <= #[trigger] v@[k] <= '9',
        decreases v@.len() - i,
    {
        if !('0' <= v[i] && v[i] <= '9') {
            return false;
        }
        i = i + 1;
    }
    true
}

fn digit_length(t: &StringToken) -> (r: Option<usize>)
    requires
        tok_ok(tok_view(*t)),
    ensures
        match tok_view(*t) {
            StrTok::Integer(d) => r == length_value(d),
            _ => r is None,
        },
{
    match t {
        StringToken::Integer(d) => {
            if is_digits(d) {
                length_of(d)
            } else {
                None
            }
        },
        _ => None,
    }
}


spec fn raws_view(rs: Seq<Raw>) -> Seq<RawPart> {
    rs.map_values(|r: Raw| raw_view(r))
}

spec fn toks_ok(ts: Seq<StrTok>) -> bool {
    forall|i: int| 0 <= i < ts.len() ==> tok_ok(#[trigger] ts[i])
}

fn var_spec(ts: &Vec<StringToken>, i: usize) -> (r: Option<(Raw, usize)>)
    requires
        i < ts@.len(),
        toks_ok(toks_view(ts@)),
    ensures
        match var_spec_at(toks_view(ts@), i as int) {
            Some((p, j)) => r matches Some((x, k)) && raw_view(x) == p && k == j,
            None => r is None,
        },
{
    let ghost tv = toks_view(ts@);
    let len = ts.len();
    if len - i < 3 {
        return None;
    }
    let name = match (&ts[i], &ts[i + 1], &ts[i + 2]) {
        (StringToken::BraceOpen, StringToken::Id(n), StringToken::Colon) => n,
        _ => {
            return None;
        },
    };
    assert(tv[i as int] == tok_view(ts@[i as int]) && tv[i + 1] == tok_view(ts@[i + 1]) && tv[i + 2] == tok_view(
        ts@[i + 2],
    ));
    if len - i >= 6 {
        assert(tv[i + 3] == tok_view(ts@[i + 3]) && tv[i + 4] == tok_view(ts@[i + 4]) && tv[i + 5] == tok_view(
            ts@[i + 5],
        ));
        match (&ts[i + 3], &ts[i + 4]) {
            (StringToken::Id(f), StringToken::Colon) => {
                assert(tok_ok(tv[i + 5]));
                match digit_length(&ts[i + 5]) {
                    Some(l) => {
                        if len - i >= 7 {
                            assert(tv[i + 6] == tok_view(ts@[i + 6]));
                            match &ts[i + 6] {
                                StringToken::BraceClose => {
                                    return Some(
                                        (
                                            Raw::Var(
                                                string_from_chars(name.as_slice()),
                                                Some(string_from_chars(f.as_slice())),
                                                l,
                                            ),
                                            i + 7,
                                        ),
                                    );
                                },
                                _ => {
                                    return None;
                                },
                            }
                        }
                        return None;
                    },
                    None => {},
                }
            },
            _ => {},
        }
    }
    if len - i >= 4 {
        assert(tv[i + 3] == tok_view(ts@[i + 3]));
        assert(tok_ok(tv[i + 3]));
        match digit_length(&ts[i + 3]) {
            Some(l) => {
                if len - i >= 5 {
                    assert(tv[i + 4] == tok_view(ts@[i + 4]));
                    match &ts[i + 4] {
                        StringToken::BraceClose => {
                            return Some((Raw::Var(string_from_chars(name.as_slice()), None, l), i + 5));
                        },
                        _ => {
                            return None;
                        },
                    }
                }
                None
            },
            None => None,
        }
    } else {
        None
    }
}

fn is_other(t: &StringToken) -> (r: bool)
    ensures
        r == (tok_view(*t) is Other),
{
    match t {
        StringToken::Other(_) => true,
        _ => false,
    }
}

fn part(ts: &Vec<StringToken>, i: usize) -> (r: Option<(Raw, usize)>)
    requires
        i < ts@.len(),
        toks_ok(toks_view(ts@)),
    ensures
        match part_at(toks_view(ts@), i as int) {
            Some((p, j)) => r matches Some((x, k)) && raw_view(x) == p && k == j,
            None => r is None,
        },
{
    let ghost tv = toks_view(ts@);
    let len = ts.len();
    assert(tv[i as int] == tok_view(ts@[i as int]));
    assert(tok_ok(tv[i as int]));
    match &ts[i] {
        StringToken::HexString(h) => Some((Raw::Bytes(pair_bytes_of(h)), i + 1)),
        StringToken::Integer(d) => {
            if d.len() % 2 == 0 {
                Some((Raw::Bytes(pair_bytes_of(d)), i + 1))
            } else {
                None
            }
        },
        StringToken::BraceOpen => var_spec(ts, i),
        StringToken::Id(n) => Some((Raw::Bytes(utf8_bytes(n)), i + 1)),
        StringToken::Other(_) => {
            let mut chars: Vec<char> = Vec::new();
            let mut k: usize = i;
            assert(others_run(tv, i as int) == others_run(tv, i as int));
            while k < len && is_other(&ts[k])
                invariant
                    len == ts@.len(),
                    tv == toks_view(ts@),
                    i <= k <= len,
                    others_run(tv, i as int) == (k - i) + others_run(tv, k as int),
                    chars@ == others_chars(tv, i as int, (k - i) as int),
                decreases len - k,
            {
                assert(tv[k as int] == tok_view(ts@[k as int]));
                let c = match &ts[k] {
                    StringToken::Other(c) => *c,
                    _ => ' ',
                };
                proof {
                    lemma_others_chars_push(tv, i as int, (k - i) as int);
                }
                chars.push(c);
                k = k + 1;
            }
            if k < len {
                assert(tv[k as int] == tok_view(ts@[k as int]));
            }
            Some((Raw::Bytes(utf8_bytes(&chars)), k))
        },
        StringToken::Dot => {
            let none: Vec<u8> = Vec::new();
            assert(none@ =~= Seq::<u8>::empty());
            Some((Raw::Bytes(none), i + 1))
        },
        _ => None,
    }
}

proof fn lemma_others_chars_push(ts: Seq<StrTok>, i: int, n: int)
    requires
        n >= 0,
        0 <= i,
        i + n < ts.len(),
        ts[i + n] is Other,
    ensures
        others_chars(ts, i, n + 1) == others_chars(ts, i, n).push(ts[i + n]->Other_0),
    decreases n,
{
    if n > 0 {
        lemma_others_chars_push(ts, i + 1, n - 1);
        assert(seq![ts[i]->Other_0] + others_chars(ts, i + 1, n - 1).push(ts[i + n]->Other_0)
            =~= (seq![ts[i]->Other_0] + others_chars(ts, i + 1, n - 1)).push(ts[i + n]->Other_0));
    } else {
        assert(others_chars(ts, i + 1, 0) =~= Seq::<char>::empty());
    }
}

fn parts(ts: &Vec<StringToken>) -> (r: (Vec<Raw>, usize))
    requires
        toks_ok(toks_view(ts@)),
    ensures
        (raws_view(r.0@), r.1 as int) == parts_from(toks_view(ts@), 0),
{
    let ghost tv = toks_view(ts@);
    let len = ts.len();
    let mut out: Vec<Raw> = Vec::new();
    let mut i: usize = 0;
    assert(raws_view(out@) + parts_from(tv, 0).0 =~= parts_from(tv, 0).0);
    loop
        invariant
            len == ts@.len(),
            tv == toks_view(ts@),
            toks_ok(tv),
            i <= len,
            parts_from(tv, 0) == (raws_view(out@) + parts_from(tv, i as int).0, parts_from(tv, i as int).1),
        decreases len - i,
    {
        if i >= len {
            assert(part_at(tv, i as int) is None);
            assert(raws_view(out@) + Seq::<RawPart>::empty() =~= raws_view(out@));
            return (out, i);
        }
        match part(ts, i) {
            None => {
                assert(raws_view(out@) + Seq::<RawPart>::empty() =~= raws_view(out@));
                return (out, i);
            },
            Some((x, j)) => {
                if j <= i || j > len {
                    assert(raws_view(out@) + Seq::<RawPart>::empty() =~= raws_view(out@));
                    return (out, i);
                }
                let ghost xv = raw_view(x);
                proof {
                    let (rest, e) = parts_from(tv, j as int);
                    assert(raws_view(out@.push(x)) =~= raws_view(out@).push(xv));
                    assert(raws_view(out@).push(xv) + rest =~= raws_view(out@) + (seq![xv] + rest));
                }
                out.push(x);
                i = j;
            },
        }
    }
}

fn append_bytes(acc: &mut Vec<u8>, b: &Vec<u8>)
    ensures
        final(acc)@ == old(acc)@ + b@,
{
    let mut i: usize = 0;
    while i < b.len()
        invariant
            i <= b@.len(),
            acc@ == old(acc)@ + b@.take(i as int),
        decreases b@.len() - i,
    {
        acc.push(b[i]);
        assert(acc@ =~= old(acc)@ + b@.take(i + 1));
        i = i + 1;
    }
    assert(b@.take(i as int) =~= b@);
}

fn join(raws: Vec<Raw>) -> (r: Vec<InterpolationPart>)
    ensures
        r@.map_values(|p: InterpolationPart| part_view(p)) == join_parts(raws_view(raws@), Seq::empty()),
{
    let ghost all = raws_view(raws@);
    let mut out: Vec<InterpolationPart> = Vec::new();
    let mut acc: Vec<u8> = Vec::new();
    let mut rest = raws;
    let mut i: usize = 0;
    let n = rest.len();
    assert(all.skip(0) =~= all);
    assert(out@.map_values(|p: InterpolationPart| part_view(p)) + join_parts(all, Seq::empty())
        =~= join_parts(all, Seq::empty()));
    assert(acc@ =~= Seq::<u8>::empty());
    while i < n
        invariant
            n == all.len(),
            i <= n,
            raws_view(rest@) == all.skip(i as int),
            out@.map_values(|p: InterpolationPart| part_view(p)) + join_parts(all.skip(i as int), acc@)
                == join_parts(all, Seq::empty()),
        decreases n - i,
    {
        let ghost before = rest@;
        assert(raws_view(rest@).len() == rest@.len());
        let x = rest.remove(0);
        assert(raws_view(rest@) =~= all.skip(i + 1)) by {
            assert(rest@ =~= before.drop_first());
            assert(raws_view(rest@) =~= raws_view(before).drop_first());
        }
        assert(all.skip(i as int)[0] == raw_view(x));
        assert(all.skip(i as int).drop_first() =~= all.skip(i + 1));
        let ghost outv = out@.map_values(|p: InterpolationPart| part_view(p));
        match x {
            Raw::Bytes(b) => {
                append_bytes(&mut acc, &b);
            },
            Raw::Var(name, format, length) => {
                let ghost a = acc@;
                let ghost fv = match &format {
                    Some(f) => Some(f@),
                    None => None,
                };
                let ghost vv = PartView::Variable(name@, fv, length as nat);
                if acc.len() > 0 {
                    let lit = InterpolationPart::Literal(acc);
                    out.push(lit);
                    acc = Vec::new();
                }
                out.push(InterpolationPart::Variable { name, format, length });
                proof {
                    let lead = if a.len() > 0 {
                        seq![PartView::Literal(a)]
                    } else {
                        Seq::<PartView>::empty()
                    };
                    assert(out@.map_values(|p: InterpolationPart| part_view(p)) =~= outv + lead + seq![vv]);
                }
                assert(acc@ =~= Seq::<u8>::empty());
            },
        }
        i = i + 1;
    }
    assert(all.skip(n as int) =~= Seq::<RawPart>::empty());
    let ghost outv = out@.map_values(|p: InterpolationPart| part_view(p));
    if acc.len() > 0 {
        let ghost a = acc@;
        out.push(InterpolationPart::Literal(acc));
        assert(out@.map_values(|p: InterpolationPart| part_view(p)) =~= outv + seq![PartView::Literal(a)]);
    } else {
        assert(outv + Seq::<PartView>::empty() =~= outv);
    }
    out
}

/// What a byte string literal's content stands for, as read.
pub enum BytesLit {
    Bytes(Vec<u8>),
    Interp(Vec<InterpolationPart>),
    Text(Vec<char>),
}

fn has_char(cs: &Vec<char>, c: char) -> (r: bool)
    ensures
        r == cs@.contains(c),
{
    let mut i: usize = 0;
    while i < cs.len()
        invariant
            i <= cs@.len(),
            forall|j: int| 0 <= j < i ==> cs@[j] != c,
        decreases cs@.len() - i,
    {
        if cs[i] == c {
            assert(cs@[i as int] == c);
            return true;
        }
        i = i + 1;
    }
    false
}

/// Read a byte string literal's content: hexadecimal bytes, or a template
/// where it holds both braces.
pub fn parse_bytes_literal(cs: &Vec<char>) -> (r: Result<BytesLit, crate::grammar::Expect>)
    ensures
        match bytes_literal(cs@) {
            Ok(BytesValue::Bytes(b)) => r matches Ok(BytesLit::Bytes(v)) && v@ == b,
            Ok(BytesValue::Interp(ps)) => r matches Ok(BytesLit::Interp(v)) && v@.map_values(
                |p: InterpolationPart| part_view(p),
            ) == ps,
            Ok(BytesValue::Text(t)) => r matches Ok(BytesLit::Text(v)) && v@ == t,
            Err(e) => r == Err::<BytesLit, crate::grammar::Expect>(e),
        },
{
    if has_char(cs, '{') && has_char(cs, '}') {
        proof {
            lemma_tokens_ok(cs@, 0);
        }
        match template_tokens(cs) {
            None => Err(crate::grammar::Expect::InterpolationLexer),
            Some(ts) => {
                let (raws, end) = parts(&ts);
                if end == ts.len() {
                    Ok(BytesLit::Interp(join(raws)))
                } else {
                    Err(crate::grammar::Expect::InterpolationParser)
                }
            },
        }
    } else {
        match hex_literal_bytes(cs) {
            Some(b) => Ok(BytesLit::Bytes(b)),
            None => {
                let mut text: Vec<char> = Vec::new();
                let mut i: usize = 0;
                while i < cs.len()
                    invariant
                        i <= cs.len(),
                        text@ == cs@.take(i as int),
                    decreases cs.len() - i,
                {
                    text.push(cs[i]);
                    assert(text@ =~= cs@.take(i + 1));
                    i = i + 1;
                }
                assert(cs@.take(i as int) =~= cs@);
                Ok(BytesLit::Text(text))
            },
        }
    }
}

} // verus!
