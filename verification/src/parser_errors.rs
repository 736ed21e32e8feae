//! Positions in source text and the errors the parsers report.
use vstd::prelude::*;

use crate::text::chars_of;

verus! {

/// A place in source text: 1-based line and column, and the byte offset.
#[derive(Debug, Clone, Copy, PartialEq, Eq, Structural)]
pub struct SourcePosition {
    pub line: usize,
    pub column: usize,
    pub offset: usize,
}

impl SourcePosition {
    pub fn new(line: usize, column: usize, offset: usize) -> (r: Self)
        ensures
            r == (SourcePosition { line, column, offset }),
    {
        Self { line, column, offset }
    }
}

/// How much detail an error report gives.
#[derive(Debug, Clone, Copy, PartialEq, Eq, Structural)]
pub enum ErrorLevel {
    Normal,
    Detailed,
    Verbose,
}

/// A parse error, with the source it was found in.
#[derive(Debug)]
pub struct ParseError {
    pub position: SourcePosition,
    pub error_type: Box<ParseErrorType>,
    pub source: String,
    pub level: ErrorLevel,
}

/// What kind of parse error happened.
#[derive(Debug)]
pub enum ParseErrorType {
    Tokenization { message: String, context: String },
    Syntax {
        expected: Vec<String>,
        found: Option<String>,
        context: String,
        peg_error: Option<String>,
        user_friendly_message: Option<String>,
    },
    Semantic { message: String, suggestion: Option<String>, context: String },
}

impl ParseError {
    /// The same error reported at `level`.
    pub fn with_level(self, level: ErrorLevel) -> (r: Self)
        ensures
            r.level == level,
            r.position == self.position,
            r.error_type == self.error_type,
            r.source == self.source,
    {
        let mut e = self;
        e.level = level;
        e
    }
}

/// Bytes UTF-8 uses for `c`.
pub open spec fn utf8_width(c: char) -> nat {
    if (c as u32) < 0x80 {
        1
    } else if (c as u32) < 0x800 {
        2
    } else if (c as u32) < 0x10000 {
        3
    } else {
        4
    }
}

/// Bytes UTF-8 uses for `cs`.
pub open spec fn utf8_len(cs: Seq<char>) -> nat
    decreases cs.len(),
{
    if cs.len() == 0 {
        0
    } else {
        utf8_len(cs.drop_last()) + utf8_width(cs.last())
    }
}

/// Line and column just after the characters `cs`.
pub open spec fn line_col(cs: Seq<char>) -> (nat, nat)
    decreases cs.len(),
{
    if cs.len() == 0 {
        (1, 1)
    } else {
        let (l, c) = line_col(cs.drop_last());
        if cs.last() == '\n' {
            (l + 1, 1)
        } else {
            (l, c + 1)
        }
    }
}

/// How many characters of `cs` start before byte `offset`.
pub open spec fn chars_before(cs: Seq<char>, offset: nat) -> nat
    decreases cs.len(),
{
    if cs.len() == 0 {
        0
    } else if utf8_len(cs.drop_last()) < offset {
        cs.len()
    } else {
        chars_before(cs.drop_last(), offset)
    }
}

/// The position of byte `offset` in text `cs`, counting the characters that
/// start before it.
pub open spec fn spec_position(cs: Seq<char>, offset: nat) -> SourcePosition {
    let (l, c) = line_col(cs.take(chars_before(cs, offset) as int));
    SourcePosition { line: l as usize, column: c as usize, offset: offset as usize }
}

pub proof fn lemma_utf8_len_monotone(cs: Seq<char>, a: int, b: int)
    requires
        0 <= a <= b <= cs.len(),
    ensures
        utf8_len(cs.take(a)) <= utf8_len(cs.take(b)),
        a < b ==> utf8_len(cs.take(a)) < utf8_len(cs.take(b)),
    decreases b - a,
{
    if a < b {
        lemma_utf8_len_monotone(cs, a, b - 1);
        assert(cs.take(b).drop_last() =~= cs.take(b - 1));
    }
}

/// `chars_before` is the number of leading characters whose start lies before `offset`.
pub proof fn lemma_chars_before(cs: Seq<char>, offset: nat, k: int)
    requires
        0 <= k <= cs.len(),
        forall|j: int| 0 <= j < k ==> utf8_len(#[trigger] cs.take(j)) < offset,
        k == cs.len() || utf8_len(cs.take(k)) >= offset,
    ensures
        chars_before(cs, offset) == k,
    decreases cs.len(),
{
    if cs.len() > 0 {
        let d = cs.drop_last();
        if k == cs.len() {
            assert(cs.take(k - 1) =~= d);
            assert(utf8_len(cs.take(k - 1)) < offset);
        } else {
            assert(cs.take(cs.len() - 1) =~= d);
            lemma_utf8_len_monotone(cs, k, cs.len() - 1);
            assert forall|j: int| 0 <= j < k implies utf8_len(#[trigger] d.take(j)) < offset by {
                assert(d.take(j) =~= cs.take(j));
            }
            if k < d.len() {
                assert(d.take(k) =~= cs.take(k));
            }
            lemma_chars_before(d, offset, k);
        }
    }
}

/// Bytes that UTF-8 uses for `c`.
pub fn char_utf8_width(c: char) -> (r: usize)
    ensures
        r == utf8_width(c),
{
    let v = c as u32;
    if v < 0x80 {
        1
    } else if v < 0x800 {
        2
    } else if v < 0x10000 {
        3
    } else {
        4
    }
}

/// Line, column and byte offset of byte `offset` in `source`, counting every
/// character that starts before it.
pub fn calculate_position(source: &str, offset: usize) -> (r: SourcePosition)
    ensures
        r == spec_position(source@, offset as nat),
{
    let cs = chars_of(source);
    let mut line: u128 = 1;
    let mut column: u128 = 1;
    let mut bytes: u128 = 0;
    let mut i: usize = 0;
    while i < cs.len() && bytes < offset as u128
        invariant
            cs@ == source@,
            i <= cs@.len(),
            bytes == utf8_len(cs@.take(i as int)),
            bytes <= 4 * i,
            (line as nat, column as nat) == line_col(cs@.take(i as int)),
            line <= i + 1,
            column <= i + 1,
            forall|j: int| 0 <= j < i ==> utf8_len(#[trigger] cs@.take(j)) < offset,
        decreases cs@.len() - i,
    {
        let c = cs[i];
        proof {
            assert(cs@.take(i + 1).drop_last() =~= cs@.take(i as int));
            lemma_utf8_len_monotone(cs@, 0, i as int);
        }
        if c == '\n' {
            line = line + 1;
            column = 1;
        } else {
            column = column + 1;
        }
        bytes = bytes + char_utf8_width(c) as u128;
        i = i + 1;
    }
    proof {
        lemma_chars_before(cs@, offset as nat, i as int);
    }
    SourcePosition { line: line as usize, column: column as usize, offset }
}

} // verus!
