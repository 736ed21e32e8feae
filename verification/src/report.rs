//! How a parse error is shown to a person: a heading with the place, what
//! went wrong, and the lines of source around it with a caret under the
//! column.
use vstd::prelude::*;

use crate::lexer::{debug_quoted, debug_str};
use crate::parser_errors::{ErrorLevel, ParseError, ParseErrorType, SourcePosition};
use crate::text::{chars_of, decimal_chars, push_decimal, push_str, string_from_chars};

verus! {

// ---------------------------------------------------------------------------
// Lines of text
// ---------------------------------------------------------------------------

/// Where the first `'\n'` of `cs` is, or its length when it has none.
pub open spec fn newline_index(cs: Seq<char>) -> int
    decreases cs.len(),
{
    if cs.len() == 0 {
        0
    } else if cs[0] == '\n' {
        0
    } else {
        1 + newline_index(cs.drop_first())
    }
}

pub proof fn lemma_newline_index(cs: Seq<char>)
    ensures
        0 <= newline_index(cs) <= cs.len(),
        newline_index(cs) < cs.len() ==> cs[newline_index(cs)] == '\n',
        forall|j: int| 0 <= j < newline_index(cs) ==> cs[j] != '\n',
    decreases cs.len(),
{
    if cs.len() > 0 && cs[0] != '\n' {
        lemma_newline_index(cs.drop_first());
        assert forall|j: int| 0 <= j < newline_index(cs) implies cs[j] != '\n' by {
            if j > 0 {
                assert(cs.drop_first()[j - 1] == cs[j]);
            }
        }
    }
}

/// A line without the `'\r'` of a `"\r\n"` ending.
pub open spec fn strip_cr(l: Seq<char>) -> Seq<char> {
    if l.len() > 0 && l.last() == '\r' {
        l.drop_last()
    } else {
        l
    }
}

/// The lines of `cs` as `str::lines` gives them: split at `'\n'`, a `'\r'`
/// just before a `'\n'` dropped, and no empty line after a final `'\n'`.
pub open spec fn text_lines(cs: Seq<char>) -> Seq<Seq<char>>
    decreases cs.len(),
{
    if cs.len() == 0 {
        Seq::empty()
    } else {
        let k = newline_index(cs);
        proof {
            lemma_newline_index(cs);
        }
        if k == cs.len() {
            seq![cs]
        } else {
            seq![strip_cr(cs.take(k))] + text_lines(cs.skip(k + 1))
        }
    }
}

/// Where the line that starts at `start` ends.
fn line_end(cs: &Vec<char>, start: usize) -> (r: usize)
    requires
        start < cs.len(),
    ensures
        r == start + newline_index(cs@.skip(start as int)),
        start <= r <= cs.len(),
{
    let mut j = start;
    proof {
        lemma_newline_index(cs@.skip(start as int));
    }
    while j < cs.len() && cs[j] != '\n'
        invariant
            start <= j <= cs.len(),
            newline_index(cs@.skip(start as int)) == (j - start) + newline_index(cs@.skip(j as int)),
        decreases cs.len() - j,
    {
        assert(cs@.skip(j as int).drop_first() =~= cs@.skip(j + 1));
        j = j + 1;
    }
    j
}

pub open spec fn lines_view(v: Seq<Vec<char>>) -> Seq<Seq<char>> {
    v.map_values(|l: Vec<char>| l@)
}

/// The lines of `cs`.
fn split_lines(cs: &Vec<char>) -> (r: Vec<Vec<char>>)
    ensures
        lines_view(r@) == text_lines(cs@),
{
    let mut out: Vec<Vec<char>> = Vec::new();
    let mut start: usize = 0;
    assert(cs@.skip(0) =~= cs@);
    while start < cs.len()
        invariant
            start <= cs.len(),
            lines_view(out@) + text_lines(cs@.skip(start as int)) == text_lines(cs@),
        decreases cs.len() - start,
    {
        let k = line_end(cs, start);
        let ghost s = cs@.skip(start as int);
        let mut line: Vec<char> = Vec::new();
        let mut j = start;
        while j < k
            invariant
                start <= j <= k <= cs.len(),
                line@ == cs@.subrange(start as int, j as int),
            decreases k - j,
        {
            line.push(cs[j]);
            assert(line@ =~= cs@.subrange(start as int, j + 1));
            j = j + 1;
        }
        assert(s.take(k - start) =~= line@);
        if k == cs.len() {
            assert(s =~= line@);
            let ghost prev = out@;
            out.push(line);
            assert(lines_view(out@) =~= lines_view(prev) + seq![line@]);
            start = k;
            assert(cs@.skip(start as int) =~= Seq::<char>::empty());
        } else {
            let n = line.len();
            if n > 0 && line[n - 1] == '\r' {
                line.pop();
            }
            assert(s.skip(k - start + 1) =~= cs@.skip(k + 1));
            let ghost prev = out@;
            out.push(line);
            assert(lines_view(out@) =~= lines_view(prev) + seq![line@]);
            start = k + 1;
        }
    }
    assert(cs@.skip(start as int) =~= Seq::<char>::empty());
    assert(lines_view(out@) + Seq::<Seq<char>>::empty() =~= lines_view(out@));
    out
}

// ---------------------------------------------------------------------------
// The lines around a position
// ---------------------------------------------------------------------------

pub open spec fn spaces(n: nat) -> Seq<char> {
    Seq::new(n, |i: int| ' ')
}

/// `n` in decimal, right-aligned in `w` columns.
pub open spec fn padded(n: nat, w: nat) -> Seq<char> {
    let d = decimal_chars(n);
    if d.len() < w {
        spaces((w - d.len()) as nat) + d
    } else {
        d
    }
}

/// `n - 1`, or 0 for 0.
pub open spec fn minus_one(n: nat) -> nat {
    if n == 0 {
        0
    } else {
        (n - 1) as nat
    }
}

/// `n - 2`, or 0 below 2.
pub open spec fn minus_two(n: nat) -> nat {
    if n < 2 {
        0
    } else {
        (n - 2) as nat
    }
}

/// One line of the excerpt; the line of the position is marked with an
/// arrow, and a caret below it points at the column.
pub open spec fn excerpt_line(line: Seq<char>, num: nat, pos: SourcePosition, w: nat) -> Seq<char> {
    if num == pos.line {
        " → "@ + padded(num, w) + " | "@ + line + "\n"@ + "   "@ + spaces(w) + " | "@ + spaces(
            minus_one(pos.column as nat),
        ) + "^"@ + "\n"@
    } else {
        "   "@ + padded(num, w) + " | "@ + line + "\n"@
    }
}

/// The excerpt lines from index `i` up to `end`.
pub open spec fn excerpt_from(lines: Seq<Seq<char>>, i: int, end: int, pos: SourcePosition, w: nat) -> Seq<char>
    decreases end - i,
{
    if i >= end {
        Seq::empty()
    } else {
        excerpt_line(lines[i], (i + 1) as nat, pos, w) + excerpt_from(lines, i + 1, end, pos, w)
    }
}

/// The first line shown around a position.
pub open spec fn excerpt_start(pos: SourcePosition) -> nat {
    minus_two(minus_one(pos.line as nat))
}

/// One past the last line shown around a position.
pub open spec fn excerpt_end(source: Seq<char>, pos: SourcePosition) -> nat {
    let e = minus_one(pos.line as nat) + 3;
    if e < text_lines(source).len() {
        e
    } else {
        text_lines(source).len()
    }
}

/// Up to two lines before the position's line, that line, and up to two
/// after it, each with its number.
#[verifier::opaque]
pub open spec fn excerpt(source: Seq<char>, pos: SourcePosition) -> Seq<char> {
    let end = excerpt_end(source, pos);
    excerpt_from(text_lines(source), excerpt_start(pos) as int, end as int, pos, decimal_chars(end).len())
}

/// The lines around a position can be cut from the text: the first of them
/// is not past its end.
pub open spec fn excerpt_fits(source: Seq<char>, pos: SourcePosition) -> bool {
    excerpt_start(pos) <= text_lines(source).len()
}

fn push_spaces(out: &mut Vec<char>, n: usize)
    ensures
        final(out)@ == old(out)@ + spaces(n as nat),
{
    let mut i: usize = 0;
    while i < n
        invariant
            i <= n,
            out@ == old(out)@ + spaces(i as nat),
        decreases n - i,
    {
        out.push(' ');
        assert(out@ =~= old(out)@ + spaces((i + 1) as nat));
        i = i + 1;
    }
}

fn decimal_len(n: usize) -> (r: usize)
    ensures
        r == decimal_chars(n as nat).len(),
{
    let mut d: Vec<char> = Vec::new();
    push_decimal(&mut d, n as u128);
    assert(d@ =~= decimal_chars(n as nat));
    d.len()
}

fn push_padded(out: &mut Vec<char>, n: usize, w: usize)
    ensures
        final(out)@ == old(out)@ + padded(n as nat, w as nat),
{
    let len = decimal_len(n);
    if len < w {
        push_spaces(out, w - len);
    }
    push_decimal(out, n as u128);
    assert(final(out)@ =~= old(out)@ + padded(n as nat, w as nat));
}

fn push_vec(out: &mut Vec<char>, v: &Vec<char>)
    ensures
        final(out)@ == old(out)@ + v@,
{
    let mut i: usize = 0;
    while i < v.len()
        invariant
            i <= v.len(),
            out@ == old(out)@ + v@.take(i as int),
        decreases v.len() - i,
    {
        out.push(v[i]);
        assert(out@ =~= old(out)@ + v@.take(i + 1));
        i = i + 1;
    }
    assert(v@.take(i as int) =~= v@);
}

fn push_excerpt_line(out: &mut Vec<char>, line: &Vec<char>, num: usize, pos: SourcePosition, w: usize)
    ensures
        final(out)@ == old(out)@ + excerpt_line(line@, num as nat, pos, w as nat),
{
    if num == pos.line {
        push_str(out, " → ");
        push_padded(out, num, w);
        push_str(out, " | ");
        push_vec(out, line);
        push_str(out, "\n");
        push_str(out, "   ");
        push_spaces(out, w);
        push_str(out, " | ");
        let col: usize = if pos.column == 0 { 0 } else { pos.column - 1 };
        push_spaces(out, col);
        push_str(out, "^");
        push_str(out, "\n");
    } else {
        push_str(out, "   ");
        push_padded(out, num, w);
        push_str(out, " | ");
        push_vec(out, line);
        push_str(out, "\n");
    }
    assert(final(out)@ =~= old(out)@ + excerpt_line(line@, num as nat, pos, w as nat));
}

/// Append the lines of `source` around `pos`.
fn push_excerpt(out: &mut Vec<char>, source: &str, pos: SourcePosition)
    requires
        excerpt_fits(source@, pos),
    ensures
        final(out)@ == old(out)@ + excerpt(source@, pos),
{
    reveal(excerpt);
    let cs = chars_of(source);
    let lines = split_lines(&cs);
    let ghost ls = text_lines(source@);
    assert(lines@.len() == ls.len());
    let line_idx: usize = if pos.line == 0 { 0 } else { pos.line - 1 };
    let start: usize = if line_idx < 2 { 0 } else { line_idx - 2 };
    let end: usize = if line_idx as u128 + 3 < lines.len() as u128 { line_idx + 3 } else { lines.len() };
    let w = decimal_len(end);
    let mut i = start;
    let ghost base = out@;
    assert(start <= end);
    while i < end
        invariant
            start <= i <= end <= lines@.len(),
            lines_view(lines@) == ls,
            end == excerpt_end(source@, pos),
            w == decimal_chars(end as nat).len(),
            out@ + excerpt_from(ls, i as int, end as int, pos, w as nat) == base + excerpt(source@, pos),
        decreases end - i,
    {
        let num = i + 1;
        let line = &lines[i];
        assert(line@ == ls[i as int]);
        let ghost before = out@;
        push_excerpt_line(out, line, num, pos, w);
        assert(before + excerpt_from(ls, i as int, end as int, pos, w as nat) =~= out@ + excerpt_from(
            ls,
            i + 1,
            end as int,
            pos,
            w as nat,
        ));
        i = i + 1;
    }
    assert(out@ =~= base + excerpt(source@, pos));
}

// ---------------------------------------------------------------------------
// Plain words for what the parser expected
// ---------------------------------------------------------------------------

/// Whether `n` occurs in `h`.
pub open spec fn contains_seq(h: Seq<char>, n: Seq<char>) -> bool {
    exists|i: int| 0 <= i && i + n.len() <= h.len() && #[trigger] h.subrange(i, i + n.len()) == n
}

/// Whether `n` occurs in one of `es`.
pub open spec fn any_contains(es: Seq<Seq<char>>, n: Seq<char>) -> bool {
    exists|i: int| 0 <= i < es.len() && contains_seq(#[trigger] es[i], n)
}

/// A plain word for one expected token, when there is one.
pub open spec fn plain_word(e: Seq<char>) -> Option<Seq<char>> {
    if contains_seq(e, "decimalnumber"@) {
        Some("number"@)
    } else if contains_seq(e, "hexnumber"@) {
        Some("hex number (0xFF)"@)
    } else if contains_seq(e, "id"@) {
        Some("identifier"@)
    } else if contains_seq(e, "str"@) {
        Some("string"@)
    } else if contains_seq(e, "semicolon"@) {
        Some("semicolon (;)"@)
    } else if contains_seq(e, "comma"@) {
        Some("comma (,)"@)
    } else if contains_seq(e, "braceopen"@) {
        Some("opening brace ({)"@)
    } else if contains_seq(e, "braceclose"@) {
        Some("closing brace (})"@)
    } else if contains_seq(e, "impl"@) {
        Some("'impl' keyword"@)
    } else if contains_seq(e, "enum"@) {
        Some("enum definition"@)
    } else if contains_seq(e, "fn"@) {
        Some("function definition"@)
    } else {
        None
    }
}

/// The plain words for the expected tokens that have one, in order.
pub open spec fn plain_words(es: Seq<Seq<char>>) -> Seq<Seq<char>>
    decreases es.len(),
{
    if es.len() == 0 {
        Seq::empty()
    } else {
        match plain_word(es.last()) {
            Some(w) => plain_words(es.drop_last()).push(w),
            None => plain_words(es.drop_last()),
        }
    }
}

/// `parts` with `sep` between each two.
pub open spec fn join(parts: Seq<Seq<char>>, sep: Seq<char>) -> Seq<char>
    decreases parts.len(),
{
    if parts.len() == 0 {
        Seq::empty()
    } else if parts.len() == 1 {
        parts[0]
    } else {
        join(parts.drop_last(), sep) + sep + parts.last()
    }
}

/// How `Debug` writes a list of strings.
pub open spec fn debug_list(es: Seq<Seq<char>>) -> Seq<char> {
    "["@ + join(es.map_values(|e: Seq<char>| debug_str(e)), ", "@) + "]"@
}

/// A hint for a syntax error, from what was expected and what was found.
#[verifier::opaque]
pub open spec fn syntax_hint(expected: Seq<Seq<char>>, found: Option<Seq<char>>) -> Seq<char> {
    if found is Some && contains_seq(found->0, "ParenOpen"@) && (any_contains(expected, "decimalnumber"@) || any_contains(
        expected,
        "id"@,
    )) {
        "Arithmetic expressions are not supported here. Use simple values like numbers, variables, or method calls instead."@
    } else if found is Some && contains_seq(found->0, "BraceOpen"@) && any_contains(expected, "semicolon"@) {
        "Missing semicolon. Each statement must end with ';'"@
    } else if found is Some && contains_seq(found->0, "Id"@) && any_contains(expected, "braceclose"@) {
        "Missing comma between enum variants or list items."@
    } else if plain_words(expected).len() > 0 {
        "Expected "@ + join(plain_words(expected), " or "@)
    } else {
        "Unexpected syntax, Expected tokens: "@ + debug_list(expected)
    }
}

fn matches_at(h: &Vec<char>, n: &Vec<char>, i: usize) -> (r: bool)
    requires
        i + n.len() <= h.len(),
    ensures
        r == (h@.subrange(i as int, i + n.len()) == n@),
{
    let mut j: usize = 0;
    while j < n.len()
        invariant
            j <= n.len(),
            i + n.len() <= h.len(),
            forall|k: int| 0 <= k < j ==> h@[i + k] == n@[k],
        decreases n.len() - j,
    {
        if h[i + j] != n[j] {
            assert(h@.subrange(i as int, i + n.len())[j as int] != n@[j as int]);
            return false;
        }
        j = j + 1;
    }
    assert(h@.subrange(i as int, i + n.len()) =~= n@);
    true
}

/// Whether `n` occurs in `h`.
fn contains_text(h: &Vec<char>, n: &str) -> (r: bool)
    ensures
        r == contains_seq(h@, n@),
{
    let nv = chars_of(n);
    if nv.len() > h.len() {
        return false;
    }
    let last = h.len() - nv.len();
    let mut i: usize = 0;
    loop
        invariant
            nv@ == n@,
            last + nv.len() == h.len(),
            i <= last,
            forall|k: int| 0 <= k < i ==> #[trigger] h@.subrange(k, k + nv@.len()) != nv@,
        decreases last - i,
    {
        if matches_at(h, &nv, i) {
            return true;
        }
        if i == last {
            return false;
        }
        i = i + 1;
    }
}

fn string_has(s: &String, n: &str) -> (r: bool)
    ensures
        r == contains_seq(s@, n@),
{
    let cs = chars_of(s.as_str());
    contains_text(&cs, n)
}

fn any_string_has(es: &Vec<String>, n: &str) -> (r: bool)
    ensures
        r == any_contains(es@.map_values(|e: String| e@), n@),
{
    let ghost v = es@.map_values(|e: String| e@);
    let mut i: usize = 0;
    while i < es.len()
        invariant
            i <= es.len(),
            v == es@.map_values(|e: String| e@),
            forall|k: int| 0 <= k < i ==> !contains_seq(#[trigger] v[k], n@),
        decreases es.len() - i,
    {
        if string_has(&es[i], n) {
            assert(contains_seq(v[i as int], n@));
            return true;
        }
        i = i + 1;
    }
    false
}

fn plain_word_of(e: &String) -> (r: Option<&'static str>)
    ensures
        match plain_word(e@) {
            Some(w) => r matches Some(s) && s@ == w,
            None => r is None,
        },
{
    if string_has(e, "decimalnumber") {
        Some("number")
    } else if string_has(e, "hexnumber") {
        Some("hex number (0xFF)")
    } else if string_has(e, "id") {
        Some("identifier")
    } else if string_has(e, "str") {
        Some("string")
    } else if string_has(e, "semicolon") {
        Some("semicolon (;)")
    } else if string_has(e, "comma") {
        Some("comma (,)")
    } else if string_has(e, "braceopen") {
        Some("opening brace ({)")
    } else if string_has(e, "braceclose") {
        Some("closing brace (})")
    } else if string_has(e, "impl") {
        Some("'impl' keyword")
    } else if string_has(e, "enum") {
        Some("enum definition")
    } else if string_has(e, "fn") {
        Some("function definition")
    } else {
        None
    }
}

pub open spec fn strs_view(v: Seq<&str>) -> Seq<Seq<char>> {
    v.map_values(|s: &str| s@)
}

fn plain_words_of(es: &Vec<String>) -> (r: Vec<&'static str>)
    ensures
        strs_view(r@) == plain_words(es@.map_values(|e: String| e@)),
{
    let ghost v = es@.map_values(|e: String| e@);
    let mut r: Vec<&'static str> = Vec::new();
    let mut i: usize = 0;
    assert(v.take(0) =~= Seq::<Seq<char>>::empty());
    while i < es.len()
        invariant
            i <= es.len(),
            v == es@.map_values(|e: String| e@),
            strs_view(r@) == plain_words(v.take(i as int)),
        decreases es.len() - i,
    {
        assert(v.take(i + 1).drop_last() =~= v.take(i as int));
        match plain_word_of(&es[i]) {
            Some(w) => {
                r.push(w);
                assert(strs_view(r@) =~= plain_words(v.take(i as int)).push(w@));
            },
            None => {},
        }
        i = i + 1;
    }
    assert(v.take(i as int) =~= v);
    r
}

fn push_join_strs(out: &mut Vec<char>, parts: &Vec<&str>, sep: &str)
    ensures
        final(out)@ == old(out)@ + join(strs_view(parts@), sep@),
{
    let ghost v = strs_view(parts@);
    let mut i: usize = 0;
    assert(v.take(0) =~= Seq::<Seq<char>>::empty());
    while i < parts.len()
        invariant
            i <= parts.len(),
            v == strs_view(parts@),
            out@ == old(out)@ + join(v.take(i as int), sep@),
        decreases parts.len() - i,
    {
        assert(v.take(i + 1).drop_last() =~= v.take(i as int));
        if i > 0 {
            push_str(out, sep);
        }
        push_str(out, parts[i]);
        assert(out@ =~= old(out)@ + join(v.take(i + 1), sep@));
        i = i + 1;
    }
    assert(v.take(i as int) =~= v);
}

pub open spec fn strings_view(v: Seq<String>) -> Seq<Seq<char>> {
    v.map_values(|s: String| s@)
}

fn push_join(out: &mut Vec<char>, parts: &Vec<String>, sep: &str)
    ensures
        final(out)@ == old(out)@ + join(strings_view(parts@), sep@),
{
    let ghost v = strings_view(parts@);
    let mut i: usize = 0;
    assert(v.take(0) =~= Seq::<Seq<char>>::empty());
    while i < parts.len()
        invariant
            i <= parts.len(),
            v == strings_view(parts@),
            out@ == old(out)@ + join(v.take(i as int), sep@),
        decreases parts.len() - i,
    {
        assert(v.take(i + 1).drop_last() =~= v.take(i as int));
        if i > 0 {
            push_str(out, sep);
        }
        push_str(out, parts[i].as_str());
        assert(out@ =~= old(out)@ + join(v.take(i + 1), sep@));
        i = i + 1;
    }
    assert(v.take(i as int) =~= v);
}

fn push_debug_list(out: &mut Vec<char>, es: &Vec<String>)
    ensures
        final(out)@ == old(out)@ + debug_list(strings_view(es@)),
{
    let mut quoted: Vec<String> = Vec::new();
    let mut i: usize = 0;
    while i < es.len()
        invariant
            i <= es.len(),
            quoted@.len() == i,
            forall|k: int| 0 <= k < i ==> (#[trigger] quoted@[k])@ == debug_str(es@[k]@),
        decreases es.len() - i,
    {
        let q = debug_quoted(es[i].as_str());
        quoted.push(q);
        i = i + 1;
    }
    assert(strings_view(quoted@) =~= strings_view(es@).map_values(|e: Seq<char>| debug_str(e)));
    push_str(out, "[");
    push_join(out, &quoted, ", ");
    push_str(out, "]");
    assert(final(out)@ =~= old(out)@ + debug_list(strings_view(es@)));
}

/// A hint for a syntax error, from what was expected and what was found.
pub fn get_user_friendly_syntax_message(expected: &Vec<String>, found: &Option<String>) -> (r: String)
    ensures
        r@ == syntax_hint(
            strings_view(expected@),
            match found {
                Some(f) => Some(f@),
                None => None,
            },
        ),
{
    reveal(syntax_hint);
    let ghost fv: Option<Seq<char>> = match found {
        Some(f) => Some(f@),
        None => None,
    };
    let mut out: Vec<char> = Vec::new();
    if let Some(f) = found {
        if string_has(f, "ParenOpen") && (any_string_has(expected, "decimalnumber") || any_string_has(
            expected,
            "id",
        )) {
            return "Arithmetic expressions are not supported here. Use simple values like numbers, variables, or method calls instead.".to_owned();
        }
        if string_has(f, "BraceOpen") && any_string_has(expected, "semicolon") {
            return "Missing semicolon. Each statement must end with ';'".to_owned();
        }
        if string_has(f, "Id") && any_string_has(expected, "braceclose") {
            return "Missing comma between enum variants or list items.".to_owned();
        }
    }
    let words = plain_words_of(expected);
    if words.len() > 0 {
        push_str(&mut out, "Expected ");
        push_join_strs(&mut out, &words, " or ");
    } else {
        push_str(&mut out, "Unexpected syntax, Expected tokens: ");
        push_debug_list(&mut out, expected);
    }
    assert(out@ =~= syntax_hint(strings_view(expected@), fv));
    string_from_chars(out.as_slice())
}

// ---------------------------------------------------------------------------
// The whole report
// ---------------------------------------------------------------------------

/// "at line L, column C".
pub open spec fn place(pos: SourcePosition) -> Seq<char> {
    "at line "@ + decimal_chars(pos.line as nat) + ", column "@ + decimal_chars(pos.column as nat)
}

pub open spec fn opt_view(o: Option<String>) -> Option<Seq<char>> {
    match o {
        Some(s) => Some(s@),
        None => None,
    }
}

/// The report for a tokenization error.
pub open spec fn tokenization_report(
    message: Seq<char>,
    context: Seq<char>,
    level: ErrorLevel,
    at: Seq<char>,
    ctx: Seq<char>,
) -> Seq<char> {
    match level {
        ErrorLevel::Normal => "Invalid character "@ + at + "\n"@ + ctx + "\n"@,
        _ => "Tokenization error "@ + at + ":\n"@ + message + "\n"@ + ctx + "\n"@ + if context.len() > 0 && level
            == ErrorLevel::Verbose {
            "Context: "@ + context
        } else {
            Seq::empty()
        },
    }
}

/// The body of a verbose syntax report.
pub open spec fn syntax_verbose(
    expected: Seq<Seq<char>>,
    found: Option<Seq<char>>,
    context: Seq<char>,
    peg_error: Option<Seq<char>>,
    ctx: Seq<char>,
) -> Seq<char> {
    (match found {
        Some(f) => "Found '"@ + f + "', but expected one of: "@ + join(expected, ", "@) + "\n"@,
        None => "Expected one of: "@ + join(expected, ", "@) + "\n"@,
    }) + ctx + "\n"@ + if context.len() > 0 {
        "Context: "@ + context + "\n"@
    } else {
        Seq::empty()
    } + match peg_error {
        Some(p) => "PEG Error: "@ + p + "\n"@,
        None => Seq::empty(),
    }
}

/// The body of a normal or detailed syntax report.
pub open spec fn syntax_plain(
    expected: Seq<Seq<char>>,
    found: Option<Seq<char>>,
    friendly: Option<Seq<char>>,
    detailed: bool,
    ctx: Seq<char>,
) -> Seq<char> {
    let hint = match friendly {
        Some(m) => m,
        None => syntax_hint(expected, found),
    };
    hint + "\n"@ + if detailed {
        (match found {
            Some(f) => "Found: "@ + f + "\n"@,
            None => Seq::empty(),
        }) + "Expected: "@ + join(expected, ", "@) + "\n"@
    } else {
        Seq::empty()
    } + ctx
}

/// The report for a syntax error.
pub open spec fn syntax_report(
    expected: Seq<Seq<char>>,
    found: Option<Seq<char>>,
    context: Seq<char>,
    peg_error: Option<Seq<char>>,
    friendly: Option<Seq<char>>,
    level: ErrorLevel,
    at: Seq<char>,
    ctx: Seq<char>,
) -> Seq<char> {
    "Syntax error "@ + at + ":\n"@ + match level {
        ErrorLevel::Verbose => syntax_verbose(expected, found, context, peg_error, ctx),
        _ => syntax_plain(expected, found, friendly, level == ErrorLevel::Detailed, ctx),
    }
}

/// The report for a semantic error.
pub open spec fn semantic_report(
    message: Seq<char>,
    suggestion: Option<Seq<char>>,
    at: Seq<char>,
    ctx: Seq<char>,
) -> Seq<char> {
    "Error "@ + at + ":\n"@ + message + "\n"@ + ctx + "\n"@ + match suggestion {
        Some(s) => "Suggestion: "@ + s + "\n"@,
        None => Seq::empty(),
    }
}

/// The report for a parse error.
pub open spec fn report(e: ParseError) -> Seq<char> {
    let ctx = excerpt(e.source@, e.position);
    let at = place(e.position);
    match *e.error_type {
        ParseErrorType::Tokenization { message, context } => tokenization_report(
            message@,
            context@,
            e.level,
            at,
            ctx,
        ),
        ParseErrorType::Syntax { expected, found, context, peg_error, user_friendly_message } => syntax_report(
            strings_view(expected@),
            opt_view(found),
            context@,
            opt_view(peg_error),
            opt_view(user_friendly_message),
            e.level,
            at,
            ctx,
        ),
        ParseErrorType::Semantic { message, suggestion, context } => semantic_report(
            message@,
            opt_view(suggestion),
            at,
            ctx,
        ),
    }
}

fn push_place(out: &mut Vec<char>, pos: SourcePosition)
    ensures
        final(out)@ == old(out)@ + place(pos),
{
    push_str(out, "at line ");
    push_decimal(out, pos.line as u128);
    push_str(out, ", column ");
    push_decimal(out, pos.column as u128);
    assert(final(out)@ =~= old(out)@ + place(pos));
}

fn nonempty(s: &String) -> (r: bool)
    ensures
        r == (s@.len() > 0),
{
    chars_of(s.as_str()).len() > 0
}

fn push_string(out: &mut Vec<char>, s: &String)
    ensures
        final(out)@ == old(out)@ + s@,
{
    push_str(out, s.as_str());
}

fn push_tokenization_report(
    out: &mut Vec<char>,
    message: &String,
    context: &String,
    level: ErrorLevel,
    source: &str,
    pos: SourcePosition,
)
    requires
        excerpt_fits(source@, pos),
    ensures
        final(out)@ == old(out)@ + tokenization_report(message@, context@, level, place(pos), excerpt(source@, pos)),
{
    match level {
        ErrorLevel::Normal => {
            push_str(out, "Invalid character ");
            push_place(out, pos);
            push_str(out, "\n");
            push_excerpt(out, source, pos);
            push_str(out, "\n");
        },
        _ => {
            push_str(out, "Tokenization error ");
            push_place(out, pos);
            push_str(out, ":\n");
            push_string(out, message);
            push_str(out, "\n");
            push_excerpt(out, source, pos);
            push_str(out, "\n");
            if nonempty(context) && level == ErrorLevel::Verbose {
                push_str(out, "Context: ");
                push_string(out, context);
            }
        },
    }
    assert(final(out)@ =~= old(out)@ + tokenization_report(message@, context@, level, place(pos), excerpt(source@, pos)));
}

fn push_opt_line(out: &mut Vec<char>, label: &str, v: &Option<String>)
    ensures
        final(out)@ == old(out)@ + match v {
            Some(x) => label@ + x@ + "\n"@,
            None => Seq::empty(),
        },
{
    if let Some(x) = v {
        push_str(out, label);
        push_string(out, x);
        push_str(out, "\n");
    }
    assert(final(out)@ =~= old(out)@ + match v {
        Some(x) => label@ + x@ + "\n"@,
        None => Seq::empty(),
    });
}

fn push_context_and_peg(out: &mut Vec<char>, context: &String, peg_error: &Option<String>)
    ensures
        final(out)@ == old(out)@ + (if context@.len() > 0 {
            "Context: "@ + context@ + "\n"@
        } else {
            Seq::empty()
        }) + match peg_error {
            Some(p) => "PEG Error: "@ + p@ + "\n"@,
            None => Seq::empty(),
        },
{
    let ghost start = out@;
    if nonempty(context) {
        push_str(out, "Context: ");
        push_string(out, context);
        push_str(out, "\n");
    }
    let ghost mid = out@;
    assert(mid =~= start + (if context@.len() > 0 {
        "Context: "@ + context@ + "\n"@
    } else {
        Seq::empty()
    }));
    push_opt_line(out, "PEG Error: ", peg_error);
}

#[verifier::spinoff_prover]
fn push_syntax_verbose(
    out: &mut Vec<char>,
    expected: &Vec<String>,
    found: &Option<String>,
    context: &String,
    peg_error: &Option<String>,
    source: &str,
    pos: SourcePosition,
)
    requires
        excerpt_fits(source@, pos),
    ensures
        final(out)@ == old(out)@ + syntax_verbose(
            strings_view(expected@),
            opt_view(*found),
            context@,
            opt_view(*peg_error),
            excerpt(source@, pos),
        ),
{
    match found {
        Some(f) => {
            push_str(out, "Found '");
            push_string(out, f);
            push_str(out, "', but expected one of: ");
        },
        None => push_str(out, "Expected one of: "),
    }
    push_join(out, expected, ", ");
    push_str(out, "\n");
    push_excerpt(out, source, pos);
    push_str(out, "\n");
    push_context_and_peg(out, context, peg_error);
    assert(final(out)@ =~= old(out)@ + syntax_verbose(
        strings_view(expected@),
        opt_view(*found),
        context@,
        opt_view(*peg_error),
        excerpt(source@, pos),
    ));
}

#[verifier::spinoff_prover]
fn push_syntax_plain(
    out: &mut Vec<char>,
    expected: &Vec<String>,
    found: &Option<String>,
    friendly: &Option<String>,
    detailed: bool,
    source: &str,
    pos: SourcePosition,
)
    requires
        excerpt_fits(source@, pos),
    ensures
        final(out)@ == old(out)@ + syntax_plain(
            strings_view(expected@),
            opt_view(*found),
            opt_view(*friendly),
            detailed,
            excerpt(source@, pos),
        ),
{
    match friendly {
        Some(m) => push_string(out, m),
        None => {
            let h = get_user_friendly_syntax_message(expected, found);
            push_string(out, &h);
        },
    }
    push_str(out, "\n");
    if detailed {
        push_opt_line(out, "Found: ", found);
        push_str(out, "Expected: ");
        push_join(out, expected, ", ");
        push_str(out, "\n");
    }
    push_excerpt(out, source, pos);
    assert(final(out)@ =~= old(out)@ + syntax_plain(
        strings_view(expected@),
        opt_view(*found),
        opt_view(*friendly),
        detailed,
        excerpt(source@, pos),
    ));
}

fn push_syntax_report(
    out: &mut Vec<char>,
    expected: &Vec<String>,
    found: &Option<String>,
    context: &String,
    peg_error: &Option<String>,
    friendly: &Option<String>,
    level: ErrorLevel,
    source: &str,
    pos: SourcePosition,
)
    requires
        excerpt_fits(source@, pos),
    ensures
        final(out)@ == old(out)@ + syntax_report(
            strings_view(expected@),
            opt_view(*found),
            context@,
            opt_view(*peg_error),
            opt_view(*friendly),
            level,
            place(pos),
            excerpt(source@, pos),
        ),
{
    push_str(out, "Syntax error ");
    push_place(out, pos);
    push_str(out, ":\n");
    match level {
        ErrorLevel::Verbose => push_syntax_verbose(out, expected, found, context, peg_error, source, pos),
        _ => push_syntax_plain(out, expected, found, friendly, level == ErrorLevel::Detailed, source, pos),
    }
    assert(final(out)@ =~= old(out)@ + syntax_report(
        strings_view(expected@),
        opt_view(*found),
        context@,
        opt_view(*peg_error),
        opt_view(*friendly),
        level,
        place(pos),
        excerpt(source@, pos),
    ));
}

fn push_semantic_report(
    out: &mut Vec<char>,
    message: &String,
    suggestion: &Option<String>,
    source: &str,
    pos: SourcePosition,
)
    requires
        excerpt_fits(source@, pos),
    ensures
        final(out)@ == old(out)@ + semantic_report(message@, opt_view(*suggestion), place(pos), excerpt(source@, pos)),
{
    push_str(out, "Error ");
    push_place(out, pos);
    push_str(out, ":\n");
    push_string(out, message);
    push_str(out, "\n");
    push_excerpt(out, source, pos);
    push_str(out, "\n");
    push_opt_line(out, "Suggestion: ", suggestion);
    assert(final(out)@ =~= old(out)@ + semantic_report(message@, opt_view(*suggestion), place(pos), excerpt(source@, pos)));
}

impl ParseError {
    /// Whether the lines around this error's position can be shown: its line
    /// is at most two past the end of its source.
    pub fn can_report(&self) -> (r: bool)
        ensures
            r == excerpt_fits(self.source@, self.position),
    {
        let cs = chars_of(self.source.as_str());
        let lines = split_lines(&cs);
        let line_idx: usize = if self.position.line == 0 { 0 } else { self.position.line - 1 };
        let start: usize = if line_idx < 2 { 0 } else { line_idx - 2 };
        start <= lines.len()
    }

    /// The report shown for this error, with as much detail as its level
    /// asks for.
    pub fn message(&self) -> (s: String)
        requires
            excerpt_fits(self.source@, self.position),
        ensures
            s@ == report(*self),
    {
        let mut out: Vec<char> = Vec::new();
        let pos = self.position;
        let source = self.source.as_str();
        match &*self.error_type {
            ParseErrorType::Tokenization { message, context } => {
                push_tokenization_report(&mut out, message, context, self.level, source, pos);
            },
            ParseErrorType::Syntax { expected, found, context, peg_error, user_friendly_message } => {
                push_syntax_report(
                    &mut out,
                    expected,
                    found,
                    context,
                    peg_error,
                    user_friendly_message,
                    self.level,
                    source,
                    pos,
                );
            },
            ParseErrorType::Semantic { message, suggestion, context } => {
                push_semantic_report(&mut out, message, suggestion, source, pos);
            },
        }
        assert(out@ =~= report(*self));
        string_from_chars(out.as_slice())
    }
}

/// `line L, column C` for a position.
pub open spec fn line_and_column(pos: SourcePosition) -> Seq<char> {
    "line "@ + decimal_chars(pos.line as nat) + ", column "@ + decimal_chars(pos.column as nat)
}

/// A report that writes the place after `a` names the line and column
/// three characters after `a`.
proof fn lemma_place_after(r: Seq<char>, a: Seq<char>, pos: SourcePosition)
    requires
        r.len() >= a.len() + place(pos).len(),
        r.subrange(0, a.len() as int) == a,
        r.subrange(a.len() as int, (a.len() + place(pos).len()) as int) == place(pos),
    ensures
        place(pos).len() == 3 + line_and_column(pos).len(),
        r.subrange((a.len() + 3) as int, (a.len() + 3 + line_and_column(pos).len()) as int) == line_and_column(pos),
{
    reveal_strlit("at line ");
    reveal_strlit("line ");
    let lc = line_and_column(pos);
    assert(place(pos) =~= seq!['a', 't', ' '] + lc);
    assert(r.subrange((a.len() + 3) as int, (a.len() + 3 + lc.len()) as int) =~= place(pos).subrange(3, (3 + lc.len()) as int));
}

/// Every report of a parse error names the line and the column of the
/// place it is about, and a syntax error's report starts with
/// `Syntax error at line `.
pub proof fn lemma_report_names_place(e: ParseError)
    ensures
        exists|i: int| 0 <= i && i + line_and_column(e.position).len() <= report(e).len()
            && #[trigger] report(e).subrange(i, i + line_and_column(e.position).len()) == line_and_column(e.position),
        (*e.error_type is Syntax) ==> report(e).take(21) == "Syntax error at line "@,
{
    let r = report(e);
    let at = place(e.position);
    let lc = line_and_column(e.position);
    reveal_strlit("Invalid character ");
    reveal_strlit("Tokenization error ");
    reveal_strlit("Syntax error ");
    reveal_strlit("Error ");
    reveal_strlit("at line ");
    reveal_strlit("Syntax error at line ");
    let a: Seq<char> = match *e.error_type {
        ParseErrorType::Tokenization { .. } => if e.level == ErrorLevel::Normal {
            "Invalid character "@
        } else {
            "Tokenization error "@
        },
        ParseErrorType::Syntax { .. } => "Syntax error "@,
        ParseErrorType::Semantic { .. } => "Error "@,
    };
    assert(r.len() >= a.len() + at.len());
    assert(r.subrange(0, a.len() as int) =~= a);
    assert(r.subrange(a.len() as int, (a.len() + at.len()) as int) =~= at);
    lemma_place_after(r, a, e.position);
    let i = (a.len() + 3) as int;
    assert(i + lc.len() <= r.len());
    assert(r.subrange(i, i + lc.len()) == lc);
    if *e.error_type is Syntax {
        assert(r.take(21) =~= "Syntax error at line "@);
    }
}

} // verus!
