//! Splitting text into fields and trimming white space.
use vstd::prelude::*;

use crate::text::string_from_chars;

verus! {

/// The text before the first `sep` in `s`.
pub open spec fn before_sep(s: Seq<char>, sep: char) -> Seq<char>
    decreases s.len(),
{
    if s.len() == 0 || s[0] == sep {
        Seq::empty()
    } else {
        seq![s[0]] + before_sep(s.drop_first(), sep)
    }
}

/// The text after the first `sep` in `s`, if it has one.
pub open spec fn after_sep(s: Seq<char>, sep: char) -> Option<Seq<char>>
    decreases s.len(),
{
    if s.len() == 0 {
        None
    } else if s[0] == sep {
        Some(s.drop_first())
    } else {
        after_sep(s.drop_first(), sep)
    }
}

/// The field of `cs` that starts at `from` and ends before the next `sep`,
/// and where the text after that `sep` starts.
pub fn field(cs: &Vec<char>, from: usize, sep: char) -> (r: (Vec<char>, Option<usize>))
    requires
        from <= cs.len(),
    ensures
        r.0@ == before_sep(cs@.skip(from as int), sep),
        match r.1 {
            Some(k) => k <= cs.len() && after_sep(cs@.skip(from as int), sep) == Some(cs@.skip(k as int)),
            None => after_sep(cs@.skip(from as int), sep) is None,
        },
{
    let mut out: Vec<char> = Vec::new();
    let mut i: usize = from;
    loop
        invariant
            from <= i <= cs.len(),
            out@ + before_sep(cs@.skip(i as int), sep) == before_sep(cs@.skip(from as int), sep),
            after_sep(cs@.skip(i as int), sep) == after_sep(cs@.skip(from as int), sep),
        decreases cs.len() - i,
    {
        if i == cs.len() {
            assert(cs@.skip(i as int).len() == 0);
            assert(out@ + Seq::<char>::empty() =~= out@);
            return (out, None);
        }
        let c = cs[i];
        assert(cs@.skip(i as int)[0] == c);
        assert(cs@.skip(i as int).drop_first() =~= cs@.skip(i + 1));
        if c == sep {
            assert(out@ + Seq::<char>::empty() =~= out@);
            return (out, Some(i + 1));
        }
        let ghost before = out@;
        out.push(c);
        assert(before + before_sep(cs@.skip(i as int), sep) =~= out@ + before_sep(cs@.skip(i + 1), sep));
        i = i + 1;
    }
}

/// Whether `c` is white space in Unicode, as `char::is_whitespace` says.
pub open spec fn is_white_space(c: char) -> bool {
    ('\t' <= c && c <= '\r') || c == ' ' || c == '\u{85}' || c == '\u{a0}' || c == '\u{1680}'
        || ('\u{2000}' <= c && c <= '\u{200a}') || c == '\u{2028}' || c == '\u{2029}'
        || c == '\u{202f}' || c == '\u{205f}' || c == '\u{3000}'
}

pub fn white_space(c: char) -> (r: bool)
    ensures
        r == is_white_space(c),
{
    ('\t' <= c && c <= '\r') || c == ' ' || c == '\u{85}' || c == '\u{a0}' || c == '\u{1680}'
        || ('\u{2000}' <= c && c <= '\u{200a}') || c == '\u{2028}' || c == '\u{2029}'
        || c == '\u{202f}' || c == '\u{205f}' || c == '\u{3000}'
}

/// `s` without its leading white space.
pub open spec fn trim_start(s: Seq<char>) -> Seq<char>
    decreases s.len(),
{
    if s.len() > 0 && is_white_space(s[0]) {
        trim_start(s.drop_first())
    } else {
        s
    }
}

/// `s` without its trailing white space.
pub open spec fn trim_end(s: Seq<char>) -> Seq<char>
    decreases s.len(),
{
    if s.len() > 0 && is_white_space(s.last()) {
        trim_end(s.drop_last())
    } else {
        s
    }
}

/// `s` without white space at either end, as `str::trim` gives it.
pub open spec fn trimmed(s: Seq<char>) -> Seq<char> {
    trim_end(trim_start(s))
}

/// The characters of `cs` from `from` on, without white space at either end.
pub fn trim_from(cs: &Vec<char>, from: usize) -> (r: Vec<char>)
    requires
        from <= cs.len(),
    ensures
        r@ == trimmed(cs@.skip(from as int)),
{
    let mut i: usize = from;
    loop
        invariant
            from <= i <= cs.len(),
            trim_start(cs@.skip(from as int)) == trim_start(cs@.skip(i as int)),
        ensures
            from <= i <= cs.len(),
            trim_start(cs@.skip(from as int)) == cs@.skip(i as int),
        decreases cs.len() - i,
    {
        if i == cs.len() || !white_space(cs[i]) {
            break;
        }
        assert(cs@.skip(i as int).drop_first() =~= cs@.skip(i + 1));
        i = i + 1;
    }
    let mut j: usize = cs.len();
    assert(cs@.skip(i as int) =~= cs@.subrange(i as int, j as int));
    loop
        invariant
            i <= j <= cs.len(),
            trim_end(cs@.skip(i as int)) == trim_end(cs@.subrange(i as int, j as int)),
        ensures
            i <= j <= cs.len(),
            trim_end(cs@.skip(i as int)) == cs@.subrange(i as int, j as int),
        decreases j - i,
    {
        if j == i || !white_space(cs[j - 1]) {
            break;
        }
        assert(cs@.subrange(i as int, j as int).drop_last() =~= cs@.subrange(i as int, j - 1));
        j = j - 1;
    }
    let mut out: Vec<char> = Vec::new();
    let mut k: usize = i;
    while k < j
        invariant
            i <= k <= j <= cs.len(),
            out@ == cs@.subrange(i as int, k as int),
        decreases j - k,
    {
        out.push(cs[k]);
        assert(out@ =~= cs@.subrange(i as int, k + 1));
        k = k + 1;
    }
    out
}

/// The word being read so far, if it has begun.
pub open spec fn pending(cur: Seq<char>) -> Seq<Seq<char>> {
    if cur.len() > 0 {
        seq![cur]
    } else {
        Seq::empty()
    }
}

/// The words of `cur + s`, where `cur` holds no white space: the runs of
/// characters between white space, as `str::split_whitespace` gives them.
pub open spec fn words_from(s: Seq<char>, cur: Seq<char>) -> Seq<Seq<char>>
    decreases s.len(),
{
    if s.len() == 0 {
        pending(cur)
    } else if is_white_space(s[0]) {
        pending(cur) + words_from(s.drop_first(), Seq::empty())
    } else {
        words_from(s.drop_first(), cur.push(s[0]))
    }
}

/// The words of `s`.
pub open spec fn words(s: Seq<char>) -> Seq<Seq<char>> {
    words_from(s, Seq::empty())
}

/// Character vectors as character sequences.
pub open spec fn texts_of(v: Seq<Vec<char>>) -> Seq<Seq<char>> {
    v.map_values(|w: Vec<char>| w@)
}

/// The words of `cs`.
pub fn split_words(cs: &Vec<char>) -> (r: Vec<Vec<char>>)
    ensures
        texts_of(r@) == words(cs@),
{
    let mut out: Vec<Vec<char>> = Vec::new();
    let mut cur: Vec<char> = Vec::new();
    let mut i: usize = 0;
    assert(cs@.skip(0) =~= cs@);
    while i < cs.len()
        invariant
            i <= cs.len(),
            texts_of(out@) + words_from(cs@.skip(i as int), cur@) == words(cs@),
        decreases cs.len() - i,
    {
        let c = cs[i];
        assert(cs@.skip(i as int)[0] == c);
        assert(cs@.skip(i as int).drop_first() =~= cs@.skip(i + 1));
        if white_space(c) {
            let ghost before = texts_of(out@);
            let ghost word = cur@;
            if cur.len() > 0 {
                out.push(cur);
                assert(texts_of(out@) =~= before + seq![word]);
            } else {
                assert(texts_of(out@) =~= before + pending(word));
            }
            cur = Vec::new();
            assert(before + (pending(word) + words_from(cs@.skip(i + 1), Seq::empty()))
                =~= texts_of(out@) + words_from(cs@.skip(i + 1), cur@));
        } else {
            cur.push(c);
        }
        i = i + 1;
    }
    assert(cs@.skip(i as int).len() == 0);
    let ghost before = texts_of(out@);
    if cur.len() > 0 {
        out.push(cur);
        assert(texts_of(out@) =~= before + seq![cur@]);
    } else {
        assert(texts_of(out@) =~= before + pending(cur@));
    }
    out
}

/// The `bool` that `str::parse` reads from `t`.
pub open spec fn bool_text(t: Seq<char>) -> Option<bool> {
    if t == "true"@ {
        Some(true)
    } else if t == "false"@ {
        Some(false)
    } else {
        None
    }
}

/// How `str::parse` explains why a text is not a `bool`.
pub const BOOL_ERROR: &'static str = "provided string was not `true` or `false`";

/// The `bool` that `str::parse` reads from `t`, if any.
pub fn parse_bool(t: &Vec<char>) -> (r: Option<bool>)
    ensures
        r == bool_text(t@),
{
    let tv = string_from_chars(t.as_slice());
    proof {
        reveal_strlit("true");
        reveal_strlit("false");
    }
    if crate::text::str_eq(tv.as_str(), "true") {
        Some(true)
    } else if crate::text::str_eq(tv.as_str(), "false") {
        Some(false)
    } else {
        None
    }
}

} // verus!
