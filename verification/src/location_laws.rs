//! Where the parameter of a family of OmniRig commands lies.
use vstd::prelude::*;

use crate::translator::{byte_len, common_prefix, common_suffix, location_of, location_fits, max_suffix, min_prefix, shared_prefix, shared_suffix};

verus! {

/// The `i`-th character from the end of `s` (the last is the first).
pub open spec fn from_end(s: Seq<char>, i: int) -> char {
    s[s.len() - i]
}

/// Two texts agree on their first `common_prefix` characters and, unless
/// one of them ends there, differ on the next; likewise at their ends.
proof fn lemma_common_ends(a: Seq<char>, b: Seq<char>)
    ensures
        common_prefix(a, b) <= a.len() && common_prefix(a, b) <= b.len(),
        forall|i: int| 0 <= i < common_prefix(a, b) ==> a[i] == b[i],
        common_prefix(a, b) < a.len() && common_prefix(a, b) < b.len() ==> a[common_prefix(a, b) as int]
            != b[common_prefix(a, b) as int],
        common_suffix(a, b) <= a.len() && common_suffix(a, b) <= b.len(),
        forall|i: int| 1 <= i <= common_suffix(a, b) ==> #[trigger] from_end(a, i) == from_end(b, i),
        common_suffix(a, b) < a.len() && common_suffix(a, b) < b.len() ==> a[a.len() - 1 - common_suffix(a, b)]
            != b[b.len() - 1 - common_suffix(a, b)],
    decreases a.len(),
{
    if a.len() > 0 && b.len() > 0 {
        if a[0] == b[0] {
            lemma_common_ends(a.drop_first(), b.drop_first());
            assert forall|i: int| 0 <= i < common_prefix(a, b) implies a[i] == b[i] by {
                if i > 0 {
                    assert(a[i] == a.drop_first()[i - 1] && b[i] == b.drop_first()[i - 1]);
                }
            }
        }
        if a.last() == b.last() {
            lemma_common_ends(a.drop_last(), b.drop_last());
            assert forall|i: int| 1 <= i <= common_suffix(a, b) implies #[trigger] from_end(a, i) == from_end(b, i) by {
                if i > 1 {
                    assert(from_end(a, i) == from_end(a.drop_last(), i - 1));
                    assert(from_end(b, i) == from_end(b.drop_last(), i - 1));
                } else {
                    assert(from_end(a, i) == a.last() && from_end(b, i) == b.last());
                }
            }
        }
    }
}

proof fn lemma_min_prefix(first: Seq<char>, rest: Seq<Seq<char>>, init: nat)
    ensures
        min_prefix(first, rest, init) <= init,
        forall|k: int| 0 <= k < rest.len() ==> min_prefix(first, rest, init) <= common_prefix(first, #[trigger] rest[k]),
        min_prefix(first, rest, init) == init || exists|k: int|
            0 <= k < rest.len() && min_prefix(first, rest, init) == common_prefix(first, #[trigger] rest[k]),
        min_prefix(first, rest, init) == init ==> forall|k: int| 0 <= k < rest.len() ==> init <= common_prefix(first, #[trigger] rest[k]),
    decreases rest.len(),
{
    if rest.len() > 0 {
        let r = rest.drop_last();
        lemma_min_prefix(first, r, init);
        assert forall|k: int| 0 <= k < r.len() implies #[trigger] rest[k] == r[k] by {}
        let m = min_prefix(first, r, init);
        if exists|k: int| 0 <= k < r.len() && m == common_prefix(first, #[trigger] r[k]) {
            let k = choose|k: int| 0 <= k < r.len() && m == common_prefix(first, #[trigger] r[k]);
            assert(rest[k] == r[k]);
        }
        assert(rest[rest.len() - 1] == rest.last());
    }
}

proof fn lemma_max_suffix(first: Seq<char>, rest: Seq<Seq<char>>)
    ensures
        forall|k: int| 0 <= k < rest.len() ==> common_suffix(first, #[trigger] rest[k]) <= max_suffix(first, rest),
        rest.len() > 0 ==> exists|k: int|
            0 <= k < rest.len() && max_suffix(first, rest) == common_suffix(first, #[trigger] rest[k]),
    decreases rest.len(),
{
    if rest.len() > 0 {
        let r = rest.drop_last();
        lemma_max_suffix(first, r);
        assert forall|k: int| 0 <= k < r.len() implies #[trigger] rest[k] == r[k] by {}
        if r.len() > 0 {
            let m = max_suffix(first, r);
            let k = choose|k: int| 0 <= k < r.len() && m == common_suffix(first, #[trigger] r[k]);
            assert(rest[k] == r[k]);
        }
        assert(rest[rest.len() - 1] == rest.last());
    }
}

/// Where the parameter of a family of commands lies: the first command
/// agrees with every other one on the characters before `offset`, and
/// differs from one of them right at `offset` (unless one of the two ends
/// there); its last characters, after `offset + length`, are ones it shares
/// with one of the others, and no other command shares more of its end.
pub proof fn lemma_location_where_commands_differ(texts: Seq<Seq<char>>)
    requires
        texts.len() >= 2,
        byte_len(texts[0]) == texts[0].len(),
        location_fits(texts),
    ensures
        location_of(texts) matches Some((offset, length)) && {
            let first = texts[0];
            let end = first.len() - offset - length;
            &&& forall|k: int, i: int| 1 <= k < texts.len() && 0 <= i < offset ==> first[i] == #[trigger] texts[k][i]
            &&& exists|k: int| 1 <= k < texts.len() && offset == common_prefix(first, #[trigger] texts[k]) && (offset
                == first.len() || offset == texts[k].len() || first[offset as int] != texts[k][offset as int])
            &&& exists|k: int| 1 <= k < texts.len() && end == common_suffix(first, #[trigger] texts[k]) && forall|i: int|
                1 <= i <= end ==> #[trigger] from_end(first, i) == from_end(texts[k], i)
            &&& forall|k: int| 1 <= k < texts.len() ==> common_suffix(first, #[trigger] texts[k]) <= end
        },
{
    let first = texts[0];
    let rest = texts.drop_first();
    lemma_min_prefix(first, rest, byte_len(first));
    lemma_max_suffix(first, rest);
    let off = shared_prefix(texts);
    assert forall|k: int| 1 <= k < texts.len() implies #[trigger] texts[k] == rest[k - 1] by {}
    assert(rest[0] == texts[1]);
    lemma_common_ends(first, texts[1]);
    let off_k: int = if off == byte_len(first) {
        assert(off <= common_prefix(first, rest[0]));
        1
    } else {
        let j = choose|j: int| 0 <= j < rest.len() && off == common_prefix(first, #[trigger] rest[j]);
        j + 1
    };
    assert(off == common_prefix(first, texts[off_k]));
    lemma_common_ends(first, texts[off_k]);
    assert forall|k: int, i: int| 1 <= k < texts.len() && 0 <= i < off implies first[i] == #[trigger] texts[k][i] by {
        lemma_common_ends(first, texts[k]);
        assert(off <= common_prefix(first, rest[k - 1]));
    }
    let sj = choose|j: int| 0 <= j < rest.len() && max_suffix(first, rest) == common_suffix(first, #[trigger] rest[j]);
    lemma_common_ends(first, texts[sj + 1]);
    assert forall|k: int| 1 <= k < texts.len() implies common_suffix(first, #[trigger] texts[k]) <= shared_suffix(texts) by {
        assert(common_suffix(first, rest[k - 1]) <= max_suffix(first, rest));
    }
    let (offset, length) = location_of(texts)->0;
    assert(offset == off);
    assert(first.len() - offset - length == shared_suffix(texts));
    assert(offset == common_prefix(first, texts[off_k]) && (offset == first.len() || offset == texts[off_k].len()
        || first[offset as int] != texts[off_k][offset as int]));
    assert(shared_suffix(texts) == common_suffix(first, texts[sj + 1]));
}

} // verus!
