//! Writing a mask out and reading the text back.
use vstd::prelude::*;

use crate::commands::{
    byte_digits, hex_value, is_hex_digit, lemma_mask_shape, lemma_run_len, mask_char, mask_text_from,
    parse_runs, question_marks, run_len, runs_shape, spec_parse_mask, without_dots, zeros, hex_pairs,
};
use crate::messages::hex_digit;

verus! {

/// The bytes of text made of ASCII characters.
pub open spec fn ascii_bytes(cs: Seq<char>) -> Seq<u8> {
    cs.map_values(|c: char| c as u8)
}

/// An upper-case hexadecimal digit, as a byte.
pub open spec fn hex_byte(n: nat) -> u8 {
    if n < 10 {
        (48 + n) as u8
    } else {
        (55 + n) as u8
    }
}

/// The hexadecimal digits of bytes `i .. j` of `d`, two a byte.
pub open spec fn hexes(d: Seq<u8>, i: int, j: int) -> Seq<u8> {
    Seq::new(
        (2 * (j - i)) as nat,
        |p: int|
            if p % 2 == 0 {
                hex_byte((d[i + p / 2] / 16) as nat)
            } else {
                hex_byte((d[i + p / 2] % 16) as nat)
            },
    )
}

/// The written mask from byte `i` on, without its dots, as bytes, for
/// placeholder regions of one byte each.
pub open spec fn undotted(d: Seq<u8>, m: Seq<(usize, usize)>, i: nat) -> Seq<u8>
    decreases d.len() - i,
{
    if i >= d.len() {
        Seq::empty()
    } else if m.len() > 0 && m[0].0 == i {
        seq![63u8, 63u8] + undotted(d, m.drop_first(), i + 1)
    } else {
        hexes(d, i as int, (i + 1) as int) + undotted(d, m, i + 1)
    }
}

proof fn lemma_hex_byte(n: nat)
    requires
        n < 16,
    ensures
        is_hex_digit(hex_byte(n)),
        hex_value(hex_byte(n)) == n,
        hex_digit(n) as u8 == hex_byte(n),
{
}

proof fn lemma_without_dots_concat(a: Seq<u8>, b: Seq<u8>)
    ensures
        without_dots(a + b) == without_dots(a) + without_dots(b),
    decreases b.len(),
{
    if b.len() == 0 {
        assert(a + b =~= a);
        assert(without_dots(a) + without_dots(b) =~= without_dots(a));
    } else {
        assert((a + b).drop_last() =~= a + b.drop_last());
        lemma_without_dots_concat(a, b.drop_last());
        if b.last() == 46 {
        } else {
            assert(without_dots(a) + without_dots(b.drop_last()).push(b.last())
                =~= (without_dots(a) + without_dots(b.drop_last())).push(b.last()));
        }
    }
}

proof fn lemma_without_dots_plain(a: Seq<u8>)
    requires
        forall|k: int| 0 <= k < a.len() ==> a[k] != 46,
    ensures
        without_dots(a) == a,
    decreases a.len(),
{
    if a.len() > 0 {
        lemma_without_dots_plain(a.drop_last());
        assert(a.drop_last().push(a.last()) =~= a);
    }
}

/// The written mask is made of mask characters, and without its dots it is
/// `undotted`.
proof fn lemma_text_undotted(d: Seq<u8>, m: Seq<(usize, usize)>, i: nat)
    requires
        forall|k: int| 0 <= k < m.len() ==> (#[trigger] m[k]).1 == 1,
    ensures
        forall|k: int| 0 <= k < ascii_bytes(mask_text_from(d, m, i)).len()
            ==> mask_char(#[trigger] ascii_bytes(mask_text_from(d, m, i))[k]),
        without_dots(ascii_bytes(mask_text_from(d, m, i))) == undotted(d, m, i),
    decreases d.len() - i,
{
    let t = mask_text_from(d, m, i);
    if i >= d.len() {
        assert(ascii_bytes(t) =~= Seq::<u8>::empty());
    } else if m.len() > 0 && m[0].0 == i {
        let m2 = m.drop_first();
        assert forall|k: int| 0 <= k < m2.len() implies (#[trigger] m2[k]).1 == 1 by {
            assert(m2[k] == m[k + 1]);
        }
        lemma_text_undotted(d, m2, i + 1);
        let rest = mask_text_from(d, m2, i + 1);
        assert(2 * m[0].1 as nat == 2);
        assert(t == question_marks(2) + rest);
        let q = seq![63u8, 63u8];
        assert(ascii_bytes(t) =~= q + ascii_bytes(rest));
        lemma_without_dots_concat(q, ascii_bytes(rest));
        lemma_without_dots_plain(q);
    } else {
        lemma_text_undotted(d, m, i + 1);
        let rest = mask_text_from(d, m, i + 1);
        let dot: Seq<char> = if i > 0 { seq!['.'] } else { Seq::empty() };
        assert(t == dot + byte_digits(d[i as int]) + rest);
        lemma_hex_byte((d[i as int] / 16) as nat);
        lemma_hex_byte((d[i as int] % 16) as nat);
        let h = hexes(d, i as int, (i + 1) as int);
        assert(ascii_bytes(byte_digits(d[i as int])) =~= h);
        assert(ascii_bytes(t) =~= ascii_bytes(dot) + h + ascii_bytes(rest));
        lemma_without_dots_concat(ascii_bytes(dot) + h, ascii_bytes(rest));
        lemma_without_dots_concat(ascii_bytes(dot), h);
        lemma_without_dots_plain(h);
        if i > 0 {
            assert(ascii_bytes(dot) =~= seq![46u8]);
            assert(seq![46u8].drop_last() =~= Seq::<u8>::empty());
            reveal_with_fuel(without_dots, 2);
            assert(without_dots(seq![46u8]) =~= Seq::<u8>::empty());
            assert(without_dots(ascii_bytes(dot)) =~= Seq::<u8>::empty());
        } else {
            assert(ascii_bytes(dot) =~= Seq::<u8>::empty());
        }
        assert(without_dots(ascii_bytes(t)) =~= h + undotted(d, m, i + 1));
    }
}

/// Between placeholder regions, the written mask is the digits of the
/// fixed bytes.
proof fn lemma_undotted_run(d: Seq<u8>, m: Seq<(usize, usize)>, i: nat, j: nat)
    requires
        i <= j <= d.len(),
        m.len() > 0 ==> m[0].0 >= j,
    ensures
        undotted(d, m, i) == hexes(d, i as int, j as int) + undotted(d, m, j),
    decreases j - i,
{
    if i < j {
        lemma_undotted_run(d, m, i + 1, j);
        assert(hexes(d, i as int, j as int) =~= hexes(d, i as int, (i + 1) as int) + hexes(d, (i + 1) as int, j as int));
    } else {
        assert(hexes(d, i as int, j as int) =~= Seq::<u8>::empty());
    }
}

/// The digits of fixed bytes read back as those bytes.
proof fn lemma_hexes_pairs(d: Seq<u8>, i: int, j: int)
    requires
        0 <= i <= j <= d.len(),
    ensures
        hex_pairs(hexes(d, i, j)) == d.subrange(i, j),
        forall|p: int| 0 <= p < hexes(d, i, j).len() ==> is_hex_digit(#[trigger] hexes(d, i, j)[p]),
{
    let h = hexes(d, i, j);
    assert forall|p: int| 0 <= p < h.len() implies is_hex_digit(#[trigger] h[p]) by {
        lemma_hex_byte((d[i + p / 2] / 16) as nat);
        lemma_hex_byte((d[i + p / 2] % 16) as nat);
    }
    assert forall|k: int| 0 <= k < j - i implies #[trigger] hex_pairs(h)[k] == d[i + k] by {
        let b = d[i + k];
        assert((2 * k) / 2 == k && (2 * k + 1) / 2 == k);
        assert((2 * k) % 2 == 0 && (2 * k + 1) % 2 == 1);
        lemma_hex_byte((b / 16) as nat);
        lemma_hex_byte((b % 16) as nat);
        assert(hex_value(h[2 * k]) == b / 16);
        assert(hex_value(h[2 * k + 1]) == b % 16);
        assert((b / 16) * 16 + b % 16 == b);
    }
    assert(hex_pairs(h) =~= d.subrange(i, j));
}

/// Regions of one byte each, in order with fixed bytes between them, inside
/// the data and zero there, from byte `i` on.
pub open spec fn single_regions(d: Seq<u8>, m: Seq<(usize, usize)>, i: nat) -> bool {
    &&& forall|k: int| 0 <= k < m.len() ==> (#[trigger] m[k]).1 == 1 && i <= m[k].0 < d.len() && d[m[k].0 as int] == 0
    &&& forall|k: int| 0 <= k < m.len() - 1 ==> (#[trigger] m[k]).0 + 1 < m[k + 1].0
}

/// Reading back the written mask from byte `i` on gives its bytes and
/// regions.
#[verifier::spinoff_prover]
#[verifier::rlimit(80)]
proof fn lemma_undotted_parses(d: Seq<u8>, m: Seq<(usize, usize)>, i: nat)
    requires
        i <= d.len() <= usize::MAX,
        single_regions(d, m, i),
    ensures
        parse_runs(undotted(d, m, i), i) == Ok::<(Seq<u8>, Seq<(usize, usize)>), crate::commands::CommandError>((d.skip(i as int), m)),
    decreases d.len() - i, m.len(),
{
    let u = undotted(d, m, i);
    if i == d.len() {
        assert(m.len() == 0) by {
            if m.len() > 0 {
                assert(m[0].0 < d.len());
            }
        }
        assert(d.skip(i as int) =~= Seq::<u8>::empty());
        assert(m =~= Seq::<(usize, usize)>::empty());
    } else if m.len() > 0 && m[0].0 == i {
        let m2 = m.drop_first();
        assert(single_regions(d, m2, i + 1)) by {
            assert forall|k: int| 0 <= k < m2.len() implies (#[trigger] m2[k]).1 == 1 && i + 1 <= m2[k].0 < d.len()
                && d[m2[k].0 as int] == 0 by {
                assert(m2[k] == m[k + 1]);
                if k > 0 {
                    assert(m[k] == m2[k - 1]);
                }
                assert(m[0].0 + 1 < m[1].0 || m.len() == 1);
                if k == 0 {
                    assert(m[0].0 + 1 < m[1].0);
                } else {
                    assert(m[0].0 <= m[k].0) by {
                        assert forall|q: int| 0 <= q <= k implies m[0].0 + q <= #[trigger] m[q].0 by {
                            lemma_regions_grow(m, q);
                        }
                    }
                }
            }
            assert forall|k: int| 0 <= k < m2.len() - 1 implies (#[trigger] m2[k]).0 + 1 < m2[k + 1].0 by {
                assert(m2[k] == m[k + 1] && m2[k + 1] == m[k + 2]);
            }
        }
        lemma_undotted_parses(d, m2, i + 1);
        let rest = undotted(d, m2, i + 1);
        assert(u == seq![63u8, 63u8] + rest);
        if rest.len() > 0 {
            assert(i + 1 < d.len());
            assert(m2.len() == 0 || m2[0].0 != i + 1) by {
                if m2.len() > 0 {
                    assert(m[0].0 + 1 < m[1].0);
                }
            }
            lemma_hex_byte((d[(i + 1) as int] / 16) as nat);
            assert(rest[0] == hexes(d, (i + 1) as int, (i + 2) as int)[0]);
            assert(is_hex_digit(rest[0]));
        }
        lemma_run_len_two(u, rest);
        assert(u.skip(2) =~= rest);
        assert(zeros(1) + d.skip((i + 1) as int) =~= d.skip(i as int));
        assert(seq![(i as usize, 1usize)] + m2 =~= m);
    } else {
        let j: nat = if m.len() > 0 { m[0].0 as nat } else { d.len() };
        assert(i < j);
        lemma_undotted_run(d, m, i, j);
        lemma_hexes_pairs(d, i as int, j as int);
        let h = hexes(d, i as int, j as int);
        let rest = undotted(d, m, j);
        assert(single_regions(d, m, j)) by {
            assert forall|k: int| 0 <= k < m.len() implies (#[trigger] m[k]).1 == 1 && j <= m[k].0 < d.len()
                && d[m[k].0 as int] == 0 by {
                lemma_regions_grow(m, k);
            }
        }
        lemma_undotted_parses(d, m, j);
        if rest.len() > 0 {
            assert(j < d.len());
            assert(m.len() > 0 && m[0].0 == j);
            assert(rest[0] == 63);
        }
        lemma_run_len_hexes(u, h, rest);
        assert(u.take(h.len() as int) =~= h);
        assert(u.skip(h.len() as int) =~= rest);
        assert(d.subrange(i as int, j as int) + d.skip(j as int) =~= d.skip(i as int));
    }
}

/// Region starts grow at least by one from region to region.
proof fn lemma_regions_grow(m: Seq<(usize, usize)>, q: int)
    requires
        0 <= q < m.len(),
        forall|k: int| 0 <= k < m.len() - 1 ==> (#[trigger] m[k]).0 + 1 < m[k + 1].0,
    ensures
        m[0].0 + q <= m[q].0,
    decreases q,
{
    if q > 0 {
        lemma_regions_grow(m, q - 1);
        assert(m[q - 1].0 + 1 < m[q].0);
    }
}

proof fn lemma_run_len_two(u: Seq<u8>, rest: Seq<u8>)
    requires
        u == seq![63u8, 63u8] + rest,
        rest.len() > 0 ==> is_hex_digit(rest[0]),
    ensures
        run_len(u) == 2,
{
    reveal_with_fuel(run_len, 3);
    let u1 = u.drop_first();
    assert(u1 =~= seq![63u8] + rest);
    assert(u[0] == 63 && u[1] == 63 && u1[0] == 63);
    if rest.len() > 0 {
        assert(u1[1] == rest[0]);
    }
}

proof fn lemma_run_len_hexes(u: Seq<u8>, h: Seq<u8>, rest: Seq<u8>)
    requires
        u == h + rest,
        h.len() > 0,
        forall|p: int| 0 <= p < h.len() ==> is_hex_digit(#[trigger] h[p]),
        rest.len() > 0 ==> rest[0] == 63,
    ensures
        run_len(u) == h.len(),
{
    assert forall|k: int| 0 <= k < h.len() implies is_hex_digit(#[trigger] u[k]) == is_hex_digit(u[0]) by {
        assert(u[k] == h[k] && u[0] == h[0]);
    }
    if h.len() < u.len() {
        assert(u[h.len() as int] == rest[0]);
    }
    crate::commands::lemma_run_len_unique(u, h.len());
}

/// Writing out a mask whose placeholder regions are a byte each and
/// reading the text back gives the same mask: its bytes and its regions.
pub proof fn lemma_mask_text_round_trip(s: Seq<u8>)
    requires
        spec_parse_mask(s) is Ok,
        s.len() <= usize::MAX,
        forall|k: int| 0 <= k < spec_parse_mask(s)->Ok_0.1.len() ==> (#[trigger] spec_parse_mask(s)->Ok_0.1[k]).1 == 1,
    ensures
        spec_parse_mask(ascii_bytes(mask_text_from(spec_parse_mask(s)->Ok_0.0, spec_parse_mask(s)->Ok_0.1, 0)))
            == spec_parse_mask(s),
{
    let (d, m) = spec_parse_mask(s)->Ok_0;
    lemma_mask_shape(s);
    assert(runs_shape(without_dots(s), 0, d, m));
    crate::commands::lemma_without_dots_len(s);
    assert(d.len() <= usize::MAX);
    assert(single_regions(d, m, 0)) by {
        assert forall|k: int| 0 <= k < m.len() implies (#[trigger] m[k]).1 == 1 && 0 <= m[k].0 < d.len() && d[m[k].0 as int] == 0 by {
            assert(m[k].0 <= (m[k].0 - 0) + 0 < m[k].0 + m[k].1);
        }
    }
    let t = ascii_bytes(mask_text_from(d, m, 0));
    lemma_text_undotted(d, m, 0);
    lemma_undotted_parses(d, m, 0);
    assert(d.skip(0) =~= d);
    assert(!(exists|i: int| 0 <= i < t.len() && !mask_char(#[trigger] t[i])));
}

} // verus!
