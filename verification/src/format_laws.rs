//! What decoding gives back of what encoding wrote, for each data format.
use vstd::prelude::*;
use vstd::arithmetic::div_mod::{
    lemma_fundamental_div_mod, lemma_fundamental_div_mod_converse, lemma_mod_division_less_than_divisor,
};

use crate::data_format::{
    decode_defined, bcd_read_digits, spec_encode_bcd_bs, bcd_bs_bytes, bcd_byte, bcd_le, bcd_nibbles, decimal_value, first_bad_nibble, lemma_first_bad_nibble,
    spec_decode_bcd_bs, abs, ascii_value, decimal_le, filled, text_le, text_number, text_scan, as_unsigned, be_value, le_digits, le_value, lemma_pow256_positive, lemma_pow256_small,
    lemma_sig_bytes_fits, min4, pow256, sig_bytes, signed_of, spec_decode, spec_encode, format_name, DataFormat,
    DataFormatError,
};

verus! {

// ---------------------------------------------------------------------------
// Base-256 digits
// ---------------------------------------------------------------------------

/// Splitting off the lowest base-256 digit of `n`.
proof fn lemma_split_256(n: int, p: int)
    requires
        p > 0,
    ensures
        n % (256 * p) == 256 * ((n / 256) % p) + n % 256,
        n / (256 * p) == (n / 256) / p,
{
    lemma_fundamental_div_mod(n, 256);
    lemma_fundamental_div_mod(n / 256, p);
    lemma_mod_division_less_than_divisor(n, 256);
    lemma_mod_division_less_than_divisor(n / 256, p);
    let q1 = n / 256;
    let r1 = n % 256;
    let q2 = q1 / p;
    let r2 = q1 % p;
    assert(n == q2 * (256 * p) + (256 * r2 + r1)) by (nonlinear_arith)
        requires
            n == 256 * q1 + r1,
            q1 == p * q2 + r2,
    ;
    assert(0 <= 256 * r2 + r1 < 256 * p) by (nonlinear_arith)
        requires
            0 <= r1 < 256,
            0 <= r2 < p,
    ;
    lemma_fundamental_div_mod_converse(n, 256 * p, q2, 256 * r2 + r1);
}

/// The `k` lowest digits of `n` hold `n` modulo 256^k.
pub proof fn lemma_le_value_digits(n: int, k: nat)
    ensures
        le_value(le_digits(n, k)) == n % pow256(k),
    decreases k,
{
    if k == 0 {
        lemma_mod_division_less_than_divisor(n, 1);
    } else {
        let k1 = (k - 1) as nat;
        lemma_le_value_digits(n / 256, k1);
        assert(le_digits(n, k).drop_first() =~= le_digits(n / 256, k1));
        lemma_pow256_positive(k1);
        lemma_split_256(n, pow256(k1));
        lemma_mod_division_less_than_divisor(n, 256);
    }
}

/// Read most significant first, reversed bytes have the value of the bytes
/// read least significant first.
pub proof fn lemma_be_value_reverse(s: Seq<u8>)
    ensures
        be_value(s.reverse()) == le_value(s),
    decreases s.len(),
{
    if s.len() > 0 {
        lemma_be_value_reverse(s.drop_first());
        assert(s.reverse().drop_last() =~= s.drop_first().reverse());
    }
}

/// The lowest `j` of the `k` lowest digits are the `j` lowest digits.
pub proof fn lemma_le_digits_take(n: int, k: nat, j: nat)
    requires
        j <= k,
    ensures
        le_digits(n, k).take(j as int) == le_digits(n, j),
    decreases j,
{
    if j == 0 {
        assert(le_digits(n, k).take(0) =~= le_digits(n, 0));
    } else {
        lemma_le_digits_take(n / 256, (k - 1) as nat, (j - 1) as nat);
        lemma_le_digits_len(n / 256, (k - 1) as nat);
        assert(le_digits(n, k) == seq![(n % 256) as u8] + le_digits(n / 256, (k - 1) as nat));
        assert(le_digits(n, k).take(j as int) =~= seq![(n % 256) as u8] + le_digits(n / 256, (k - 1) as nat).take(
            j - 1,
        ));
    }
}

/// The highest of `k` digits.
pub proof fn lemma_le_digits_top(n: int, k: nat)
    requires
        k >= 1,
    ensures
        le_digits(n, k).len() == k,
        le_digits(n, k)[k - 1] == (n / pow256((k - 1) as nat)) % 256,
    decreases k,
{
    lemma_le_digits_len(n, k);
    lemma_mod_division_less_than_divisor(n, 256);
    if k == 1 {
        lemma_pow256_small();
        lemma_fundamental_div_mod_converse(n, 1, n, 0);
    } else {
        let k2 = (k - 2) as nat;
        lemma_le_digits_top(n / 256, (k - 1) as nat);
        lemma_pow256_positive(k2);
        lemma_split_256(n, pow256(k2));
    }
}

pub proof fn lemma_le_digits_len(n: int, k: nat)
    ensures
        le_digits(n, k).len() == k,
    decreases k,
{
    if k > 0 {
        lemma_le_digits_len(n / 256, (k - 1) as nat);
    }
}

/// A value that fits `k` signed bytes is read back from its `k` lowest
/// digits as two's complement.
pub proof fn lemma_signed_digits(v: int, k: nat)
    requires
        k >= 1,
        -128 * pow256((k - 1) as nat) <= v < 128 * pow256((k - 1) as nat),
    ensures
        signed_of(le_value(le_digits(v, k)), k, le_digits(v, k)[k - 1]) == v,
{
    let p = pow256((k - 1) as nat);
    lemma_pow256_positive((k - 1) as nat);
    lemma_le_value_digits(v, k);
    lemma_le_digits_top(v, k);
    assert(pow256(k) == 256 * p);
    let q = v / p;
    lemma_fundamental_div_mod(v, p);
    lemma_mod_division_less_than_divisor(v, p);
    if v >= 0 {
        lemma_fundamental_div_mod_converse(v, 256 * p, 0, v);
        assert(0 <= q < 128) by (nonlinear_arith)
            requires
                v == p * q + v % p,
                0 <= v % p < p,
                0 <= v < 128 * p,
                p > 0,
        ;
        lemma_fundamental_div_mod_converse(q, 256, 0, q);
    } else {
        lemma_fundamental_div_mod_converse(v, 256 * p, -1, v + 256 * p);
        assert(-128 <= q < 0) by (nonlinear_arith)
            requires
                v == p * q + v % p,
                0 <= v % p < p,
                -128 * p <= v < 0,
                p > 0,
        ;
        lemma_fundamental_div_mod_converse(q, 256, -1, q + 256);
    }
}

// ---------------------------------------------------------------------------
// When decoding gives the value back
// ---------------------------------------------------------------------------

/// The values and lengths for which a format reads back what it wrote:
/// signed BCD needs a spare byte for the sign of a negative value and cannot
/// write `i32::MIN`; signed binary needs the value to fit its bytes as two's
/// complement; unsigned binary needs a value that is not negative; binary
/// needs at least one byte.
pub open spec fn round_trips(f: DataFormat, v: i32, len: nat) -> bool {
    match f {
        DataFormat::BcdBs | DataFormat::BcdLs => v > i32::MIN && (v >= 0 || crate::data_format::bcd_le(abs(v as int)).len()
            < len),
        DataFormat::BcdBu | DataFormat::BcdLu | DataFormat::Text => true,
        DataFormat::IntBs | DataFormat::IntLs => len >= 1 && (len >= 4 || -128 * pow256((len - 1) as nat) <= v < 128
            * pow256((len - 1) as nat)),
        DataFormat::IntBu | DataFormat::IntLu => len >= 1 && v >= 0,
    }
}

proof fn lemma_int_round_trip(f: DataFormat, v: i32, len: nat)
    requires
        f == DataFormat::IntBs || f == DataFormat::IntLs || f == DataFormat::IntBu || f == DataFormat::IntLu,
        spec_encode(f, v, len) is Ok,
        round_trips(f, v, len),
    ensures
        spec_decode(f, spec_encode(f, v, len)->Ok_0) == Ok::<i32, DataFormatError>(v),
{
    let m = min4(len);
    lemma_pow256_small();
    lemma_le_digits_len(v as int, len);
    lemma_le_digits_len(as_unsigned(v), len);
    if f == DataFormat::IntBs || f == DataFormat::IntLs {
        lemma_le_digits_take(v as int, len, m);
        if len >= 4 {
            lemma_signed_digits(v as int, 4);
        } else {
            lemma_signed_digits(v as int, len);
        }
        let s = le_digits(v as int, len);
        if f == DataFormat::IntBs {
            let d = s.reverse();
            let w = d.skip(len - m);
            assert(w =~= le_digits(v as int, m).reverse());
            lemma_be_value_reverse(le_digits(v as int, m));
        } else {
            assert(s.take(m as int).last() == le_digits(v as int, m)[m - 1]);
        }
    } else {
        let u = as_unsigned(v);
        assert(u == v);
        lemma_le_digits_take(u, len, m);
        lemma_le_value_digits(u, m);
        if len < 4 {
            lemma_sig_bytes_fits(u as nat, len);
        }
        lemma_fundamental_div_mod_converse(u, pow256(m), 0, u);
        if f == DataFormat::IntBu {
            let w = le_digits(u, len).reverse().skip(len - m);
            assert(w =~= le_digits(u, m).reverse());
            lemma_be_value_reverse(le_digits(u, m));
        }
    }
}

// ---------------------------------------------------------------------------
// Decimal text
// ---------------------------------------------------------------------------

pub open spec fn is_digit_byte(b: u8) -> bool {
    48 <= b <= 57
}

/// Most significant first, the decimal digits of `n` are digits, the first
/// of them not a zero unless `n` is, and they read back as `n`.
proof fn lemma_decimal_digits(n: nat)
    ensures
        decimal_le(n).reverse().len() >= 1,
        forall|i: int| 0 <= i < decimal_le(n).reverse().len() ==> is_digit_byte(#[trigger] decimal_le(n).reverse()[i]),
        n >= 1 ==> decimal_le(n).reverse()[0] != 48,
        n == 0 ==> decimal_le(n).reverse() == seq![48u8],
        ascii_value(decimal_le(n).reverse()) == n,
    decreases n,
{
    if n < 10 {
        let s = seq![(48 + n) as u8];
        assert(decimal_le(n).reverse() =~= s);
        assert(s.drop_last() =~= Seq::<u8>::empty());
        assert(ascii_value(s) == 10 * ascii_value(s.drop_last()) + (s.last() - 48));
        assert(ascii_value(s) == n);
    } else {
        lemma_decimal_digits(n / 10);
        lemma_fundamental_div_mod(n as int, 10);
        let r = decimal_le(n / 10).reverse();
        let x = (48 + n % 10) as u8;
        let s = r.push(x);
        assert(decimal_le(n).reverse() =~= s);
        assert(s.drop_last() =~= r);
        assert(ascii_value(s) == 10 * ascii_value(r) + (x - 48));
        assert(ascii_value(s) == n);
        assert(forall|i: int| 0 <= i < r.len() ==> s[i] == r[i]);
    }
}

/// Text that starts with a minus sign or a digit other than zero, followed
/// by digits, is kept whole by the scan.
proof fn lemma_scan_keeps(d: Seq<u8>)
    requires
        d.len() >= 1,
        d[0] == 45 || (49 <= d[0] <= 57),
        forall|i: int| 1 <= i < d.len() ==> is_digit_byte(#[trigger] d[i]),
    ensures
        text_scan(d) == Ok::<Seq<u8>, (u8, int)>(d),
    decreases d.len(),
{
    if d.len() == 1 {
        assert(d.drop_last() =~= Seq::<u8>::empty());
        assert(text_scan(d.drop_last()) == Ok::<Seq<u8>, (u8, int)>(Seq::empty()));
        assert(Seq::<u8>::empty().push(d[0]) =~= d);
    } else {
        let p = d.drop_last();
        assert forall|i: int| 1 <= i < p.len() implies is_digit_byte(#[trigger] p[i]) by {
            assert(p[i] == d[i]);
        }
        lemma_scan_keeps(p);
        assert(text_scan(d.drop_last()) == Ok::<Seq<u8>, (u8, int)>(p));
        assert(is_digit_byte(d[d.len() - 1]));
        assert(p.push(d.last()) =~= d);
    }
}

/// Leading zeros are dropped by the scan.
proof fn lemma_scan_zeros(z: nat, b: Seq<u8>)
    requires
        text_scan(b) is Ok,
    ensures
        text_scan(filled(z, 48) + b) == text_scan(b),
    decreases b.len(), z,
{
    if b.len() == 0 {
        assert(filled(z, 48) + b =~= filled(z, 48));
        if z > 0 {
            lemma_scan_zeros((z - 1) as nat, b);
            assert(filled(z, 48).drop_last() =~= filled((z - 1) as nat, 48) + b);
        }
    } else {
        lemma_scan_zeros(z, b.drop_last());
        assert((filled(z, 48) + b).drop_last() =~= filled(z, 48) + b.drop_last());
    }
}

proof fn lemma_text_round_trip(v: i32, len: nat)
    requires
        spec_encode(DataFormat::Text, v, len) is Ok,
    ensures
        spec_decode(DataFormat::Text, spec_encode(DataFormat::Text, v, len)->Ok_0) == Ok::<i32, DataFormatError>(v),
{
    let t = text_le(v as int);
    let z = (len - t.len()) as nat;
    let d = (t + filled(z, 48)).reverse();
    assert(d =~= filled(z, 48) + t.reverse());
    lemma_decimal_digits(abs(v as int));
    let ds = decimal_le(abs(v as int)).reverse();
    if v == 0 {
        assert(t.reverse() =~= seq![48u8]);
        assert(filled(z, 48) + seq![48u8] =~= filled(z + 1, 48));
        lemma_scan_zeros(z + 1, Seq::empty());
        assert(filled(z + 1, 48) + Seq::<u8>::empty() =~= filled(z + 1, 48));
        assert(text_scan(Seq::<u8>::empty()) == Ok::<Seq<u8>, (u8, int)>(Seq::empty()));
    } else if v > 0 {
        assert(t.reverse() =~= ds);
        lemma_scan_keeps(ds);
        lemma_scan_zeros(z, t.reverse());
    } else {
        let m = seq![45u8] + ds;
        assert(t.reverse() =~= m);
        assert forall|i: int| 1 <= i < m.len() implies is_digit_byte(#[trigger] m[i]) by {
            assert(m[i] == ds[i - 1]);
        }
        lemma_scan_keeps(m);
        lemma_scan_zeros(z, t.reverse());
        assert(m.drop_first() =~= ds);
        assert(m.len() >= 2);
        assert(m != seq![45u8]);
    }
}

// ---------------------------------------------------------------------------
// Packed BCD
// ---------------------------------------------------------------------------

proof fn lemma_nibbles_concat(a: Seq<u8>, b: Seq<u8>)
    ensures
        bcd_nibbles(a + b) == bcd_nibbles(a) + bcd_nibbles(b),
{
    let l = bcd_nibbles(a + b);
    let r = bcd_nibbles(a) + bcd_nibbles(b);
    assert forall|j: int| 0 <= j < l.len() implies l[j] == r[j] by {
        if j < 2 * a.len() {
            assert((a + b)[j / 2] == a[j / 2]);
        } else {
            let k = j - 2 * a.len();
            assert(k / 2 == j / 2 - a.len() && k % 2 == j % 2);
            assert((a + b)[j / 2] == b[k / 2]);
        }
    }
    assert(l =~= r);
}

proof fn lemma_decimal_value_pair(s: Seq<u8>, x: u8, y: u8)
    ensures
        decimal_value(s + seq![x, y]) == 100 * decimal_value(s) + 10 * x + y,
{
    let t = s + seq![x, y];
    assert(t.drop_last() =~= s.push(x));
    assert(t.last() == y);
    assert(s.push(x).drop_last() =~= s);
    assert(s.push(x).last() == x);
    assert(decimal_value(s.push(x)) == 10 * decimal_value(s) + x);
    assert(decimal_value(t) == 10 * decimal_value(s.push(x)) + y);
}

/// Zero digits in front do not change a decimal value.
proof fn lemma_decimal_value_zeros(k: nat, ds: Seq<u8>)
    ensures
        decimal_value(Seq::new(k, |i: int| 0u8) + ds) == decimal_value(ds),
    decreases ds.len(), k,
{
    let zs = Seq::new(k, |i: int| 0u8);
    if ds.len() == 0 {
        assert(zs + ds =~= zs);
        if k > 0 {
            lemma_decimal_value_zeros((k - 1) as nat, ds);
            assert(zs.drop_last() =~= Seq::new((k - 1) as nat, |i: int| 0u8) + ds);
        }
    } else {
        lemma_decimal_value_zeros(k, ds.drop_last());
        assert((zs + ds).drop_last() =~= zs + ds.drop_last());
    }
}

/// The digits of packed BCD, most significant byte first, are decimal
/// digits that read back as the number.
/// One packed BCD byte holds the tens and the units of its number.
proof fn lemma_bcd_byte(n: nat)
    ensures
        bcd_nibbles(seq![bcd_byte(n)]) == seq![((n % 100) / 10) as u8, (n % 10) as u8],
        (n % 100) / 10 <= 9,
        n % 10 <= 9,
        n == 100 * (n / 100) + 10 * ((n % 100) / 10) + n % 10,
{
    let b = bcd_byte(n);
    let h = (n % 100) / 10;
    let l = n % 10;
    lemma_fundamental_div_mod(n as int, 100);
    lemma_fundamental_div_mod(n as int, 10);
    lemma_fundamental_div_mod((n % 100) as int, 10);
    assert((n % 100) % 10 == n % 10) by {
        vstd::arithmetic::div_mod::lemma_mod_mod(n as int, 10, 10);
    }
    assert(b == 16 * h + l);
    lemma_fundamental_div_mod_converse(b as int, 16, h as int, l as int);
    assert(bcd_nibbles(seq![b]) =~= seq![h as u8, l as u8]);
}

/// The digits of packed BCD, most significant byte first, are decimal
/// digits that read back as the number.
proof fn lemma_bcd_digits(n: nat)
    ensures
        bcd_le(n).len() >= 1,
        forall|j: int| 0 <= j < bcd_nibbles(bcd_le(n).reverse()).len() ==> #[trigger] bcd_nibbles(
            bcd_le(n).reverse(),
        )[j] <= 9,
        decimal_value(bcd_nibbles(bcd_le(n).reverse())) == n,
    decreases n,
{
    let b = bcd_byte(n);
    let h = ((n % 100) / 10) as u8;
    let l = (n % 10) as u8;
    lemma_bcd_byte(n);
    if n < 100 {
        assert(bcd_le(n).reverse() =~= seq![b]);
        lemma_decimal_value_pair(Seq::empty(), h, l);
        assert(Seq::<u8>::empty() + seq![h, l] =~= seq![h, l]);
    } else {
        lemma_bcd_digits(n / 100);
        let p = bcd_le(n / 100).reverse();
        assert(bcd_le(n).reverse() =~= p + seq![b]);
        lemma_nibbles_concat(p, seq![b]);
        lemma_decimal_value_pair(bcd_nibbles(p), h, l);
        let all = bcd_nibbles(p) + seq![h, l];
        assert forall|j: int| 0 <= j < all.len() implies #[trigger] all[j] <= 9 by {
            if j < bcd_nibbles(p).len() {
                assert(all[j] == bcd_nibbles(p)[j]);
            }
        }
    }
}

/// Zero bytes in front of packed BCD.
proof fn lemma_bcd_padded(n: nat, z: nat)
    ensures
        forall|j: int| 0 <= j < bcd_nibbles(filled(z, 0) + bcd_le(n).reverse()).len() ==> #[trigger] bcd_nibbles(
            filled(z, 0) + bcd_le(n).reverse(),
        )[j] <= 9,
        decimal_value(bcd_nibbles(filled(z, 0) + bcd_le(n).reverse())) == n,
{
    lemma_bcd_digits(n);
    let r = bcd_le(n).reverse();
    lemma_nibbles_concat(filled(z, 0), r);
    assert(bcd_nibbles(filled(z, 0)) =~= Seq::new(2 * z, |i: int| 0u8));
    lemma_decimal_value_zeros(2 * z, bcd_nibbles(r));
    let all = bcd_nibbles(filled(z, 0) + r);
    assert forall|j: int| 0 <= j < all.len() implies #[trigger] all[j] <= 9 by {
        if j >= 2 * z {
            assert(all[j] == bcd_nibbles(r)[j - 2 * z]);
        }
    }
}

proof fn lemma_bcd_round_trip(v: i32, len: nat)
    requires
        v > i32::MIN,
        bcd_le(abs(v as int)).len() <= len,
        v >= 0 || bcd_le(abs(v as int)).len() < len,
    ensures
        spec_decode_bcd_bs(bcd_bs_bytes(v as int, len)) == Ok::<i32, DataFormatError>(v),
{
    let n = abs(v as int);
    let digits = bcd_le(n);
    let z = (len - digits.len()) as nat;
    let r = digits.reverse();
    let be = (digits + filled(z, 0)).reverse();
    assert(be =~= filled(z, 0) + r);
    lemma_bcd_digits(n);
    let d = bcd_bs_bytes(v as int, len);
    if v >= 0 {
        lemma_bcd_padded(n, z);
        let nib = bcd_nibbles(d);
        assert(d =~= filled(z, 0) + r);
        if z == 0 {
            assert(d[0] == r[0]);
            assert(nib[0] == d[0] / 16);
            assert(nib[0] <= 9);
        }
        assert(d[0] != 0xFF);
        assert(d.skip(0) =~= d);
        lemma_first_bad_nibble(nib);
    } else {
        assert(z >= 1);
        let body = filled((z - 1) as nat, 0) + r;
        assert(d.skip(1) =~= body);
        assert(d[0] == 0xFF);
        assert(d.len() >= 2);
        lemma_bcd_padded(n, (z - 1) as nat);
        lemma_first_bad_nibble(bcd_nibbles(body));
    }
}

// ---------------------------------------------------------------------------
// The law
// ---------------------------------------------------------------------------

/// Decoding what a format encoded gives the value back, for the values and
/// lengths of `round_trips`; and decoding those bytes does not fail on its
/// own account (it could only for more digits than an `i64` holds).
pub proof fn lemma_round_trip(f: DataFormat, v: i32, len: nat)
    requires
        spec_encode(f, v, len) is Ok,
        round_trips(f, v, len),
    ensures
        spec_decode(f, spec_encode(f, v, len)->Ok_0) == Ok::<i32, DataFormatError>(v),
        len <= isize::MAX ==> decode_defined(f, spec_encode(f, v, len)->Ok_0),
{
    match f {
        DataFormat::IntBs | DataFormat::IntLs | DataFormat::IntBu | DataFormat::IntLu => {
            lemma_int_round_trip(f, v, len);
        },
        DataFormat::Text => {
            lemma_text_round_trip(v, len);
        },
        _ => {
            let d = bcd_bs_bytes(v as int, len);
            lemma_bcd_round_trip(v, len);
            lemma_bcd_digits(abs(v as int));
            assert(d.len() == len);
            assert(d.reverse().reverse() =~= d);
            if len <= isize::MAX {
                lemma_bcd_decodable(v, len);
            }
        },
    }
}

/// The digits decoding reads from signed BCD of a value are few enough for
/// an `i64`.
proof fn lemma_bcd_decodable(v: i32, len: nat)
    requires
        v > i32::MIN,
        bcd_le(abs(v as int)).len() <= len,
        v >= 0 || bcd_le(abs(v as int)).len() < len,
        len <= isize::MAX,
    ensures
        crate::data_format::bcd_bs_decodable(bcd_bs_bytes(v as int, len)),
{
    let n = abs(v as int);
    let digits = bcd_le(n);
    let z = (len - digits.len()) as nat;
    let r = digits.reverse();
    let d = bcd_bs_bytes(v as int, len);
    lemma_bcd_digits(n);
    assert((digits + filled(z, 0)).reverse() =~= filled(z, 0) + r);
    if v >= 0 {
        lemma_bcd_padded(n, z);
        let nib = bcd_nibbles(d);
        assert(d =~= filled(z, 0) + r);
        if z == 0 {
            assert(d[0] == r[0]);
            assert(nib[0] == d[0] / 16);
        }
        assert(d.skip(0) =~= d);
        lemma_first_bad_nibble(nib);
        assert(bcd_read_digits(d) == nib);
    } else {
        let body = filled((z - 1) as nat, 0) + r;
        assert(d.skip(1) =~= body);
        lemma_bcd_padded(n, (z - 1) as nat);
        lemma_first_bad_nibble(bcd_nibbles(body));
        assert(bcd_read_digits(body) == bcd_nibbles(body));
    }
}

pub open spec fn endian_pair(big: DataFormat, little: DataFormat) -> bool {
    ||| big == DataFormat::BcdBs && little == DataFormat::BcdLs
    ||| big == DataFormat::BcdBu && little == DataFormat::BcdLu
    ||| big == DataFormat::IntBs && little == DataFormat::IntLs
    ||| big == DataFormat::IntBu && little == DataFormat::IntLu
}

/// The little-endian formats write the bytes of their big-endian
/// counterparts in reverse order, and fail exactly when those fail.
pub proof fn lemma_little_endian_encodes_reversed(big: DataFormat, little: DataFormat, v: i32, len: nat)
    requires
        endian_pair(big, little),
    ensures
        spec_encode(big, v, len) is Ok <==> spec_encode(little, v, len) is Ok,
        spec_encode(big, v, len) is Ok ==> spec_encode(little, v, len)->Ok_0 == spec_encode(big, v, len)->Ok_0.reverse(),
{
    if big == DataFormat::IntBs {
        assert(le_digits(v as int, len).reverse().reverse() =~= le_digits(v as int, len));
    } else if big == DataFormat::IntBu {
        assert(le_digits(as_unsigned(v), len).reverse().reverse() =~= le_digits(as_unsigned(v), len));
    }
}

/// The little-endian formats read bytes as their big-endian counterparts
/// read the bytes reversed: the same value, or an error when that fails
/// (the same error, but for the format an unsigned BCD error names).
pub proof fn lemma_little_endian_decodes_reversed(big: DataFormat, little: DataFormat, d: Seq<u8>)
    requires
        endian_pair(big, little),
    ensures
        match (spec_decode(little, d), spec_decode(big, d.reverse())) {
            (Ok(a), Ok(b)) => a == b,
            (Err(_), Err(_)) => true,
            _ => false,
        },
        big != DataFormat::BcdBu ==> spec_decode(little, d) == spec_decode(big, d.reverse()),
{
    if d.len() > 0 && (big == DataFormat::IntBs || big == DataFormat::IntBu) {
        let m = min4(d.len());
        let r = d.reverse();
        let w = r.skip(r.len() - m);
        assert(w =~= d.take(m as int).reverse());
        lemma_be_value_reverse(d.take(m as int));
        assert(w[0] == d.take(m as int).last());
    }
}

/// What the names of the integer formats say: `int_lu` writes the value
/// as an unsigned number least significant byte first, `int_bu` most
/// significant byte first, and `int_ls` and `int_bs` write its two's
/// complement in `len` bytes the same two ways; every one writes exactly
/// `len` bytes.
pub proof fn lemma_integer_format_names(f: DataFormat, x: i32, len: nat)
    requires
        spec_encode(f, x, len) is Ok,
    ensures
        format_name(f) == "int_lu"@ ==> le_value(spec_encode(f, x, len)->Ok_0) == as_unsigned(x),
        format_name(f) == "int_bu"@ ==> be_value(spec_encode(f, x, len)->Ok_0) == as_unsigned(x),
        format_name(f) == "int_ls"@ ==> le_value(spec_encode(f, x, len)->Ok_0) == (x as int) % pow256(len),
        format_name(f) == "int_bs"@ ==> be_value(spec_encode(f, x, len)->Ok_0) == (x as int) % pow256(len),
        (format_name(f) == "int_lu"@ || format_name(f) == "int_bu"@ || format_name(f) == "int_ls"@
            || format_name(f) == "int_bs"@) ==> spec_encode(f, x, len)->Ok_0.len() == len,
{
    reveal_strlit("bcd_bs");
    reveal_strlit("bcd_bu");
    reveal_strlit("bcd_ls");
    reveal_strlit("bcd_lu");
    reveal_strlit("int_bs");
    reveal_strlit("int_bu");
    reveal_strlit("int_ls");
    reveal_strlit("int_lu");
    reveal_strlit("text");
    let n = as_unsigned(x);
    lemma_le_digits_len(n, len);
    lemma_le_digits_len(x as int, len);
    lemma_le_value_digits(n, len);
    lemma_le_value_digits(x as int, len);
    lemma_be_value_reverse(le_digits(n, len));
    lemma_be_value_reverse(le_digits(x as int, len));
    if f == DataFormat::IntLu || f == DataFormat::IntBu {
        lemma_sig_bytes_fits(n as nat, len);
        vstd::arithmetic::div_mod::lemma_small_mod(n as nat, pow256(len) as nat);
    }
    assert("int_lu"@[4] != "int_bu"@[4] && "int_ls"@[4] != "int_bs"@[4]);
    assert("int_lu"@[5] != "int_ls"@[5] && "int_bu"@[5] != "int_bs"@[5]);
    assert("int_lu"@[5] != "int_bs"@[5] && "int_bu"@[4] != "int_ls"@[4]);
    assert("bcd_lu"@[0] != "int_lu"@[0] && "bcd_bu"@[0] != "int_bu"@[0]);
    assert("bcd_ls"@[0] != "int_ls"@[0] && "bcd_bs"@[0] != "int_bs"@[0]);
    assert("bcd_lu"@[0] != "int_bu"@[0] && "bcd_lu"@[0] != "int_ls"@[0] && "bcd_lu"@[0] != "int_bs"@[0]);
    assert("bcd_bu"@[0] != "int_lu"@[0] && "bcd_ls"@[0] != "int_lu"@[0] && "bcd_bs"@[0] != "int_lu"@[0]);
    assert("text"@.len() != "int_lu"@.len());
}

/// What the names of the BCD formats say: a value that is not negative is
/// written two decimal digits a byte, its lowest two digits in the first
/// byte for `bcd_lu` and `bcd_ls` and in the last byte for `bcd_bu` and
/// `bcd_bs`; a negative value in a signed BCD format is marked by 0xFF in
/// its most significant byte.
pub proof fn lemma_bcd_format_names(f: DataFormat, x: i32, len: nat)
    requires
        spec_encode(f, x, len) is Ok,
    ensures
        x >= 0 && (format_name(f) == "bcd_lu"@ || format_name(f) == "bcd_ls"@) ==> spec_encode(f, x, len)->Ok_0[0]
            == ((x % 100) / 10) * 16 + x % 10,
        x >= 0 && (format_name(f) == "bcd_bu"@ || format_name(f) == "bcd_bs"@) ==> spec_encode(f, x, len)->Ok_0.last()
            == ((x % 100) / 10) * 16 + x % 10,
        x < 0 && format_name(f) == "bcd_ls"@ ==> spec_encode(f, x, len)->Ok_0.last() == 0xFF,
        x < 0 && format_name(f) == "bcd_bs"@ ==> spec_encode(f, x, len)->Ok_0[0] == 0xFF,
        (format_name(f) == "bcd_lu"@ || format_name(f) == "bcd_ls"@ || format_name(f) == "bcd_bu"@
            || format_name(f) == "bcd_bs"@) ==> spec_encode(f, x, len)->Ok_0.len() == len,
{
    reveal_strlit("bcd_bs");
    reveal_strlit("bcd_bu");
    reveal_strlit("bcd_ls");
    reveal_strlit("bcd_lu");
    reveal_strlit("int_bs");
    reveal_strlit("int_bu");
    reveal_strlit("int_ls");
    reveal_strlit("int_lu");
    reveal_strlit("text");
    assert("bcd_lu"@[4] != "bcd_bu"@[4] && "bcd_ls"@[4] != "bcd_bs"@[4]);
    assert("bcd_lu"@[5] != "bcd_ls"@[5] && "bcd_bu"@[5] != "bcd_bs"@[5]);
    assert("bcd_lu"@[5] != "bcd_bs"@[5] && "bcd_bu"@[4] != "bcd_ls"@[4]);
    assert("bcd_lu"@[0] != "int_lu"@[0] && "bcd_bu"@[0] != "int_bu"@[0]);
    assert("bcd_ls"@[0] != "int_ls"@[0] && "bcd_bs"@[0] != "int_bs"@[0]);
    assert("bcd_lu"@[0] != "int_bu"@[0] && "bcd_lu"@[0] != "int_ls"@[0] && "bcd_lu"@[0] != "int_bs"@[0]);
    assert("bcd_bu"@[0] != "int_lu"@[0] && "bcd_ls"@[0] != "int_lu"@[0] && "bcd_bs"@[0] != "int_lu"@[0]);
    assert("bcd_bu"@[0] != "int_ls"@[0] && "bcd_bu"@[0] != "int_bs"@[0] && "bcd_ls"@[0] != "int_bu"@[0]);
    assert("bcd_ls"@[0] != "int_bs"@[0] && "bcd_bs"@[0] != "int_bu"@[0] && "bcd_bs"@[0] != "int_ls"@[0]);
    assert("text"@.len() != "bcd_lu"@.len());
    if f == DataFormat::BcdLu || f == DataFormat::BcdLs || f == DataFormat::BcdBu || f == DataFormat::BcdBs {
        let a = abs(x as int);
        let digits = bcd_le(a);
        let padded = digits + filled((len - digits.len()) as nat, 0);
        let be = padded.reverse();
        assert(digits.len() >= 1 && digits[0] == bcd_byte(a)) by {
            if a >= 100 {
                assert((seq![bcd_byte(a)] + bcd_le(a / 100))[0] == bcd_byte(a));
            }
        }
        assert(digits.len() <= len);
        assert(padded.len() == len);
        assert(padded[0] == digits[0]);
        assert(be.len() == len);
        assert(be[len - 1] == padded[0]);
        assert(be.reverse() =~= padded);
        let b = bcd_bs_bytes(x as int, len);
        if x < 0 {
            assert(b == be.update(0, 0xFF));
            assert(b[0] == 0xFF);
            assert(b.reverse().last() == b[0]);
        } else {
            assert(a == x);
            assert(b == be);
        }
    }
}

} // verus!
