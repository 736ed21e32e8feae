//! Binary and textual encodings of integers used in rig command frames.
use vstd::prelude::*;
use vstd::arithmetic::div_mod::*;
use vstd::arithmetic::mul::*;

use crate::text::str_eq;

verus! {

/// How an integer is laid out in a command or reply frame.
///
/// `Bcd*` are packed decimal digits, `Int*` two's-complement or unsigned
/// binary, `Text` ASCII decimal digits; `B`/`L` is big/little endian and
/// `s`/`u` signed/unsigned.
#[derive(Debug, Copy, Clone, PartialEq, Eq, Structural)]
pub enum DataFormat {
    BcdBs,
    BcdBu,
    BcdLs,
    BcdLu,
    IntBs,
    IntBu,
    IntLs,
    IntLu,
    Text,
}

/// Why a value could not be encoded or decoded.
#[derive(Debug)]
pub enum DataFormatError {
    InvalidName(String),
    NumberTooLong { value: i32, length: usize },
    NegativeNotSupported { value: i32, format: DataFormat },
    InvalidBcdDigit { byte: u8, position: usize },
    EmptyInput,
    InvalidTextFormat { byte: u8, position: usize },
    NumberOutOfRange { value: i64 },
}

// ---------------------------------------------------------------------------
// Mathematical model
// ---------------------------------------------------------------------------

/// 256 to the power `n`.
pub open spec fn pow256(n: nat) -> int
    decreases n,
{
    if n == 0 {
        1
    } else {
        256 * pow256((n - 1) as nat)
    }
}

/// The `len` lowest base-256 digits of `n` (Euclidean), least significant first.
/// For a negative `n` these are the bytes of its two's complement.
pub open spec fn le_digits(n: int, len: nat) -> Seq<u8>
    decreases len,
{
    if len == 0 {
        Seq::empty()
    } else {
        seq![(n % 256) as u8] + le_digits(n / 256, (len - 1) as nat)
    }
}

/// Unsigned value of bytes given least significant first.
pub open spec fn le_value(s: Seq<u8>) -> int
    decreases s.len(),
{
    if s.len() == 0 {
        0
    } else {
        s[0] + 256 * le_value(s.drop_first())
    }
}

/// Unsigned value of bytes given most significant first.
pub open spec fn be_value(s: Seq<u8>) -> int
    decreases s.len(),
{
    if s.len() == 0 {
        0
    } else {
        be_value(s.drop_last()) * 256 + s.last()
    }
}

/// Number of bytes needed to hold `n` without its leading zero bytes.
pub open spec fn sig_bytes(n: nat) -> nat
    decreases n,
{
    if n == 0 {
        0
    } else {
        1 + sig_bytes(n / 256)
    }
}

/// Number of bytes a signed value needs, not counting a sign bit of its own.
pub open spec fn sig_bytes_signed(v: int) -> nat {
    if v < 0 {
        sig_bytes((-v - 1) as nat)
    } else {
        sig_bytes(v as nat)
    }
}

/// The value that `value as u32` gives for an `i32`.
pub open spec fn as_unsigned(v: i32) -> int {
    if v < 0 {
        v + 0x1_0000_0000
    } else {
        v as int
    }
}

pub open spec fn abs(v: int) -> nat {
    if v < 0 {
        (-v) as nat
    } else {
        v as nat
    }
}

/// One byte of packed BCD holding the two lowest decimal digits of `n`.
pub open spec fn bcd_byte(n: nat) -> u8 {
    (((n % 100) / 10) * 16 + n % 10) as u8
}

/// Packed BCD digits of `n`, least significant byte first; an odd number of
/// digits gets a leading zero digit, and zero is one byte.
pub open spec fn bcd_le(n: nat) -> Seq<u8>
    decreases n,
{
    if n < 100 {
        seq![bcd_byte(n)]
    } else {
        seq![bcd_byte(n)] + bcd_le(n / 100)
    }
}

/// `count` copies of `b`.
pub open spec fn filled(count: nat, b: u8) -> Seq<u8> {
    Seq::new(count, |i: int| b)
}

/// Big-endian signed BCD of `v` in `len` bytes: leading zero bytes, and the
/// first byte replaced by 0xFF when `v` is negative.
pub open spec fn bcd_bs_bytes(v: int, len: nat) -> Seq<u8> {
    let digits = bcd_le(abs(v));
    let be = (digits + filled((len - digits.len()) as nat, 0)).reverse();
    if v < 0 {
        be.update(0, 0xFF)
    } else {
        be
    }
}

/// ASCII decimal digits of `n`, least significant first.
pub open spec fn decimal_le(n: nat) -> Seq<u8>
    decreases n,
{
    if n < 10 {
        seq![(48 + n) as u8]
    } else {
        seq![(48 + n % 10) as u8] + decimal_le(n / 10)
    }
}

/// The decimal text of `v` (as `to_string` writes it), last character first.
pub open spec fn text_le(v: int) -> Seq<u8> {
    if v < 0 {
        decimal_le(abs(v)).push(45u8)
    } else {
        decimal_le(abs(v))
    }
}

/// What `encode` yields for `v` in `len` bytes.
pub open spec fn spec_encode(f: DataFormat, v: i32, len: nat) -> Result<Seq<u8>, DataFormatError> {
    match f {
        DataFormat::BcdBs => spec_encode_bcd_bs(v, len),
        DataFormat::BcdBu => if v < 0 {
            Err(DataFormatError::NegativeNotSupported { value: v, format: DataFormat::BcdBu })
        } else {
            spec_encode_bcd_bs(v, len)
        },
        DataFormat::BcdLs => spec_encode_bcd_ls(v, len),
        DataFormat::BcdLu => if v < 0 {
            Err(DataFormatError::NegativeNotSupported { value: v, format: DataFormat::BcdLu })
        } else {
            spec_encode_bcd_ls(v, len)
        },
        DataFormat::IntBs => if sig_bytes_signed(v as int) > len {
            Err(DataFormatError::NumberTooLong { value: v, length: len as usize })
        } else {
            Ok(le_digits(v as int, len).reverse())
        },
        DataFormat::IntBu => if sig_bytes(as_unsigned(v) as nat) > len {
            Err(DataFormatError::NumberTooLong { value: v, length: len as usize })
        } else {
            Ok(le_digits(as_unsigned(v), len).reverse())
        },
        DataFormat::IntLs => if sig_bytes_signed(v as int) > len {
            Err(DataFormatError::NumberTooLong { value: v, length: len as usize })
        } else {
            Ok(le_digits(v as int, len))
        },
        DataFormat::IntLu => if sig_bytes(as_unsigned(v) as nat) > len {
            Err(DataFormatError::NumberTooLong { value: v, length: len as usize })
        } else {
            Ok(le_digits(as_unsigned(v), len))
        },
        DataFormat::Text => if text_le(v as int).len() > len {
            Err(DataFormatError::NumberTooLong { value: v, length: len as usize })
        } else {
            Ok((text_le(v as int) + filled((len - text_le(v as int).len()) as nat, 48)).reverse())
        },
    }
}

pub open spec fn spec_encode_bcd_bs(v: i32, len: nat) -> Result<Seq<u8>, DataFormatError> {
    if bcd_le(abs(v as int)).len() > len {
        Err(DataFormatError::NumberTooLong { value: v, length: len as usize })
    } else {
        Ok(bcd_bs_bytes(v as int, len))
    }
}

pub open spec fn spec_encode_bcd_ls(v: i32, len: nat) -> Result<Seq<u8>, DataFormatError> {
    match spec_encode_bcd_bs(v, len) {
        Ok(s) => Ok(s.reverse()),
        Err(e) => Err(e),
    }
}

/// `encode` panics (an `abs` overflow) on `i32::MIN` with a signed BCD format.
pub open spec fn encode_defined(f: DataFormat, v: i32) -> bool {
    (f == DataFormat::BcdBs || f == DataFormat::BcdLs) ==> v != i32::MIN
}

/// A result over a `Vec` that agrees with one over a `Seq`.
pub open spec fn bytes_result_is(r: Result<Vec<u8>, DataFormatError>, s: Result<Seq<u8>, DataFormatError>) -> bool {
    match (r, s) {
        (Ok(b), Ok(t)) => b@ == t,
        (Err(e), Err(e2)) => e == e2,
        _ => false,
    }
}

// ---- decoding ----

/// The decimal digits (nibbles) of packed BCD bytes, high nibble first.
pub open spec fn bcd_nibbles(body: Seq<u8>) -> Seq<u8> {
    Seq::new(
        2 * body.len(),
        |j: int| if j % 2 == 0 { body[j / 2] / 16 } else { body[j / 2] % 16 },
    )
}

/// Index of the first nibble above 9, if any.
pub open spec fn first_bad_nibble(nib: Seq<u8>) -> Option<int>
    decreases nib.len(),
{
    if nib.len() == 0 {
        None
    } else {
        match first_bad_nibble(nib.drop_last()) {
            Some(i) => Some(i),
            None => if nib.last() > 9 {
                Some(nib.len() - 1)
            } else {
                None
            },
        }
    }
}

/// Value of decimal digits, most significant first.
pub open spec fn decimal_value(digits: Seq<u8>) -> int
    decreases digits.len(),
{
    if digits.len() == 0 {
        0
    } else {
        10 * decimal_value(digits.drop_last()) + digits.last()
    }
}

/// The digits of a packed BCD body that decoding reads before it stops.
pub open spec fn bcd_read_digits(body: Seq<u8>) -> Seq<u8> {
    let nib = bcd_nibbles(body);
    match first_bad_nibble(nib) {
        Some(j) => nib.take(2 * (j / 2)),
        None => nib,
    }
}

/// The digits that decoding big-endian signed BCD `d` accumulates fit in an
/// `i64` (decoding panics otherwise), and `d` is no longer than a slice can be.
pub open spec fn bcd_bs_decodable(d: Seq<u8>) -> bool {
    d.len() <= isize::MAX && (d.len() == 0 || (d[0] == 0xFF && d.len() == 1) || decimal_value(
        bcd_read_digits(d.skip(if d[0] == 0xFF { 1 } else { 0 })),
    ) <= i64::MAX)
}

pub open spec fn spec_decode_bcd_bs(d: Seq<u8>) -> Result<i32, DataFormatError> {
    let neg = d[0] == 0xFF;
    if neg && d.len() == 1 {
        Err(DataFormatError::InvalidBcdDigit { byte: d[0], position: 0 })
    } else {
        let body = d.skip(if neg { 1 } else { 0 });
        let nib = bcd_nibbles(body);
        match first_bad_nibble(nib) {
            Some(j) => Err(DataFormatError::InvalidBcdDigit { byte: nib[j], position: j as usize }),
            None => {
                let val = decimal_value(nib);
                if val > i32::MAX {
                    Err(DataFormatError::NumberOutOfRange { value: val as i64 })
                } else if neg {
                    Ok((-val) as i32)
                } else {
                    Ok(val as i32)
                }
            },
        }
    }
}

pub open spec fn unsigned_check(r: Result<i32, DataFormatError>, f: DataFormat) -> Result<i32, DataFormatError> {
    match r {
        Ok(v) => if v < 0 {
            Err(DataFormatError::NegativeNotSupported { value: v, format: f })
        } else {
            Ok(v)
        },
        Err(e) => Err(e),
    }
}

/// Interpret `u`, the unsigned value of `k` bytes, as two's complement when `top`
/// (the most significant byte) has its high bit set.
pub open spec fn signed_of(u: int, k: nat, top: u8) -> int {
    if top >= 128 {
        u - pow256(k)
    } else {
        u
    }
}

pub open spec fn min4(n: nat) -> nat {
    if n < 4 {
        n
    } else {
        4
    }
}

pub open spec fn range_checked(u: int) -> Result<i32, DataFormatError> {
    if u > i32::MAX {
        Err(DataFormatError::NumberOutOfRange { value: u as i64 })
    } else {
        Ok(u as i32)
    }
}

/// The characters that text decoding keeps (leading zeros dropped, a leading
/// minus sign kept), or the first offending byte and its position.
pub open spec fn text_scan(d: Seq<u8>) -> Result<Seq<u8>, (u8, int)>
    decreases d.len(),
{
    if d.len() == 0 {
        Ok(Seq::empty())
    } else {
        match text_scan(d.drop_last()) {
            Err(e) => Err(e),
            Ok(cs) => {
                let b = d.last();
                if b == 48 && cs.len() == 0 {
                    Ok(cs)
                } else if 48 <= b <= 57 {
                    Ok(cs.push(b))
                } else if b == 45 && cs.len() == 0 {
                    Ok(cs.push(b))
                } else {
                    Err((b, d.len() - 1))
                }
            },
        }
    }
}

/// Value of ASCII digits.
pub open spec fn ascii_value(cs: Seq<u8>) -> int
    decreases cs.len(),
{
    if cs.len() == 0 {
        0
    } else {
        10 * ascii_value(cs.drop_last()) + (cs.last() - 48)
    }
}

/// What decimal parsing of the kept characters gives: a sign and its digits.
pub open spec fn text_number(cs: Seq<u8>) -> int {
    if cs[0] == 45 {
        -ascii_value(cs.drop_first())
    } else {
        ascii_value(cs)
    }
}

pub open spec fn spec_decode_text(d: Seq<u8>) -> Result<i32, DataFormatError> {
    match text_scan(d) {
        Err((b, p)) => Err(DataFormatError::InvalidTextFormat { byte: b, position: p as usize }),
        Ok(cs) => if cs.len() == 0 {
            Ok(0)
        } else if cs == seq![45u8] {
            Err(DataFormatError::NumberOutOfRange { value: 0 })
        } else {
            let n = text_number(cs);
            if i32::MIN <= n <= i32::MAX {
                Ok(n as i32)
            } else if i64::MIN <= n <= i64::MAX {
                Err(DataFormatError::NumberOutOfRange { value: n as i64 })
            } else {
                Err(DataFormatError::NumberOutOfRange { value: 0 })
            }
        },
    }
}

/// What `decode` yields for `d`.
pub open spec fn spec_decode(f: DataFormat, d: Seq<u8>) -> Result<i32, DataFormatError> {
    if d.len() == 0 {
        Err(DataFormatError::EmptyInput)
    } else {
        match f {
            DataFormat::BcdBs => spec_decode_bcd_bs(d),
            DataFormat::BcdBu => unsigned_check(spec_decode_bcd_bs(d), DataFormat::BcdBu),
            DataFormat::BcdLs => spec_decode_bcd_bs(d.reverse()),
            DataFormat::BcdLu => unsigned_check(spec_decode_bcd_bs(d.reverse()), DataFormat::BcdLu),
            DataFormat::IntBs => {
                let w = d.skip(d.len() - min4(d.len()));
                Ok(signed_of(be_value(w), w.len(), w[0]) as i32)
            },
            DataFormat::IntBu => range_checked(be_value(d.skip(d.len() - min4(d.len())))),
            DataFormat::IntLs => {
                let w = d.take(min4(d.len()) as int);
                Ok(signed_of(le_value(w), w.len(), w.last()) as i32)
            },
            DataFormat::IntLu => range_checked(le_value(d.take(min4(d.len()) as int))),
            DataFormat::Text => spec_decode_text(d),
        }
    }
}

/// `decode` panics (an `i64` overflow) on BCD input with more digits than an
/// `i64` holds; every other input is decoded.
pub open spec fn decode_defined(f: DataFormat, d: Seq<u8>) -> bool {
    match f {
        DataFormat::BcdBs | DataFormat::BcdBu => bcd_bs_decodable(d),
        DataFormat::BcdLs | DataFormat::BcdLu => bcd_bs_decodable(d.reverse()),
        _ => true,
    }
}

/// The name under which a format is written in rig files.
pub open spec fn format_name(f: DataFormat) -> Seq<char> {
    match f {
        DataFormat::BcdBs => "bcd_bs"@,
        DataFormat::BcdBu => "bcd_bu"@,
        DataFormat::BcdLs => "bcd_ls"@,
        DataFormat::BcdLu => "bcd_lu"@,
        DataFormat::IntBs => "int_bs"@,
        DataFormat::IntBu => "int_bu"@,
        DataFormat::IntLs => "int_ls"@,
        DataFormat::IntLu => "int_lu"@,
        DataFormat::Text => "text"@,
    }
}


// ---------------------------------------------------------------------------
// Lemmas used by the implementation
// ---------------------------------------------------------------------------

pub(crate) proof fn lemma_pow256_small()
    ensures
        pow256(0) == 1,
        pow256(1) == 256,
        pow256(2) == 65536,
        pow256(3) == 16777216,
        pow256(4) == 4294967296,
{
    reveal_with_fuel(pow256, 5);
}

pub(crate) proof fn lemma_pow256_positive(n: nat)
    ensures
        pow256(n) >= 1,
    decreases n,
{
    if n > 0 {
        lemma_pow256_positive((n - 1) as nat);
    }
}

proof fn lemma_pow256_monotone(a: nat, b: nat)
    requires
        a <= b,
    ensures
        pow256(a) <= pow256(b),
    decreases b,
{
    if a < b {
        lemma_pow256_monotone(a, (b - 1) as nat);
        lemma_pow256_positive((b - 1) as nat);
    }
}

/// `n` needs at most `len` bytes exactly when it is below 256^len.
pub(crate) proof fn lemma_sig_bytes_fits(n: nat, len: nat)
    ensures
        (sig_bytes(n) <= len) == (n < pow256(len)),
    decreases n,
{
    lemma_pow256_positive(len);
    if n > 0 && len > 0 {
        lemma_sig_bytes_fits(n / 256, (len - 1) as nat);
        let p = pow256((len - 1) as nat);
        assert((n / 256 < p) == (n < 256 * p)) by {
            lemma_fundamental_div_mod(n as int, 256);
        }
    }
}

/// The base-256 digits of `-x - 1` are those of `x` complemented.
proof fn lemma_complement_digit(x: int)
    requires
        x >= 0,
    ensures
        (-x - 1) % 256 == 255 - x % 256,
        (-x - 1) / 256 == -(x / 256) - 1,
{
    lemma_fundamental_div_mod(x, 256);
    let q = x / 256;
    let r = x % 256;
    lemma_fundamental_div_mod_converse(-x - 1, 256, -q - 1, 255 - r);
}

// ---------------------------------------------------------------------------
// Byte sequence helpers
// ---------------------------------------------------------------------------

/// The bytes of `v` in reverse order.
pub fn reversed(v: &Vec<u8>) -> (r: Vec<u8>)
    ensures
        r@ == v@.reverse(),
{
    let mut r: Vec<u8> = Vec::new();
    let mut i: usize = v.len();
    while i > 0
        invariant
            i <= v.len(),
            r@ =~= v@.skip(i as int).reverse(),
        decreases i,
    {
        i = i - 1;
        r.push(v[i]);
        assert(r@ =~= v@.skip(i as int).reverse());
    }
    assert(v@.skip(0) =~= v@);
    r
}

/// Append `b` to `v` until it is `len` long.
fn pad_to(v: &mut Vec<u8>, len: usize, b: u8)
    requires
        old(v).len() <= len,
    ensures
        final(v)@ == old(v)@ + filled((len - old(v).len()) as nat, b),
{
    let ghost start = v@;
    while v.len() < len
        invariant
            start.len() <= v.len() <= len,
            v@ =~= start + filled((v.len() - start.len()) as nat, b),
        decreases len - v.len(),
    {
        v.push(b);
        assert(v@ =~= start + filled((v.len() - start.len()) as nat, b));
    }
}

/// Digits of `n` (or of `-n - 1` when `negative`), least significant first.
fn le_bytes(negative: bool, n: u32, length: usize) -> (r: Vec<u8>)
    ensures
        r@ == le_digits(if negative { -(n as int) - 1 } else { n as int }, length as nat),
{
    let ghost start: int = if negative { -(n as int) - 1 } else { n as int };
    let mut result: Vec<u8> = Vec::new();
    let mut x: u32 = n;
    let mut i: usize = 0;
    while i < length
        invariant
            i <= length,
            result@ + le_digits(
                if negative { -(x as int) - 1 } else { x as int },
                (length - i) as nat,
            ) == le_digits(start, length as nat),
        decreases length - i,
    {
        let d = (x % 256) as u8;
        let b: u8 = if negative { 255 - d } else { d };
        proof {
            let c: int = if negative { -(x as int) - 1 } else { x as int };
            let next: int = if negative { -((x / 256) as int) - 1 } else { (x / 256) as int };
            if negative {
                lemma_complement_digit(x as int);
            }
            assert(c % 256 == b as int);
            assert(c / 256 == next);
            let k = (length - i) as nat;
            assert(le_digits(c, k) == seq![b] + le_digits(next, (k - 1) as nat));
            assert(result@.push(b) + le_digits(next, (k - 1) as nat) =~= result@ + (seq![b]
                + le_digits(next, (k - 1) as nat)));
        }
        result.push(b);
        x = x / 256;
        i = i + 1;
    }
    assert(result@ + le_digits(if negative { -(x as int) - 1 } else { x as int }, 0) =~= result@);
    result
}


/// Packed BCD bytes of `n`, least significant first.
fn bcd_digits_le(n: u32) -> (r: Vec<u8>)
    ensures
        r@ == bcd_le(n as nat),
{
    let mut x: u32 = n;
    let mut r: Vec<u8> = Vec::new();
    r.push((((x % 100) / 10) * 16 + x % 10) as u8);
    while x >= 100
        invariant
            r.len() >= 1,
            r@.last() == bcd_byte(x as nat),
            bcd_le(n as nat) == r@ + (if x < 100 { Seq::<u8>::empty() } else { bcd_le((x / 100) as nat) }),
        decreases x,
    {
        let ghost prev = r@;
        x = x / 100;
        r.push((((x % 100) / 10) * 16 + x % 10) as u8);
        proof {
            assert(bcd_le(x as nat) == seq![bcd_byte(x as nat)] + (if x < 100 {
                Seq::<u8>::empty()
            } else {
                bcd_le((x / 100) as nat)
            }));
            assert(prev + bcd_le(x as nat) =~= r@ + (if x < 100 {
                Seq::<u8>::empty()
            } else {
                bcd_le((x / 100) as nat)
            }));
        }
    }
    assert(r@ + Seq::<u8>::empty() =~= r@);
    r
}

/// ASCII decimal digits of `n`, least significant first.
fn decimal_digits_le(n: u32) -> (r: Vec<u8>)
    ensures
        r@ == decimal_le(n as nat),
{
    let mut x: u32 = n;
    let mut r: Vec<u8> = Vec::new();
    r.push((48 + x % 10) as u8);
    while x >= 10
        invariant
            r.len() >= 1,
            decimal_le(n as nat) == r@ + (if x < 10 { Seq::<u8>::empty() } else { decimal_le((x / 10) as nat) }),
        decreases x,
    {
        let ghost prev = r@;
        x = x / 10;
        r.push((48 + x % 10) as u8);
        proof {
            assert(decimal_le(x as nat) == seq![(48 + x % 10) as u8] + (if x < 10 {
                Seq::<u8>::empty()
            } else {
                decimal_le((x / 10) as nat)
            }));
            assert(prev + decimal_le(x as nat) =~= r@ + (if x < 10 {
                Seq::<u8>::empty()
            } else {
                decimal_le((x / 10) as nat)
            }));
        }
    }
    assert(r@ + Seq::<u8>::empty() =~= r@);
    r
}

/// The magnitude of `value` as an unsigned number.
fn magnitude(value: i32) -> (r: u32)
    ensures
        r == abs(value as int),
{
    if value < 0 {
        (-(value as i64)) as u32
    } else {
        value as u32
    }
}

impl DataFormat {
    fn get_significant_bytes_signed(value: i32) -> (r: usize)
        ensures
            r == sig_bytes_signed(value as int),
    {
        if value < 0 {
            Self::get_significant_bytes_unsigned((-(value as i64 + 1)) as u32)
        } else {
            Self::get_significant_bytes_unsigned(value as u32)
        }
    }

    fn get_significant_bytes_unsigned(value: u32) -> (r: usize)
        ensures
            r == sig_bytes(value as nat),
    {
        proof {
            lemma_sig_bytes_fits(value as nat, 4);
            lemma_pow256_small();
        }
        let mut n: u32 = value;
        let mut count: usize = 0;
        while n > 0
            invariant
                count + sig_bytes(n as nat) == sig_bytes(value as nat),
                sig_bytes(value as nat) <= 4,
            decreases n,
        {
            n = n / 256;
            count = count + 1;
        }
        count
    }

    fn encode_bcd_bs(value: i32, length: usize) -> (r: Result<Vec<u8>, DataFormatError>)
        requires
            value != i32::MIN,
        ensures
            bytes_result_is(r, spec_encode_bcd_bs(value, length as nat)),
    {
        let digits = bcd_digits_le(magnitude(value));
        if digits.len() > length {
            return Err(DataFormatError::NumberTooLong { value, length });
        }
        let mut le = digits;
        pad_to(&mut le, length, 0);
        let mut result = reversed(&le);
        if value < 0 {
            result.set(0, 0xFF);
        }
        Ok(result)
    }

    fn encode_bcd_bu(value: i32, length: usize) -> (r: Result<Vec<u8>, DataFormatError>)
        ensures
            bytes_result_is(r, spec_encode(DataFormat::BcdBu, value, length as nat)),
    {
        if value < 0 {
            return Err(DataFormatError::NegativeNotSupported { value, format: DataFormat::BcdBu });
        }
        Self::encode_bcd_bs(value, length)
    }

    fn encode_bcd_ls(value: i32, length: usize) -> (r: Result<Vec<u8>, DataFormatError>)
        requires
            value != i32::MIN,
        ensures
            bytes_result_is(r, spec_encode_bcd_ls(value, length as nat)),
    {
        let result = Self::encode_bcd_bs(value, length)?;
        Ok(reversed(&result))
    }

    fn encode_bcd_lu(value: i32, length: usize) -> (r: Result<Vec<u8>, DataFormatError>)
        ensures
            bytes_result_is(r, spec_encode(DataFormat::BcdLu, value, length as nat)),
    {
        if value < 0 {
            return Err(DataFormatError::NegativeNotSupported { value, format: DataFormat::BcdLu });
        }
        Self::encode_bcd_ls(value, length)
    }

    fn encode_int_bs(value: i32, length: usize) -> (r: Result<Vec<u8>, DataFormatError>)
        ensures
            bytes_result_is(r, spec_encode(DataFormat::IntBs, value, length as nat)),
    {
        let significant_bytes = Self::get_significant_bytes_signed(value);
        if significant_bytes > length {
            return Err(DataFormatError::NumberTooLong { value, length });
        }
        let le = if value < 0 {
            le_bytes(true, (-(value as i64 + 1)) as u32, length)
        } else {
            le_bytes(false, value as u32, length)
        };
        Ok(reversed(&le))
    }

    fn encode_int_bu(value: i32, length: usize) -> (r: Result<Vec<u8>, DataFormatError>)
        ensures
            bytes_result_is(r, spec_encode(DataFormat::IntBu, value, length as nat)),
    {
        let unsigned: u32 = if value < 0 {
            (value as i64 + 0x1_0000_0000) as u32
        } else {
            value as u32
        };
        let significant_bytes = Self::get_significant_bytes_unsigned(unsigned);
        if significant_bytes > length {
            return Err(DataFormatError::NumberTooLong { value, length });
        }
        Ok(reversed(&le_bytes(false, unsigned, length)))
    }

    fn encode_int_ls(value: i32, length: usize) -> (r: Result<Vec<u8>, DataFormatError>)
        ensures
            bytes_result_is(r, spec_encode(DataFormat::IntLs, value, length as nat)),
    {
        let significant_bytes = Self::get_significant_bytes_signed(value);
        if significant_bytes > length {
            return Err(DataFormatError::NumberTooLong { value, length });
        }
        if value < 0 {
            Ok(le_bytes(true, (-(value as i64 + 1)) as u32, length))
        } else {
            Ok(le_bytes(false, value as u32, length))
        }
    }

    fn encode_int_lu(value: i32, length: usize) -> (r: Result<Vec<u8>, DataFormatError>)
        ensures
            bytes_result_is(r, spec_encode(DataFormat::IntLu, value, length as nat)),
    {
        let unsigned: u32 = if value < 0 {
            (value as i64 + 0x1_0000_0000) as u32
        } else {
            value as u32
        };
        let significant_bytes = Self::get_significant_bytes_unsigned(unsigned);
        if significant_bytes > length {
            return Err(DataFormatError::NumberTooLong { value, length });
        }
        Ok(le_bytes(false, unsigned, length))
    }

    fn encode_text(value: i32, length: usize) -> (r: Result<Vec<u8>, DataFormatError>)
        ensures
            bytes_result_is(r, spec_encode(DataFormat::Text, value, length as nat)),
    {
        let mut text = decimal_digits_le(magnitude(value));
        if value < 0 {
            text.push(45u8);
        }
        if text.len() > length {
            return Err(DataFormatError::NumberTooLong { value, length });
        }
        pad_to(&mut text, length, 48u8);
        Ok(reversed(&text))
    }

    /// Encode `value` in exactly `length` bytes.
    pub fn encode(&self, value: i32, length: usize) -> (r: Result<Vec<u8>, DataFormatError>)
        requires
            encode_defined(*self, value),
        ensures
            bytes_result_is(r, spec_encode(*self, value, length as nat)),
    {
        match self {
            DataFormat::BcdBs => Self::encode_bcd_bs(value, length),
            DataFormat::BcdBu => Self::encode_bcd_bu(value, length),
            DataFormat::BcdLs => Self::encode_bcd_ls(value, length),
            DataFormat::BcdLu => Self::encode_bcd_lu(value, length),
            DataFormat::IntBs => Self::encode_int_bs(value, length),
            DataFormat::IntBu => Self::encode_int_bu(value, length),
            DataFormat::IntLs => Self::encode_int_ls(value, length),
            DataFormat::IntLu => Self::encode_int_lu(value, length),
            DataFormat::Text => Self::encode_text(value, length),
        }
    }
}


// ---- decoding lemmas ----

/// `first_bad_nibble` finds the first nibble above 9.
pub(crate) proof fn lemma_first_bad_nibble(nib: Seq<u8>)
    ensures
        match first_bad_nibble(nib) {
            Some(j) => 0 <= j < nib.len() && nib[j] > 9 && forall|k: int| 0 <= k < j ==> nib[k] <= 9,
            None => forall|k: int| 0 <= k < nib.len() ==> nib[k] <= 9,
        },
    decreases nib.len(),
{
    if nib.len() > 0 {
        let p = nib.drop_last();
        lemma_first_bad_nibble(p);
        assert(forall|k: int| 0 <= k < p.len() ==> p[k] == nib[k]);
    }
}

/// A prefix without a bad nibble and a bad one right after it.
proof fn lemma_first_bad_at(nib: Seq<u8>, j: int)
    requires
        0 <= j < nib.len(),
        nib[j] > 9,
        forall|k: int| 0 <= k < j ==> nib[k] <= 9,
    ensures
        first_bad_nibble(nib) == Some(j),
{
    lemma_first_bad_nibble(nib);
}

/// Digit values never decrease as more digits are read.
proof fn lemma_decimal_value_prefix(s: Seq<u8>, a: int, b: int)
    requires
        0 <= a <= b <= s.len(),
    ensures
        0 <= decimal_value(s.take(a)) <= decimal_value(s.take(b)),
    decreases b - a,
{
    if a < b {
        lemma_decimal_value_prefix(s, a, b - 1);
        assert(s.take(b).drop_last() =~= s.take(b - 1));
    } else {
        lemma_decimal_value_nonneg(s.take(a));
    }
}

proof fn lemma_decimal_value_nonneg(s: Seq<u8>)
    ensures
        decimal_value(s) >= 0,
    decreases s.len(),
{
    if s.len() > 0 {
        lemma_decimal_value_nonneg(s.drop_last());
    }
}

/// An error found in a prefix is the error of the whole text.
proof fn lemma_text_scan_prefix_err(d: Seq<u8>, q: int)
    requires
        0 <= q <= d.len(),
        text_scan(d.take(q)) is Err,
    ensures
        text_scan(d) == text_scan(d.take(q)),
    decreases d.len() - q,
{
    if q < d.len() {
        assert(d.take(q + 1).drop_last() =~= d.take(q));
        lemma_text_scan_prefix_err(d, q + 1);
    } else {
        assert(d.take(q) =~= d);
    }
}

proof fn lemma_ascii_value_grows(s: Seq<u8>, b: u8)
    requires
        b >= 48,
        ascii_value(s) >= 0,
    ensures
        ascii_value(s.push(b)) >= ascii_value(s),
{
    assert(s.push(b).drop_last() =~= s);
}

impl DataFormat {
    #[verifier::spinoff_prover]
    #[verifier::rlimit(50)]
    fn decode_bcd_bs(data: &[u8]) -> (r: Result<i32, DataFormatError>)
        requires
            data@.len() > 0,
            bcd_bs_decodable(data@),
        ensures
            r == spec_decode_bcd_bs(data@),
    {
        let is_negative = data[0] == 0xFF;
        if is_negative && data.len() == 1 {
            return Err(DataFormatError::InvalidBcdDigit { byte: data[0], position: 0 });
        }
        let start: usize = if is_negative { 1 } else { 0 };
        let ghost body = data@.skip(start as int);
        let ghost nib = bcd_nibbles(body);
        let ghost read = bcd_read_digits(body);
        proof {
            lemma_first_bad_nibble(nib);
        }
        let mut result: i64 = 0;
        let mut i: usize = start;
        while i < data.len()
            invariant
                start <= i <= data.len(),
                data@.len() <= isize::MAX,
                start == (if data@[0] == 0xFF { 1usize } else { 0usize }),
                body == data@.skip(start as int),
                nib == bcd_nibbles(body),
                read == bcd_read_digits(body),
                decimal_value(read) <= i64::MAX,
                forall|k: int| 0 <= k < 2 * (i - start) ==> nib[k] <= 9,
                result == decimal_value(nib.take(2 * (i - start))),
                match first_bad_nibble(nib) {
                    Some(j) => 0 <= j < nib.len() && nib[j] > 9 && forall|k: int|
                        0 <= k < j ==> nib[k] <= 9,
                    None => forall|k: int| 0 <= k < nib.len() ==> nib[k] <= 9,
                },
            decreases data.len() - i,
        {
            let byte = data[i];
            let high = byte / 16;
            let low = byte % 16;
            let ghost j: int = (i - start) as int;
            assert(nib[2 * j] == high);
            assert(nib[2 * j + 1] == low);
            if high > 9 {
                proof {
                    lemma_first_bad_at(nib, 2 * j);
                }
                return Err(DataFormatError::InvalidBcdDigit { byte: high, position: (i - start) * 2 });
            }
            if low > 9 {
                proof {
                    lemma_first_bad_at(nib, 2 * j + 1);
                }
                return Err(DataFormatError::InvalidBcdDigit {
                    byte: low,
                    position: (i - start) * 2 + 1,
                });
            }
            proof {
                // the digits read so far are a prefix of what decoding reads
                let stop: int = match first_bad_nibble(nib) {
                    Some(b) => 2 * (b / 2),
                    None => nib.len() as int,
                };
                assert(read == nib.take(stop));
                assert(2 * j + 2 <= stop);
                lemma_decimal_value_prefix(nib, 2 * j + 2, stop);
                assert(nib.take(stop).take(stop) =~= nib.take(stop));
                assert(nib.take(2 * j + 1).drop_last() =~= nib.take(2 * j));
                assert(nib.take(2 * j + 2).drop_last() =~= nib.take(2 * j + 1));
                lemma_decimal_value_prefix(nib, 2 * j, 2 * j + 1);
            }
            result = result * 10 + high as i64;
            result = result * 10 + low as i64;
            i = i + 1;
        }
        assert(nib.take(2 * (i - start)) =~= nib);
        assert(first_bad_nibble(nib) is None);
        proof {
            lemma_decimal_value_nonneg(nib);
        }
        if result > i32::MAX as i64 {
            return Err(DataFormatError::NumberOutOfRange { value: result });
        }
        Ok(
            if is_negative {
                -(result as i32)
            } else {
                result as i32
            },
        )
    }

    fn decode_bcd_bu(data: &[u8]) -> (r: Result<i32, DataFormatError>)
        requires
            data@.len() > 0,
            bcd_bs_decodable(data@),
        ensures
            r == unsigned_check(spec_decode_bcd_bs(data@), DataFormat::BcdBu),
    {
        let result = Self::decode_bcd_bs(data)?;
        if result < 0 {
            return Err(DataFormatError::NegativeNotSupported { value: result, format: DataFormat::BcdBu });
        }
        Ok(result)
    }

    fn decode_bcd_ls(data: &[u8]) -> (r: Result<i32, DataFormatError>)
        requires
            data@.len() > 0,
            bcd_bs_decodable(data@.reverse()),
        ensures
            r == spec_decode_bcd_bs(data@.reverse()),
    {
        let v = vstd::slice::slice_to_vec(data);
        let reversed = reversed(&v);
        Self::decode_bcd_bs(reversed.as_slice())
    }

    fn decode_bcd_lu(data: &[u8]) -> (r: Result<i32, DataFormatError>)
        requires
            data@.len() > 0,
            bcd_bs_decodable(data@.reverse()),
        ensures
            r == unsigned_check(spec_decode_bcd_bs(data@.reverse()), DataFormat::BcdLu),
    {
        let result = Self::decode_bcd_ls(data)?;
        if result < 0 {
            return Err(DataFormatError::NegativeNotSupported { value: result, format: DataFormat::BcdLu });
        }
        Ok(result)
    }

    /// Unsigned big-endian value of the last (at most four) bytes.
    fn be_window(data: &[u8]) -> (r: (u64, usize))
        requires
            data@.len() > 0,
        ensures
            r.1 == data@.len() - min4(data@.len() as nat),
            r.0 == be_value(data@.skip(r.1 as int)),
            r.0 < pow256((data@.len() - r.1) as nat),
    {
        proof {
            lemma_pow256_small();
        }
        let len = data.len();
        let start: usize = if len < 4 { 0 } else { len - 4 };
        let mut acc: u64 = 0;
        let mut i: usize = start;
        while i < len
            invariant
                start <= i <= len,
                len == data@.len(),
                len - start <= 4,
                acc == be_value(data@.subrange(start as int, i as int)),
                acc < pow256((i - start) as nat),
            decreases len - i,
        {
            proof {
                lemma_pow256_small();
                lemma_pow256_monotone((i - start) as nat, 3);
                assert(data@.subrange(start as int, i + 1).drop_last() =~= data@.subrange(
                    start as int,
                    i as int,
                ));
            }
            acc = acc * 256 + data[i] as u64;
            i = i + 1;
        }
        assert(data@.subrange(start as int, len as int) =~= data@.skip(start as int));
        (acc, start)
    }

    /// Unsigned little-endian value of the first (at most four) bytes.
    fn le_window(data: &[u8]) -> (r: (u64, usize))
        requires
            data@.len() > 0,
        ensures
            r.1 == min4(data@.len() as nat),
            r.0 == le_value(data@.take(r.1 as int)),
            r.0 < pow256(r.1 as nat),
    {
        proof {
            lemma_pow256_small();
        }
        let len = data.len();
        let end: usize = if len < 4 { len } else { 4 };
        let mut acc: u64 = 0;
        let mut i: usize = end;
        while i > 0
            invariant
                i <= end <= 4,
                end <= data@.len(),
                acc == le_value(data@.subrange(i as int, end as int)),
                acc < pow256((end - i) as nat),
            decreases i,
        {
            proof {
                lemma_pow256_small();
                lemma_pow256_monotone((end - i) as nat, 3);
                assert(data@.subrange(i - 1, end as int).drop_first() =~= data@.subrange(
                    i as int,
                    end as int,
                ));
            }
            acc = acc * 256 + data[i - 1] as u64;
            i = i - 1;
        }
        assert(data@.subrange(0, end as int) =~= data@.take(end as int));
        (acc, end)
    }

    fn decode_int_bs(data: &[u8]) -> (r: Result<i32, DataFormatError>)
        requires
            data@.len() > 0,
        ensures
            r == spec_decode(DataFormat::IntBs, data@),
    {
        let (u, start) = Self::be_window(data);
        let k = data.len() - start;
        proof {
            lemma_pow256_small();
        }
        let p: i64 = if k == 1 { 256 } else if k == 2 { 65536 } else if k == 3 { 16777216 } else { 4294967296 };
        let value: i64 = if data[start] >= 128 { u as i64 - p } else { u as i64 };
        Ok(value as i32)
    }

    fn decode_int_bu(data: &[u8]) -> (r: Result<i32, DataFormatError>)
        requires
            data@.len() > 0,
        ensures
            r == spec_decode(DataFormat::IntBu, data@),
    {
        let (u, _start) = Self::be_window(data);
        if u > i32::MAX as u64 {
            return Err(DataFormatError::NumberOutOfRange { value: u as i64 });
        }
        Ok(u as i32)
    }

    fn decode_int_ls(data: &[u8]) -> (r: Result<i32, DataFormatError>)
        requires
            data@.len() > 0,
        ensures
            r == spec_decode(DataFormat::IntLs, data@),
    {
        let (u, k) = Self::le_window(data);
        proof {
            lemma_pow256_small();
        }
        let p: i64 = if k == 1 { 256 } else if k == 2 { 65536 } else if k == 3 { 16777216 } else { 4294967296 };
        let value: i64 = if data[k - 1] >= 128 { u as i64 - p } else { u as i64 };
        Ok(value as i32)
    }

    fn decode_int_lu(data: &[u8]) -> (r: Result<i32, DataFormatError>)
        requires
            data@.len() > 0,
        ensures
            r == spec_decode(DataFormat::IntLu, data@),
    {
        let (u, _k) = Self::le_window(data);
        if u > i32::MAX as u64 {
            return Err(DataFormatError::NumberOutOfRange { value: u as i64 });
        }
        Ok(u as i32)
    }
}


/// Everything text decoding keeps is a digit, but for a leading minus sign.
pub open spec fn kept_text_shape(cs: Seq<u8>) -> bool {
    forall|k: int| 0 <= k < cs.len() ==> (48 <= #[trigger] cs[k] <= 57 || (k == 0 && cs[k] == 45))
}

proof fn lemma_text_scan_shape(d: Seq<u8>)
    ensures
        text_scan(d) matches Ok(cs) ==> kept_text_shape(cs),
    decreases d.len(),
{
    if d.len() > 0 {
        lemma_text_scan_shape(d.drop_last());
    }
}

impl DataFormat {
    fn decode_text(data: &[u8]) -> (r: Result<i32, DataFormatError>)
        ensures
            r == spec_decode_text(data@),
    {
        let mut chars: Vec<u8> = Vec::new();
        let mut i: usize = 0;
        while i < data.len()
            invariant
                i <= data.len(),
                text_scan(data@.take(i as int)) == Ok::<Seq<u8>, (u8, int)>(chars@),
            decreases data.len() - i,
        {
            let byte = data[i];
            assert(data@.take(i + 1).drop_last() =~= data@.take(i as int));
            if byte == 48 && chars.len() == 0 {
            } else if 48 <= byte && byte <= 57 {
                chars.push(byte);
            } else if byte == 45 && chars.len() == 0 {
                chars.push(byte);
            } else {
                proof {
                    lemma_text_scan_prefix_err(data@, i + 1);
                }
                return Err(DataFormatError::InvalidTextFormat { byte, position: i });
            }
            i = i + 1;
        }
        assert(data@.take(i as int) =~= data@);
        proof {
            lemma_text_scan_shape(data@);
        }
        if chars.len() == 0 {
            return Ok(0);
        }
        if chars.len() == 1 && chars[0] == 45 {
            assert(chars@ =~= seq![45u8]);
            return Err(DataFormatError::NumberOutOfRange { value: 0 });
        }
        assert(chars@ != seq![45u8]);
        let negative = chars[0] == 45;
        let first: usize = if negative { 1 } else { 0 };
        let mut magnitude: u64 = 0;
        let mut too_big = false;
        let mut k: usize = first;
        while k < chars.len()
            invariant
                first <= k <= chars.len(),
                first == (if chars@[0] == 45 { 1usize } else { 0usize }),
                kept_text_shape(chars@),
                ascii_value(chars@.subrange(first as int, k as int)) >= 0,
                !too_big ==> magnitude == ascii_value(chars@.subrange(first as int, k as int)),
                too_big ==> ascii_value(chars@.subrange(first as int, k as int)) > u64::MAX,
            decreases chars.len() - k,
        {
            let digit = (chars[k] - 48) as u64;
            let ghost prev = chars@.subrange(first as int, k as int);
            assert(chars@.subrange(first as int, k + 1) =~= prev.push(chars@[k as int]));
            assert(prev.push(chars@[k as int]).drop_last() =~= prev);
            proof {
                lemma_ascii_value_grows(prev, chars@[k as int]);
            }
            if !too_big {
                match magnitude.checked_mul(10) {
                    Some(m) => match m.checked_add(digit) {
                        Some(v) => {
                            magnitude = v;
                        },
                        None => {
                            too_big = true;
                        },
                    },
                    None => {
                        too_big = true;
                    },
                }
            }
            k = k + 1;
        }
        let ghost digits = chars@.subrange(first as int, chars@.len() as int);
        assert(negative ==> chars@.drop_first() =~= digits);
        assert(!negative ==> chars@ =~= digits);
        if too_big {
            return Err(DataFormatError::NumberOutOfRange { value: 0 });
        }
        if negative {
            if magnitude <= 0x8000_0000 {
                Ok((-(magnitude as i64)) as i32)
            } else if magnitude <= 0x8000_0000_0000_0000 {
                Err(DataFormatError::NumberOutOfRange { value: -((magnitude - 1) as i64) - 1 })
            } else {
                Err(DataFormatError::NumberOutOfRange { value: 0 })
            }
        } else {
            if magnitude <= i32::MAX as u64 {
                Ok(magnitude as i32)
            } else if magnitude <= i64::MAX as u64 {
                Err(DataFormatError::NumberOutOfRange { value: magnitude as i64 })
            } else {
                Err(DataFormatError::NumberOutOfRange { value: 0 })
            }
        }
    }

    /// Decode a value from `data`.
    pub fn decode(&self, data: &[u8]) -> (r: Result<i32, DataFormatError>)
        requires
            decode_defined(*self, data@),
        ensures
            r == spec_decode(*self, data@),
    {
        if data.len() == 0 {
            return Err(DataFormatError::EmptyInput);
        }
        match self {
            DataFormat::BcdBs => Self::decode_bcd_bs(data),
            DataFormat::BcdBu => Self::decode_bcd_bu(data),
            DataFormat::BcdLs => Self::decode_bcd_ls(data),
            DataFormat::BcdLu => Self::decode_bcd_lu(data),
            DataFormat::IntBs => Self::decode_int_bs(data),
            DataFormat::IntBu => Self::decode_int_bu(data),
            DataFormat::IntLs => Self::decode_int_ls(data),
            DataFormat::IntLu => Self::decode_int_lu(data),
            DataFormat::Text => Self::decode_text(data),
        }
    }

    /// The name of this format as rig files write it.
    pub fn name(&self) -> (r: &'static str)
        ensures
            r@ == format_name(*self),
    {
        match self {
            DataFormat::BcdBs => "bcd_bs",
            DataFormat::BcdBu => "bcd_bu",
            DataFormat::BcdLs => "bcd_ls",
            DataFormat::BcdLu => "bcd_lu",
            DataFormat::IntBs => "int_bs",
            DataFormat::IntBu => "int_bu",
            DataFormat::IntLs => "int_ls",
            DataFormat::IntLu => "int_lu",
            DataFormat::Text => "text",
        }
    }

    /// The format a rig file names, or `InvalidName` when no format has that name.
    pub fn from_name(value: &str) -> (r: Result<DataFormat, DataFormatError>)
        ensures
            match r {
                Ok(f) => format_name(f) == value@,
                Err(e) => {
                    &&& forall|f: DataFormat| format_name(f) != value@
                    &&& e matches DataFormatError::InvalidName(n) && n@ == value@
                },
            },
    {
        if str_eq(value, "bcd_bs") {
            Ok(DataFormat::BcdBs)
        } else if str_eq(value, "bcd_bu") {
            Ok(DataFormat::BcdBu)
        } else if str_eq(value, "bcd_ls") {
            Ok(DataFormat::BcdLs)
        } else if str_eq(value, "bcd_lu") {
            Ok(DataFormat::BcdLu)
        } else if str_eq(value, "int_bs") {
            Ok(DataFormat::IntBs)
        } else if str_eq(value, "int_bu") {
            Ok(DataFormat::IntBu)
        } else if str_eq(value, "int_ls") {
            Ok(DataFormat::IntLs)
        } else if str_eq(value, "int_lu") {
            Ok(DataFormat::IntLu)
        } else if str_eq(value, "text") {
            Ok(DataFormat::Text)
        } else {
            Err(DataFormatError::InvalidName(value.to_string()))
        }
    }
}

} // verus!
