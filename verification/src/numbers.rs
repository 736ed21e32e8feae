//! Reading decimal integers the way `str::parse` does, with its error texts.
use vstd::prelude::*;

use crate::grammar::digits_value;

verus! {

/// Whether `t` starts with a sign: `+` for any type, `-` for a signed one.
pub open spec fn has_sign(t: Seq<char>, signed: bool) -> bool {
    t.len() > 0 && (t[0] == '+' || (signed && t[0] == '-'))
}

/// Whether `t` writes a negative number of a signed type.
pub open spec fn is_negative(t: Seq<char>, signed: bool) -> bool {
    signed && t.len() > 0 && t[0] == '-'
}

/// The digits of `t`, after its sign.
pub open spec fn magnitude(t: Seq<char>, signed: bool) -> Seq<char> {
    if has_sign(t, signed) {
        t.drop_first()
    } else {
        t
    }
}

/// Whether `t` is one or more decimal digits.
pub open spec fn all_digits(t: Seq<char>) -> bool {
    t.len() > 0 && forall|i: int| 0 <= i < t.len() ==> '0' <= #[trigger] t[i] <= '9'
}

/// How many decimal digits `m` starts with.
pub open spec fn digit_run(m: Seq<char>) -> nat
    decreases m.len(),
{
    if m.len() > 0 && '0' <= m[0] <= '9' {
        1 + digit_run(m.drop_first())
    } else {
        0
    }
}

/// The largest magnitude `t` may have: `low` for a negative number, `high`
/// for any other.
pub open spec fn magnitude_bound(t: Seq<char>, signed: bool, low: int, high: int) -> int {
    if is_negative(t, signed) {
        low
    } else {
        high
    }
}

/// The integer that `str::parse` reads from `t` for a type that holds
/// `-low ..= high` (`signed` false and `low` 0 for an unsigned type).
pub open spec fn std_int(t: Seq<char>, signed: bool, low: int, high: int) -> Option<int> {
    let m = magnitude(t, signed);
    if all_digits(m) && digits_value(m) <= magnitude_bound(t, signed, low, high) {
        Some(
            if is_negative(t, signed) {
                -digits_value(m)
            } else {
                digits_value(m)
            },
        )
    } else {
        None
    }
}

/// How `str::parse` explains why `t` is not such an integer: it reads the
/// digits from the left and stops at the first that is not one, or at the
/// first that takes the number out of range.
pub open spec fn int_error_text(t: Seq<char>, signed: bool, low: int, high: int) -> Seq<char> {
    let m = magnitude(t, signed);
    if t.len() == 0 {
        "cannot parse integer from empty string"@
    } else if m.len() == 0 {
        "invalid digit found in string"@
    } else if digits_value(m.take(digit_run(m) as int)) > magnitude_bound(t, signed, low, high) {
        if is_negative(t, signed) {
            "number too small to fit in target type"@
        } else {
            "number too large to fit in target type"@
        }
    } else {
        "invalid digit found in string"@
    }
}

/// Decimal digits are worth no less than nothing.
pub proof fn lemma_digits_value_nonnegative(cs: Seq<char>)
    requires
        forall|i: int| 0 <= i < cs.len() ==> '0' <= #[trigger] cs[i] <= '9',
    ensures
        digits_value(cs) >= 0,
    decreases cs.len(),
{
    if cs.len() > 0 {
        lemma_digits_value_nonnegative(cs.drop_last());
    }
}

/// Read `t` as `str::parse` reads an integer of a type that holds
/// `-low ..= high`; on failure, its explanation.
pub fn read_int(t: &Vec<char>, signed: bool, low: u64, high: u64) -> (r: Result<i128, &'static str>)
    ensures
        match r {
            Ok(v) => std_int(t@, signed, low as int, high as int) == Some(v as int),
            Err(e) => std_int(t@, signed, low as int, high as int) is None
                && e@ == int_error_text(t@, signed, low as int, high as int),
        },
{
    let ghost m = magnitude(t@, signed);
    if t.len() == 0 {
        return Err("cannot parse integer from empty string");
    }
    let negative = signed && t[0] == '-';
    let start: usize = if t[0] == '+' || negative { 1 } else { 0 };
    assert(m =~= t@.skip(start as int));
    if start == t.len() {
        return Err("invalid digit found in string");
    }
    let bound: u64 = if negative { low } else { high };
    let mut value: u128 = 0;
    let mut big = false;
    let mut i: usize = start;
    assert(m.skip(0) =~= m);
    loop
        invariant
            start <= i <= t.len(),
            m == t@.skip(start as int),
            bound == magnitude_bound(t@, signed, low as int, high as int),
            forall|k: int| 0 <= k < i - start ==> '0' <= #[trigger] m[k] <= '9',
            digit_run(m) == (i - start) + digit_run(m.skip(i - start)),
            !big ==> value == digits_value(m.take(i - start)) && value <= bound,
            big ==> digits_value(m.take(i - start)) > bound,
        ensures
            start <= i <= t.len(),
            forall|k: int| 0 <= k < i - start ==> '0' <= #[trigger] m[k] <= '9',
            digit_run(m) == i - start,
            !big ==> value == digits_value(m.take(i - start)) && value <= bound,
            big ==> digits_value(m.take(i - start)) > bound,
        decreases t.len() - i,
    {
        assert(m.skip(i - start).len() == t.len() - i);
        if i == t.len() || !('0' <= t[i] && t[i] <= '9') {
            assert(m.skip(i - start).len() == 0 || m.skip(i - start)[0] == t@[i as int]);
            break;
        }
        assert(m.skip(i - start)[0] == t@[i as int]);
        assert(m.skip(i - start).drop_first() =~= m.skip(i + 1 - start));
        assert(m.take(i + 1 - start).drop_last() =~= m.take(i - start));
        assert(m.take(i + 1 - start).last() == t@[i as int]);
        proof {
            assert forall|k: int| 0 <= k < m.take(i - start).len() implies '0' <= #[trigger] m.take(i - start)[k] <= '9' by {
                assert(m.take(i - start)[k] == m[k]);
            }
            lemma_digits_value_nonnegative(m.take(i - start));
        }
        if !big {
            value = value * 10 + (t[i] as u32 - 48) as u128;
            if value > bound as u128 {
                big = true;
            }
        }
        i = i + 1;
    }
    if big {
        if negative {
            return Err("number too small to fit in target type");
        } else {
            return Err("number too large to fit in target type");
        }
    }
    if i < t.len() {
        assert(m[i - start] == t@[i as int]);
        assert(!all_digits(m));
        return Err("invalid digit found in string");
    }
    assert(m.take(i - start) =~= m);
    if negative {
        Ok(0 - value as i128)
    } else {
        Ok(value as i128)
    }
}

/// The explanation `str::parse` gives for `t` as an integer of a type that
/// holds `-low ..= high`.
pub fn int_error(t: &Vec<char>, signed: bool, low: u64, high: u64) -> (r: &'static str)
    ensures
        r@ == int_error_text(t@, signed, low as int, high as int),
{
    match read_int(t, signed, low, high) {
        Err(e) => e,
        Ok(_) => {
            let ghost m = magnitude(t@, signed);
            assert(m.len() > 0);
            assert(digit_run(m) == m.len()) by {
                lemma_digit_run_all(m);
            }
            assert(m.take(m.len() as int) =~= m);
            "invalid digit found in string"
        },
    }
}

/// A text of digits only is one run of digits.
proof fn lemma_digit_run_all(m: Seq<char>)
    requires
        forall|i: int| 0 <= i < m.len() ==> '0' <= #[trigger] m[i] <= '9',
    ensures
        digit_run(m) == m.len(),
    decreases m.len(),
{
    if m.len() > 0 {
        assert(forall|i: int| 0 <= i < m.drop_first().len() ==> m.drop_first()[i] == m[i + 1]);
        lemma_digit_run_all(m.drop_first());
    }
}

} // verus!
