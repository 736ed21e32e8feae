//! Binary command masks such as `FEFE94E0.25.??.FD`.
use vstd::prelude::*;
use vstd::string::StringSliceAdditionalSpecFns;

use crate::data_format::DataFormatError;
use crate::messages::hex_digit;
use crate::text::string_from_chars;

verus! {

/// A value handed to a rig command.
#[derive(Debug, Clone, PartialEq, Eq)]
pub enum Value {
    Int(i64),
    Bool(bool),
    Enum(String),
}

/// A command value with its text as a character sequence.
pub enum ValueView {
    Int(i64),
    Bool(bool),
    Enum(Seq<char>),
}

pub open spec fn value_view(v: Value) -> ValueView {
    match v {
        Value::Int(i) => ValueView::Int(i),
        Value::Bool(b) => ValueView::Bool(b),
        Value::Enum(s) => ValueView::Enum(s@),
    }
}

/// Why a command or its mask was rejected.
#[derive(Debug)]
pub enum CommandError {
    InvalidMask,
    OddMaskLength,
    OddPlaceholdersLength,
    UncoveredMask,
    UncoveredParam,
    OverlappingParams,
    DataFormat(DataFormatError),
    MissingArgument(String),
    UnexpectedArgument(String),
    InvalidArgumentValue(String),
    MultipleValidators,
    ReturnValuesWithoutResponse,
}

/// How the end of a reply is recognised.
#[derive(Debug, Clone)]
pub enum CommandValidator {
    ReplyLength(usize),
    ReplyEnd(String),
}

/// A frame of fixed bytes with placeholder regions, written as hex digits and
/// `??` placeholders, optionally separated by dots.
#[derive(Debug, Clone, PartialEq, Eq)]
pub struct BinMask {
    pub data: Vec<u8>,
    /// Placeholder regions as (index, length) in bytes.
    pub masks: Vec<(usize, usize)>,
}

// ---------------------------------------------------------------------------
// Model of the mask syntax (over the UTF-8 bytes of the text)
// ---------------------------------------------------------------------------

pub open spec fn is_hex_digit(c: u8) -> bool {
    (48 <= c <= 57) || (65 <= c <= 70) || (97 <= c <= 102)
}

pub open spec fn hex_value(c: u8) -> u8 {
    if 48 <= c <= 57 {
        (c - 48) as u8
    } else if 65 <= c <= 70 {
        (c - 55) as u8
    } else {
        (c - 87) as u8
    }
}

/// A byte that may stand in a mask: a hex digit, `?` or `.`.
pub open spec fn mask_char(c: u8) -> bool {
    is_hex_digit(c) || c == 63 || c == 46
}

/// The mask text without its dots.
pub open spec fn without_dots(s: Seq<u8>) -> Seq<u8>
    decreases s.len(),
{
    if s.len() == 0 {
        s
    } else if s.last() == 46 {
        without_dots(s.drop_last())
    } else {
        without_dots(s.drop_last()).push(s.last())
    }
}

/// Length of the leading run of characters of the same kind (hex digits or
/// placeholders) as the first one.
pub open spec fn run_len(f: Seq<u8>) -> nat
    decreases f.len(),
{
    if f.len() <= 1 {
        f.len()
    } else if is_hex_digit(f[1]) == is_hex_digit(f[0]) {
        1 + run_len(f.drop_first())
    } else {
        1
    }
}

/// Bytes written by pairs of hex digits.
pub open spec fn hex_pairs(run: Seq<u8>) -> Seq<u8> {
    Seq::new(run.len() / 2, |i: int| (hex_value(run[2 * i]) * 16 + hex_value(run[2 * i + 1])) as u8)
}

pub open spec fn zeros(n: nat) -> Seq<u8> {
    Seq::new(n, |i: int| 0u8)
}

/// Data and placeholder regions written by the runs of `f`, the first of which
/// starts at byte `index`.
pub open spec fn parse_runs(f: Seq<u8>, index: nat) -> Result<(Seq<u8>, Seq<(usize, usize)>), CommandError>
    decreases f.len(),
{
    if f.len() == 0 {
        Ok((Seq::empty(), Seq::empty()))
    } else {
        let n = run_len(f);
        proof {
            lemma_run_len(f);
        }
        if n % 2 != 0 {
            if is_hex_digit(f[0]) {
                Err(CommandError::OddMaskLength)
            } else {
                Err(CommandError::OddPlaceholdersLength)
            }
        } else {
            match parse_runs(f.skip(n as int), index + n / 2) {
                Err(e) => Err(e),
                Ok((d, m)) => if is_hex_digit(f[0]) {
                    Ok((hex_pairs(f.take(n as int)) + d, m))
                } else {
                    Ok((zeros(n / 2) + d, seq![(index as usize, (n / 2) as usize)] + m))
                },
            }
        }
    }
}

/// What parsing mask text `s` (its UTF-8 bytes) yields.
pub open spec fn spec_parse_mask(s: Seq<u8>) -> Result<(Seq<u8>, Seq<(usize, usize)>), CommandError> {
    if exists|i: int| 0 <= i < s.len() && !mask_char(#[trigger] s[i]) {
        Err(CommandError::InvalidMask)
    } else {
        parse_runs(without_dots(s), 0)
    }
}

pub open spec fn prepend_runs(
    d: Seq<u8>,
    m: Seq<(usize, usize)>,
    r: Result<(Seq<u8>, Seq<(usize, usize)>), CommandError>,
) -> Result<(Seq<u8>, Seq<(usize, usize)>), CommandError> {
    match r {
        Ok((d2, m2)) => Ok((d + d2, m + m2)),
        Err(e) => Err(e),
    }
}

// ---------------------------------------------------------------------------
// Model of parameter placement
// ---------------------------------------------------------------------------

/// Region `a` comes before region `b` when the regions are sorted by start
/// (a stable sort of `regions`), given their positions `i` and `j`.
pub open spec fn sorted_before(regions: Seq<(u32, u32)>, i: int, j: int) -> bool {
    regions[i].0 < regions[j].0 || (regions[i].0 == regions[j].0 && i < j)
}

/// Two parameter regions overlap in sorted order.
pub open spec fn params_overlap(regions: Seq<(u32, u32)>) -> bool {
    exists|i: int, j: int|
        #![trigger regions[i], regions[j]]
        0 <= i < regions.len() && 0 <= j < regions.len() && i != j && sorted_before(regions, i, j)
            && regions[i].0 + regions[i].1 > regions[j].0
}

/// Mask region `m` holds the whole parameter region `p`.
pub open spec fn mask_covers(m: (usize, usize), p: (u32, u32)) -> bool {
    m.0 <= p.0 && m.0 + m.1 >= p.0 + p.1
}

/// Some placeholder region holds the whole parameter region `p`.
pub open spec fn param_covered(masks: Seq<(usize, usize)>, p: (u32, u32)) -> bool {
    exists|k: int| 0 <= k < masks.len() && mask_covers(#[trigger] masks[k], p)
}

/// Some parameter lies outside every placeholder region.
pub open spec fn param_uncovered(masks: Seq<(usize, usize)>, regions: Seq<(u32, u32)>) -> bool {
    exists|p: int| 0 <= p < regions.len() && !param_covered(masks, #[trigger] regions[p])
}

/// Byte `x` belongs to some parameter.
pub open spec fn byte_in_param(regions: Seq<(u32, u32)>, x: int) -> bool {
    exists|p: int| 0 <= p < regions.len() && #[trigger] regions[p].0 <= x < regions[p].0 + regions[p].1
}

/// Some placeholder byte belongs to no parameter.
pub open spec fn mask_uncovered(masks: Seq<(usize, usize)>, regions: Seq<(u32, u32)>) -> bool {
    exists|k: int, x: int|
        #![trigger masks[k], byte_in_param(regions, x)]
        0 <= k < masks.len() && masks[k].0 <= x < masks[k].0 + masks[k].1 && !byte_in_param(
            regions,
            x,
        )
}


/// What `validate_params` decides for placeholder regions `masks` and parameter
/// regions `regions`.
pub open spec fn spec_validate_params(masks: Seq<(usize, usize)>, regions: Seq<(u32, u32)>) -> Result<(), CommandError> {
    if regions.len() == 0 {
        Ok(())
    } else if params_overlap(regions) {
        Err(CommandError::OverlappingParams)
    } else if param_uncovered(masks, regions) {
        Err(CommandError::UncoveredParam)
    } else if mask_uncovered(masks, regions) {
        Err(CommandError::UncoveredMask)
    } else {
        Ok(())
    }
}

// ---------------------------------------------------------------------------
// Lemmas
// ---------------------------------------------------------------------------

/// The leading run of `f` is exactly the first `run_len(f)` characters.
pub proof fn lemma_run_len(f: Seq<u8>)
    requires
        f.len() > 0,
    ensures
        1 <= run_len(f) <= f.len(),
        forall|k: int| 0 <= k < run_len(f) ==> is_hex_digit(#[trigger] f[k]) == is_hex_digit(f[0]),
        run_len(f) < f.len() ==> is_hex_digit(f[run_len(f) as int]) != is_hex_digit(f[0]),
    decreases f.len(),
{
    if f.len() > 1 && is_hex_digit(f[1]) == is_hex_digit(f[0]) {
        let g = f.drop_first();
        lemma_run_len(g);
        assert forall|k: int| 0 <= k < run_len(f) implies is_hex_digit(#[trigger] f[k]) == is_hex_digit(f[0]) by {
            if k > 0 {
                assert(f[k] == g[k - 1]);
            }
        }
    }
}

/// A run measured from the front has length `run_len`.
pub proof fn lemma_run_len_unique(f: Seq<u8>, n: nat)
    requires
        1 <= n <= f.len(),
        forall|k: int| 0 <= k < n ==> is_hex_digit(#[trigger] f[k]) == is_hex_digit(f[0]),
        n < f.len() ==> is_hex_digit(f[n as int]) != is_hex_digit(f[0]),
    ensures
        run_len(f) == n,
{
    lemma_run_len(f);
    let m = run_len(f);
    if m < n {
        assert(is_hex_digit(f[m as int]) == is_hex_digit(f[0]));
    } else if n < m {
        assert(is_hex_digit(f[n as int]) == is_hex_digit(f[0]));
    }
}

// ---------------------------------------------------------------------------
// Implementation
// ---------------------------------------------------------------------------

fn hex_digit_value(c: u8) -> (r: u8)
    requires
        is_hex_digit(c),
    ensures
        r == hex_value(c),
{
    if 48 <= c && c <= 57 {
        c - 48
    } else if 65 <= c && c <= 70 {
        c - 55
    } else {
        c - 87
    }
}

fn is_hex_byte(c: u8) -> (r: bool)
    ensures
        r == is_hex_digit(c),
{
    (48 <= c && c <= 57) || (65 <= c && c <= 70) || (97 <= c && c <= 102)
}

impl BinMask {
    /// Parse mask text: pairs of hex digits give bytes, pairs of `?` give
    /// placeholder bytes, dots are ignored.
    #[verifier::spinoff_prover]
    #[verifier::rlimit(30)]
    pub fn try_from(value: &str) -> (r: Result<BinMask, CommandError>)
        ensures
            match (r, spec_parse_mask(value.spec_bytes())) {
                (Ok(m), Ok((d, ms))) => m.data@ == d && m.masks@ == ms,
                (Err(e), Err(e2)) => e == e2,
                _ => false,
            },
    {
        let bytes = value.as_bytes();
        let ghost s = bytes@;
        // every character must be a hex digit, a placeholder or a dot
        let mut i: usize = 0;
        while i < bytes.len()
            invariant
                i <= bytes.len(),
                bytes@ == s,
                s == value.spec_bytes(),
                forall|k: int| 0 <= k < i ==> mask_char(#[trigger] s[k]),
            decreases bytes.len() - i,
        {
            if !(is_hex_byte(bytes[i]) || bytes[i] == 63 || bytes[i] == 46) {
                assert(!mask_char(s[i as int]));
                assert(s == value.spec_bytes());
                return Err(CommandError::InvalidMask);
            }
            i = i + 1;
        }
        assert(!exists|i: int| 0 <= i < s.len() && !mask_char(#[trigger] s[i]));
        // drop the dots
        let mut f: Vec<u8> = Vec::new();
        let mut i: usize = 0;
        while i < bytes.len()
            invariant
                i <= bytes.len(),
                bytes@ == s,
                forall|k: int| 0 <= k < s.len() ==> mask_char(#[trigger] s[k]),
                f@ == without_dots(s.take(i as int)),
                forall|k: int| 0 <= k < f@.len() ==> (is_hex_digit(#[trigger] f@[k]) || f@[k] == 63),
            decreases bytes.len() - i,
        {
            assert(s.take(i + 1).drop_last() =~= s.take(i as int));
            if bytes[i] != 46 {
                f.push(bytes[i]);
            }
            i = i + 1;
        }
        assert(s.take(i as int) =~= s);
        assert(s == value.spec_bytes());
        let ghost full = f@;
        proof {
            assert(full.skip(0) =~= full);
            match parse_runs(full, 0) {
                Ok((d, m)) => {
                    assert(Seq::<u8>::empty() + d =~= d);
                    assert(Seq::<(usize, usize)>::empty() + m =~= m);
                },
                Err(_) => {},
            }
        }
        let mut data: Vec<u8> = Vec::new();
        let mut masks: Vec<(usize, usize)> = Vec::new();
        let mut pos: usize = 0;
        while pos < f.len()
            invariant
                pos <= f.len(),
                f@ == full,
                data@.len() <= pos,
                spec_parse_mask(value.spec_bytes()) == parse_runs(full, 0),
                parse_runs(full, 0) == prepend_runs(data@, masks@, parse_runs(full.skip(pos as int), data@.len())),
            decreases f.len() - pos,
        {
            let kind = is_hex_byte(f[pos]);
            let mut j: usize = pos;
            while j < f.len() && is_hex_byte(f[j]) == kind
                invariant
                    pos <= j <= f.len(),
                    f@ == full,
                    kind == is_hex_digit(full[pos as int]),
                    forall|k: int| pos <= k < j ==> is_hex_digit(#[trigger] full[k]) == kind,
                decreases f.len() - j,
            {
                j = j + 1;
            }
            let n = j - pos;
            let ghost g = full.skip(pos as int);
            proof {
                assert(forall|k: int| 0 <= k < n ==> g[k] == full[pos + k]);
                if j == pos {
                    assert(is_hex_digit(full[pos as int]) == kind);
                }
                lemma_run_len_unique(g, n as nat);
                assert(g.skip(n as int) =~= full.skip(j as int));
            }
            if n % 2 != 0 {
                if kind {
                    return Err(CommandError::OddMaskLength);
                } else {
                    return Err(CommandError::OddPlaceholdersLength);
                }
            }
            let ghost before_d = data@;
            let ghost before_m = masks@;
            let half = n / 2;
            if kind {
                let mut k: usize = 0;
                while k < half
                    invariant
                        k <= half,
                        half == n / 2,
                        pos + n <= f.len(),
                        f@ == full,
                        g == full.skip(pos as int),
                        forall|q: int| pos <= q < pos + n ==> is_hex_digit(#[trigger] full[q]),
                        data@ == before_d + hex_pairs(g.take(n as int)).take(k as int),
                    decreases half - k,
                {
                    let hi = hex_digit_value(f[pos + 2 * k]);
                    let lo = hex_digit_value(f[pos + 2 * k + 1]);
                    proof {
                        assert(is_hex_digit(full[pos + 2 * k]));
                        assert(is_hex_digit(full[pos + 2 * k + 1]));
                    }
                    data.push(hi * 16 + lo);
                    proof {
                        assert(g.take(n as int)[2 * k as int] == full[pos + 2 * k]);
                        assert(g.take(n as int)[2 * k + 1] == full[pos + 2 * k + 1]);
                        assert(data@ =~= before_d + hex_pairs(g.take(n as int)).take(k + 1));
                    }
                    k = k + 1;
                }
                assert(hex_pairs(g.take(n as int)).take(half as int) =~= hex_pairs(g.take(n as int)));
            } else {
                let index = data.len();
                let mut k: usize = 0;
                while k < half
                    invariant
                        k <= half,
                        data@ == before_d + zeros(k as nat),
                    decreases half - k,
                {
                    data.push(0);
                    assert(data@ =~= before_d + zeros((k + 1) as nat));
                    k = k + 1;
                }
                masks.push((index, half));
            }
            proof {
                assert(data@.len() == before_d.len() + half);
                assert(masks@ =~= before_m + (if kind { Seq::<(usize, usize)>::empty() } else {
                    seq![(before_d.len() as usize, half)]
                }));
                assert(g.len() > 0);
                let rest = parse_runs(full.skip(j as int), data@.len());
                match rest {
                    Ok((d2, m2)) => {
                        assert(before_d + (data@.skip(before_d.len() as int) + d2) =~= data@ + d2);
                        assert(before_m + ((if kind { Seq::<(usize, usize)>::empty() } else {
                            seq![(before_d.len() as usize, half)]
                        }) + m2) =~= masks@ + m2);
                        if kind {
                            assert(data@.skip(before_d.len() as int) =~= hex_pairs(g.take(n as int)));
                        } else {
                            assert(data@.skip(before_d.len() as int) =~= zeros(half as nat));
                        }
                    },
                    Err(_) => {},
                }
            }
            pos = j;
        }
        assert(full.skip(pos as int).len() == 0);
        assert(data@ + Seq::<u8>::empty() =~= data@);
        assert(masks@ + Seq::<(usize, usize)>::empty() =~= masks@);
        Ok(BinMask { data, masks })
    }

    /// Accept reply data exactly as long as the mask.
    pub fn validate_data(&self, data: &[u8]) -> (r: Result<(), CommandError>)
        ensures
            r matches Ok(_) <==> data@.len() == self.data@.len(),
            r matches Err(e) ==> e == CommandError::InvalidMask,
    {
        if data.len() != self.data.len() {
            return Err(CommandError::InvalidMask);
        }
        Ok(())
    }

    /// The `length` bytes of `data` from `start`, if they lie inside it.
    pub fn extract_value<'a>(&self, data: &'a [u8], start: usize, length: usize) -> (r: Result<&'a [u8], CommandError>)
        requires
            start + length <= usize::MAX,
        ensures
            match r {
                Ok(v) => start + length <= data@.len() && v@ == data@.subrange(start as int, start + length),
                Err(e) => start + length > data@.len() && e == CommandError::InvalidMask,
            },
    {
        if start + length > data.len() {
            return Err(CommandError::InvalidMask);
        }
        Ok(vstd::slice::slice_subrange(data, start, start + length))
    }
}


/// Placeholder regions end within the address space.
pub open spec fn masks_bounded(masks: Seq<(usize, usize)>) -> bool {
    forall|k: int| 0 <= k < masks.len() ==> #[trigger] masks[k].0 + masks[k].1 <= usize::MAX
}

impl BinMask {
    /// Check parameter regions, given as (index, length) in the order of the
    /// parameters' names, against the placeholders: parameters must not
    /// overlap, each must lie within one placeholder region, and every
    /// placeholder byte must belong to a parameter.
    pub fn validate_params(&self, params: &[(u32, u32)]) -> (r: Result<(), CommandError>)
        requires
            masks_bounded(self.masks@),
        ensures
            r == spec_validate_params(self.masks@, params@),
    {
        let n = params.len();
        if n == 0 {
            return Ok(());
        }
        let mut i: usize = 0;
        while i < n
            invariant
                n == params@.len(),
                i <= n,
                forall|a: int, b: int|
                    #![trigger params@[a], params@[b]]
                    0 <= a < i && 0 <= b < n && a != b && sorted_before(params@, a, b) ==> params@[a].0
                        + params@[a].1 <= params@[b].0,
            decreases n - i,
        {
            let mut j: usize = 0;
            while j < n
                invariant
                    n == params@.len(),
                    i < n,
                    j <= n,
                    forall|a: int, b: int|
                        #![trigger params@[a], params@[b]]
                        0 <= a < i && 0 <= b < n && a != b && sorted_before(params@, a, b)
                            ==> params@[a].0 + params@[a].1 <= params@[b].0,
                    forall|b: int|
                        #![trigger params@[b]]
                        0 <= b < j && i != b && sorted_before(params@, i as int, b) ==> params@[i as int].0
                            + params@[i as int].1 <= params@[b].0,
                decreases n - j,
            {
                let (s1, l1) = params[i];
                let (s2, _l2) = params[j];
                if i != j && (s1 < s2 || (s1 == s2 && i < j)) && s1 as u64 + l1 as u64 > s2 as u64 {
                    assert(sorted_before(params@, i as int, j as int));
                    return Err(CommandError::OverlappingParams);
                }
                j = j + 1;
            }
            i = i + 1;
        }
        assert(!params_overlap(params@));
        let mut p: usize = 0;
        while p < n
            invariant
                n == params@.len(),
                n > 0,
                !params_overlap(params@),
                p <= n,
                forall|q: int| 0 <= q < p ==> param_covered(self.masks@, #[trigger] params@[q]),
            decreases n - p,
        {
            let (ps, pl) = params[p];
            let mut covered = false;
            let mut k: usize = 0;
            while k < self.masks.len() && !covered
                invariant
                    n == params@.len(),
                    p < n,
                    (ps, pl) == params@[p as int],
                    k <= self.masks@.len(),
                    covered ==> param_covered(self.masks@, params@[p as int]),
                    !covered ==> forall|k2: int|
                        0 <= k2 < k ==> !mask_covers(#[trigger] self.masks@[k2], params@[p as int]),
                decreases self.masks@.len() - k + (if covered { 0int } else { 1int }),
            {
                let (ms, ml) = self.masks[k];
                if ms as u128 <= ps as u128 && ms as u128 + ml as u128 >= ps as u128 + pl as u128 {
                    assert(mask_covers(self.masks@[k as int], params@[p as int]));
                    covered = true;
                } else {
                    k = k + 1;
                }
            }
            if !covered {
                assert(!param_covered(self.masks@, params@[p as int]));
                assert(param_uncovered(self.masks@, params@));
                return Err(CommandError::UncoveredParam);
            }
            p = p + 1;
        }
        assert(!param_uncovered(self.masks@, params@));
        let mut k: usize = 0;
        while k < self.masks.len()
            invariant
                n == params@.len(),
                n > 0,
                !params_overlap(params@),
                !param_uncovered(self.masks@, params@),
                masks_bounded(self.masks@),
                k <= self.masks@.len(),
                forall|k2: int, x: int|
                    #![trigger self.masks@[k2], byte_in_param(params@, x)]
                    0 <= k2 < k && self.masks@[k2].0 <= x < self.masks@[k2].0 + self.masks@[k2].1
                        ==> byte_in_param(params@, x),
            decreases self.masks@.len() - k,
        {
            let (ms, ml) = self.masks[k];
            assert(self.masks@[k as int].0 + self.masks@[k as int].1 <= usize::MAX);
            let mut x: usize = ms;
            while x < ms + ml
                invariant
                    n == params@.len(),
                    n > 0,
                    !params_overlap(params@),
                    !param_uncovered(self.masks@, params@),
                    k < self.masks@.len(),
                    (ms, ml) == self.masks@[k as int],
                    ms + ml <= usize::MAX,
                    ms <= x <= ms + ml,
                    forall|y: int| ms <= y < x ==> #[trigger] byte_in_param(params@, y),
                decreases ms + ml - x,
            {
                let mut found = false;
                let mut q: usize = 0;
                while q < n && !found
                    invariant
                        n == params@.len(),
                        q <= n,
                        found ==> byte_in_param(params@, x as int),
                        !found ==> forall|q2: int|
                            0 <= q2 < q ==> !(#[trigger] params@[q2].0 <= x < params@[q2].0
                                + params@[q2].1),
                    decreases n - q + (if found { 0int } else { 1int }),
                {
                    let (ps, pl) = params[q];
                    if (ps as u64) <= (x as u64) && (x as u64) < ps as u64 + pl as u64 {
                        assert(params@[q as int].0 <= x < params@[q as int].0 + params@[q as int].1);
                        found = true;
                    } else {
                        q = q + 1;
                    }
                }
                if !found {
                    assert(!byte_in_param(params@, x as int));
                    assert(mask_uncovered(self.masks@, params@));
                    return Err(CommandError::UncoveredMask);
                }
                x = x + 1;
            }
            k = k + 1;
        }
        assert(!mask_uncovered(self.masks@, params@));
        Ok(())
    }
}

/// A byte as two upper-case hexadecimal digits.
pub open spec fn byte_digits(b: u8) -> Seq<char> {
    seq![hex_digit((b / 16) as nat), hex_digit((b % 16) as nat)]
}

/// `n` question marks.
pub open spec fn question_marks(n: nat) -> Seq<char> {
    Seq::new(n, |_i: int| '?')
}

/// How a mask is written from byte `i` on, with `masks` the placeholder
/// regions not yet reached: a region's first byte is written as two question
/// marks per placeholder byte; every other byte as two hexadecimal digits,
/// after a dot unless it is the first byte.
pub open spec fn mask_text_from(data: Seq<u8>, masks: Seq<(usize, usize)>, i: nat) -> Seq<char>
    decreases data.len() - i,
{
    if i >= data.len() {
        Seq::empty()
    } else if masks.len() > 0 && masks[0].0 == i {
        question_marks(2 * masks[0].1 as nat) + mask_text_from(data, masks.drop_first(), i + 1)
    } else {
        (if i > 0 { seq!['.'] } else { Seq::empty() }) + byte_digits(data[i as int]) + mask_text_from(data, masks, i + 1)
    }
}

fn hex_digit_char(d: u8) -> (c: char)
    requires
        d < 16,
    ensures
        c == hex_digit(d as nat),
{
    if d < 10 {
        (48 + d) as char
    } else {
        (55 + d) as char
    }
}

impl BinMask {
    /// The mask written out, as `String::from(&mask)` writes it.
    pub fn to_text(&self) -> (s: String)
        requires
            forall|j: int| 0 <= j < self.masks@.len() ==> 2 * (#[trigger] self.masks@[j]).1 <= usize::MAX,
        ensures
            s@ == mask_text_from(self.data@, self.masks@, 0),
    {
        let mut out: Vec<char> = Vec::new();
        let mut k: usize = 0;
        let mut i: usize = 0;
        assert(self.masks@.skip(0) =~= self.masks@);
        while i < self.data.len()
            invariant
                i <= self.data@.len(),
                k <= self.masks@.len(),
                forall|j: int| 0 <= j < self.masks@.len() ==> 2 * (#[trigger] self.masks@[j]).1 <= usize::MAX,
                out@ + mask_text_from(self.data@, self.masks@.skip(k as int), i as nat)
                    == mask_text_from(self.data@, self.masks@, 0),
            decreases self.data@.len() - i,
        {
            let ghost before = out@;
            if k < self.masks.len() && self.masks[k].0 == i {
                assert(self.masks@.skip(k as int)[0] == self.masks@[k as int]);
                assert(self.masks@.skip(k as int).drop_first() =~= self.masks@.skip(k + 1));
                let n = 2 * self.masks[k].1;
                let mut q: usize = 0;
                while q < n
                    invariant
                        q <= n,
                        out@ == before + question_marks(q as nat),
                    decreases n - q,
                {
                    out.push('?');
                    assert(out@ =~= before + question_marks((q + 1) as nat));
                    q = q + 1;
                }
                k = k + 1;
            } else {
                assert(k < self.masks@.len() ==> self.masks@.skip(k as int)[0] == self.masks@[k as int]);
                if i > 0 {
                    out.push('.');
                }
                let b = self.data[i];
                out.push(hex_digit_char(b / 16));
                out.push(hex_digit_char(b % 16));
                assert(out@ =~= before + (if i > 0 { seq!['.'] } else { Seq::<char>::empty() }) + byte_digits(b));
            }
            i = i + 1;
        }
        assert(out@ + Seq::<char>::empty() =~= out@);
        string_from_chars(out.as_slice())
    }
}

/// The shape of the regions parsed from runs starting at byte `index`:
/// two characters a byte, each region at least a byte long and inside the
/// data, regions in order with fixed bytes between them, placeholder bytes
/// zero.
pub open spec fn runs_shape(f: Seq<u8>, index: nat, d: Seq<u8>, m: Seq<(usize, usize)>) -> bool {
    &&& 2 * d.len() == f.len()
    &&& forall|k: int| 0 <= k < m.len() ==> (#[trigger] m[k]).1 >= 1 && index <= m[k].0
        && m[k].0 + m[k].1 <= index + d.len()
    &&& forall|k: int| 0 <= k < m.len() - 1 ==> (#[trigger] m[k]).0 + m[k].1 < m[k + 1].0
    &&& forall|k: int, j: int| #![trigger m[k], d[j]]
        0 <= k < m.len() && m[k].0 <= j + index < m[k].0 + m[k].1 ==> d[j] == 0
    &&& (f.len() > 0 && is_hex_digit(f[0])) ==> forall|k: int| 0 <= k < m.len() ==> (#[trigger] m[k]).0 > index
}

proof fn lemma_parse_runs_shape(f: Seq<u8>, index: nat)
    requires
        parse_runs(f, index) is Ok,
        index + f.len() <= usize::MAX,
    ensures
        runs_shape(f, index, parse_runs(f, index)->Ok_0.0, parse_runs(f, index)->Ok_0.1),
    decreases f.len(),
{
    if f.len() > 0 {
        let n = run_len(f);
        lemma_run_len(f);
        let rest = f.skip(n as int);
        let i2 = index + n / 2;
        assert(n % 2 == 0);
        lemma_parse_runs_shape(rest, i2);
        let (d2, m2) = parse_runs(rest, i2)->Ok_0;
        let (d, m) = parse_runs(f, index)->Ok_0;
        let h = n / 2;
        assert(n >= 2);
        if is_hex_digit(f[0]) {
            assert(d == hex_pairs(f.take(n as int)) + d2);
            assert(m == m2);
            assert(2 * d.len() == f.len());
            assert forall|k: int, j: int| #![trigger m[k], d[j]]
                0 <= k < m.len() && m[k].0 <= j + index < m[k].0 + m[k].1 implies d[j] == 0 by {
                assert(m2[k].0 <= (j - h) + i2 < m2[k].0 + m2[k].1);
                assert(d[j] == d2[j - h]);
            }
        } else {
            assert(d == zeros(h) + d2);
            assert(m == seq![(index as usize, h as usize)] + m2);
            assert(2 * d.len() == f.len());
            if m2.len() > 0 {
                assert(n < f.len()) by {
                    if n == f.len() {
                        assert(rest.len() == 0);
                    }
                }
                assert(rest[0] == f[n as int]);
                assert(is_hex_digit(rest[0]));
                assert(m2[0].0 > i2);
            }
            assert forall|k: int| 0 <= k < m.len() implies (#[trigger] m[k]).1 >= 1 && index <= m[k].0
                && m[k].0 + m[k].1 <= index + d.len() by {
                if k > 0 {
                    assert(m[k] == m2[k - 1]);
                }
            }
            assert forall|k: int, j: int| #![trigger m[k], d[j]]
                0 <= k < m.len() && m[k].0 <= j + index < m[k].0 + m[k].1 implies d[j] == 0 by {
                if k > 0 {
                    assert(m[k] == m2[k - 1]);
                    assert(m2[k - 1].0 <= (j - h) + i2 < m2[k - 1].0 + m2[k - 1].1);
                    assert(d[j] == d2[j - h]);
                }
            }
            assert forall|k: int| 0 <= k < m.len() - 1 implies (#[trigger] m[k]).0 + m[k].1 < m[k + 1].0 by {
                if k > 0 {
                    assert(m[k] == m2[k - 1] && m[k + 1] == m2[k]);
                } else {
                    assert(m[1] == m2[0]);
                }
            }
        }
    }
}

/// Whether byte `p` lies in one of the placeholder regions `m`.
pub open spec fn in_region(m: Seq<(usize, usize)>, p: int) -> bool {
    exists|k: int| 0 <= k < m.len() && (#[trigger] m[k]).0 <= p < m[k].0 + m[k].1
}

/// The bytes of `d` outside the regions `m`, in order, `d` starting at byte
/// `index`.
pub open spec fn unmasked(d: Seq<u8>, m: Seq<(usize, usize)>, index: int) -> Seq<u8>
    decreases d.len(),
{
    if d.len() == 0 {
        Seq::empty()
    } else {
        (if in_region(m, index) { Seq::empty() } else { seq![d[0]] }) + unmasked(d.drop_first(), m, index + 1)
    }
}

/// The hexadecimal digits of `f`, in order.
pub open spec fn hex_digits(f: Seq<u8>) -> Seq<u8>
    decreases f.len(),
{
    if f.len() == 0 {
        Seq::empty()
    } else {
        (if is_hex_digit(f[0]) { seq![f[0]] } else { Seq::empty() }) + hex_digits(f.drop_first())
    }
}

proof fn lemma_unmasked_concat(a: Seq<u8>, b: Seq<u8>, m: Seq<(usize, usize)>, index: int)
    ensures
        unmasked(a + b, m, index) == unmasked(a, m, index) + unmasked(b, m, index + a.len()),
    decreases a.len(),
{
    if a.len() == 0 {
        assert(a + b =~= b);
        assert(unmasked(a, m, index) + unmasked(b, m, index) =~= unmasked(b, m, index));
    } else {
        assert((a + b).drop_first() =~= a.drop_first() + b);
        assert((a + b)[0] == a[0]);
        lemma_unmasked_concat(a.drop_first(), b, m, index + 1);
        let h: Seq<u8> = if in_region(m, index) { Seq::empty() } else { seq![a[0]] };
        assert(h + (unmasked(a.drop_first(), m, index + 1) + unmasked(b, m, index + a.len()))
            =~= (h + unmasked(a.drop_first(), m, index + 1)) + unmasked(b, m, index + a.len()));
    }
}

/// Bytes that no region covers are all kept; bytes that regions cover all
/// go.
proof fn lemma_unmasked_run(a: Seq<u8>, m: Seq<(usize, usize)>, index: int, covered: bool)
    requires
        forall|p: int| index <= p < index + a.len() ==> #[trigger] in_region(m, p) == covered,
    ensures
        unmasked(a, m, index) == if covered { Seq::<u8>::empty() } else { a },
    decreases a.len(),
{
    if a.len() > 0 {
        assert(in_region(m, index) == covered);
        lemma_unmasked_run(a.drop_first(), m, index + 1, covered);
        if !covered {
            assert(seq![a[0]] + a.drop_first() =~= a);
        } else {
            assert(Seq::<u8>::empty() + Seq::<u8>::empty() =~= Seq::<u8>::empty());
        }
    }
}

/// Only what the regions say of the bytes of `b` matters.
proof fn lemma_unmasked_regions(b: Seq<u8>, m: Seq<(usize, usize)>, m2: Seq<(usize, usize)>, index: int)
    requires
        forall|p: int| index <= p < index + b.len() ==> #[trigger] in_region(m, p) == in_region(m2, p),
    ensures
        unmasked(b, m, index) == unmasked(b, m2, index),
    decreases b.len(),
{
    if b.len() > 0 {
        assert(in_region(m, index) == in_region(m2, index));
        lemma_unmasked_regions(b.drop_first(), m, m2, index + 1);
    }
}

proof fn lemma_hex_digits_concat(a: Seq<u8>, b: Seq<u8>)
    ensures
        hex_digits(a + b) == hex_digits(a) + hex_digits(b),
    decreases a.len(),
{
    if a.len() == 0 {
        assert(a + b =~= b);
        assert(hex_digits(a) + hex_digits(b) =~= hex_digits(b));
    } else {
        assert((a + b).drop_first() =~= a.drop_first() + b);
        assert((a + b)[0] == a[0]);
        lemma_hex_digits_concat(a.drop_first(), b);
        let h: Seq<u8> = if is_hex_digit(a[0]) { seq![a[0]] } else { Seq::empty() };
        assert(h + (hex_digits(a.drop_first()) + hex_digits(b)) =~= (h + hex_digits(a.drop_first())) + hex_digits(b));
    }
}

/// A run of characters of one kind keeps all of itself or nothing.
proof fn lemma_hex_digits_run(a: Seq<u8>, hex: bool)
    requires
        forall|k: int| 0 <= k < a.len() ==> is_hex_digit(#[trigger] a[k]) == hex,
    ensures
        hex_digits(a) == if hex { a } else { Seq::<u8>::empty() },
    decreases a.len(),
{
    if a.len() > 0 {
        assert(is_hex_digit(a[0]) == hex);
        assert forall|k: int| 0 <= k < a.drop_first().len() implies is_hex_digit(#[trigger] a.drop_first()[k]) == hex by {
            assert(a.drop_first()[k] == a[k + 1]);
        }
        lemma_hex_digits_run(a.drop_first(), hex);
        if hex {
            assert(seq![a[0]] + a.drop_first() =~= a);
        } else {
            assert(Seq::<u8>::empty() + Seq::<u8>::empty() =~= Seq::<u8>::empty());
        }
    }
}

proof fn lemma_hex_pairs_concat(a: Seq<u8>, b: Seq<u8>)
    requires
        a.len() % 2 == 0,
    ensures
        hex_pairs(a + b) == hex_pairs(a) + hex_pairs(b),
{
    let h = a.len() / 2;
    assert((a.len() + b.len()) / 2 == h + b.len() / 2);
    assert forall|i: int| 0 <= i < hex_pairs(a + b).len() implies #[trigger] hex_pairs(a + b)[i] == (hex_pairs(a)
        + hex_pairs(b))[i] by {
        if i < h {
            assert((a + b)[2 * i] == a[2 * i]);
            assert((a + b)[2 * i + 1] == a[2 * i + 1]);
        } else {
            assert((a + b)[2 * i] == b[2 * (i - h)]);
            assert((a + b)[2 * i + 1] == b[2 * (i - h) + 1]);
        }
    }
    assert(hex_pairs(a + b) =~= hex_pairs(a) + hex_pairs(b));
}

proof fn lemma_parse_runs_data(f: Seq<u8>, index: nat)
    requires
        parse_runs(f, index) is Ok,
        index + f.len() <= usize::MAX,
    ensures
        unmasked(parse_runs(f, index)->Ok_0.0, parse_runs(f, index)->Ok_0.1, index as int) == hex_pairs(
            hex_digits(f),
        ),
    decreases f.len(),
{
    lemma_parse_runs_shape(f, index);
    if f.len() == 0 {
        assert(hex_pairs(hex_digits(f)) =~= Seq::<u8>::empty());
    } else {
        let n = run_len(f);
        lemma_run_len(f);
        let run = f.take(n as int);
        let rest = f.skip(n as int);
        let i2 = index + n / 2;
        assert(n % 2 == 0);
        lemma_parse_runs_data(rest, i2);
        lemma_parse_runs_shape(rest, i2);
        let (d2, m2) = parse_runs(rest, i2)->Ok_0;
        let (d, m) = parse_runs(f, index)->Ok_0;
        let h = n / 2;
        assert(f =~= run + rest);
        lemma_hex_digits_concat(run, rest);
        assert forall|k: int| 0 <= k < run.len() implies is_hex_digit(#[trigger] run[k]) == is_hex_digit(f[0]) by {
            assert(run[k] == f[k]);
        }
        lemma_hex_digits_run(run, is_hex_digit(f[0]));
        if is_hex_digit(f[0]) {
            let hp = hex_pairs(run);
            assert(d == hp + d2);
            assert(m == m2);
            lemma_unmasked_concat(hp, d2, m, index as int);
            assert forall|p: int| index <= p < index + hp.len() implies #[trigger] in_region(m, p) == false by {
                if in_region(m, p) {
                    let k = choose|k: int| 0 <= k < m.len() && (#[trigger] m[k]).0 <= p < m[k].0 + m[k].1;
                    assert(m2[k].0 >= i2);
                }
            }
            lemma_unmasked_run(hp, m, index as int, false);
            lemma_hex_pairs_concat(run, hex_digits(rest));
        } else {
            let z = zeros(h);
            let r0 = (index as usize, h as usize);
            assert(d == z + d2);
            assert(m == seq![r0] + m2);
            lemma_unmasked_concat(z, d2, m, index as int);
            assert forall|p: int| index <= p < index + z.len() implies #[trigger] in_region(m, p) == true by {
                assert(m[0] == r0);
            }
            lemma_unmasked_run(z, m, index as int, true);
            assert forall|p: int| i2 <= p < i2 + d2.len() implies #[trigger] in_region(m, p) == in_region(m2, p) by {
                if in_region(m, p) {
                    let k = choose|k: int| 0 <= k < m.len() && (#[trigger] m[k]).0 <= p < m[k].0 + m[k].1;
                    if k > 0 {
                        assert(m[k] == m2[k - 1]);
                    }
                }
                if in_region(m2, p) {
                    let k = choose|k: int| 0 <= k < m2.len() && (#[trigger] m2[k]).0 <= p < m2[k].0 + m2[k].1;
                    assert(m[k + 1] == m2[k]);
                }
            }
            lemma_unmasked_regions(d2, m, m2, i2 as int);
            assert(Seq::<u8>::empty() + hex_digits(rest) =~= hex_digits(rest));
            assert(Seq::<u8>::empty() + unmasked(d2, m2, i2 as int) =~= unmasked(d2, m2, i2 as int));
        }
    }
}

/// What a mask text parses to: two characters other than dots make each
/// byte; each placeholder region is at least a byte long and lies inside
/// the data; the regions come in order with fixed bytes between them;
/// placeholder bytes are zero; and the bytes outside the regions are the
/// pairs of hexadecimal digits of the text, in order.
pub proof fn lemma_mask_shape(s: Seq<u8>)
    requires
        spec_parse_mask(s) is Ok,
        s.len() <= usize::MAX,
    ensures
        runs_shape(without_dots(s), 0, spec_parse_mask(s)->Ok_0.0, spec_parse_mask(s)->Ok_0.1),
        unmasked(spec_parse_mask(s)->Ok_0.0, spec_parse_mask(s)->Ok_0.1, 0) == hex_pairs(hex_digits(s)),
{
    lemma_without_dots_len(s);
    lemma_parse_runs_shape(without_dots(s), 0);
    lemma_parse_runs_data(without_dots(s), 0);
    lemma_hex_digits_without_dots(s);
}

/// Leaving the dots out keeps the hexadecimal digits.
proof fn lemma_hex_digits_without_dots(s: Seq<u8>)
    ensures
        hex_digits(without_dots(s)) == hex_digits(s),
    decreases s.len(),
{
    if s.len() > 0 {
        lemma_hex_digits_without_dots(s.drop_last());
        assert(s =~= s.drop_last() + seq![s.last()]);
        lemma_hex_digits_concat(s.drop_last(), seq![s.last()]);
        if s.last() != 46 {
            lemma_hex_digits_concat(without_dots(s.drop_last()), seq![s.last()]);
            assert(without_dots(s) =~= without_dots(s.drop_last()) + seq![s.last()]);
        } else {
            let t = seq![s.last()];
            assert(t[0] == 46);
            assert(t.drop_first() =~= Seq::<u8>::empty());
            assert(hex_digits(t.drop_first()) =~= Seq::<u8>::empty());
            assert(hex_digits(t) =~= Seq::<u8>::empty());
            assert(hex_digits(s.drop_last()) + Seq::<u8>::empty() =~= hex_digits(s.drop_last()));
        }
    }
}

pub proof fn lemma_without_dots_len(s: Seq<u8>)
    ensures
        without_dots(s).len() <= s.len(),
    decreases s.len(),
{
    if s.len() > 0 {
        lemma_without_dots_len(s.drop_last());
    }
}

/// What checking a command decides: its parameters against the command
/// mask, its return values against the response mask, and no return values
/// without a response.
pub open spec fn spec_validate_command(
    command: Seq<(usize, usize)>,
    params: Seq<(u32, u32)>,
    response: Option<Seq<(usize, usize)>>,
    results: Seq<(u32, u32)>,
) -> Result<(), CommandError> {
    match spec_validate_params(command, params) {
        Err(e) => Err(e),
        Ok(()) => match response {
            Some(rm) => spec_validate_params(rm, results),
            None => if results.len() > 0 {
                Err(CommandError::ReturnValuesWithoutResponse)
            } else {
                Ok(())
            },
        },
    }
}

/// Check a command: the regions (index, length) of its parameters against
/// its command mask, those of its return values against its response mask,
/// and that it has no return values when it has no response.
pub fn validate_command(
    command: &BinMask,
    params: &[(u32, u32)],
    response: &Option<BinMask>,
    results: &[(u32, u32)],
) -> (r: Result<(), CommandError>)
    requires
        masks_bounded(command.masks@),
        response matches Some(m) ==> masks_bounded(m.masks@),
    ensures
        r == spec_validate_command(
            command.masks@,
            params@,
            match response {
                Some(m) => Some(m.masks@),
                None => None,
            },
            results@,
        ),
{
    match command.validate_params(params) {
        Err(e) => return Err(e),
        Ok(()) => {},
    }
    match response {
        Some(m) => m.validate_params(results),
        None => if results.len() > 0 {
            Err(CommandError::ReturnValuesWithoutResponse)
        } else {
            Ok(())
        },
    }
}

} // verus!
