//! Fixed-point signed decimals.
//!
//! An amount is `(-1)^negative * mantissa / 10^scale` with the mantissa
//! below `2^96` and at most [`MAX_SCALE`] fractional digits, mirroring
//! the range of the common 96-bit decimal representation. Zero is
//! canonical: a well-formed zero is never negative.

use vstd::prelude::*;

verus! {

/// Largest number of fractional digits a [`Decimal`] may carry.
pub const MAX_SCALE: u32 = 28;

/// Exclusive upper bound of a [`Decimal`] mantissa (`2^96`).
pub const MANTISSA_LIMIT: u128 = 0x1_0000_0000_0000_0000_0000_0000;

/// Largest count of digits the parser accepts in one number. Any
/// mantissa below `2^96` fits in 29 digits, so this cap loses nothing
/// but pathological runs of leading zeros, and it keeps every
/// accumulation inside `u128`.
pub const MAX_DIGITS: usize = 36;

/// A fixed-point signed decimal: the value `(-1)^negative * mantissa / 10^scale`.
#[derive(Clone, Copy, Debug, PartialEq, Eq, Structural)]
pub struct Decimal {
    pub negative: bool,
    pub mantissa: u128,
    pub scale: u32,
}

/// `10^e`.
pub open spec fn pow10(e: nat) -> nat
    decreases e,
{
    if e == 0 {
        1
    } else {
        10 * pow10((e - 1) as nat)
    }
}

pub proof fn lemma_pow10_pos(e: nat)
    ensures
        pow10(e) >= 1,
    decreases e,
{
    if e > 0 {
        lemma_pow10_pos((e - 1) as nat);
    }
}

pub proof fn lemma_pow10_monotone(a: nat, b: nat)
    requires
        a <= b,
    ensures
        pow10(a) <= pow10(b),
        pow10(a) >= 1,
    decreases b,
{
    lemma_pow10_pos(a);
    if a < b {
        lemma_pow10_monotone(a, (b - 1) as nat);
    }
}

pub proof fn lemma_pow10_adds(a: nat, b: nat)
    ensures
        pow10(a + b) == pow10(a) * pow10(b),
    decreases a,
{
    if a == 0 {
        assert(pow10(0) == 1);
        assert(a + b == b);
        assert(pow10(a + b) == pow10(a) * pow10(b));
    } else {
        lemma_pow10_adds((a - 1) as nat, b);
        let x = pow10((a - 1) as nat);
        let y = pow10(b);
        assert(pow10((a - 1) as nat + b) == x * y);
        assert(((a + b) - 1) as nat == (a - 1) as nat + b);
        assert(pow10(a + b) == 10 * (x * y));
        assert(10 * (x * y) == (10 * x) * y) by (nonlinear_arith);
        assert(pow10(a) == 10 * x);
        assert(pow10(a) * pow10(b) == (10 * x) * y);
        assert(pow10(a + b) == pow10(a) * pow10(b));
    }
}

pub proof fn lemma_pow10_36_fits()
    ensures
        pow10(36) < u128::MAX,
{
    assert(pow10(36) == 1000000000000000000000000000000000000nat) by {
        reveal_with_fuel(pow10, 37);
    }
}

/// ASCII digit.
pub open spec fn is_digit(b: u8) -> bool {
    48 <= b && b <= 57
}

pub open spec fn all_digits(s: Seq<u8>) -> bool {
    forall|i: int| 0 <= i < s.len() ==> is_digit(#[trigger] s[i])
}

/// The integer a run of ASCII digits denotes, most significant first.
pub open spec fn digits_val(s: Seq<u8>) -> int
    decreases s.len(),
{
    if s.len() == 0 {
        0
    } else {
        digits_val(s.drop_last()) * 10 + s.last() - 48
    }
}

pub proof fn lemma_digits_val_bounds(s: Seq<u8>)
    requires
        all_digits(s),
    ensures
        0 <= digits_val(s) < pow10(s.len() as nat),
    decreases s.len(),
{
    if s.len() > 0 {
        assert(all_digits(s.drop_last()));
        lemma_digits_val_bounds(s.drop_last());
        assert(is_digit(s.last()));
        assert(digits_val(s.drop_last()) * 10 <= (pow10((s.len() - 1) as nat) - 1) * 10)
            by (nonlinear_arith)
            requires
                digits_val(s.drop_last()) <= pow10((s.len() - 1) as nat) - 1,
        ;
    }
}

/// Index of the first occurrence of `b` in `s`, or `-1`.
pub open spec fn find_byte(s: Seq<u8>, b: u8) -> int
    decreases s.len(),
{
    if s.len() == 0 {
        -1
    } else if s[0] == b {
        0
    } else if find_byte(s.skip(1), b) < 0 {
        -1
    } else {
        find_byte(s.skip(1), b) + 1
    }
}

pub proof fn lemma_find_byte(s: Seq<u8>, b: u8)
    ensures
        find_byte(s, b) < 0 ==> forall|i: int| 0 <= i < s.len() ==> s[i] != b,
        find_byte(s, b) >= 0 ==> find_byte(s, b) < s.len() && s[find_byte(s, b)] == b
            && forall|i: int| 0 <= i < find_byte(s, b) ==> s[i] != b,
    decreases s.len(),
{
    if s.len() > 0 && s[0] != b {
        lemma_find_byte(s.skip(1), b);
        assert forall|i: int| 1 <= i < s.len() implies s.skip(1)[i - 1] == s[i] by {}
    }
}

/// `find_byte` is pinned by any witness of a first occurrence.
pub proof fn lemma_find_byte_at(s: Seq<u8>, b: u8, i: int)
    requires
        0 <= i < s.len(),
        s[i] == b,
        forall|j: int| 0 <= j < i ==> s[j] != b,
    ensures
        find_byte(s, b) == i,
{
    lemma_find_byte(s, b);
    let r = find_byte(s, b);
    if r < 0 {
        assert(s[i] != b);
    } else if r < i {
        assert(s[r] != b);
    } else if r > i {
        assert(s[i] != b);
    }
}

/// Builds the decimal once sign, mantissa value and scale are known;
/// rejects a mantissa at or above `2^96` and keeps zero non-negative.
pub open spec fn mk_decimal(neg: bool, m: int, scale: int) -> Option<Decimal> {
    if m < MANTISSA_LIMIT {
        Some(Decimal { negative: neg && m > 0, mantissa: m as u128, scale: scale as u32 })
    } else {
        None
    }
}

/// Grammar of the digits after an optional leading minus sign:
/// `digit+` or `digit+ '.' digit+`, at most [`MAX_DIGITS`] digits in
/// all, at most [`MAX_SCALE`] of them fractional.
pub open spec fn spec_parse_unsigned(t: Seq<u8>, neg: bool) -> Option<Decimal> {
    let dot = find_byte(t, 46u8);
    if dot < 0 {
        if t.len() > 0 && t.len() <= MAX_DIGITS && all_digits(t) {
            mk_decimal(neg, digits_val(t), 0)
        } else {
            None
        }
    } else {
        let ip = t.take(dot);
        let fp = t.skip(dot + 1);
        if ip.len() > 0 && fp.len() > 0 && ip.len() + fp.len() <= MAX_DIGITS
            && fp.len() <= MAX_SCALE && all_digits(ip) && all_digits(fp) {
            mk_decimal(neg, digits_val(ip) * pow10(fp.len() as nat) + digits_val(fp), fp.len() as int)
        } else {
            None
        }
    }
}

/// What a decimal literal denotes: `['-'] digit+ ['.' digit+]`.
pub open spec fn spec_parse_decimal(s: Seq<u8>) -> Option<Decimal> {
    if s.len() > 0 && s[0] == 45u8 {
        spec_parse_unsigned(s.skip(1), true)
    } else {
        spec_parse_unsigned(s, false)
    }
}

/// `10^e`, computed executably.
pub fn pow10_u128(e: usize) -> (r: u128)
    requires
        e <= 36,
    ensures
        r == pow10(e as nat),
{
    let mut i: usize = 0;
    let mut acc: u128 = 1;
    while i < e
        invariant
            i <= e,
            e <= 36,
            acc == pow10(i as nat),
        decreases e - i,
    {
        proof {
            lemma_pow10_monotone((i + 1) as nat, 36);
            lemma_pow10_36_fits();
            assert(pow10((i + 1) as nat) == 10 * pow10(i as nat));
        }
        acc = acc * 10;
        i = i + 1;
    }
    acc
}

/// First occurrence of `b` in `s` at or after `lo`, as an offset into
/// `s@.skip(lo)`, matching [`find_byte`] on that suffix.
pub(crate) fn find_byte_from(s: &[u8], lo: usize, b: u8) -> (r: Option<usize>)
    requires
        lo <= s@.len(),
    ensures
        r matches Some(k) ==> k < s@.len() - lo && find_byte(s@.skip(lo as int), b) == k,
        r is None ==> find_byte(s@.skip(lo as int), b) < 0,
{
    let ghost t = s@.skip(lo as int);
    let mut i: usize = lo;
    while i < s.len()
        invariant
            lo <= i <= s@.len(),
            t == s@.skip(lo as int),
            forall|j: int| 0 <= j < i - lo ==> t[j] != b,
        decreases s@.len() - i,
    {
        proof {
            assert(t[i - lo] == s@[i as int]);
        }
        if s[i] == b {
            proof {
                lemma_find_byte_at(t, b, i - lo);
            }
            return Some(i - lo);
        }
        i = i + 1;
    }
    proof {
        lemma_find_byte(t, b);
        if find_byte(t, b) >= 0 {
            assert(t[find_byte(t, b)] == b);
        }
    }
    None
}

/// Parses `s[lo..hi]` as a run of ASCII digits, returning its value;
/// `None` exactly when a non-digit appears in that range.
fn parse_digit_run(s: &[u8], lo: usize, hi: usize) -> (r: Option<u128>)
    requires
        lo <= hi <= s@.len(),
        hi - lo <= 36,
    ensures
        r matches Some(v) ==> all_digits(s@.subrange(lo as int, hi as int))
            && v == digits_val(s@.subrange(lo as int, hi as int)),
        r is None ==> !all_digits(s@.subrange(lo as int, hi as int)),
{
    let ghost full = s@.subrange(lo as int, hi as int);
    let mut i: usize = lo;
    let mut acc: u128 = 0;
    while i < hi
        invariant
            lo <= i <= hi <= s@.len(),
            hi - lo <= 36,
            full == s@.subrange(lo as int, hi as int),
            all_digits(s@.subrange(lo as int, i as int)),
            acc == digits_val(s@.subrange(lo as int, i as int)),
            acc < pow10((i - lo) as nat),
        decreases hi - i,
    {
        let c = s[i];
        if c < 48 || c > 57 {
            proof {
                assert(full[i - lo] == s@[i as int]);
            }
            return None;
        }
        proof {
            lemma_pow10_monotone(((i - lo) + 1) as nat, 36);
            lemma_pow10_36_fits();
            assert(pow10(((i - lo) + 1) as nat) == 10 * pow10((i - lo) as nat));
            assert(acc * 10 + 9 < pow10(((i - lo) + 1) as nat)) by (nonlinear_arith)
                requires
                    acc < pow10((i - lo) as nat),
                    pow10(((i - lo) + 1) as nat) == 10 * pow10((i - lo) as nat),
            ;
        }
        acc = acc * 10 + (c - 48) as u128;
        i = i + 1;
        proof {
            assert(s@.subrange(lo as int, i as int).drop_last() =~= s@.subrange(
                lo as int,
                i - 1,
            ));
            assert(s@.subrange(lo as int, i as int).last() == s@[i - 1]);
            assert(forall|j: int|
                0 <= j < i - lo - 1 ==> s@.subrange(lo as int, i as int)[j] == #[trigger] s@.subrange(
                    lo as int,
                    i - 1,
                )[j]);
        }
    }
    Some(acc)
}

/// Parses a decimal literal, `['-'] digit+ ['.' digit+]`, returning
/// exactly what the grammar [`spec_parse_decimal`] denotes.
#[verifier::rlimit(60)]
pub fn parse_decimal(s: &[u8]) -> (r: Option<Decimal>)
    ensures
        r == spec_parse_decimal(s@),
        r matches Some(d) ==> d.wf(),
{
    let neg: bool = s.len() > 0 && s[0] == 45;
    let lo: usize = if neg {
        1
    } else {
        0
    };
    let ghost t = s@.skip(lo as int);
    proof {
        if !neg {
            assert(t =~= s@);
        }
    }
    let dot = find_byte_from(s, lo, 46);
    match dot {
        None => {
            let n: usize = s.len() - lo;
            if n == 0 || n > 36 {
                return None;
            }
            proof {
                assert(t =~= s@.subrange(lo as int, s@.len() as int));
            }
            match parse_digit_run(s, lo, s.len()) {
                None => None,
                Some(v) => {
                    proof {
                        lemma_digits_val_bounds(t);
                    }
                    if v < MANTISSA_LIMIT {
                        Some(Decimal { negative: neg && v > 0, mantissa: v, scale: 0 })
                    } else {
                        None
                    }
                },
            }
        },
        Some(k) => {
            let ghost ip = t.take(k as int);
            let ghost fp = t.skip(k as int + 1);
            let il: usize = k;
            let fl: usize = s.len() - lo - k - 1;
            if il == 0 || fl == 0 || il + fl > 36 || fl > 28 {
                return None;
            }
            proof {
                assert(ip =~= s@.subrange(lo as int, (lo + k) as int));
                assert(fp =~= s@.subrange((lo + k + 1) as int, s@.len() as int));
            }
            let ipv = match parse_digit_run(s, lo, lo + k) {
                None => {
                    return None;
                },
                Some(v) => v,
            };
            let fpv = match parse_digit_run(s, lo + k + 1, s.len()) {
                None => {
                    return None;
                },
                Some(v) => v,
            };
            proof {
                lemma_digits_val_bounds(ip);
                lemma_digits_val_bounds(fp);
                lemma_pow10_adds(il as nat, fl as nat);
                lemma_pow10_monotone((il + fl) as nat, 36);
                lemma_pow10_36_fits();
                assert(ipv * pow10(fl as nat) <= (pow10(il as nat) - 1) * pow10(fl as nat))
                    by (nonlinear_arith)
                    requires
                        ipv < pow10(il as nat),
                        pow10(fl as nat) >= 1,
                ;
                assert((pow10(il as nat) - 1) * pow10(fl as nat) + pow10(fl as nat) == pow10(
                    il as nat,
                ) * pow10(fl as nat)) by (nonlinear_arith);
            }
            let p = pow10_u128(fl);
            let m = ipv * p + fpv;
            if m < MANTISSA_LIMIT {
                Some(Decimal { negative: neg && m > 0, mantissa: m, scale: fl as u32 })
            } else {
                None
            }
        },
    }
}

/// Whatever the grammar accepts is a well-formed decimal.
pub proof fn lemma_spec_parse_decimal_wf(s: Seq<u8>)
    ensures
        spec_parse_decimal(s) matches Some(d) ==> d.wf(),
{
    let t = if s.len() > 0 && s[0] == 45u8 {
        s.skip(1)
    } else {
        s
    };
    let dot = find_byte(t, 46u8);
    if dot < 0 {
        if t.len() > 0 && t.len() <= MAX_DIGITS && all_digits(t) {
            lemma_digits_val_bounds(t);
        }
    } else {
        let ip = t.take(dot);
        let fp = t.skip(dot + 1);
        if ip.len() > 0 && fp.len() > 0 && ip.len() + fp.len() <= MAX_DIGITS && fp.len()
            <= MAX_SCALE && all_digits(ip) && all_digits(fp) {
            lemma_digits_val_bounds(ip);
            lemma_digits_val_bounds(fp);
            lemma_pow10_pos(fp.len() as nat);
            assert(digits_val(ip) * pow10(fp.len() as nat) >= 0) by (nonlinear_arith)
                requires
                    digits_val(ip) >= 0,
                    pow10(fp.len() as nat) >= 1,
            ;
        }
    }
}

impl Decimal {
    /// Mantissa in range, scale in range, zero never negative.
    pub open spec fn wf(self) -> bool {
        self.mantissa < MANTISSA_LIMIT && self.scale <= MAX_SCALE
            && (self.negative ==> self.mantissa > 0)
    }

    /// Checked constructor: accepts exactly the in-range mantissas and
    /// scales and canonicalizes the sign of zero.
    pub fn new(negative: bool, mantissa: u128, scale: u32) -> (r: Option<Decimal>)
        ensures
            r is Some <==> mantissa < MANTISSA_LIMIT && scale <= MAX_SCALE,
            r matches Some(d) ==> d == (Decimal {
                negative: negative && mantissa > 0,
                mantissa,
                scale,
            }) && d.wf(),
    {
        if mantissa < MANTISSA_LIMIT && scale <= MAX_SCALE {
            Some(Decimal { negative: negative && mantissa > 0, mantissa, scale })
        } else {
            None
        }
    }
}

} // verus!
